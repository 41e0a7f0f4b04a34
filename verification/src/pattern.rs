//! Regular-expression matching (the `regex` crate) on screen lines.
use vstd::prelude::*;

verus! {

/// The capture groups of one match: group 0 is the whole match; a group
/// that did not take part in the match is `None`.
pub type MatchView = Seq<Option<Seq<char>>>;

/// What `regex::Regex::new(pattern)` followed by `captures_iter(haystack)`
/// yields: `None` if the pattern does not compile, else the successive
/// non-overlapping matches, leftmost first, each with all its groups.
pub uninterp spec fn regex_matches(pattern: Seq<char>, haystack: Seq<char>) -> Option<Seq<MatchView>>;

pub open spec fn match_view(m: Vec<Option<String>>) -> MatchView {
    m@.map_values(
        |g: Option<String>|
            match g {
                Some(s) => Some(s@),
                None => None,
            },
    )
}

pub open spec fn matches_view(r: Option<Vec<Vec<Option<String>>>>) -> Option<Seq<MatchView>> {
    match r {
        Some(ms) => Some(ms@.map_values(|m: Vec<Option<String>>| match_view(m))),
        None => None,
    }
}

/// `regex::Regex::new` and `Regex::captures_iter`: compiles `pattern`, then
/// lists every match in `haystack` with the text of each capture group.
/// Both what compiles and what matches are left to the name
/// [`regex_matches`]; `Regex::captures`, the first match alone, is the
/// first element of this list.
#[verifier::external_body]
pub(crate) fn regex_captures_all(pattern: &str, haystack: &str) -> (r: Option<Vec<Vec<Option<String>>>>)
    ensures
        matches_view(r) == regex_matches(pattern@, haystack@),
{
    match regex::Regex::new(pattern) {
        Ok(re) => Some(
            re.captures_iter(haystack).map(
                |caps| caps.iter().map(|g| g.map(|m| m.as_str().to_string())).collect(),
            ).collect(),
        ),
        Err(_) => None,
    }
}

/// All matches of `pattern` in `line`; none when the pattern does not compile.
pub open spec fn all_matches(pattern: Seq<char>, line: Seq<char>) -> Seq<MatchView> {
    match regex_matches(pattern, line) {
        Some(ms) => ms,
        None => Seq::empty(),
    }
}

/// The first (leftmost) match of `pattern` in `line`, as `Regex::captures`
/// gives it.
pub open spec fn first_match(pattern: Seq<char>, line: Seq<char>) -> Option<MatchView> {
    let ms = all_matches(pattern, line);
    if ms.len() > 0 {
        Some(ms[0])
    } else {
        None
    }
}

/// The text of group `i` of a match, if that group took part.
pub open spec fn group(m: MatchView, i: int) -> Option<Seq<char>> {
    if 0 <= i < m.len() {
        m[i]
    } else {
        None
    }
}

/// Every match of `pattern` in `line`.
pub fn find_all(pattern: &str, line: &str) -> (r: Vec<Vec<Option<String>>>)
    ensures
        r@.map_values(|m: Vec<Option<String>>| match_view(m)) == all_matches(pattern@, line@),
{
    match regex_captures_all(pattern, line) {
        Some(ms) => ms,
        None => {
            let v: Vec<Vec<Option<String>>> = Vec::new();
            assert(v@.map_values(|m: Vec<Option<String>>| match_view(m)) =~= Seq::<MatchView>::empty());
            v
        },
    }
}

/// The first match of `pattern` in `line`.
pub fn find_first(pattern: &str, line: &str) -> (r: Option<Vec<Option<String>>>)
    ensures
        match r {
            Some(m) => first_match(pattern@, line@) == Some(match_view(m)),
            None => first_match(pattern@, line@) is None,
        },
{
    let mut ms = find_all(pattern, line);
    if ms.len() > 0 {
        let ghost v = ms@;
        let m = ms.swap_remove(0);
        assert(m == v[0]);
        Some(m)
    } else {
        None
    }
}

/// The characters of group `i` of a match, if that group took part.
pub fn group_chars(m: &Vec<Option<String>>, i: usize) -> (r: Option<Vec<char>>)
    ensures
        match r {
            Some(t) => group(match_view(*m), i as int) == Some(t@),
            None => group(match_view(*m), i as int) is None,
        },
{
    if i < m.len() {
        match &m[i] {
            Some(s) => Some(crate::text::chars_of(s.as_str())),
            None => None,
        }
    } else {
        None
    }
}

} // verus!
