//! Character-level helpers on strings.
use vstd::prelude::*;

verus! {

broadcast use vstd::string::group_string_axioms;

/// `String::push`: appends one character to the end of the string.
#[verifier::external_body]
pub(crate) fn string_push(s: &mut String, c: char)
    ensures
        final(s)@ == old(s)@.push(c),
{
    s.push(c);
}

/// The characters of a string.
pub fn chars_of(s: &str) -> (v: Vec<char>)
    ensures
        v@ == s@,
{
    let mut v: Vec<char> = Vec::new();
    for c in it: s.chars()
        invariant
            it.seq() == s@,
            v@ == it.seq().take(it.index()),
    {
        v.push(c);
        assert(it.seq().take(it.index() + 1) =~= v@);
    }
    assert(s@.take(s@.len() as int) =~= s@);
    v
}

} // verus!

verus! {

/// Unicode `White_Space`, the property that `char::is_whitespace` and
/// `str::trim` go by.
pub open spec fn is_white_space(c: char) -> bool {
    let u = c as u32;
    ||| 0x09 <= u <= 0x0D
    ||| u == 0x20
    ||| u == 0x85
    ||| u == 0xA0
    ||| u == 0x1680
    ||| 0x2000 <= u <= 0x200A
    ||| u == 0x2028
    ||| u == 0x2029
    ||| u == 0x202F
    ||| u == 0x205F
    ||| u == 0x3000
}

pub fn white_space(c: char) -> (b: bool)
    ensures
        b == is_white_space(c),
{
    let u = c as u32;
    (0x09 <= u && u <= 0x0D) || u == 0x20 || u == 0x85 || u == 0xA0 || u == 0x1680 || (0x2000 <= u
        && u <= 0x200A) || u == 0x2028 || u == 0x2029 || u == 0x202F || u == 0x205F || u == 0x3000
}

/// `s` without its leading white space.
pub open spec fn trim_start(s: Seq<char>) -> Seq<char>
    decreases s.len(),
{
    if s.len() > 0 && is_white_space(s[0]) {
        trim_start(s.drop_first())
    } else {
        s
    }
}

/// `s` without its trailing white space.
pub open spec fn trim_end(s: Seq<char>) -> Seq<char>
    decreases s.len(),
{
    if s.len() > 0 && is_white_space(s.last()) {
        trim_end(s.drop_last())
    } else {
        s
    }
}

/// `s` without leading and trailing white space (`str::trim`).
pub open spec fn trim(s: Seq<char>) -> Seq<char> {
    trim_end(trim_start(s))
}

/// Index of the first character of `s` that is not white space, or its
/// length.
fn skip_white_space(s: &Vec<char>, from: usize) -> (i: usize)
    requires
        from <= s@.len(),
    ensures
        from <= i <= s@.len(),
        trim_start(s@.subrange(from as int, s@.len() as int)) == s@.subrange(i as int, s@.len() as int),
        i < s@.len() ==> !is_white_space(s@[i as int]),
{
    let mut i = from;
    while i < s.len() && white_space(s[i])
        invariant
            from <= i <= s@.len(),
            trim_start(s@.subrange(from as int, s@.len() as int)) == trim_start(
                s@.subrange(i as int, s@.len() as int),
            ),
        decreases s@.len() - i,
    {
        assert(s@.subrange(i as int, s@.len() as int).drop_first() =~= s@.subrange(
            i + 1,
            s@.len() as int,
        ));
        i = i + 1;
    }
    proof {
        let t = s@.subrange(i as int, s@.len() as int);
        if i < s@.len() {
            assert(t[0] == s@[i as int]);
        }
    }
    i
}

/// The characters of `s` in `lo..hi` as a string.
pub(crate) fn string_of(s: &Vec<char>, lo: usize, hi: usize) -> (r: String)
    requires
        lo <= hi <= s@.len(),
    ensures
        r@ == s@.subrange(lo as int, hi as int),
        lo == 0 && hi == s@.len() ==> r@ == s@,
{
    assert(s@.subrange(0, s@.len() as int) =~= s@);
    let mut r = String::new();
    for k in lo..hi
        invariant
            hi <= s@.len(),
            r@ == s@.subrange(lo as int, k as int),
    {
        string_push(&mut r, s[k]);
        assert(r@ =~= s@.subrange(lo as int, k + 1));
    }
    r
}

/// Whether the characters `v` spell `s`.
pub(crate) fn same_text(v: &Vec<char>, s: &str) -> (b: bool)
    ensures
        b == (v@ == s@),
{
    let w = chars_of(s);
    if v.len() != w.len() {
        return false;
    }
    for k in 0..v.len()
        invariant
            w@ == s@,
            v@.len() == w@.len(),
            forall|j: int| 0 <= j < k ==> v@[j] == w@[j],
    {
        if v[k] != w[k] {
            return false;
        }
    }
    assert(v@ =~= w@);
    true
}

/// `str::trim`: the string without leading and trailing white space.
pub fn trim_str(s: &str) -> (r: String)
    ensures
        r@ == trim(s@),
{
    let v = chars_of(s);
    let lo = skip_white_space(&v, 0);
    assert(v@.subrange(0, v@.len() as int) =~= v@);
    let ghost t = v@.subrange(lo as int, v@.len() as int);
    let mut hi = v.len();
    while hi > lo && white_space(v[hi - 1])
        invariant
            lo <= hi <= v@.len(),
            t == v@.subrange(lo as int, v@.len() as int),
            trim_end(t) == trim_end(v@.subrange(lo as int, hi as int)),
        decreases hi,
    {
        assert(v@.subrange(lo as int, hi as int).drop_last() =~= v@.subrange(lo as int, hi - 1));
        hi = hi - 1;
    }
    proof {
        let u = v@.subrange(lo as int, hi as int);
        if hi > lo {
            assert(u.last() == v@[hi - 1]);
        }
        assert(trim_end(u) == u);
    }
    string_of(&v, lo, hi)
}

/// The first white-space separated word of `s` and what follows it, as
/// `str::split_whitespace` hands them out one after the other; `None` when
/// `s` holds only white space.
pub open spec fn first_word(s: Seq<char>) -> Option<(Seq<char>, Seq<char>)> {
    let t = trim_start(s);
    if t.len() == 0 {
        None
    } else {
        let n = word_len(t);
        Some((t.take(n), t.skip(n)))
    }
}

/// Length of the longest prefix of `s` without white space.
pub open spec fn word_len(s: Seq<char>) -> int
    decreases s.len(),
{
    if s.len() > 0 && !is_white_space(s[0]) {
        1 + word_len(s.drop_first())
    } else {
        0
    }
}

/// The first white-space separated word of `s[from..]` and the index just
/// past it.
pub fn next_word(s: &Vec<char>, from: usize) -> (r: Option<(String, usize)>)
    requires
        from <= s@.len(),
    ensures
        match first_word(s@.subrange(from as int, s@.len() as int)) {
            None => r is None,
            Some((w, rest)) => r matches Some((word, end)) && word@ == w && end <= s@.len()
                && rest == s@.subrange(end as int, s@.len() as int),
        },
{
    let start = skip_white_space(s, from);
    if start == s.len() {
        return None;
    }
    let ghost t = s@.subrange(start as int, s@.len() as int);
    let mut end = start;
    while end < s.len() && !white_space(s[end])
        invariant
            start <= end <= s@.len(),
            t == s@.subrange(start as int, s@.len() as int),
            word_len(t) == (end - start) + word_len(s@.subrange(end as int, s@.len() as int)),
        decreases s@.len() - end,
    {
        assert(s@.subrange(end as int, s@.len() as int).drop_first() =~= s@.subrange(
            end + 1,
            s@.len() as int,
        ));
        end = end + 1;
    }
    proof {
        let u = s@.subrange(end as int, s@.len() as int);
        if end < s@.len() {
            assert(u[0] == s@[end as int]);
        }
        assert(word_len(u) == 0);
        assert(t.take(end - start) =~= s@.subrange(start as int, end as int));
        assert(t.skip(end - start) =~= s@.subrange(end as int, s@.len() as int));
    }
    Some((string_of(s, start, end), end))
}

/// `s` begins with `prefix`.
pub open spec fn has_prefix(s: Seq<char>, prefix: Seq<char>) -> bool {
    prefix.len() <= s.len() && s.take(prefix.len() as int) == prefix
}

pub fn starts_with(s: &Vec<char>, prefix: &str) -> (b: bool)
    ensures
        b == has_prefix(s@, prefix@),
{
    let p = chars_of(prefix);
    if p.len() > s.len() {
        return false;
    }
    for k in 0..p.len()
        invariant
            p@ == prefix@,
            p@.len() <= s@.len(),
            forall|j: int| 0 <= j < k ==> s@[j] == p@[j],
    {
        if s[k] != p[k] {
            assert(s@.take(p@.len() as int)[k as int] != p@[k as int]);
            return false;
        }
    }
    assert(s@.take(p@.len() as int) =~= p@);
    true
}

pub open spec fn is_ascii_digit(c: char) -> bool {
    '0' <= c <= '9'
}

pub open spec fn digit_value(c: char) -> nat {
    (c as u32 - '0' as u32) as nat
}

/// Value of a string of decimal digits.
pub open spec fn digits_value(s: Seq<char>) -> nat
    decreases s.len(),
{
    if s.len() == 0 {
        0
    } else {
        digits_value(s.drop_last()) * 10 + digit_value(s.last())
    }
}

pub open spec fn all_ascii_digits(s: Seq<char>) -> bool {
    forall|i: int| 0 <= i < s.len() ==> is_ascii_digit(#[trigger] s[i])
}

/// `str::parse::<u32>`: an optional `+` and one or more ASCII digits whose
/// value fits in 32 bits.
pub open spec fn parse_u32(s: Seq<char>) -> Option<u32> {
    let d = if s.len() > 0 && s[0] == '+' {
        s.drop_first()
    } else {
        s
    };
    if d.len() > 0 && all_ascii_digits(d) && digits_value(d) <= u32::MAX {
        Some(digits_value(d) as u32)
    } else {
        None
    }
}

/// Value of the ASCII digits `s[lo..hi]`, capped at `cap + 1` once it
/// exceeds `cap`; `None` if some character there is not an ASCII digit.
fn capped_digits_value(s: &Vec<char>, lo: usize, hi: usize, cap: u64) -> (r: Option<u64>)
    requires
        lo <= hi <= s@.len(),
        9 <= cap < u64::MAX,
    ensures
        match r {
            None => !all_ascii_digits(s@.subrange(lo as int, hi as int)),
            Some(v) => all_ascii_digits(s@.subrange(lo as int, hi as int)) && (if digits_value(
                s@.subrange(lo as int, hi as int),
            ) <= cap {
                v == digits_value(s@.subrange(lo as int, hi as int))
            } else {
                v == cap + 1
            }),
        },
{
    let ghost d = s@.subrange(lo as int, hi as int);
    let mut v: u64 = 0;
    let mut k = lo;
    while k < hi
        invariant
            lo <= k <= hi <= s@.len(),
            9 <= cap < u64::MAX,
            d == s@.subrange(lo as int, hi as int),
            v <= cap + 1,
            all_ascii_digits(d.take(k - lo)),
            digits_value(d.take(k - lo)) <= cap ==> v == digits_value(d.take(k - lo)),
            digits_value(d.take(k - lo)) > cap ==> v == cap + 1,
        decreases hi - k,
    {
        let c = s[k];
        if !('0' <= c && c <= '9') {
            assert(d[k - lo] == c);
            return None;
        }
        let ghost prev = d.take(k - lo);
        assert(d.take(k - lo + 1).drop_last() =~= prev);
        assert(d.take(k - lo + 1).last() == c);
        let dv = (c as u32 - '0' as u32) as u64;
        if v > cap {
            assert(digits_value(prev) > cap);
            assert(digits_value(prev) * 10 + dv >= digits_value(prev)) by (nonlinear_arith)
                requires dv >= 0, digits_value(prev) >= 0;
        } else if v > (cap - dv) / 10 {
            assert(v * 10 + dv > cap) by (nonlinear_arith)
                requires v > (cap - dv) / 10, dv <= 9, cap >= 9;
            v = cap + 1;
        } else {
            assert(v * 10 + dv <= cap) by (nonlinear_arith)
                requires v <= (cap - dv) / 10, dv <= 9, cap >= 9;
            v = v * 10 + dv;
        }
        k = k + 1;
        assert(all_ascii_digits(d.take(k - lo)));
    }
    assert(d.take(hi - lo) =~= d);
    Some(v)
}

/// `str::parse::<u32>` on the characters `s`.
pub fn parse_u32_chars(s: &Vec<char>) -> (r: Option<u32>)
    ensures
        r == parse_u32(s@),
{
    let lo: usize = if s.len() > 0 && s[0] == '+' { 1 } else { 0 };
    assert(lo == 1 ==> s@.subrange(1, s@.len() as int) =~= s@.drop_first());
    assert(lo == 0 ==> s@.subrange(0, s@.len() as int) =~= s@);
    if lo == s.len() {
        return None;
    }
    match capped_digits_value(s, lo, s.len(), 0xFFFF_FFFF) {
        None => None,
        Some(v) => {
            if v <= 0xFFFF_FFFF {
                Some(v as u32)
            } else {
                None
            }
        },
    }
}

/// A whole percentage: one or more ASCII digits whose value is at most 100.
pub open spec fn percent_value(s: Seq<char>) -> Option<u64> {
    if s.len() > 0 && all_ascii_digits(s) && digits_value(s) <= 100 {
        Some(digits_value(s) as u64)
    } else {
        None
    }
}

pub fn percent_of(s: &Vec<char>) -> (r: Option<u64>)
    ensures
        r == percent_value(s@),
{
    assert(s@.subrange(0, s@.len() as int) =~= s@);
    if s.len() == 0 {
        return None;
    }
    match capped_digits_value(s, 0, s.len(), 100) {
        None => None,
        Some(v) => if v <= 100 {
            Some(v)
        } else {
            None
        },
    }
}

/// A number written with ASCII digits and at most one decimal point, with
/// at least one digit: `1`, `1.5`, `1.` and `.5`, but not `.` or `1.2.3`.
pub open spec fn is_decimal_number(s: Seq<char>) -> bool {
    &&& forall|i: int| 0 <= i < s.len() ==> is_ascii_digit(#[trigger] s[i]) || s[i] == '.'
    &&& exists|i: int| 0 <= i < s.len() && is_ascii_digit(#[trigger] s[i])
    &&& forall|i: int, j: int| 0 <= i < j < s.len() && #[trigger] s[i] == '.' ==> #[trigger] s[j] != '.'
}

pub fn decimal_number(s: &Vec<char>) -> (b: bool)
    ensures
        b == is_decimal_number(s@),
{
    let mut digit_seen = false;
    let mut dot_at: Option<usize> = None;
    for k in 0..s.len()
        invariant
            forall|i: int| 0 <= i < k ==> is_ascii_digit(#[trigger] s@[i]) || s@[i] == '.',
            digit_seen == exists|i: int| 0 <= i < k && is_ascii_digit(#[trigger] s@[i]),
            forall|i: int, j: int| 0 <= i < j < k && #[trigger] s@[i] == '.' ==> #[trigger] s@[j] != '.',
            match dot_at {
                None => forall|i: int| 0 <= i < k ==> s@[i] != '.',
                Some(d) => d < k && s@[d as int] == '.',
            },
    {
        let c = s[k];
        if '0' <= c && c <= '9' {
            digit_seen = true;
        } else if c == '.' {
            if dot_at.is_some() {
                assert(s@[dot_at.unwrap() as int] == '.' && s@[k as int] == '.');
                return false;
            }
            dot_at = Some(k);
        } else {
            return false;
        }
    }
    digit_seen
}

/// `text` holds only ASCII digits, at least one.
pub open spec fn is_digit_text(s: Seq<char>) -> bool {
    s.len() > 0 && all_ascii_digits(s)
}

pub fn digit_text(s: &Vec<char>) -> (b: bool)
    ensures
        b == is_digit_text(s@),
{
    if s.len() == 0 {
        return false;
    }
    for k in 0..s.len()
        invariant
            s@.len() > 0,
            forall|i: int| 0 <= i < k ==> is_ascii_digit(#[trigger] s@[i]),
    {
        if !('0' <= s[k] && s[k] <= '9') {
            return false;
        }
    }
    true
}

/// The decimal representation of `n`, without leading zeros.
pub open spec fn decimal_digits(n: nat) -> Seq<char>
    decreases n,
{
    if n < 10 {
        seq![digit_char(n)]
    } else {
        decimal_digits(n / 10).push(digit_char(n % 10))
    }
}

pub open spec fn digit_char(d: nat) -> char {
    (d + '0' as u32) as char
}

/// Append the decimal representation of `n`.
pub fn push_decimal(s: &mut String, n: u64)
    ensures
        final(s)@ == old(s)@ + decimal_digits(n as nat),
    decreases n,
{
    if n >= 10 {
        push_decimal(s, n / 10);
    }
    let d = (n % 10) as u32;
    let c = char_from_digit(d);
    string_push(s, c);
    assert(old(s)@ + decimal_digits(n as nat) =~= if n >= 10 {
        old(s)@ + decimal_digits((n / 10) as nat) + seq![digit_char((n % 10) as nat)]
    } else {
        old(s)@ + seq![digit_char(n as nat)]
    });
}

fn char_from_digit(d: u32) -> (c: char)
    requires
        d < 10,
    ensures
        c == digit_char(d as nat),
{
    match d {
        0 => '0',
        1 => '1',
        2 => '2',
        3 => '3',
        4 => '4',
        5 => '5',
        6 => '6',
        7 => '7',
        8 => '8',
        _ => '9',
    }
}

} // verus!

verus! {

proof fn lemma_digit_char(k: nat)
    requires
        k < 10,
    ensures
        is_ascii_digit(digit_char(k)),
        digit_value(digit_char(k)) == k,
{
    let c = digit_char(k);
    assert((c as u32) == k + 48);
}

/// Writing a number in decimal and reading the digits back gives the
/// number: the text is non-empty and all ASCII digits.
pub proof fn lemma_decimal_round_trip(n: nat)
    ensures
        decimal_digits(n).len() > 0,
        all_ascii_digits(decimal_digits(n)),
        digits_value(decimal_digits(n)) == n,
    decreases n,
{
    let d = decimal_digits(n);
    if n < 10 {
        lemma_digit_char(n);
        assert(d == seq![digit_char(n)]);
        assert(d.drop_last() =~= Seq::<char>::empty());
        assert(digits_value(d.drop_last()) == 0);
        assert(d.last() == digit_char(n));
        assert(digits_value(d) == n);
    } else {
        lemma_digit_char(n % 10);
        lemma_decimal_round_trip(n / 10);
        let p = decimal_digits(n / 10);
        assert(d == p.push(digit_char(n % 10)));
        assert(d.drop_last() =~= p);
        assert(d.last() == digit_char(n % 10));
        assert(digits_value(d) == digits_value(p) * 10 + digit_value(d.last()));
        assert((n / 10) * 10 + n % 10 == n);
        assert(digits_value(d) == n);
        assert forall|i: int| 0 <= i < d.len() implies is_ascii_digit(#[trigger] d[i]) by {
            if i < p.len() {
                assert(d[i] == p[i]);
            }
        }
    }
}

} // verus!
