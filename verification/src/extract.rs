//! Extraction of btop metrics from a recording: replay the output through a
//! virtual terminal and read the screen at every synchronized-update end.
use vstd::prelude::*;

use crate::ansi::vte_actions;
use crate::cast::{CastEvent, CastHeader};
use crate::metrics::{BtopFrame, FrameView, MemMetrics, MemView, NetMetrics, NetView};
use crate::pattern::{all_matches, find_all, find_first, first_match, group, group_chars, match_view, MatchView};
use crate::text::{
    chars_of, decimal_number, digit_text, is_decimal_number, is_digit_text, parse_u32, parse_u32_chars,
    percent_of, percent_value, same_text, string_of,
};
use vstd::utf8::encode_utf8;
use crate::vterm::{grid_ok, initial_state, row_chars, run, settled, VirtualTerminal, VtState};

verus! {

/// Overall CPU usage: "CPU", then the first number followed by `%`.
pub const CPU_TOTAL_PATTERN: &'static str = "CPU\\s+.*?(\\d+)\\s*%";

/// Per-core usage: "Core3", "cpu3" or "C3", then a number followed by `%`.
pub const CPU_CORE_PATTERN: &'static str = "[Cc](?:ore|pu)?(\\d+)\\s+.*?(\\d+)\\s*%";

/// The three load averages.
pub const LOAD_AVG_PATTERN: &'static str = "Load avg:\\s+([\\d.]+)\\s+([\\d.]+)\\s+([\\d.]+)";

/// Total memory: one or two words after "Total:".
pub const MEM_TOTAL_PATTERN: &'static str = "Total:\\s+(\\S+(?:\\s+\\S+)?)";

/// A memory percentage and its label.
pub const MEM_PCT_PATTERN: &'static str = "(Used|Available|Cached|Free):\\s+.*?(\\d+)\\s*%";

/// Download speed, after a down-pointing triangle.
pub const NET_DOWN_PATTERN: &'static str = "\u{25BC}\\s+([\\d.]+\\s*\\S+/s)";

/// Upload speed, after an up-pointing triangle.
pub const NET_UP_PATTERN: &'static str = "\u{25B2}\\s+([\\d.]+\\s*\\S+/s)";

pub open spec fn lines_view(text: Seq<String>) -> Seq<Seq<char>> {
    text.map_values(|s: String| s@)
}

// ---------------------------------------------------------------- CPU total

/// The CPU total on one line: group 1 of the first match, if it is a whole
/// percentage.  (The pattern captures only digits; for digits this is
/// exactly when `parse::<f64>()` gives a value in 0..=100.)
pub open spec fn line_cpu_total(line: Seq<char>) -> Option<u64> {
    match first_match(CPU_TOTAL_PATTERN@, line) {
        Some(m) => match group(m, 1) {
            Some(t) => percent_value(t),
            None => None,
        },
        None => None,
    }
}

/// The CPU total of the first line that has one.
pub open spec fn cpu_total_in(lines: Seq<Seq<char>>) -> Option<u64>
    decreases lines.len(),
{
    if lines.len() == 0 {
        None
    } else if line_cpu_total(lines[0]) is Some {
        line_cpu_total(lines[0])
    } else {
        cpu_total_in(lines.drop_first())
    }
}

fn line_cpu_total_exec(line: &String) -> (r: Option<u64>)
    ensures
        r == line_cpu_total(line@),
{
    match find_first(CPU_TOTAL_PATTERN, line.as_str()) {
        Some(m) => match group_chars(&m, 1) {
            Some(t) => percent_of(&t),
            None => None,
        },
        None => None,
    }
}

pub fn extract_cpu_total(text: &[String]) -> (r: Option<u64>)
    ensures
        r == cpu_total_in(lines_view(text@)),
{
    let ghost lines = lines_view(text@);
    assert(lines.skip(0) =~= lines);
    for i in 0..text.len()
        invariant
            lines == lines_view(text@),
            cpu_total_in(lines) == cpu_total_in(lines.skip(i as int)),
    {
        assert(lines.skip(i as int)[0] == text@[i as int]@);
        assert(lines.skip(i as int).drop_first() =~= lines.skip(i + 1));
        let v = line_cpu_total_exec(&text[i]);
        if v.is_some() {
            return v;
        }
    }
    None
}

// ---------------------------------------------------------------- CPU cores

/// A (core number, percentage) entry from one match of the core pattern.
/// Both parts must parse: the number as `u32`, the percentage as a whole
/// percentage (see [`line_cpu_total`]).
pub open spec fn core_entry(m: MatchView) -> Option<(u32, u64)> {
    match (group(m, 1), group(m, 2)) {
        (Some(a), Some(b)) => match (parse_u32(a), percent_value(b)) {
            (Some(idx), Some(v)) => Some((idx, v)),
            _ => None,
        },
        _ => None,
    }
}

pub open spec fn entries_of_matches(ms: Seq<MatchView>) -> Seq<(u32, u64)>
    decreases ms.len(),
{
    if ms.len() == 0 {
        Seq::empty()
    } else {
        let prev = entries_of_matches(ms.drop_last());
        match core_entry(ms.last()) {
            Some(e) => prev.push(e),
            None => prev,
        }
    }
}

/// All core entries of the screen, line by line and match by match.
pub open spec fn core_entries(lines: Seq<Seq<char>>) -> Seq<(u32, u64)>
    decreases lines.len(),
{
    if lines.len() == 0 {
        Seq::empty()
    } else {
        core_entries(lines.drop_last()) + entries_of_matches(all_matches(CPU_CORE_PATTERN@, lines.last()))
    }
}

/// `sorted` with `e` inserted after every entry whose key is not greater.
pub open spec fn insert_by_key(sorted: Seq<(u32, u64)>, e: (u32, u64)) -> Seq<(u32, u64)>
    decreases sorted.len(),
{
    if sorted.len() == 0 {
        seq![e]
    } else if sorted.last().0 <= e.0 {
        sorted.push(e)
    } else {
        insert_by_key(sorted.drop_last(), e).push(sorted.last())
    }
}

/// Stable sort by key: entries ordered by key, equal keys in their
/// original order (what `sort_by_key` does).
pub open spec fn stable_sort_by_key(s: Seq<(u32, u64)>) -> Seq<(u32, u64)>
    decreases s.len(),
{
    if s.len() == 0 {
        Seq::empty()
    } else {
        insert_by_key(stable_sort_by_key(s.drop_last()), s.last())
    }
}

/// The per-core percentages, ordered by core number.
pub open spec fn cpu_cores_in(lines: Seq<Seq<char>>) -> Seq<u64> {
    stable_sort_by_key(core_entries(lines)).map_values(|e: (u32, u64)| e.1)
}

fn core_entry_exec(m: &Vec<Option<String>>) -> (r: Option<(u32, u64)>)
    ensures
        r == core_entry(match_view(*m)),
{
    match (group_chars(m, 1), group_chars(m, 2)) {
        (Some(a), Some(b)) => match (parse_u32_chars(&a), percent_of(&b)) {
            (Some(idx), Some(v)) => Some((idx, v)),
            _ => None,
        },
        _ => None,
    }
}

/// Insert `e` into the key-sorted `v` after all entries with a key not
/// greater than its own.
fn insert_sorted(v: &mut Vec<(u32, u64)>, e: (u32, u64))
    ensures
        final(v)@ == insert_by_key(old(v)@, e),
{
    let ghost o = v@;
    let mut i = v.len();
    v.push(e);
    assert(o.take(o.len() as int) =~= o);
    assert(o.skip(o.len() as int) =~= Seq::<(u32, u64)>::empty());
    assert(v@ =~= o.take(i as int) + seq![e] + o.skip(i as int));
    while i > 0 && v[i - 1].0 > e.0
        invariant
            0 <= i <= o.len(),
            v@ == o.take(i as int) + seq![e] + o.skip(i as int),
            insert_by_key(o, e) == insert_by_key(o.take(i as int), e) + o.skip(i as int),
        decreases i,
    {
        let ghost before = v@;
        assert(before[i - 1] == o[i - 1]);
        assert(before[i as int] == e);
        let prev = v[i - 1];
        v.set(i - 1, e);
        v.set(i, prev);
        proof {
            let t = o.take(i as int);
            assert(t.drop_last() =~= o.take(i - 1));
            assert(t.last() == o[i - 1]);
            assert(insert_by_key(t, e) == insert_by_key(o.take(i - 1), e).push(o[i - 1]));
            assert(insert_by_key(o.take(i - 1), e).push(o[i - 1]) + o.skip(i as int) =~= insert_by_key(
                o.take(i - 1),
                e,
            ) + o.skip(i - 1));
            assert(v@ =~= o.take(i - 1) + seq![e] + o.skip(i - 1));
        }
        i = i - 1;
    }
    proof {
        let t = o.take(i as int);
        if i == 0 {
            assert(t =~= Seq::<(u32, u64)>::empty());
        } else {
            assert(t.last() == o[i - 1]);
            assert(v@[i - 1] == o[i - 1]);
        }
        assert(insert_by_key(t, e) =~= t.push(e));
        assert(v@ =~= insert_by_key(t, e) + o.skip(i as int));
    }
}

pub fn extract_cpu_cores(text: &[String]) -> (r: Vec<u64>)
    ensures
        r@ == cpu_cores_in(lines_view(text@)),
{
    let ghost lines = lines_view(text@);
    let mut cores: Vec<(u32, u64)> = Vec::new();
    let mut sorted: Vec<(u32, u64)> = Vec::new();
    for i in 0..text.len()
        invariant
            lines == lines_view(text@),
            cores@ == core_entries(lines.take(i as int)),
            sorted@ == stable_sort_by_key(cores@),
    {
        let ms = find_all(CPU_CORE_PATTERN, text[i].as_str());
        let ghost mv = ms@.map_values(|m: Vec<Option<String>>| match_view(m));
        let ghost start = cores@;
        for j in 0..ms.len()
            invariant
                mv == ms@.map_values(|m: Vec<Option<String>>| match_view(m)),
                cores@ == start + entries_of_matches(mv.take(j as int)),
                sorted@ == stable_sort_by_key(cores@),
        {
            assert(mv.take(j + 1).drop_last() =~= mv.take(j as int));
            assert(mv.take(j + 1).last() == match_view(ms@[j as int]));
            match core_entry_exec(&ms[j]) {
                Some(e) => {
                    let ghost c0 = cores@;
                    cores.push(e);
                    insert_sorted(&mut sorted, e);
                    assert(cores@.drop_last() =~= c0);
                    assert(start + entries_of_matches(mv.take(j + 1)) =~= (start + entries_of_matches(
                        mv.take(j as int),
                    )).push(e));
                },
                None => {},
            }
        }
        assert(mv.take(ms@.len() as int) =~= mv);
        assert(lines.take(i + 1).drop_last() =~= lines.take(i as int));
        assert(lines.take(i + 1).last() == text@[i as int]@);
    }
    assert(lines.take(text@.len() as int) =~= lines);
    let mut out: Vec<u64> = Vec::new();
    for k in 0..sorted.len()
        invariant
            out@ == sorted@.take(k as int).map_values(|e: (u32, u64)| e.1),
    {
        out.push(sorted[k].1);
        assert(sorted@.take(k + 1).map_values(|e: (u32, u64)| e.1) =~= sorted@.take(k as int).map_values(
            |e: (u32, u64)| e.1,
        ).push(sorted@[k as int].1));
    }
    assert(sorted@.take(sorted@.len() as int) =~= sorted@);
    out
}

// ---------------------------------------------------------------- load average

/// The three load averages on one line: groups 1-3 of the first match, if
/// each is a decimal number.  (The pattern captures only digits and dots;
/// for such text this is exactly when `parse::<f64>()` succeeds.)
pub open spec fn line_load(line: Seq<char>) -> Option<(Seq<char>, Seq<char>, Seq<char>)> {
    match first_match(LOAD_AVG_PATTERN@, line) {
        Some(m) => match (group(m, 1), group(m, 2), group(m, 3)) {
            (Some(a), Some(b), Some(c)) => if is_decimal_number(a) && is_decimal_number(b)
                && is_decimal_number(c) {
                Some((a, b, c))
            } else {
                None
            },
            _ => None,
        },
        None => None,
    }
}

pub open spec fn load_avg_in(lines: Seq<Seq<char>>) -> Option<(Seq<char>, Seq<char>, Seq<char>)>
    decreases lines.len(),
{
    if lines.len() == 0 {
        None
    } else if line_load(lines[0]) is Some {
        line_load(lines[0])
    } else {
        load_avg_in(lines.drop_first())
    }
}

pub open spec fn triple_view(t: Option<(String, String, String)>) -> Option<(Seq<char>, Seq<char>, Seq<char>)> {
    match t {
        Some((a, b, c)) => Some((a@, b@, c@)),
        None => None,
    }
}

fn line_load_exec(line: &String) -> (r: Option<(String, String, String)>)
    ensures
        triple_view(r) == line_load(line@),
{
    match find_first(LOAD_AVG_PATTERN, line.as_str()) {
        Some(m) => match (group_chars(&m, 1), group_chars(&m, 2), group_chars(&m, 3)) {
            (Some(a), Some(b), Some(c)) => {
                if decimal_number(&a) && decimal_number(&b) && decimal_number(&c) {
                    Some((string_of(&a, 0, a.len()), string_of(&b, 0, b.len()), string_of(&c, 0, c.len())))
                } else {
                    None
                }
            },
            _ => None,
        },
        None => None,
    }
}

pub fn extract_load_avg(text: &[String]) -> (r: Option<(String, String, String)>)
    ensures
        triple_view(r) == load_avg_in(lines_view(text@)),
{
    let ghost lines = lines_view(text@);
    assert(lines.skip(0) =~= lines);
    for i in 0..text.len()
        invariant
            lines == lines_view(text@),
            load_avg_in(lines) == load_avg_in(lines.skip(i as int)),
    {
        assert(lines.skip(i as int)[0] == text@[i as int]@);
        assert(lines.skip(i as int).drop_first() =~= lines.skip(i + 1));
        let v = line_load_exec(&text[i]);
        if v.is_some() {
            return v;
        }
    }
    None
}

// ---------------------------------------------------------------- group 1 of the first match

/// Group 1 of the first match of `pattern` on `line`.
pub open spec fn line_group1(pattern: Seq<char>, line: Seq<char>) -> Option<Seq<char>> {
    match first_match(pattern, line) {
        Some(m) => group(m, 1),
        None => None,
    }
}

/// Group 1 of the first match on the first line where there is one.
pub open spec fn first_group1_in(pattern: Seq<char>, lines: Seq<Seq<char>>) -> Option<Seq<char>>
    decreases lines.len(),
{
    if lines.len() == 0 {
        None
    } else if line_group1(pattern, lines[0]) is Some {
        line_group1(pattern, lines[0])
    } else {
        first_group1_in(pattern, lines.drop_first())
    }
}

fn first_group1(pattern: &str, text: &[String]) -> (r: Option<String>)
    ensures
        crate::metrics::opt_text(r) == first_group1_in(pattern@, lines_view(text@)),
{
    let ghost lines = lines_view(text@);
    assert(lines.skip(0) =~= lines);
    for i in 0..text.len()
        invariant
            lines == lines_view(text@),
            first_group1_in(pattern@, lines) == first_group1_in(pattern@, lines.skip(i as int)),
    {
        assert(lines.skip(i as int)[0] == text@[i as int]@);
        assert(lines.skip(i as int).drop_first() =~= lines.skip(i + 1));
        match find_first(pattern, text[i].as_str()) {
            Some(m) => match group_chars(&m, 1) {
                Some(t) => {
                    return Some(string_of(&t, 0, t.len()));
                },
                None => {},
            },
            None => {},
        }
    }
    None
}

// ---------------------------------------------------------------- memory

/// The memory percentages found so far.
pub struct PctView {
    pub used: Option<Seq<char>>,
    pub available: Option<Seq<char>>,
    pub cached: Option<Seq<char>>,
    pub free: Option<Seq<char>>,
}

/// One match of the percentage pattern: a digit percentage under a known
/// label replaces that label's value.  (The pattern captures only digits;
/// for digits `parse::<f64>()` always succeeds.)
pub open spec fn apply_pct_match(acc: PctView, m: MatchView) -> PctView {
    match (group(m, 1), group(m, 2)) {
        (Some(label), Some(t)) => if !is_digit_text(t) {
            acc
        } else if label == "Used"@ {
            PctView { used: Some(t), ..acc }
        } else if label == "Available"@ {
            PctView { available: Some(t), ..acc }
        } else if label == "Cached"@ {
            PctView { cached: Some(t), ..acc }
        } else if label == "Free"@ {
            PctView { free: Some(t), ..acc }
        } else {
            acc
        },
        _ => acc,
    }
}

pub open spec fn apply_pct_matches(acc: PctView, ms: Seq<MatchView>) -> PctView
    decreases ms.len(),
{
    if ms.len() == 0 {
        acc
    } else {
        apply_pct_match(apply_pct_matches(acc, ms.drop_last()), ms.last())
    }
}

pub open spec fn pcts_in(lines: Seq<Seq<char>>) -> PctView
    decreases lines.len(),
{
    if lines.len() == 0 {
        PctView { used: None, available: None, cached: None, free: None }
    } else {
        apply_pct_matches(pcts_in(lines.drop_last()), all_matches(MEM_PCT_PATTERN@, lines.last()))
    }
}

/// Memory metrics: present when some line has a total.
pub open spec fn mem_in(lines: Seq<Seq<char>>) -> Option<MemView> {
    match first_group1_in(MEM_TOTAL_PATTERN@, lines) {
        Some(total) => {
            let p = pcts_in(lines);
            Some(
                MemView {
                    total,
                    used_pct: p.used,
                    available_pct: p.available,
                    cached_pct: p.cached,
                    free_pct: p.free,
                },
            )
        },
        None => None,
    }
}

pub fn extract_mem(text: &[String]) -> (r: Option<MemMetrics>)
    ensures
        match r {
            Some(m) => mem_in(lines_view(text@)) == Some(m@),
            None => mem_in(lines_view(text@)) is None,
        },
{
    let ghost lines = lines_view(text@);
    let total = first_group1(MEM_TOTAL_PATTERN, text);
    let mut used_pct: Option<String> = None;
    let mut available_pct: Option<String> = None;
    let mut cached_pct: Option<String> = None;
    let mut free_pct: Option<String> = None;
    for i in 0..text.len()
        invariant
            lines == lines_view(text@),
            pcts_in(lines.take(i as int)) == (PctView {
                used: crate::metrics::opt_text(used_pct),
                available: crate::metrics::opt_text(available_pct),
                cached: crate::metrics::opt_text(cached_pct),
                free: crate::metrics::opt_text(free_pct),
            }),
    {
        let ms = find_all(MEM_PCT_PATTERN, text[i].as_str());
        let ghost mv = ms@.map_values(|m: Vec<Option<String>>| match_view(m));
        let ghost start = pcts_in(lines.take(i as int));
        for j in 0..ms.len()
            invariant
                mv == ms@.map_values(|m: Vec<Option<String>>| match_view(m)),
                apply_pct_matches(start, mv.take(j as int)) == (PctView {
                    used: crate::metrics::opt_text(used_pct),
                    available: crate::metrics::opt_text(available_pct),
                    cached: crate::metrics::opt_text(cached_pct),
                    free: crate::metrics::opt_text(free_pct),
                }),
        {
            assert(mv.take(j + 1).drop_last() =~= mv.take(j as int));
            assert(mv.take(j + 1).last() == match_view(ms@[j as int]));
            let m = &ms[j];
            match (group_chars(m, 1), group_chars(m, 2)) {
                (Some(label), Some(t)) => {
                    if digit_text(&t) {
                        if same_text(&label, "Used") {
                            used_pct = Some(string_of(&t, 0, t.len()));
                        } else if same_text(&label, "Available") {
                            available_pct = Some(string_of(&t, 0, t.len()));
                        } else if same_text(&label, "Cached") {
                            cached_pct = Some(string_of(&t, 0, t.len()));
                        } else if same_text(&label, "Free") {
                            free_pct = Some(string_of(&t, 0, t.len()));
                        }
                    }
                },
                _ => {},
            }
        }
        assert(mv.take(ms@.len() as int) =~= mv);
        assert(lines.take(i + 1).drop_last() =~= lines.take(i as int));
        assert(lines.take(i + 1).last() == text@[i as int]@);
    }
    assert(lines.take(text@.len() as int) =~= lines);
    match total {
        Some(total) => Some(MemMetrics { total, used_pct, available_pct, cached_pct, free_pct }),
        None => None,
    }
}

// ---------------------------------------------------------------- network

/// Network metrics: present when a download or an upload speed is shown.
pub open spec fn net_in(lines: Seq<Seq<char>>) -> Option<NetView> {
    let download = first_group1_in(NET_DOWN_PATTERN@, lines);
    let upload = first_group1_in(NET_UP_PATTERN@, lines);
    if download is Some || upload is Some {
        Some(NetView { download, upload })
    } else {
        None
    }
}

pub fn extract_net(text: &[String]) -> (r: Option<NetMetrics>)
    ensures
        match r {
            Some(n) => net_in(lines_view(text@)) == Some(n@),
            None => net_in(lines_view(text@)) is None,
        },
{
    let download = first_group1(NET_DOWN_PATTERN, text);
    let upload = first_group1(NET_UP_PATTERN, text);
    if download.is_some() || upload.is_some() {
        Some(NetMetrics { download, upload })
    } else {
        None
    }
}

// ---------------------------------------------------------------- frames

/// The text of every row of the screen.
pub open spec fn screen_lines(s: VtState) -> Seq<Seq<char>> {
    Seq::new(s.height, |r: int| row_chars(s.cells[r]))
}

/// The metrics of one screen, stamped with `timestamp_bits`; a frame needs
/// at least one of CPU total, per-core usage, memory or network (a load
/// average alone does not make one).
pub open spec fn frame_of(lines: Seq<Seq<char>>, timestamp_bits: u64) -> Option<FrameView> {
    let cpu_total = cpu_total_in(lines);
    let cpu_cores = cpu_cores_in(lines);
    let mem = mem_in(lines);
    let net = net_in(lines);
    if cpu_total is Some || cpu_cores.len() > 0 || mem is Some || net is Some {
        Some(
            FrameView {
                timestamp_bits,
                cpu_total,
                cpu_cores,
                load_avg: load_avg_in(lines),
                mem,
                net,
            },
        )
    } else {
        None
    }
}

/// Extract metrics from the current vterm grid state.
fn extract_frame(vt: &VirtualTerminal, timestamp_bits: u64) -> (r: Option<BtopFrame>)
    requires
        grid_ok(vt@),
    ensures
        match r {
            Some(f) => frame_of(screen_lines(vt@), timestamp_bits) == Some(f@),
            None => frame_of(screen_lines(vt@), timestamp_bits) is None,
        },
{
    let text = vt.all_text();
    assert(lines_view(text@) =~= screen_lines(vt@));
    let cpu_total = extract_cpu_total(&text);
    let cpu_cores = extract_cpu_cores(&text);
    let load_avg = extract_load_avg(&text);
    let mem = extract_mem(&text);
    let net = extract_net(&text);

    // Only return a frame if we got at least one useful metric.
    if cpu_total.is_some() || cpu_cores.len() > 0 || mem.is_some() || net.is_some() {
        Some(BtopFrame { timestamp_bits, cpu_total, cpu_cores, load_avg, mem, net })
    } else {
        None
    }
}

/// An output ("o") event; other events (input, markers) are skipped.
pub open spec fn is_output_event(e: CastEvent) -> bool {
    e.event_type@ == "o"@
}

/// The terminal after an output event: the sync-end flag is cleared, then
/// the event's data (UTF-8 encoded) goes through the parser.
pub open spec fn after_output(s: VtState, e: CastEvent) -> VtState {
    run(VtState { sync_end_seen: false, ..s }, vte_actions(encode_utf8(e.data@)))
}

/// Replay `events` on `s`, taking a frame after every output event that
/// ends a synchronized update.
pub open spec fn extract_run(s: VtState, events: Seq<CastEvent>) -> (VtState, Seq<FrameView>)
    decreases events.len(),
{
    if events.len() == 0 {
        (s, Seq::empty())
    } else {
        let (s1, frames) = extract_run(s, events.drop_last());
        let e = events.last();
        if !is_output_event(e) {
            (s1, frames)
        } else {
            let s2 = after_output(s1, e);
            if s2.sync_end_seen {
                match frame_of(screen_lines(s2), e.time_bits) {
                    Some(f) => (s2, frames.push(f)),
                    None => (s2, frames),
                }
            } else {
                (s2, frames)
            }
        }
    }
}

/// The frames of a recording on a `width` x `height` screen.  A screen
/// without rows or columns shows no text, so no frame comes of it.
pub open spec fn extracted_frames(width: u32, height: u32, events: Seq<CastEvent>) -> Seq<FrameView> {
    if width == 0 || height == 0 {
        Seq::empty()
    } else {
        extract_run(initial_state(width as nat, height as nat), events).1
    }
}

pub open spec fn frames_view(frames: Seq<BtopFrame>) -> Seq<FrameView> {
    frames.map_values(|f: BtopFrame| f@)
}

/// Extract btop metrics from pre-loaded events.
pub fn extract_from_events(header: &CastHeader, events: &[CastEvent]) -> (frames: Vec<BtopFrame>)
    ensures
        frames_view(frames@) == extracted_frames(header.width, header.height, events@),
{
    let width = header.width as usize;
    let height = header.height as usize;
    let mut vt = VirtualTerminal::new(width, height);
    let mut frames: Vec<BtopFrame> = Vec::new();
    if width == 0 || height == 0 {
        assert(frames_view(frames@) =~= Seq::<FrameView>::empty());
        return frames;
    }
    let ghost s0 = vt@;
    assert(events@.take(0) =~= Seq::<CastEvent>::empty());
    assert(frames_view(frames@) =~= Seq::<FrameView>::empty());
    for i in 0..events.len()
        invariant
            s0 == initial_state(header.width as nat, header.height as nat),
            settled(vt@),
            vt.width == width && vt.height == height,
            width > 0 && height > 0,
            vt@ == extract_run(s0, events@.take(i as int)).0,
            frames_view(frames@) == extract_run(s0, events@.take(i as int)).1,
    {
        let event = &events[i];
        assert(events@.take(i + 1).drop_last() =~= events@.take(i as int));
        assert(events@.take(i + 1).last() == *event);
        let kind = chars_of(event.event_type.as_str());
        if same_text(&kind, "o") {
            vt.sync_end_seen = false;
            proof {
                crate::vterm::lemma_settled_takes_all(vt@, vte_actions(encode_utf8(event.data@)));
            }
            vt.feed(event.data.as_str().as_bytes());
            if vt.sync_end_seen {
                match extract_frame(&vt, event.time_bits) {
                    Some(frame) => {
                        let ghost before = frames@;
                        frames.push(frame);
                        assert(frames_view(frames@) =~= frames_view(before).push(frame@));
                    },
                    None => {},
                }
            }
        }
    }
    assert(events@.take(events@.len() as int) =~= events@);
    frames
}

} // verus!

verus! {

/// Entries ordered by key.
pub open spec fn sorted_by_key(s: Seq<(u32, u64)>) -> bool {
    forall|i: int, j: int| 0 <= i < j < s.len() ==> #[trigger] s[i].0 <= #[trigger] s[j].0
}

proof fn lemma_insert_by_key(s: Seq<(u32, u64)>, e: (u32, u64))
    requires
        sorted_by_key(s),
    ensures
        sorted_by_key(insert_by_key(s, e)),
        insert_by_key(s, e).len() == s.len() + 1,
        forall|x: (u32, u64)| #[trigger] insert_by_key(s, e).contains(x) <==> (s.contains(x) || x == e),
    decreases s.len(),
{
    let r = insert_by_key(s, e);
    if s.len() == 0 {
        assert(r == seq![e]);
        assert forall|x: (u32, u64)| #[trigger] r.contains(x) <==> (s.contains(x) || x == e) by {
            if r.contains(x) {
                let k = choose|k: int| 0 <= k < r.len() && r[k] == x;
            }
            if x == e {
                assert(r[0] == e);
            }
        }
    } else if s.last().0 <= e.0 {
        assert(r == s.push(e));
        assert forall|i: int, j: int| 0 <= i < j < r.len() implies #[trigger] r[i].0 <= #[trigger] r[j].0 by {
            if j == s.len() {
                assert(s[i].0 <= s[s.len() - 1].0);
            }
        }
        assert forall|x: (u32, u64)| #[trigger] r.contains(x) <==> (s.contains(x) || x == e) by {
            if r.contains(x) {
                let k = choose|k: int| 0 <= k < r.len() && r[k] == x;
                if k < s.len() {
                    assert(s[k] == x);
                }
            }
            if s.contains(x) {
                let k = choose|k: int| 0 <= k < s.len() && s[k] == x;
                assert(r[k] == x);
            }
            if x == e {
                assert(r[s.len() as int] == e);
            }
        }
    } else {
        let d = s.drop_last();
        let last = s.last();
        assert(sorted_by_key(d));
        lemma_insert_by_key(d, e);
        let q = insert_by_key(d, e);
        assert(r == q.push(last));
        assert forall|i: int, j: int| 0 <= i < j < r.len() implies #[trigger] r[i].0 <= #[trigger] r[j].0 by {
            if j == q.len() {
                assert(q.contains(q[i]));
                if d.contains(q[i]) {
                    let k = choose|k: int| 0 <= k < d.len() && d[k] == q[i];
                    assert(s[k].0 <= s[s.len() - 1].0);
                }
            }
        }
        assert forall|x: (u32, u64)| #[trigger] r.contains(x) <==> (s.contains(x) || x == e) by {
            if r.contains(x) {
                let k = choose|k: int| 0 <= k < r.len() && r[k] == x;
                if k < q.len() {
                    assert(q.contains(x));
                    if d.contains(x) {
                        let m = choose|m: int| 0 <= m < d.len() && d[m] == x;
                        assert(s[m] == x);
                    }
                } else {
                    assert(s[s.len() - 1] == x);
                }
            }
            if s.contains(x) {
                let k = choose|k: int| 0 <= k < s.len() && s[k] == x;
                if k < d.len() {
                    assert(d[k] == x);
                    assert(q.contains(x));
                    let m = choose|m: int| 0 <= m < q.len() && q[m] == x;
                    assert(r[m] == x);
                } else {
                    assert(r[q.len() as int] == x);
                }
            }
            if x == e {
                assert(q.contains(e));
                let m = choose|m: int| 0 <= m < q.len() && q[m] == e;
                assert(r[m] == e);
            }
        }
    }
}

/// Sorting by key orders the entries by key and keeps exactly the entries
/// it was given, as many as there were.
pub proof fn lemma_stable_sort_by_key(s: Seq<(u32, u64)>)
    ensures
        sorted_by_key(stable_sort_by_key(s)),
        stable_sort_by_key(s).len() == s.len(),
        forall|x: (u32, u64)| #[trigger] stable_sort_by_key(s).contains(x) <==> s.contains(x),
    decreases s.len(),
{
    if s.len() > 0 {
        let d = s.drop_last();
        lemma_stable_sort_by_key(d);
        lemma_insert_by_key(stable_sort_by_key(d), s.last());
        assert forall|x: (u32, u64)| #[trigger] stable_sort_by_key(s).contains(x) <==> s.contains(x) by {
            if s.contains(x) {
                let k = choose|k: int| 0 <= k < s.len() && s[k] == x;
                if k < d.len() {
                    assert(d[k] == x);
                }
            }
            if d.contains(x) {
                let k = choose|k: int| 0 <= k < d.len() && d[k] == x;
                assert(s[k] == x);
            }
        }
    } else {
        assert(sorted_by_key(Seq::<(u32, u64)>::empty()));
    }
}

proof fn lemma_entries_are_percentages(ms: Seq<MatchView>)
    ensures
        forall|i: int| 0 <= i < entries_of_matches(ms).len() ==> #[trigger] entries_of_matches(ms)[i].1 <= 100,
    decreases ms.len(),
{
    if ms.len() > 0 {
        lemma_entries_are_percentages(ms.drop_last());
        let prev = entries_of_matches(ms.drop_last());
        let r = entries_of_matches(ms);
        if let Some(e) = core_entry(ms.last()) {
            assert(r == prev.push(e));
            assert forall|i: int| 0 <= i < r.len() implies #[trigger] r[i].1 <= 100 by {
                if i < prev.len() {
                    assert(r[i] == prev[i]);
                }
            }
        }
    }
}

proof fn lemma_core_entries_are_percentages(lines: Seq<Seq<char>>)
    ensures
        forall|i: int| 0 <= i < core_entries(lines).len() ==> #[trigger] core_entries(lines)[i].1 <= 100,
    decreases lines.len(),
{
    if lines.len() > 0 {
        let a = core_entries(lines.drop_last());
        let b = entries_of_matches(all_matches(CPU_CORE_PATTERN@, lines.last()));
        lemma_core_entries_are_percentages(lines.drop_last());
        lemma_entries_are_percentages(all_matches(CPU_CORE_PATTERN@, lines.last()));
        assert forall|i: int| 0 <= i < (a + b).len() implies #[trigger] (a + b)[i].1 <= 100 by {
            if i >= a.len() {
                assert((a + b)[i] == b[i - a.len()]);
            }
        }
    }
}

proof fn lemma_cpu_total_is_percentage(lines: Seq<Seq<char>>)
    ensures
        cpu_total_in(lines) matches Some(v) ==> v <= 100,
    decreases lines.len(),
{
    if lines.len() > 0 {
        lemma_cpu_total_is_percentage(lines.drop_first());
    }
}

/// CPU figures are percentages: the total and every per-core value are
/// at most 100, and the per-core values come ordered by core number (the
/// sorted entries hold exactly the entries found).
pub proof fn lemma_cpu_figures(lines: Seq<Seq<char>>)
    ensures
        cpu_total_in(lines) matches Some(v) ==> v <= 100,
        forall|i: int| 0 <= i < cpu_cores_in(lines).len() ==> #[trigger] cpu_cores_in(lines)[i] <= 100,
        sorted_by_key(stable_sort_by_key(core_entries(lines))),
        cpu_cores_in(lines).len() == core_entries(lines).len(),
{
    lemma_cpu_total_is_percentage(lines);
    let e = core_entries(lines);
    lemma_core_entries_are_percentages(lines);
    lemma_stable_sort_by_key(e);
    let s = stable_sort_by_key(e);
    assert forall|i: int| 0 <= i < cpu_cores_in(lines).len() implies #[trigger] cpu_cores_in(lines)[i] <= 100 by {
        assert(s.contains(s[i]));
        let k = choose|k: int| 0 <= k < e.len() && e[k] == s[i];
    }
}

/// Every extracted frame holds at least one of CPU total, per-core usage,
/// memory or network; there are no more frames than events; and each
/// frame carries the time of an output event of the recording.
pub proof fn lemma_extracted_frames(width: u32, height: u32, events: Seq<CastEvent>)
    ensures
        extracted_frames(width, height, events).len() <= events.len(),
        forall|i: int|
            0 <= i < extracted_frames(width, height, events).len() ==> {
                let f = #[trigger] extracted_frames(width, height, events)[i];
                &&& (f.cpu_total is Some || f.cpu_cores.len() > 0 || f.mem is Some || f.net is Some)
                &&& exists|j: int|
                    0 <= j < events.len() && is_output_event(#[trigger] events[j]) && events[j].time_bits
                        == f.timestamp_bits
            },
{
    if width != 0 && height != 0 {
        lemma_extract_run(initial_state(width as nat, height as nat), events);
    }
}

proof fn lemma_extract_run(s: VtState, events: Seq<CastEvent>)
    ensures
        extract_run(s, events).1.len() <= events.len(),
        forall|i: int|
            0 <= i < extract_run(s, events).1.len() ==> {
                let f = #[trigger] extract_run(s, events).1[i];
                &&& (f.cpu_total is Some || f.cpu_cores.len() > 0 || f.mem is Some || f.net is Some)
                &&& exists|j: int|
                    0 <= j < events.len() && is_output_event(#[trigger] events[j]) && events[j].time_bits
                        == f.timestamp_bits
            },
    decreases events.len(),
{
    if events.len() > 0 {
        let d = events.drop_last();
        lemma_extract_run(s, d);
        let fs = extract_run(s, events).1;
        let prev = extract_run(s, d).1;
        assert forall|i: int| 0 <= i < fs.len() implies {
            let f = #[trigger] fs[i];
            &&& (f.cpu_total is Some || f.cpu_cores.len() > 0 || f.mem is Some || f.net is Some)
            &&& exists|j: int|
                0 <= j < events.len() && is_output_event(#[trigger] events[j]) && events[j].time_bits
                    == f.timestamp_bits
        } by {
            if i < prev.len() {
                assert(fs[i] == prev[i]);
                let f = prev[i];
                let j = choose|j: int|
                    0 <= j < d.len() && is_output_event(#[trigger] d[j]) && d[j].time_bits == f.timestamp_bits;
                assert(events[j] == d[j]);
            } else {
                let j = events.len() - 1;
                assert(events[j] == events.last());
            }
        }
    }
}

} // verus!

verus! {

/// Whether the first match of `pattern` on `line` has a group 1.
pub open spec fn has_group1(pattern: Seq<char>, line: Seq<char>) -> bool {
    match first_match(pattern, line) {
        Some(m) => group(m, 1) is Some,
        None => false,
    }
}

/// The memory total and each network speed come from the topmost line that
/// shows one: when line `i` is the first line, from the top, on which the
/// pattern matches, the value is group 1 of that line's first match; the
/// lines below it do not count.
pub proof fn lemma_topmost_line_wins(pattern: Seq<char>, lines: Seq<Seq<char>>, i: int)
    requires
        0 <= i < lines.len(),
        has_group1(pattern, lines[i]),
        forall|j: int| 0 <= j < i ==> !has_group1(pattern, #[trigger] lines[j]),
    ensures
        first_group1_in(pattern, lines) == group(first_match(pattern, lines[i]).unwrap(), 1),
        pattern == MEM_TOTAL_PATTERN@ ==> (mem_in(lines) matches Some(mv) && Some(mv.total) == group(
            first_match(pattern, lines[i]).unwrap(),
            1,
        )),
        pattern == NET_DOWN_PATTERN@ ==> (net_in(lines) matches Some(nv) && nv.download == group(
            first_match(pattern, lines[i]).unwrap(),
            1,
        )),
        pattern == NET_UP_PATTERN@ ==> (net_in(lines) matches Some(nv) && nv.upload == group(
            first_match(pattern, lines[i]).unwrap(),
            1,
        )),
    decreases i,
{
    if i > 0 {
        assert(!has_group1(pattern, lines[0]));
        let rest = lines.drop_first();
        assert forall|j: int| 0 <= j < i - 1 implies !has_group1(pattern, #[trigger] rest[j]) by {
            assert(rest[j] == lines[j + 1]);
        }
        assert(rest[i - 1] == lines[i]);
        lemma_topmost_line_wins(pattern, rest, i - 1);
    }
}

/// No line showing one, no value: without a line on which the pattern
/// matches, there is no memory total (so no memory metrics) and no speed.
pub proof fn lemma_no_line_no_value(pattern: Seq<char>, lines: Seq<Seq<char>>)
    requires
        forall|j: int| 0 <= j < lines.len() ==> !has_group1(pattern, #[trigger] lines[j]),
    ensures
        first_group1_in(pattern, lines) is None,
        pattern == MEM_TOTAL_PATTERN@ ==> mem_in(lines) is None,
    decreases lines.len(),
{
    if lines.len() > 0 {
        assert(!has_group1(pattern, lines[0]));
        let rest = lines.drop_first();
        assert forall|j: int| 0 <= j < rest.len() implies !has_group1(pattern, #[trigger] rest[j]) by {
            assert(rest[j] == lines[j + 1]);
        }
        lemma_no_line_no_value(pattern, rest);
    }
}

/// The CPU total and the load averages also come from the topmost line
/// that shows them: when line `i` is the first line, from the top, with a
/// CPU total (a load-average triple), that is the value.
pub proof fn lemma_topmost_cpu_and_load(lines: Seq<Seq<char>>, i: int)
    requires
        0 <= i < lines.len(),
    ensures
        line_cpu_total(lines[i]) is Some && (forall|j: int| 0 <= j < i ==> line_cpu_total(#[trigger] lines[j]) is None)
            ==> cpu_total_in(lines) == line_cpu_total(lines[i]),
        line_load(lines[i]) is Some && (forall|j: int| 0 <= j < i ==> line_load(#[trigger] lines[j]) is None)
            ==> load_avg_in(lines) == line_load(lines[i]),
    decreases i,
{
    if i > 0 {
        let rest = lines.drop_first();
        assert(rest[i - 1] == lines[i]);
        lemma_topmost_cpu_and_load(rest, i - 1);
        if forall|j: int| 0 <= j < i ==> line_cpu_total(#[trigger] lines[j]) is None {
            assert(line_cpu_total(lines[0]) is None);
            assert forall|j: int| 0 <= j < i - 1 implies line_cpu_total(#[trigger] rest[j]) is None by {
                assert(rest[j] == lines[j + 1]);
            }
        }
        if forall|j: int| 0 <= j < i ==> line_load(#[trigger] lines[j]) is None {
            assert(line_load(lines[0]) is None);
            assert forall|j: int| 0 <= j < i - 1 implies line_load(#[trigger] rest[j]) is None by {
                assert(rest[j] == lines[j + 1]);
            }
        }
    }
}

/// A later memory percentage replaces an earlier one: after the matches
/// `ms` and then a match whose label (group 1) is "Used", "Available",
/// "Cached" or "Free" and whose percentage (group 2) is digits `t`, that
/// label's value is `t` and the other three are as `ms` left them.
pub proof fn lemma_last_percentage_wins(acc: PctView, ms: Seq<MatchView>, m: MatchView, t: Seq<char>)
    requires
        group(m, 2) == Some(t),
        t.len() > 0,
        forall|k: int| 0 <= k < t.len() ==> '0' <= #[trigger] t[k] <= '9',
    ensures
        ({
            let before = apply_pct_matches(acc, ms);
            let after = apply_pct_matches(acc, ms.push(m));
            &&& group(m, 1) == Some("Used"@) ==> after == PctView { used: Some(t), ..before }
            &&& group(m, 1) == Some("Available"@) ==> after == PctView { available: Some(t), ..before }
            &&& group(m, 1) == Some("Cached"@) ==> after == PctView { cached: Some(t), ..before }
            &&& group(m, 1) == Some("Free"@) ==> after == PctView { free: Some(t), ..before }
        }),
{
    let all = ms.push(m);
    assert(all.drop_last() =~= ms);
    assert(all.last() == m);
    assert(is_digit_text(t));
    reveal_strlit("Used");
    reveal_strlit("Available");
    reveal_strlit("Cached");
    reveal_strlit("Free");
    assert("Used"@ =~= seq!['U', 's', 'e', 'd']);
    assert("Available"@ =~= seq!['A', 'v', 'a', 'i', 'l', 'a', 'b', 'l', 'e']);
    assert("Cached"@ =~= seq!['C', 'a', 'c', 'h', 'e', 'd']);
    assert("Free"@ =~= seq!['F', 'r', 'e', 'e']);
}

} // verus!
