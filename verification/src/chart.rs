//! What the charts show: the metric names, the panels of a chart and the
//! data series taken from the frames.
use vstd::prelude::*;

use crate::metrics::{BtopFrame, opt_text};
use crate::text::{
    chars_of, decimal_digits, first_word, has_prefix, next_word, push_decimal, same_text, starts_with,
};

verus! {

/// Which metric to chart.
#[derive(Debug, Clone, Copy, PartialEq, Eq, Structural)]
pub enum MetricKind {
    Cpu,
    CpuCores,
    Mem,
    Net,
    Load,
    All,
}

/// `str::to_lowercase`: the string with every character mapped to its
/// Unicode lowercase form.
pub uninterp spec fn str_lowercase(s: Seq<char>) -> Seq<char>;

/// `str::to_lowercase`.  Unicode lowercase mapping is left to the name
/// [`str_lowercase`].
#[verifier::external_body]
fn to_lowercase(s: &str) -> (r: String)
    ensures
        r@ == str_lowercase(s@),
{
    s.to_lowercase()
}

/// The metric a lowercase name stands for.
pub open spec fn metric_named(name: Seq<char>) -> Option<MetricKind> {
    if name == "cpu"@ {
        Some(MetricKind::Cpu)
    } else if name == "cpu-cores"@ || name == "cpucores"@ || name == "cores"@ {
        Some(MetricKind::CpuCores)
    } else if name == "mem"@ || name == "memory"@ {
        Some(MetricKind::Mem)
    } else if name == "net"@ || name == "network"@ {
        Some(MetricKind::Net)
    } else if name == "load"@ {
        Some(MetricKind::Load)
    } else if name == "all"@ {
        Some(MetricKind::All)
    } else {
        None
    }
}

/// The metric named by an already lowercased name.
pub fn metric_from_lowercase(name: &str) -> (r: Option<MetricKind>)
    ensures
        r == metric_named(name@),
{
    let v = chars_of(name);
    if same_text(&v, "cpu") {
        Some(MetricKind::Cpu)
    } else if same_text(&v, "cpu-cores") || same_text(&v, "cpucores") || same_text(&v, "cores") {
        Some(MetricKind::CpuCores)
    } else if same_text(&v, "mem") || same_text(&v, "memory") {
        Some(MetricKind::Mem)
    } else if same_text(&v, "net") || same_text(&v, "network") {
        Some(MetricKind::Net)
    } else if same_text(&v, "load") {
        Some(MetricKind::Load)
    } else if same_text(&v, "all") {
        Some(MetricKind::All)
    } else {
        None
    }
}

impl MetricKind {
    /// The metric a name stands for, ignoring case.
    pub fn from_str(s: &str) -> (r: Option<Self>)
        ensures
            r == metric_named(str_lowercase(s@)),
    {
        let lower = to_lowercase(s);
        metric_from_lowercase(lower.as_str())
    }
}

/// The panels of a chart: one for a single metric; CPU, memory, network
/// and load (in a 2x2 grid) for `All`.
pub open spec fn panels_of(metric: MetricKind) -> Seq<MetricKind> {
    if metric == MetricKind::All {
        seq![MetricKind::Cpu, MetricKind::Mem, MetricKind::Net, MetricKind::Load]
    } else {
        seq![metric]
    }
}

pub fn chart_panels(metric: MetricKind) -> (r: Vec<MetricKind>)
    ensures
        r@ == panels_of(metric),
{
    if metric == MetricKind::All {
        let r = vec![MetricKind::Cpu, MetricKind::Mem, MetricKind::Net, MetricKind::Load];
        assert(r@ =~= panels_of(metric));
        r
    } else {
        let r = vec![metric];
        assert(r@ =~= panels_of(metric));
        r
    }
}

/// One data series of a chart.
#[derive(Debug, Clone, Copy, PartialEq, Eq, Structural)]
pub enum Series {
    CpuTotal,
    /// The usage of one core, by its place in the frame's core list.
    Core(usize),
    MemUsed,
    MemCached,
    NetDownload,
    NetUpload,
    Load1,
    Load5,
    Load15,
}

/// The value a frame has for a series, as text: a decimal number, or for
/// the network series the speed as shown (e.g. "1.2 MiB/s").
pub open spec fn series_value(f: BtopFrame, series: Series) -> Option<Seq<char>> {
    match series {
        Series::CpuTotal => match f.cpu_total {
            Some(v) => Some(decimal_digits(v as nat)),
            None => None,
        },
        Series::Core(i) => if i < f.cpu_cores@.len() {
            Some(decimal_digits(f.cpu_cores@[i as int] as nat))
        } else {
            None
        },
        Series::MemUsed => match f.mem {
            Some(m) => opt_text(m.used_pct),
            None => None,
        },
        Series::MemCached => match f.mem {
            Some(m) => opt_text(m.cached_pct),
            None => None,
        },
        Series::NetDownload => match f.net {
            Some(n) => opt_text(n.download),
            None => None,
        },
        Series::NetUpload => match f.net {
            Some(n) => opt_text(n.upload),
            None => None,
        },
        Series::Load1 => match f.load_avg {
            Some((a, _, _)) => Some(a@),
            None => None,
        },
        Series::Load5 => match f.load_avg {
            Some((_, b, _)) => Some(b@),
            None => None,
        },
        Series::Load15 => match f.load_avg {
            Some((_, _, c)) => Some(c@),
            None => None,
        },
    }
}

/// The points of a series: (timestamp bits, value text) for every frame
/// that has a value, in frame order.
pub open spec fn series_points_of(frames: Seq<BtopFrame>, series: Series) -> Seq<(u64, Seq<char>)>
    decreases frames.len(),
{
    if frames.len() == 0 {
        Seq::empty()
    } else {
        let prev = series_points_of(frames.drop_last(), series);
        match series_value(frames.last(), series) {
            Some(v) => prev.push((frames.last().timestamp_bits, v)),
            None => prev,
        }
    }
}

pub open spec fn points_view(points: Seq<(u64, String)>) -> Seq<(u64, Seq<char>)> {
    points.map_values(|p: (u64, String)| (p.0, p.1@))
}

fn clone_text(s: &String) -> (r: String)
    ensures
        r@ == s@,
{
    s.clone()
}

fn frame_value(f: &BtopFrame, series: Series) -> (r: Option<String>)
    ensures
        opt_text(r) == series_value(*f, series),
{
    match series {
        Series::CpuTotal => match f.cpu_total {
            Some(v) => {
                let mut s = String::new();
                push_decimal(&mut s, v);
                assert(s@ =~= decimal_digits(v as nat));
                Some(s)
            },
            None => None,
        },
        Series::Core(i) => if i < f.cpu_cores.len() {
            let mut s = String::new();
            push_decimal(&mut s, f.cpu_cores[i]);
            assert(s@ =~= decimal_digits(f.cpu_cores@[i as int] as nat));
            Some(s)
        } else {
            None
        },
        Series::MemUsed => match &f.mem {
            Some(m) => match &m.used_pct {
                Some(t) => Some(clone_text(t)),
                None => None,
            },
            None => None,
        },
        Series::MemCached => match &f.mem {
            Some(m) => match &m.cached_pct {
                Some(t) => Some(clone_text(t)),
                None => None,
            },
            None => None,
        },
        Series::NetDownload => match &f.net {
            Some(n) => match &n.download {
                Some(t) => Some(clone_text(t)),
                None => None,
            },
            None => None,
        },
        Series::NetUpload => match &f.net {
            Some(n) => match &n.upload {
                Some(t) => Some(clone_text(t)),
                None => None,
            },
            None => None,
        },
        Series::Load1 => match &f.load_avg {
            Some((a, _, _)) => Some(clone_text(a)),
            None => None,
        },
        Series::Load5 => match &f.load_avg {
            Some((_, b, _)) => Some(clone_text(b)),
            None => None,
        },
        Series::Load15 => match &f.load_avg {
            Some((_, _, c)) => Some(clone_text(c)),
            None => None,
        },
    }
}

/// The points of one series of a chart.
pub fn series_points(frames: &[BtopFrame], series: Series) -> (r: Vec<(u64, String)>)
    ensures
        points_view(r@) == series_points_of(frames@, series),
{
    let mut points: Vec<(u64, String)> = Vec::new();
    for i in 0..frames.len()
        invariant
            points_view(points@) == series_points_of(frames@.take(i as int), series),
    {
        assert(frames@.take(i + 1).drop_last() =~= frames@.take(i as int));
        assert(frames@.take(i + 1).last() == frames@[i as int]);
        match frame_value(&frames[i], series) {
            Some(v) => {
                let ghost before = points@;
                points.push((frames[i].timestamp_bits, v));
                assert(points_view(points@) =~= points_view(before).push((frames@[i as int].timestamp_bits, v@)));
            },
            None => {},
        }
    }
    assert(frames@.take(frames@.len() as int) =~= frames@);
    points
}

/// The largest number of cores any frame shows (0 for no frames).
pub open spec fn max_core_count_of(frames: Seq<BtopFrame>) -> nat
    decreases frames.len(),
{
    if frames.len() == 0 {
        0
    } else {
        let m = max_core_count_of(frames.drop_last());
        let n = frames.last().cpu_cores@.len();
        if n > m {
            n
        } else {
            m
        }
    }
}

pub fn max_core_count(frames: &[BtopFrame]) -> (n: usize)
    ensures
        n == max_core_count_of(frames@),
{
    let mut m: usize = 0;
    for i in 0..frames.len()
        invariant
            m == max_core_count_of(frames@.take(i as int)),
    {
        assert(frames@.take(i + 1).drop_last() =~= frames@.take(i as int));
        assert(frames@.take(i + 1).last() == frames@[i as int]);
        let n = frames[i].cpu_cores.len();
        if n > m {
            m = n;
        }
    }
    assert(frames@.take(frames@.len() as int) =~= frames@);
    m
}

/// The multiplier of a lowercased speed unit: GiB/GB 2^30, MiB/MB 2^20,
/// KiB/KB 2^10, anything else 1.
pub open spec fn unit_multiplier(unit: Seq<char>) -> u64 {
    if has_prefix(unit, "gib"@) || has_prefix(unit, "gb"@) {
        1073741824
    } else if has_prefix(unit, "mib"@) || has_prefix(unit, "mb"@) {
        1048576
    } else if has_prefix(unit, "kib"@) || has_prefix(unit, "kb"@) {
        1024
    } else {
        1
    }
}

pub fn unit_scale(unit: &str) -> (m: u64)
    ensures
        m == unit_multiplier(unit@),
{
    let u = chars_of(unit);
    if starts_with(&u, "gib") || starts_with(&u, "gb") {
        1073741824
    } else if starts_with(&u, "mib") || starts_with(&u, "mb") {
        1048576
    } else if starts_with(&u, "kib") || starts_with(&u, "kb") {
        1024
    } else {
        1
    }
}

/// A speed as shown by btop, taken apart: the number text (its first
/// word; none for blank text) and the multiplier of its unit (its second
/// word, lowercased; 1 without one).  The speed in bytes/s is the number
/// times the multiplier, or 0 when the number does not parse.
pub struct SpeedParts {
    pub number: Option<String>,
    pub multiplier: u64,
}

pub open spec fn speed_number(s: Seq<char>) -> Option<Seq<char>> {
    match first_word(s) {
        Some((w, _)) => Some(w),
        None => None,
    }
}

pub open spec fn speed_multiplier(s: Seq<char>) -> u64 {
    match first_word(s) {
        Some((_, rest)) => match first_word(rest) {
            Some((unit, _)) => unit_multiplier(str_lowercase(unit)),
            None => 1,
        },
        None => 1,
    }
}

pub fn speed_parts(s: &str) -> (r: SpeedParts)
    ensures
        opt_text(r.number) == speed_number(s@),
        r.multiplier == speed_multiplier(s@),
{
    let v = chars_of(s);
    assert(v@.subrange(0, v@.len() as int) =~= v@);
    match next_word(&v, 0) {
        None => SpeedParts { number: None, multiplier: 1 },
        Some((number, end)) => {
            let multiplier = match next_word(&v, end) {
                Some((unit, _)) => {
                    let lower = to_lowercase(unit.as_str());
                    unit_scale(lower.as_str())
                },
                None => 1,
            };
            SpeedParts { number: Some(number), multiplier }
        },
    }
}

} // verus!

verus! {

/// Each series takes its own field of a frame: appending a frame adds a
/// point (the frame's time, the value) exactly when the frame has that
/// field.  The CPU total and core `i` give their decimal digits; used and
/// cached memory their percentages; download and upload their speeds; and
/// the 1-, 5- and 15-minute load series the first, second and third load
/// average.
pub proof fn lemma_series_fields(frames: Seq<BtopFrame>, f: BtopFrame, core: usize)
    ensures
        ({
            let pts = |s: Series| series_points_of(frames.push(f), s);
            let old_pts = |s: Series| series_points_of(frames, s);
            let t = f.timestamp_bits;
            &&& f.load_avg matches Some((a, b, c)) ==> {
                &&& pts(Series::Load1) == old_pts(Series::Load1).push((t, a@))
                &&& pts(Series::Load5) == old_pts(Series::Load5).push((t, b@))
                &&& pts(Series::Load15) == old_pts(Series::Load15).push((t, c@))
            }
            &&& f.load_avg is None ==> {
                &&& pts(Series::Load1) == old_pts(Series::Load1)
                &&& pts(Series::Load5) == old_pts(Series::Load5)
                &&& pts(Series::Load15) == old_pts(Series::Load15)
            }
            &&& f.cpu_total matches Some(v) ==> pts(Series::CpuTotal) == old_pts(Series::CpuTotal).push(
                (t, decimal_digits(v as nat)),
            )
            &&& f.cpu_total is None ==> pts(Series::CpuTotal) == old_pts(Series::CpuTotal)
            &&& core < f.cpu_cores@.len() ==> pts(Series::Core(core)) == old_pts(Series::Core(core)).push(
                (t, decimal_digits(f.cpu_cores@[core as int] as nat)),
            )
            &&& core >= f.cpu_cores@.len() ==> pts(Series::Core(core)) == old_pts(Series::Core(core))
            &&& f.mem matches Some(m) ==> {
                &&& m.used_pct matches Some(u) ==> pts(Series::MemUsed) == old_pts(Series::MemUsed).push((t, u@))
                &&& m.used_pct is None ==> pts(Series::MemUsed) == old_pts(Series::MemUsed)
                &&& m.cached_pct matches Some(u) ==> pts(Series::MemCached) == old_pts(Series::MemCached).push(
                    (t, u@),
                )
                &&& m.cached_pct is None ==> pts(Series::MemCached) == old_pts(Series::MemCached)
            }
            &&& f.mem is None ==> pts(Series::MemUsed) == old_pts(Series::MemUsed) && pts(Series::MemCached)
                == old_pts(Series::MemCached)
            &&& f.net matches Some(n) ==> {
                &&& n.download matches Some(d) ==> pts(Series::NetDownload) == old_pts(Series::NetDownload).push(
                    (t, d@),
                )
                &&& n.download is None ==> pts(Series::NetDownload) == old_pts(Series::NetDownload)
                &&& n.upload matches Some(u) ==> pts(Series::NetUpload) == old_pts(Series::NetUpload).push((t, u@))
                &&& n.upload is None ==> pts(Series::NetUpload) == old_pts(Series::NetUpload)
            }
            &&& f.net is None ==> pts(Series::NetDownload) == old_pts(Series::NetDownload) && pts(
                Series::NetUpload,
            ) == old_pts(Series::NetUpload)
        }),
{
    let all = frames.push(f);
    assert(all.drop_last() =~= frames);
    assert(all.last() == f);
}

} // verus!

verus! {

/// The metric names, as a lowercased name reads: "cpu" is the CPU total;
/// "cpu-cores", "cpucores" and "cores" the per-core usage; "mem" and
/// "memory" memory; "net" and "network" the network; "load" the load
/// average; "all" every panel.  No other name names a metric.
pub proof fn lemma_metric_names(name: Seq<char>)
    ensures
        metric_named("cpu"@) == Some(MetricKind::Cpu),
        metric_named("cpu-cores"@) == Some(MetricKind::CpuCores),
        metric_named("cpucores"@) == Some(MetricKind::CpuCores),
        metric_named("cores"@) == Some(MetricKind::CpuCores),
        metric_named("mem"@) == Some(MetricKind::Mem),
        metric_named("memory"@) == Some(MetricKind::Mem),
        metric_named("net"@) == Some(MetricKind::Net),
        metric_named("network"@) == Some(MetricKind::Net),
        metric_named("load"@) == Some(MetricKind::Load),
        metric_named("all"@) == Some(MetricKind::All),
        metric_named(name) is Some ==> name == "cpu"@ || name == "cpu-cores"@ || name == "cpucores"@ || name
            == "cores"@ || name == "mem"@ || name == "memory"@ || name == "net"@ || name == "network"@ || name
            == "load"@ || name == "all"@,
{
    reveal_strlit("cpu");
    reveal_strlit("cpu-cores");
    reveal_strlit("cpucores");
    reveal_strlit("cores");
    reveal_strlit("mem");
    reveal_strlit("memory");
    reveal_strlit("net");
    reveal_strlit("network");
    reveal_strlit("load");
    reveal_strlit("all");
    assert("cpu"@ =~= seq!['c', 'p', 'u']);
    assert("cpu-cores"@ =~= seq!['c', 'p', 'u', '-', 'c', 'o', 'r', 'e', 's']);
    assert("cpucores"@ =~= seq!['c', 'p', 'u', 'c', 'o', 'r', 'e', 's']);
    assert("cores"@ =~= seq!['c', 'o', 'r', 'e', 's']);
    assert("mem"@ =~= seq!['m', 'e', 'm']);
    assert("memory"@ =~= seq!['m', 'e', 'm', 'o', 'r', 'y']);
    assert("net"@ =~= seq!['n', 'e', 't']);
    assert("network"@ =~= seq!['n', 'e', 't', 'w', 'o', 'r', 'k']);
    assert("load"@ =~= seq!['l', 'o', 'a', 'd']);
    assert("all"@ =~= seq!['a', 'l', 'l']);
}

} // verus!
