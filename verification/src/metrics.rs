//! The metrics read off one btop screen.
use vstd::prelude::*;

verus! {

pub open spec fn opt_text(o: Option<String>) -> Option<Seq<char>> {
    match o {
        Some(s) => Some(s@),
        None => None,
    }
}

/// A single extracted btop frame's metrics.  Numbers keep the decimal text
/// shown on screen (digits with at most one point), so no precision is
/// lost before a caller converts them.
#[derive(Debug, Clone)]
pub struct BtopFrame {
    /// Timestamp in seconds from recording start, as the bits of an
    /// IEEE-754 double (`f64::to_bits`).
    pub timestamp_bits: u64,
    /// Overall CPU usage percentage (0-100).
    pub cpu_total: Option<u64>,
    /// Per-core CPU usage percentages (each 0-100), by core number.
    pub cpu_cores: Vec<u64>,
    /// Load averages: (1m, 5m, 15m), as decimal text.
    pub load_avg: Option<(String, String, String)>,
    /// Memory metrics.
    pub mem: Option<MemMetrics>,
    /// Network metrics.
    pub net: Option<NetMetrics>,
}

#[derive(Debug, Clone)]
pub struct MemMetrics {
    /// Total memory string (e.g. "15.6 GiB").
    pub total: String,
    /// Used percentage, as decimal digits.
    pub used_pct: Option<String>,
    /// Available percentage, as decimal digits.
    pub available_pct: Option<String>,
    /// Cached percentage, as decimal digits.
    pub cached_pct: Option<String>,
    /// Free percentage, as decimal digits.
    pub free_pct: Option<String>,
}

#[derive(Debug, Clone)]
pub struct NetMetrics {
    /// Download speed string (e.g. "1.2 MiB/s").
    pub download: Option<String>,
    /// Upload speed string (e.g. "256 KiB/s").
    pub upload: Option<String>,
}

pub struct MemView {
    pub total: Seq<char>,
    pub used_pct: Option<Seq<char>>,
    pub available_pct: Option<Seq<char>>,
    pub cached_pct: Option<Seq<char>>,
    pub free_pct: Option<Seq<char>>,
}

pub struct NetView {
    pub download: Option<Seq<char>>,
    pub upload: Option<Seq<char>>,
}

pub struct FrameView {
    pub timestamp_bits: u64,
    pub cpu_total: Option<u64>,
    pub cpu_cores: Seq<u64>,
    pub load_avg: Option<(Seq<char>, Seq<char>, Seq<char>)>,
    pub mem: Option<MemView>,
    pub net: Option<NetView>,
}

impl View for MemMetrics {
    type V = MemView;

    open spec fn view(&self) -> MemView {
        MemView {
            total: self.total@,
            used_pct: opt_text(self.used_pct),
            available_pct: opt_text(self.available_pct),
            cached_pct: opt_text(self.cached_pct),
            free_pct: opt_text(self.free_pct),
        }
    }
}

impl View for NetMetrics {
    type V = NetView;

    open spec fn view(&self) -> NetView {
        NetView { download: opt_text(self.download), upload: opt_text(self.upload) }
    }
}

impl View for BtopFrame {
    type V = FrameView;

    open spec fn view(&self) -> FrameView {
        FrameView {
            timestamp_bits: self.timestamp_bits,
            cpu_total: self.cpu_total,
            cpu_cores: self.cpu_cores@,
            load_avg: match self.load_avg {
                Some((a, b, c)) => Some((a@, b@, c@)),
                None => None,
            },
            mem: match self.mem {
                Some(m) => Some(m@),
                None => None,
            },
            net: match self.net {
                Some(n) => Some(n@),
                None => None,
            },
        }
    }
}

} // verus!
