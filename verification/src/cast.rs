//! Asciicast v2 records: the header and the events, and the rules for
//! reading them line by line.
use vstd::prelude::*;

use crate::text::{trim, trim_str};
use vstd::utf8::encode_utf8;

verus! {

/// Asciicast v2 header.
#[derive(Debug, Clone)]
pub struct CastHeader {
    pub version: u32,
    pub width: u32,
    pub height: u32,
    pub timestamp: Option<u64>,
    pub title: Option<String>,
    /// The `env` object, as JSON text.
    pub env: Option<String>,
}

impl CastHeader {
    /// A version 2 header for a `width` x `height` terminal recorded at
    /// `timestamp` (seconds since the Unix epoch, if known).
    pub fn new(width: u32, height: u32, timestamp: Option<u64>) -> (h: Self)
        ensures
            h.version == 2,
            h.width == width,
            h.height == height,
            h.timestamp == timestamp,
            h.title is None,
            h.env is None,
    {
        CastHeader { version: 2, width, height, timestamp, title: None, env: None }
    }
}

/// A single asciicast v2 event: [time, event_type, data].
#[derive(Debug, Clone)]
pub struct CastEvent {
    /// Seconds since the start of the recording, as the bits of an IEEE-754
    /// double (`f64::to_bits`).
    pub time_bits: u64,
    pub event_type: String,
    pub data: String,
}

/// Why a recording cannot be read.
#[derive(Debug, Clone, Copy, PartialEq, Eq, Structural)]
pub enum CastError {
    /// The header announces a format version other than 2.
    UnsupportedVersion(u32),
}

/// Only asciicast version 2 is read.
pub fn check_version(header: &CastHeader) -> (r: Result<(), CastError>)
    ensures
        header.version == 2 ==> r is Ok,
        header.version != 2 ==> r == Err::<(), CastError>(CastError::UnsupportedVersion(header.version)),
{
    if header.version != 2 {
        Err(CastError::UnsupportedVersion(header.version))
    } else {
        Ok(())
    }
}

/// The text of a header line: the line without surrounding white space.
pub fn header_text(line: &str) -> (r: String)
    ensures
        r@ == trim(line@),
{
    trim_str(line)
}

/// The text of an event line, or `None` for a blank line, which readers
/// skip.
pub fn event_text(line: &str) -> (r: Option<String>)
    ensures
        trim(line@).len() == 0 ==> r is None,
        trim(line@).len() > 0 ==> (r matches Some(t) && t@ == trim(line@)),
{
    let t = trim_str(line);
    if t.as_str().is_empty() {
        None
    } else {
        Some(t)
    }
}

/// What `String::from_utf8_lossy` makes of a byte string: its UTF-8
/// decoding, with U+FFFD in place of each invalid sequence.
pub uninterp spec fn utf8_lossy(bytes: Seq<u8>) -> Seq<char>;

/// `String::from_utf8_lossy`, made owned.  The contract names the decoding
/// and states what the documentation promises: valid UTF-8 decodes to the
/// text it encodes.  How invalid sequences are replaced is left to the name.
#[verifier::external_body]
fn decode_utf8_lossy(bytes: &[u8]) -> (s: String)
    ensures
        s@ == utf8_lossy(bytes@),
        forall|cs: Seq<char>| #[trigger] encode_utf8(cs) == bytes@ ==> s@ == cs,
{
    String::from_utf8_lossy(bytes).into_owned()
}

/// The output event for bytes the recorded program wrote at `time_bits`.
/// When the bytes are valid UTF-8, the event's data encodes back to exactly
/// those bytes, so a replay feeds the terminal what the program wrote.
pub fn output_event(time_bits: u64, bytes: &[u8]) -> (e: CastEvent)
    ensures
        e.time_bits == time_bits,
        e.event_type@ == "o"@,
        e.data@ == utf8_lossy(bytes@),
        (exists|cs: Seq<char>| #[trigger] encode_utf8(cs) == bytes@) ==> encode_utf8(e.data@) == bytes@,
{
    let data = decode_utf8_lossy(bytes);
    CastEvent { time_bits, event_type: String::from_str("o"), data }
}

} // verus!
