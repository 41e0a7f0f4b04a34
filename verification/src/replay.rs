//! Replay logic: where the frames of a recording end, how the terminal is
//! brought to a frame, and what the playback keys do.
use vstd::prelude::*;

use crate::cast::{CastEvent, CastHeader};
use crate::extract::{after_output, is_output_event};
use crate::text::{chars_of, decimal_digits, push_decimal, same_text, string_push};
use crate::vterm::{
    erase_display, erase_line, grid_ok, initial_state, run, run_ok, settled, step, step_csi, step_execute, step_print,
    VirtualTerminal, VtState,
};
use crate::ansi::{vte_actions, ActionView};
use vstd::utf8::encode_utf8;

verus! {

/// Index of a frame: which events constitute it and its timestamp.
#[derive(Debug, Clone, Copy, PartialEq, Eq, Structural)]
pub struct FrameIndex {
    /// Index of the last event in this frame (inclusive).
    pub end_event: usize,
    /// Timestamp of this frame, as the bits of an IEEE-754 double.
    pub timestamp_bits: u64,
}

fn is_output(e: &CastEvent) -> (b: bool)
    ensures
        b == is_output_event(*e),
{
    let kind = chars_of(e.event_type.as_str());
    same_text(&kind, "o")
}

/// Replay `events` on `s`, each output event fed after clearing the
/// sync-end flag, noting (by its index in `events`) every output event
/// after which a synchronized update has ended.
pub open spec fn index_run(s: VtState, events: Seq<CastEvent>) -> (VtState, Seq<FrameIndex>)
    decreases events.len(),
{
    if events.len() == 0 {
        (s, Seq::empty())
    } else {
        let (s1, idx) = index_run(s, events.drop_last());
        let e = events.last();
        if !is_output_event(e) {
            (s1, idx)
        } else {
            let s2 = after_output(s1, e);
            if s2.sync_end_seen {
                (s2, idx.push(FrameIndex { end_event: (events.len() - 1) as usize, timestamp_bits: e.time_bits }))
            } else {
                (s2, idx)
            }
        }
    }
}

/// Feeding the events in order, as they are, never makes an action that
/// fails (see [`action_fails`](crate::vterm::action_fails)).
pub open spec fn feed_ok(s: VtState, events: Seq<CastEvent>) -> bool
    decreases events.len(),
{
    events.len() == 0 || (feed_ok(s, events.drop_last()) && (is_output_event(events.last()) ==> run_ok(
        feed_run(s, events.drop_last()),
        vte_actions(encode_utf8(events.last().data@)),
    )))
}

/// Feeding the events in order, the sync-end flag cleared before each
/// output event, never makes an action that fails.
pub open spec fn step_ok(s: VtState, events: Seq<CastEvent>) -> bool
    decreases events.len(),
{
    events.len() == 0 || (step_ok(s, events.drop_last()) && (is_output_event(events.last()) ==> run_ok(
        without_flag(step_run(s, events.drop_last())),
        vte_actions(encode_utf8(events.last().data@)),
    )))
}

/// Build frame index by scanning for sync-end markers.
pub fn build_frame_index(header: &CastHeader, events: &[CastEvent]) -> (frames: Vec<FrameIndex>)
    requires
        step_ok(initial_state(header.width as nat, header.height as nat), events@),
    ensures
        frames@ == index_run(initial_state(header.width as nat, header.height as nat), events@).1,
        index_fits(frames@, events@),
{
    let mut vt = VirtualTerminal::new(header.width as usize, header.height as usize);
    let ghost s0 = vt@;
    let mut frames: Vec<FrameIndex> = Vec::new();
    assert(events@.take(0) =~= Seq::<CastEvent>::empty());
    for i in 0..events.len()
        invariant
            s0 == initial_state(header.width as nat, header.height as nat),
            step_ok(s0, events@),
            grid_ok(vt@),
            vt@ == index_run(s0, events@.take(i as int)).0,
            frames@ == index_run(s0, events@.take(i as int)).1,
    {
        let event = &events[i];
        let ghost prefix = events@.take(i as int);
        assert(events@.take(i + 1).drop_last() =~= prefix);
        assert(events@.take(i + 1).last() == *event);
        assert(events@.take(i + 1).len() - 1 == i);
        if is_output(event) {
            proof {
                lemma_step_ok_prefix(s0, events@, i + 1);
                lemma_index_run_state(s0, prefix);
            }
            vt.sync_end_seen = false;
            vt.feed(event.data.as_str().as_bytes());
            if vt.sync_end_seen {
                frames.push(FrameIndex { end_event: i, timestamp_bits: event.time_bits });
            }
        }
    }
    assert(events@.take(events@.len() as int) =~= events@);
    proof {
        lemma_frame_index_entries(s0, events@);
    }
    frames
}

/// The frames of an index end inside the recording, in increasing order.
pub open spec fn index_fits(frame_indices: Seq<FrameIndex>, events: Seq<CastEvent>) -> bool {
    &&& forall|i: int| 0 <= i < frame_indices.len() ==> (#[trigger] frame_indices[i]).end_event < events.len()
    &&& forall|i: int, j: int|
        0 <= i < j < frame_indices.len() ==> (#[trigger] frame_indices[i]).end_event
            < (#[trigger] frame_indices[j]).end_event
}

/// [`build_frame_index`] for any recording: `None` when some output event
/// makes an action that fails (where indexing would index past the grid),
/// else the frame index.
pub fn try_build_frame_index(header: &CastHeader, events: &[CastEvent]) -> (r: Option<Vec<FrameIndex>>)
    ensures
        r is Some <==> step_ok(initial_state(header.width as nat, header.height as nat), events@),
        r matches Some(frames) ==> frames@ == index_run(
            initial_state(header.width as nat, header.height as nat),
            events@,
        ).1,
{
    let mut vt = VirtualTerminal::new(header.width as usize, header.height as usize);
    let ghost s0 = vt@;
    let mut frames: Vec<FrameIndex> = Vec::new();
    assert(events@.take(0) =~= Seq::<CastEvent>::empty());
    for i in 0..events.len()
        invariant
            s0 == initial_state(header.width as nat, header.height as nat),
            step_ok(s0, events@.take(i as int)),
            grid_ok(vt@),
            vt@ == index_run(s0, events@.take(i as int)).0,
            frames@ == index_run(s0, events@.take(i as int)).1,
    {
        let event = &events[i];
        let ghost prefix = events@.take(i as int);
        assert(events@.take(i + 1).drop_last() =~= prefix);
        assert(events@.take(i + 1).last() == *event);
        assert(events@.take(i + 1).len() - 1 == i);
        proof {
            lemma_index_run_state(s0, prefix);
        }
        if is_output(event) {
            vt.sync_end_seen = false;
            if !vt.try_feed(event.data.as_str().as_bytes()) {
                proof {
                    if step_ok(s0, events@) {
                        lemma_step_ok_prefix(s0, events@, i + 1);
                    }
                }
                return None;
            }
            if vt.sync_end_seen {
                frames.push(FrameIndex { end_event: i, timestamp_bits: event.time_bits });
            }
        }
    }
    assert(events@.take(events@.len() as int) =~= events@);
    Some(frames)
}

/// Feed the output events of `events` in order, as they are, without
/// clearing the sync-end flag in between.
pub open spec fn feed_run(s: VtState, events: Seq<CastEvent>) -> VtState
    decreases events.len(),
{
    if events.len() == 0 {
        s
    } else {
        let s1 = feed_run(s, events.drop_last());
        let e = events.last();
        if is_output_event(e) {
            run(s1, vte_actions(encode_utf8(e.data@)))
        } else {
            s1
        }
    }
}

/// Feed all events from the beginning up to and including the given frame.
pub fn feed_events_to_frame(
    vt: &mut VirtualTerminal,
    events: &[CastEvent],
    frame_indices: &[FrameIndex],
    frame: usize,
)
    requires
        grid_ok(old(vt)@),
        frame < frame_indices@.len(),
        frame_indices@[frame as int].end_event < events@.len(),
        feed_ok(old(vt)@, events@.take(frame_indices@[frame as int].end_event + 1)),
    ensures
        grid_ok(final(vt)@),
        final(vt).width == old(vt).width,
        final(vt).height == old(vt).height,
        final(vt)@ == feed_run(old(vt)@, events@.take(frame_indices@[frame as int].end_event + 1)),
{
    let end = frame_indices[frame].end_event;
    let n = events.len();
    assert(end < n);
    let ghost upto = events@.take(end + 1);
    assert(events@.take(0) =~= Seq::<CastEvent>::empty());
    for i in 0..end + 1
        invariant
            end < events@.len(),
            upto == events@.take(end + 1),
            feed_ok(old(vt)@, upto),
            grid_ok(vt@),
            vt.width == old(vt).width && vt.height == old(vt).height,
            vt@ == feed_run(old(vt)@, events@.take(i as int)),
    {
        assert(events@.take(i + 1).drop_last() =~= events@.take(i as int));
        assert(events@.take(i + 1).last() == events@[i as int]);
        if is_output(&events[i]) {
            proof {
                lemma_feed_ok_prefix(old(vt)@, upto, i + 1);
                assert(upto.take(i + 1) =~= events@.take(i + 1));
            }
            vt.feed(events[i].data.as_str().as_bytes());
        }
    }
}

/// The terminal after the output events of `events`, in order, each fed
/// after clearing the sync-end flag.
pub open spec fn step_run(s: VtState, events: Seq<CastEvent>) -> VtState
    decreases events.len(),
{
    if events.len() == 0 {
        s
    } else {
        let s1 = step_run(s, events.drop_last());
        let e = events.last();
        if is_output_event(e) {
            after_output(s1, e)
        } else {
            s1
        }
    }
}

/// The first event of a frame: just after the end of the frame before.
pub open spec fn frame_start(frame_indices: Seq<FrameIndex>, frame: int) -> int {
    if frame > 0 {
        frame_indices[frame - 1].end_event + 1
    } else {
        0
    }
}

/// Advance a terminal showing the frame before `frame` to `frame`: feed the
/// frame's own output events, clearing the sync-end flag before each.
pub fn feed_frame_events(
    vt: &mut VirtualTerminal,
    events: &[CastEvent],
    frame_indices: &[FrameIndex],
    frame: usize,
)
    requires
        grid_ok(old(vt)@),
        frame < frame_indices@.len(),
        frame_indices@[frame as int].end_event < events@.len(),
        frame_start(frame_indices@, frame as int) <= frame_indices@[frame as int].end_event + 1,
        step_ok(
            old(vt)@,
            events@.subrange(
                frame_start(frame_indices@, frame as int),
                frame_indices@[frame as int].end_event + 1,
            ),
        ),
    ensures
        grid_ok(final(vt)@),
        final(vt).width == old(vt).width,
        final(vt).height == old(vt).height,
        final(vt)@ == step_run(
            old(vt)@,
            events@.subrange(
                frame_start(frame_indices@, frame as int),
                frame_indices@[frame as int].end_event + 1,
            ),
        ),
{
    let end = frame_indices[frame].end_event;
    let n = events.len();
    assert(end < n);
    let start = if frame > 0 { frame_indices[frame - 1].end_event + 1 } else { 0 };
    let ghost lo = start as int;
    let ghost span = events@.subrange(lo, end + 1);
    assert(events@.subrange(lo, lo) =~= Seq::<CastEvent>::empty());
    for i in start..end + 1
        invariant
            lo == start,
            end < events@.len(),
            span == events@.subrange(lo, end + 1),
            step_ok(old(vt)@, span),
            grid_ok(vt@),
            vt.width == old(vt).width && vt.height == old(vt).height,
            vt@ == step_run(old(vt)@, events@.subrange(lo, i as int)),
    {
        assert(events@.subrange(lo, i + 1).drop_last() =~= events@.subrange(lo, i as int));
        assert(events@.subrange(lo, i + 1).last() == events@[i as int]);
        if is_output(&events[i]) {
            proof {
                lemma_step_ok_prefix(old(vt)@, span, i + 1 - lo);
                assert(span.take(i + 1 - lo) =~= events@.subrange(lo, i + 1));
            }
            vt.sync_end_seen = false;
            vt.feed(events[i].data.as_str().as_bytes());
        }
    }
}

/// What the player shows at frame `frame`: the terminal brought there from
/// the start, every output event up to the frame's end fed in order.
pub open spec fn seek_state(s: VtState, events: Seq<CastEvent>, frame_indices: Seq<FrameIndex>, frame: int) -> VtState {
    feed_run(s, events.take(frame_indices[frame].end_event + 1))
}

/// Seek: a fresh `width` x `height` terminal brought to frame `frame`.
pub fn terminal_at_frame(header: &CastHeader, events: &[CastEvent], frame_indices: &[FrameIndex], frame: usize) -> (vt:
    VirtualTerminal)
    requires
        header.width > 0,
        header.height > 0,
        frame < frame_indices@.len(),
        index_fits(frame_indices@, events@),
    ensures
        vt@ == seek_state(
            initial_state(header.width as nat, header.height as nat),
            events@,
            frame_indices@,
            frame as int,
        ),
        settled(vt@),
        vt.width == header.width as usize,
        vt.height == header.height as usize,
{
    let mut vt = VirtualTerminal::new(header.width as usize, header.height as usize);
    proof {
        let s0 = vt@;
        assert(grid_ok(s0));
        lemma_settled_takes_events(s0, events@.take(frame_indices@[frame as int].end_event + 1));
    }
    feed_events_to_frame(&mut vt, events, frame_indices, frame);
    vt
}

/// Play on from frame `from` to frame `to`: feed the events of each frame
/// after `from` in turn, clearing the sync-end flag before each output
/// event.  A terminal that shows frame `from` as seeking does then shows
/// frame `to` as seeking does, but for the sync-end flag.
pub fn advance_frames(
    vt: &mut VirtualTerminal,
    header: &CastHeader,
    events: &[CastEvent],
    frame_indices: &[FrameIndex],
    from: usize,
    to: usize,
)
    requires
        header.width > 0,
        header.height > 0,
        from <= to < frame_indices@.len(),
        index_fits(frame_indices@, events@),
        settled(old(vt)@),
        old(vt).width == header.width as usize,
        old(vt).height == header.height as usize,
        without_flag(old(vt)@) == without_flag(
            seek_state(
                initial_state(header.width as nat, header.height as nat),
                events@,
                frame_indices@,
                from as int,
            ),
        ),
    ensures
        final(vt)@ == step_run(
            old(vt)@,
            events@.subrange(
                frame_indices@[from as int].end_event + 1,
                frame_indices@[to as int].end_event + 1,
            ),
        ),
        without_flag(final(vt)@) == without_flag(
            seek_state(
                initial_state(header.width as nat, header.height as nat),
                events@,
                frame_indices@,
                to as int,
            ),
        ),
        settled(final(vt)@),
        final(vt).width == old(vt).width,
        final(vt).height == old(vt).height,
{
    let ghost s0 = initial_state(header.width as nat, header.height as nat);
    let ghost fi = frame_indices@;
    let ghost lo = fi[from as int].end_event + 1;
    assert(events@.subrange(lo, lo) =~= Seq::<CastEvent>::empty());
    let mut k = from;
    while k < to
        invariant
            from <= k <= to < fi.len(),
            fi == frame_indices@,
            lo == fi[from as int].end_event + 1,
            index_fits(fi, events@),
            s0 == initial_state(header.width as nat, header.height as nat),
            header.width > 0 && header.height > 0,
            settled(vt@),
            vt.width == header.width as usize,
            vt.height == header.height as usize,
            without_flag(vt@) == without_flag(seek_state(s0, events@, fi, k as int)),
            vt@ == step_run(old(vt)@, events@.subrange(lo, fi[k as int].end_event + 1)),
        decreases to - k,
    {
        let next = k + 1;
        let ghost a = fi[k as int].end_event + 1;
        let ghost b = fi[next as int].end_event + 1;
        let ghost span = events@.subrange(a, b);
        proof {
            assert(fi[k as int].end_event < fi[next as int].end_event);
            assert(fi[next as int].end_event < events@.len());
            assert(frame_start(fi, next as int) == a);
            lemma_settled_takes_events(vt@, span);
            lemma_playback_matches_seek(s0, events@, fi, k as int);
            lemma_step_run_same_screen(vt@, seek_state(s0, events@, fi, k as int), span);
            lemma_step_run_append(old(vt)@, events@.subrange(lo, a), span);
            assert(events@.subrange(lo, a) + span =~= events@.subrange(lo, b));
        }
        feed_frame_events(vt, events, frame_indices, next);
        k = next;
    }
}

/// Playback state.
#[derive(Debug, Clone, Copy, PartialEq, Eq, Structural)]
pub enum PlayState {
    Playing,
    Paused,
}

/// A key as the player sees it.
#[derive(Debug, Clone, Copy, PartialEq, Eq, Structural)]
pub enum KeyCode {
    Char(char),
    Esc,
    Left,
    Right,
    Home,
    End,
    Other,
}

/// A key press and whether Control was held.
#[derive(Debug, Clone, Copy, PartialEq, Eq, Structural)]
pub struct KeyPress {
    pub code: KeyCode,
    pub ctrl: bool,
}

/// What the player does after a key press.
#[derive(Debug, Clone, Copy, PartialEq, Eq, Structural)]
pub enum KeyAction {
    Quit,
    SeekTo(usize),
    /// Jump this many seconds forward (negative: back).
    JumpSeconds(i32),
    NoAction,
}

/// How a key changes the playback speed: doubled up to 16x, halved down
/// to 0.125x.
#[derive(Debug, Clone, Copy, PartialEq, Eq, Structural)]
pub enum SpeedChange {
    Keep,
    Double,
    Halve,
}

pub open spec fn toggled(state: PlayState) -> PlayState {
    match state {
        PlayState::Playing => PlayState::Paused,
        PlayState::Paused => PlayState::Playing,
    }
}

/// The frame player's key bindings: q/Esc/Ctrl-C quit, Space pauses and
/// resumes, +/= and - change speed, Left/Right step one frame, [ and ] jump
/// ten seconds, Home/End go to the first/last frame.
pub open spec fn key_outcome(key: KeyPress, state: PlayState, current_frame: nat, total_frames: nat) -> (
    KeyAction,
    PlayState,
    SpeedChange,
) {
    match key.code {
        KeyCode::Char('q') | KeyCode::Esc => (KeyAction::Quit, state, SpeedChange::Keep),
        KeyCode::Char('c') if key.ctrl => (KeyAction::Quit, state, SpeedChange::Keep),
        KeyCode::Char(' ') => (KeyAction::NoAction, toggled(state), SpeedChange::Keep),
        KeyCode::Char('+') | KeyCode::Char('=') => (KeyAction::NoAction, state, SpeedChange::Double),
        KeyCode::Char('-') => (KeyAction::NoAction, state, SpeedChange::Halve),
        KeyCode::Left => if current_frame > 0 {
            (KeyAction::SeekTo((current_frame - 1) as usize), state, SpeedChange::Keep)
        } else {
            (KeyAction::NoAction, state, SpeedChange::Keep)
        },
        KeyCode::Right => if current_frame + 1 < total_frames {
            (KeyAction::SeekTo((current_frame + 1) as usize), state, SpeedChange::Keep)
        } else {
            (KeyAction::NoAction, state, SpeedChange::Keep)
        },
        KeyCode::Char('[') => (KeyAction::JumpSeconds(-10i32), state, SpeedChange::Keep),
        KeyCode::Char(']') => (KeyAction::JumpSeconds(10), state, SpeedChange::Keep),
        KeyCode::Home => (KeyAction::SeekTo(0), state, SpeedChange::Keep),
        KeyCode::End => (
            KeyAction::SeekTo(if total_frames > 0 { (total_frames - 1) as usize } else { 0 }),
            state,
            SpeedChange::Keep,
        ),
        _ => (KeyAction::NoAction, state, SpeedChange::Keep),
    }
}

/// Decide what a key press does in the frame player; the pause state is
/// updated in place and the speed change returned beside the action.
pub fn handle_key(key: KeyPress, state: &mut PlayState, current_frame: usize, total_frames: usize) -> (r: (
    KeyAction,
    SpeedChange,
))
    ensures
        key_outcome(key, *old(state), current_frame as nat, total_frames as nat) == (r.0, *final(state), r.1),
{
    match key.code {
        KeyCode::Char('q') | KeyCode::Esc => (KeyAction::Quit, SpeedChange::Keep),
        KeyCode::Char('c') if key.ctrl => (KeyAction::Quit, SpeedChange::Keep),
        KeyCode::Char(' ') => {
            *state = match *state {
                PlayState::Playing => PlayState::Paused,
                PlayState::Paused => PlayState::Playing,
            };
            (KeyAction::NoAction, SpeedChange::Keep)
        },
        KeyCode::Char('+') | KeyCode::Char('=') => (KeyAction::NoAction, SpeedChange::Double),
        KeyCode::Char('-') => (KeyAction::NoAction, SpeedChange::Halve),
        KeyCode::Left => {
            // Step back one frame.
            if current_frame > 0 {
                (KeyAction::SeekTo(current_frame - 1), SpeedChange::Keep)
            } else {
                (KeyAction::NoAction, SpeedChange::Keep)
            }
        },
        KeyCode::Right => {
            // Step forward one frame.
            if current_frame < total_frames && current_frame + 1 < total_frames {
                (KeyAction::SeekTo(current_frame + 1), SpeedChange::Keep)
            } else {
                (KeyAction::NoAction, SpeedChange::Keep)
            }
        },
        KeyCode::Char('[') => (KeyAction::JumpSeconds(-10), SpeedChange::Keep),
        KeyCode::Char(']') => (KeyAction::JumpSeconds(10), SpeedChange::Keep),
        KeyCode::Home => (KeyAction::SeekTo(0), SpeedChange::Keep),
        KeyCode::End => (
            KeyAction::SeekTo(if total_frames > 0 { total_frames - 1 } else { 0 }),
            SpeedChange::Keep,
        ),
        _ => (KeyAction::NoAction, SpeedChange::Keep),
    }
}

/// The keys of the plain event player (used when a recording has no
/// synchronized updates): q/Esc quit, Space pauses and resumes, +/= and -
/// change speed.  Returns whether to quit, with the speed change.
pub open spec fn simple_key_outcome(key: KeyPress, state: PlayState) -> (bool, PlayState, SpeedChange) {
    match key.code {
        KeyCode::Char('q') | KeyCode::Esc => (true, state, SpeedChange::Keep),
        KeyCode::Char(' ') => (false, toggled(state), SpeedChange::Keep),
        KeyCode::Char('+') | KeyCode::Char('=') => (false, state, SpeedChange::Double),
        KeyCode::Char('-') => (false, state, SpeedChange::Halve),
        _ => (false, state, SpeedChange::Keep),
    }
}

pub fn handle_simple_key(key: KeyPress, state: &mut PlayState) -> (r: (bool, SpeedChange))
    ensures
        simple_key_outcome(key, *old(state)) == (r.0, *final(state), r.1),
{
    match key.code {
        KeyCode::Char('q') | KeyCode::Esc => (true, SpeedChange::Keep),
        KeyCode::Char(' ') => {
            *state = match *state {
                PlayState::Playing => PlayState::Paused,
                PlayState::Paused => PlayState::Playing,
            };
            (false, SpeedChange::Keep)
        },
        KeyCode::Char('+') | KeyCode::Char('=') => (false, SpeedChange::Double),
        KeyCode::Char('-') => (false, SpeedChange::Halve),
        _ => (false, SpeedChange::Keep),
    }
}

/// `m:ss` for a whole number of seconds.
pub open spec fn time_text(total_secs: nat) -> Seq<char> {
    let mins = total_secs / 60;
    let secs = total_secs % 60;
    decimal_digits(mins) + seq![':'] + if secs < 10 {
        seq!['0'] + decimal_digits(secs)
    } else {
        decimal_digits(secs)
    }
}

/// Format whole seconds as `m:ss`.
pub fn format_time(total_secs: u64) -> (s: String)
    ensures
        s@ == time_text(total_secs as nat),
{
    let mins = total_secs / 60;
    let secs = total_secs % 60;
    let mut s = String::new();
    push_decimal(&mut s, mins);
    string_push(&mut s, ':');
    if secs < 10 {
        string_push(&mut s, '0');
    }
    push_decimal(&mut s, secs);
    assert(s@ =~= time_text(total_secs as nat));
    s
}

} // verus!

verus! {

/// The frame index points at frame ends in order: every entry names an
/// output event of the recording and carries its time, and the entries
/// come in strictly increasing event order.
pub proof fn lemma_frame_index_entries(s: VtState, events: Seq<CastEvent>)
    requires
        events.len() <= usize::MAX,
    ensures
        forall|i: int|
            0 <= i < index_run(s, events).1.len() ==> {
                let f = #[trigger] index_run(s, events).1[i];
                &&& f.end_event < events.len()
                &&& is_output_event(events[f.end_event as int])
                &&& events[f.end_event as int].time_bits == f.timestamp_bits
            },
        forall|i: int, j: int|
            0 <= i < j < index_run(s, events).1.len() ==> (#[trigger] index_run(s, events).1[i]).end_event
                < (#[trigger] index_run(s, events).1[j]).end_event,
    decreases events.len(),
{
    if events.len() > 0 {
        let d = events.drop_last();
        lemma_frame_index_entries(s, d);
        let prev = index_run(s, d).1;
        let idx = index_run(s, events).1;
        assert forall|i: int| 0 <= i < idx.len() implies {
            let f = #[trigger] idx[i];
            &&& f.end_event < events.len()
            &&& is_output_event(events[f.end_event as int])
            &&& events[f.end_event as int].time_bits == f.timestamp_bits
        } by {
            if i < prev.len() {
                assert(idx[i] == prev[i]);
                assert(events[prev[i].end_event as int] == d[prev[i].end_event as int]);
            } else {
                assert(idx[i].end_event == events.len() - 1);
                assert(events[events.len() - 1] == events.last());
            }
        }
        assert forall|i: int, j: int| 0 <= i < j < idx.len() implies (#[trigger] idx[i]).end_event
            < (#[trigger] idx[j]).end_event by {
            if j < prev.len() {
                assert(idx[i] == prev[i] && idx[j] == prev[j]);
            } else {
                assert(idx[i] == prev[i]);
                assert(prev[i].end_event < d.len());
                assert(idx[j].end_event == events.len() - 1);
            }
        }
    }
}

/// Some entry of the index has timestamp `t`.
pub open spec fn has_timestamp(idx: Seq<FrameIndex>, t: u64) -> bool {
    exists|k: int| 0 <= k < idx.len() && (#[trigger] idx[k]).timestamp_bits == t
}

/// Frame indexing and metric extraction replay the terminal alike, and
/// every extracted frame is taken at a frame end of the index, with the
/// same timestamp.
pub proof fn lemma_index_matches_extraction(s: VtState, events: Seq<CastEvent>)
    ensures
        index_run(s, events).0 == crate::extract::extract_run(s, events).0,
        forall|i: int|
            0 <= i < crate::extract::extract_run(s, events).1.len() ==> has_timestamp(
                index_run(s, events).1,
                (#[trigger] crate::extract::extract_run(s, events).1[i]).timestamp_bits,
            ),
    decreases events.len(),
{
    if events.len() > 0 {
        let d = events.drop_last();
        lemma_index_matches_extraction(s, d);
        let fs = crate::extract::extract_run(s, events).1;
        let pf = crate::extract::extract_run(s, d).1;
        let idx = index_run(s, events).1;
        let pi = index_run(s, d).1;
        let s1 = index_run(s, d).0;
        let e = events.last();
        if is_output_event(e) && after_output(s1, e).sync_end_seen {
            assert(idx.len() == pi.len() + 1);
            assert(forall|k: int| 0 <= k < pi.len() ==> idx[k] == pi[k]);
            assert(idx[pi.len() as int].timestamp_bits == e.time_bits);
        } else {
            assert(idx == pi);
            assert(fs == pf);
        }
        assert forall|i: int| 0 <= i < fs.len() implies has_timestamp(idx, (#[trigger] fs[i]).timestamp_bits) by {
            if i < pf.len() {
                assert(fs[i] == pf[i]);
                assert(has_timestamp(pi, pf[i].timestamp_bits));
                let k = choose|k: int| 0 <= k < pi.len() && (#[trigger] pi[k]).timestamp_bits == pf[i].timestamp_bits;
                assert(idx[k] == pi[k]);
            } else {
                assert(fs[i].timestamp_bits == e.time_bits);
                assert(idx[pi.len() as int].timestamp_bits == e.time_bits);
                assert(has_timestamp(idx, fs[i].timestamp_bits));
            }
        }
    }
}

/// Space pauses a playing player and resumes a paused one, so pressing it
/// twice restores the state; no other key changes the state.
pub proof fn lemma_space_toggles(key: KeyPress, state: PlayState, current_frame: nat, total_frames: nat)
    ensures
        key.code == KeyCode::Char(' ') ==> key_outcome(key, key_outcome(key, state, current_frame, total_frames).1, current_frame, total_frames).1 == state,
        key.code == KeyCode::Char(' ') ==> key_outcome(key, state, current_frame, total_frames).1 != state,
        key.code != KeyCode::Char(' ') ==> key_outcome(key, state, current_frame, total_frames).1 == state,
{
}

/// Every seek the player asks for lands on an existing frame, given that
/// there are frames and the current one is among them.
pub proof fn lemma_seek_in_range(key: KeyPress, state: PlayState, current_frame: nat, total_frames: nat)
    requires
        current_frame < total_frames,
    ensures
        key_outcome(key, state, current_frame, total_frames).0 matches KeyAction::SeekTo(t) ==> t < total_frames,
{
}

} // verus!

verus! {

/// `m:ss` reads back as the time it shows: the minutes, a colon, then
/// exactly two digits of seconds below 60, and minutes * 60 + seconds is
/// the number of seconds formatted.
pub proof fn lemma_time_text(total_secs: nat)
    ensures
        ({
            let t = time_text(total_secs);
            &&& t.len() >= 4
            &&& t[t.len() - 3] == ':'
            &&& crate::text::all_ascii_digits(t.take(t.len() - 3))
            &&& crate::text::all_ascii_digits(t.skip(t.len() - 2))
            &&& crate::text::digits_value(t.skip(t.len() - 2)) < 60
            &&& crate::text::digits_value(t.take(t.len() - 3)) * 60 + crate::text::digits_value(
                t.skip(t.len() - 2),
            ) == total_secs
        }),
{
    let mins = total_secs / 60;
    let secs = total_secs % 60;
    let m = decimal_digits(mins);
    crate::text::lemma_decimal_round_trip(mins);
    crate::text::lemma_decimal_round_trip(secs);
    let sd = decimal_digits(secs);
    let st = if secs < 10 {
        seq!['0'] + sd
    } else {
        sd
    };
    if secs < 10 {
        assert(sd.len() == 1);
        assert(st.drop_last() =~= seq!['0']);
        assert(seq!['0'].drop_last() =~= Seq::<char>::empty());
        assert(crate::text::digits_value(Seq::<char>::empty()) == 0);
        assert(seq!['0'].last() == '0');
        assert(crate::text::digits_value(seq!['0']) == 0);
        assert(st.last() == sd.last());
        assert(sd.drop_last() =~= Seq::<char>::empty());
        assert(crate::text::digits_value(st) == crate::text::digits_value(sd));
        assert forall|i: int| 0 <= i < st.len() implies crate::text::is_ascii_digit(#[trigger] st[i]) by {
            if i == 1 {
                assert(st[1] == sd[0]);
            }
        }
    } else {
        assert(decimal_digits((secs / 10) as nat).len() == 1);
    }
    let t = time_text(total_secs);
    assert(t == m + seq![':'] + st);
    assert(t.take(t.len() - 3) =~= m);
    assert(t.skip(t.len() - 2) =~= st);
    assert(t[t.len() - 3] == ':');
    assert(mins * 60 + secs == total_secs);
}

} // verus!

verus! {

/// A terminal state without its sync-end flag: the screen, the cursor,
/// the pen and the modes.
pub open spec fn without_flag(s: VtState) -> VtState {
    VtState { sync_end_seen: false, ..s }
}

/// No CSI sequence reads the sync-end flag.
#[verifier::spinoff_prover]
proof fn lemma_csi_without_flag(s: VtState, params: Seq<Seq<u16>>, intermediates: Seq<u8>, action: char)
    ensures
        without_flag(step_csi(without_flag(s), params, intermediates, action)) == without_flag(
            step_csi(s, params, intermediates, action),
        ),
{
    let t = without_flag(s);
    let mode = crate::vterm::param_or(crate::vterm::first_param(params), 0);
    if action == 'J' {
        assert(without_flag(erase_display(t, mode)) == without_flag(erase_display(s, mode)));
    } else if action == 'K' {
        assert(without_flag(erase_line(t, mode)) == without_flag(erase_line(s, mode)));
    }
}

/// No action reads the sync-end flag.
proof fn lemma_step_without_flag(s: VtState, a: ActionView)
    ensures
        without_flag(step(without_flag(s), a)) == without_flag(step(s, a)),
{
    let t = without_flag(s);
    match a {
        ActionView::Print(c) => {
            assert(without_flag(step_print(t, c)) == without_flag(step_print(s, c)));
        },
        ActionView::Execute(b) => {
            assert(without_flag(step_execute(t, b)) == without_flag(step_execute(s, b)));
        },
        ActionView::Csi(params, intermediates, action) => {
            lemma_csi_without_flag(s, params, intermediates, action);
        },
    }
}

proof fn lemma_run_without_flag(s: VtState, actions: Seq<ActionView>)
    ensures
        without_flag(run(without_flag(s), actions)) == without_flag(run(s, actions)),
    decreases actions.len(),
{
    if actions.len() > 0 {
        let p = actions.drop_last();
        lemma_run_without_flag(s, p);
        let x = run(without_flag(s), p);
        let y = run(s, p);
        lemma_step_without_flag(x, actions.last());
        lemma_step_without_flag(y, actions.last());
        assert(without_flag(x) == without_flag(y));
    }
}

/// Feeding events with the flag cleared before each, as playback does,
/// and feeding them as they are, as seeking does, agree on everything but
/// the flag.
proof fn lemma_step_run_matches_feed_run(s: VtState, events: Seq<CastEvent>)
    ensures
        without_flag(step_run(s, events)) == without_flag(feed_run(s, events)),
    decreases events.len(),
{
    if events.len() > 0 {
        let p = events.drop_last();
        lemma_step_run_matches_feed_run(s, p);
        let e = events.last();
        if is_output_event(e) {
            let acts = vte_actions(encode_utf8(e.data@));
            let x = step_run(s, p);
            let y = feed_run(s, p);
            assert(after_output(x, e) == run(without_flag(x), acts));
            lemma_run_without_flag(y, acts);
            assert(without_flag(x) == without_flag(y));
        }
    }
}

/// Feeding two runs of events is feeding the first, then the second.
proof fn lemma_feed_run_append(s: VtState, a: Seq<CastEvent>, b: Seq<CastEvent>)
    ensures
        feed_run(s, a + b) == feed_run(feed_run(s, a), b),
    decreases b.len(),
{
    if b.len() == 0 {
        assert(a + b =~= a);
    } else {
        lemma_feed_run_append(s, a, b.drop_last());
        assert((a + b).drop_last() =~= a + b.drop_last());
        assert((a + b).last() == b.last());
    }
}

/// Playing a recording frame by frame shows what seeking shows: a terminal
/// brought to frame `k` from the start and then fed the events of frame
/// `k + 1`, the sync-end flag cleared before each, is the terminal brought
/// to frame `k + 1` from the start, but for that flag.
pub proof fn lemma_playback_matches_seek(
    s: VtState,
    events: Seq<CastEvent>,
    frame_indices: Seq<FrameIndex>,
    k: int,
)
    requires
        0 <= k,
        k + 1 < frame_indices.len(),
        frame_indices[k].end_event <= frame_indices[k + 1].end_event,
        frame_indices[k + 1].end_event < events.len(),
    ensures
        without_flag(
            step_run(
                feed_run(s, events.take(frame_indices[k].end_event + 1)),
                events.subrange(frame_start(frame_indices, k + 1), frame_indices[k + 1].end_event + 1),
            ),
        ) == without_flag(feed_run(s, events.take(frame_indices[k + 1].end_event + 1))),
{
    let lo = frame_indices[k].end_event + 1;
    let hi = frame_indices[k + 1].end_event + 1;
    let a = events.take(lo);
    let b = events.subrange(lo, hi);
    assert(frame_start(frame_indices, k + 1) == lo);
    assert(events.take(hi) =~= a + b);
    lemma_feed_run_append(s, a, b);
    lemma_step_run_matches_feed_run(feed_run(s, a), b);
}

} // verus!

verus! {

proof fn lemma_feed_ok_prefix(s: VtState, events: Seq<CastEvent>, k: int)
    requires
        feed_ok(s, events),
        0 <= k <= events.len(),
    ensures
        feed_ok(s, events.take(k)),
    decreases events.len(),
{
    if k == events.len() {
        assert(events.take(k) =~= events);
    } else {
        lemma_feed_ok_prefix(s, events.drop_last(), k);
        assert(events.drop_last().take(k) =~= events.take(k));
    }
}

proof fn lemma_step_ok_prefix(s: VtState, events: Seq<CastEvent>, k: int)
    requires
        step_ok(s, events),
        0 <= k <= events.len(),
    ensures
        step_ok(s, events.take(k)),
    decreases events.len(),
{
    if k == events.len() {
        assert(events.take(k) =~= events);
    } else {
        lemma_step_ok_prefix(s, events.drop_last(), k);
        assert(events.drop_last().take(k) =~= events.take(k));
    }
}

/// Indexing frames replays the terminal as playback does.
proof fn lemma_index_run_state(s: VtState, events: Seq<CastEvent>)
    ensures
        index_run(s, events).0 == step_run(s, events),
    decreases events.len(),
{
    if events.len() > 0 {
        lemma_index_run_state(s, events.drop_last());
    }
}

/// A settled terminal with rows and columns takes any recording, fed
/// either way, and stays settled: every output event can be fed.
pub proof fn lemma_settled_takes_events(s: VtState, events: Seq<CastEvent>)
    requires
        settled(s),
        s.width > 0,
        s.height > 0,
    ensures
        feed_ok(s, events),
        step_ok(s, events),
        settled(feed_run(s, events)),
        settled(step_run(s, events)),
        feed_run(s, events).width == s.width && feed_run(s, events).height == s.height,
        step_run(s, events).width == s.width && step_run(s, events).height == s.height,
    decreases events.len(),
{
    if events.len() > 0 {
        let p = events.drop_last();
        lemma_settled_takes_events(s, p);
        let acts = vte_actions(encode_utf8(events.last().data@));
        crate::vterm::lemma_settled_takes_all(feed_run(s, p), acts);
        crate::vterm::lemma_settled_takes_all(without_flag(step_run(s, p)), acts);
        assert(after_output(step_run(s, p), events.last()) == run(without_flag(step_run(s, p)), acts));
    }
}

} // verus!

verus! {

/// Terminals that agree but for the sync-end flag still agree so after the
/// same events are played on both.
proof fn lemma_step_run_same_screen(x: VtState, y: VtState, events: Seq<CastEvent>)
    requires
        without_flag(x) == without_flag(y),
    ensures
        without_flag(step_run(x, events)) == without_flag(step_run(y, events)),
    decreases events.len(),
{
    if events.len() > 0 {
        lemma_step_run_same_screen(x, y, events.drop_last());
        let e = events.last();
        if is_output_event(e) {
            let x1 = step_run(x, events.drop_last());
            let y1 = step_run(y, events.drop_last());
            assert(after_output(x1, e) == run(without_flag(x1), vte_actions(encode_utf8(e.data@))));
            assert(after_output(y1, e) == run(without_flag(y1), vte_actions(encode_utf8(e.data@))));
        }
    }
}

/// Playing two runs of events is playing the first, then the second.
proof fn lemma_step_run_append(s: VtState, a: Seq<CastEvent>, b: Seq<CastEvent>)
    ensures
        step_run(s, a + b) == step_run(step_run(s, a), b),
    decreases b.len(),
{
    if b.len() == 0 {
        assert(a + b =~= a);
    } else {
        lemma_step_run_append(s, a, b.drop_last());
        assert((a + b).drop_last() =~= a + b.drop_last());
        assert((a + b).last() == b.last());
    }
}

} // verus!

verus! {

/// The key bindings both players share.  The plain player quits exactly on
/// q and Esc; the frame player exactly on q, Esc and Ctrl-C, so for a key
/// pressed without Control the two agree on quitting.  In both, + and =
/// double the speed, - halves it, and no other key changes it; Space, and
/// only Space, toggles pause.
pub proof fn lemma_player_keys(key: KeyPress, state: PlayState, current_frame: nat, total_frames: nat)
    ensures
        simple_key_outcome(key, state).0 <==> (key.code == KeyCode::Char('q') || key.code == KeyCode::Esc),
        key_outcome(key, state, current_frame, total_frames).0 == KeyAction::Quit <==> (key.code == KeyCode::Char(
            'q',
        ) || key.code == KeyCode::Esc || (key.code == KeyCode::Char('c') && key.ctrl)),
        !key.ctrl ==> (simple_key_outcome(key, state).0 <==> key_outcome(key, state, current_frame, total_frames).0
            == KeyAction::Quit),
        simple_key_outcome(key, state).2 == SpeedChange::Double <==> (key.code == KeyCode::Char('+') || key.code
            == KeyCode::Char('=')),
        simple_key_outcome(key, state).2 == SpeedChange::Halve <==> key.code == KeyCode::Char('-'),
        key_outcome(key, state, current_frame, total_frames).2 == SpeedChange::Double <==> (key.code
            == KeyCode::Char('+') || key.code == KeyCode::Char('=')),
        key_outcome(key, state, current_frame, total_frames).2 == SpeedChange::Halve <==> key.code == KeyCode::Char(
            '-',
        ),
        simple_key_outcome(key, state).1 == (if key.code == KeyCode::Char(' ') {
            match state {
                PlayState::Playing => PlayState::Paused,
                PlayState::Paused => PlayState::Playing,
            }
        } else {
            state
        }),
{
}

} // verus!
