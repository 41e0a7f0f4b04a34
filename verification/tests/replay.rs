use termrec::cast::{CastEvent, CastHeader};
use termrec::replay::{
    build_frame_index, feed_events_to_frame, feed_frame_events, format_time, handle_key, handle_simple_key,
    advance_frames, terminal_at_frame, try_build_frame_index, KeyAction, KeyCode, KeyPress, PlayState, SpeedChange,
};
use termrec::vterm::VirtualTerminal;

fn event(t: f64, kind: &str, data: &str) -> CastEvent {
    CastEvent { time_bits: t.to_bits(), event_type: kind.to_string(), data: data.to_string() }
}

fn key(code: KeyCode) -> KeyPress {
    KeyPress { code, ctrl: false }
}

#[test]
fn frame_index_and_seek() {
    let header = CastHeader::new(10, 2, None);
    let events = vec![
        event(0.0, "o", "a\x1b[?2026l"),
        event(0.5, "o", "b"),
        event(0.6, "i", "\x1b[?2026l"),
        event(1.0, "o", "c\x1b[?2026l"),
    ];
    let idx = build_frame_index(&header, &events);
    assert_eq!(idx.len(), 2);
    assert_eq!(idx[0].end_event, 0);
    assert_eq!(idx[1].end_event, 3);
    assert_eq!(f64::from_bits(idx[1].timestamp_bits), 1.0);

    let mut vt = VirtualTerminal::new(10, 2);
    feed_events_to_frame(&mut vt, &events, &idx, 1);
    assert_eq!(vt.row_text(0), "abc       ");

    let mut vt = VirtualTerminal::new(10, 2);
    feed_events_to_frame(&mut vt, &events, &idx, 0);
    assert_eq!(vt.row_text(0), "a         ");
    feed_frame_events(&mut vt, &events, &idx, 1);
    assert_eq!(vt.row_text(0), "abc       ");
    assert!(vt.sync_end_seen);
}

#[test]
fn frame_player_keys() {
    let mut state = PlayState::Playing;
    assert_eq!(handle_key(key(KeyCode::Char('q')), &mut state, 0, 5), (KeyAction::Quit, SpeedChange::Keep));
    assert_eq!(handle_key(key(KeyCode::Esc), &mut state, 0, 5).0, KeyAction::Quit);
    assert_eq!(handle_key(KeyPress { code: KeyCode::Char('c'), ctrl: true }, &mut state, 0, 5).0, KeyAction::Quit);
    assert_eq!(handle_key(key(KeyCode::Char('c')), &mut state, 0, 5).0, KeyAction::NoAction);
    assert_eq!(handle_key(key(KeyCode::Char(' ')), &mut state, 0, 5).0, KeyAction::NoAction);
    assert_eq!(state, PlayState::Paused);
    handle_key(key(KeyCode::Char(' ')), &mut state, 0, 5);
    assert_eq!(state, PlayState::Playing);
    assert_eq!(handle_key(key(KeyCode::Char('+')), &mut state, 0, 5).1, SpeedChange::Double);
    assert_eq!(handle_key(key(KeyCode::Char('=')), &mut state, 0, 5).1, SpeedChange::Double);
    assert_eq!(handle_key(key(KeyCode::Char('-')), &mut state, 0, 5).1, SpeedChange::Halve);
    assert_eq!(handle_key(key(KeyCode::Left), &mut state, 0, 5).0, KeyAction::NoAction);
    assert_eq!(handle_key(key(KeyCode::Left), &mut state, 3, 5).0, KeyAction::SeekTo(2));
    assert_eq!(handle_key(key(KeyCode::Right), &mut state, 3, 5).0, KeyAction::SeekTo(4));
    assert_eq!(handle_key(key(KeyCode::Right), &mut state, 4, 5).0, KeyAction::NoAction);
    assert_eq!(handle_key(key(KeyCode::Char('[')), &mut state, 4, 5).0, KeyAction::JumpSeconds(-10));
    assert_eq!(handle_key(key(KeyCode::Char(']')), &mut state, 4, 5).0, KeyAction::JumpSeconds(10));
    assert_eq!(handle_key(key(KeyCode::Home), &mut state, 4, 5).0, KeyAction::SeekTo(0));
    assert_eq!(handle_key(key(KeyCode::End), &mut state, 1, 5).0, KeyAction::SeekTo(4));
    assert_eq!(handle_key(key(KeyCode::End), &mut state, 0, 0).0, KeyAction::SeekTo(0));
    assert_eq!(handle_key(key(KeyCode::Other), &mut state, 0, 5).0, KeyAction::NoAction);
    assert_eq!(state, PlayState::Playing);
}

#[test]
fn simple_player_keys() {
    let mut state = PlayState::Paused;
    assert_eq!(handle_simple_key(key(KeyCode::Esc), &mut state), (true, SpeedChange::Keep));
    assert_eq!(handle_simple_key(key(KeyCode::Char(' ')), &mut state), (false, SpeedChange::Keep));
    assert_eq!(state, PlayState::Playing);
    assert_eq!(handle_simple_key(key(KeyCode::Char('-')), &mut state), (false, SpeedChange::Halve));
    assert_eq!(handle_simple_key(key(KeyCode::Left), &mut state), (false, SpeedChange::Keep));
    assert_eq!(handle_simple_key(KeyPress { code: KeyCode::Char('c'), ctrl: true }, &mut state), (false, SpeedChange::Keep));
}

#[test]
fn time_format() {
    assert_eq!(format_time(0), "0:00");
    assert_eq!(format_time(9), "0:09");
    assert_eq!(format_time(75), "1:15");
    assert_eq!(format_time(3600), "60:00");
    assert_eq!(format_time(u64::MAX), "307445734561825860:15");
}

#[test]
fn playback_matches_seek() {
    let header = CastHeader::new(8, 3, None);
    let events = vec![
        event(0.0, "o", "\x1b[31mab\r\n\x1b[?2026l"),
        event(0.2, "o", "\x1b[2;3Hc\x1b[s"),
        event(0.3, "o", "\x1b[1;1H\x1b[K\x1b[u\x1b[0md\x1b[?2026l"),
        event(0.4, "o", "\x1b[2J\x1b[?2026l"),
    ];
    let idx = build_frame_index(&header, &events);
    assert_eq!(idx.len(), 3);
    let mut played = VirtualTerminal::new(8, 3);
    feed_events_to_frame(&mut played, &events, &idx, 0);
    for k in 1..idx.len() {
        feed_frame_events(&mut played, &events, &idx, k);
        let mut sought = VirtualTerminal::new(8, 3);
        feed_events_to_frame(&mut sought, &events, &idx, k);
        assert_eq!(played.cells, sought.cells);
        assert_eq!((played.cursor_row, played.cursor_col), (sought.cursor_row, sought.cursor_col));
        assert_eq!(played.sgr, sought.sgr);
    }
    assert!(played.all_text().iter().all(|r| r.trim().is_empty()));
}

#[test]
fn frame_index_of_a_grid_without_columns() {
    let header = CastHeader::new(0, 2, None);
    let events = vec![event(0.0, "o", "ab\r\n\x1b[?2026l"), event(0.5, "o", "\x1b[K\x1b[?2026l")];
    let idx = try_build_frame_index(&header, &events).unwrap();
    assert_eq!(idx.len(), 2);
    assert_eq!(idx[1].end_event, 1);
    assert_eq!(build_frame_index(&header, &events), idx);

    // A tab needs a column to move to.
    let events = vec![event(0.0, "o", "\x1b[?2026l"), event(0.5, "o", "\t")];
    assert_eq!(try_build_frame_index(&header, &events), None);

    let sized = CastHeader::new(4, 2, None);
    assert_eq!(try_build_frame_index(&sized, &events).map(|v| v.len()), Some(1));
}

#[test]
fn player_shows_what_seeking_shows() {
    let header = CastHeader::new(6, 2, None);
    let events = vec![
        event(0.0, "o", "one\x1b[?2026l"),
        event(0.1, "i", "x"),
        event(0.2, "o", "\r\ntwo\x1b[?2026l"),
        event(0.3, "o", "\x1b[1;1H\x1b[32m3"),
        event(0.4, "o", "\x1b[?2026l"),
        event(0.5, "o", "\x1b[2J\x1b[Hfour\x1b[?2026l"),
    ];
    let idx = build_frame_index(&header, &events);
    assert_eq!(idx.len(), 4);
    let mut vt = terminal_at_frame(&header, &events, &idx, 0);
    assert_eq!(vt.row_text(0), "one   ");
    advance_frames(&mut vt, &header, &events, &idx, 0, 2);
    let sought = terminal_at_frame(&header, &events, &idx, 2);
    assert_eq!(vt.cells, sought.cells);
    assert_eq!(vt.row_text(0), "3ne   ");
    assert_eq!(vt.row_text(1), "two   ");
    advance_frames(&mut vt, &header, &events, &idx, 2, 3);
    assert_eq!(vt.cells, terminal_at_frame(&header, &events, &idx, 3).cells);
    assert_eq!(vt.row_text(0), "four  ");
    // Advancing to the frame it shows changes nothing.
    advance_frames(&mut vt, &header, &events, &idx, 3, 3);
    assert_eq!(vt.row_text(0), "four  ");
}
