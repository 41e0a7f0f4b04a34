use termrec::cast::{CastEvent, CastHeader};
use termrec::extract::{
    extract_cpu_cores, extract_cpu_total, extract_from_events, extract_load_avg, extract_mem, extract_net,
};

fn as_f64(s: &str) -> f64 {
    s.parse::<f64>().unwrap()
}

#[test]
fn test_extract_cpu_total() {
    let text = vec![
        "╭─ cpu ─────────────────────────────────╮".to_string(),
        "│  CPU  ████████████░░░░░░░░░░░░  42 %  │".to_string(),
    ];
    assert_eq!(extract_cpu_total(&text).map(|v| v as f64), Some(42.0));
}

#[test]
fn test_extract_load_avg() {
    let text = vec!["  Load avg: 1.23 0.45 0.67  ".to_string()];
    let load = extract_load_avg(&text).map(|(a, b, c)| (as_f64(&a), as_f64(&b), as_f64(&c)));
    assert_eq!(load, Some((1.23, 0.45, 0.67)));
}

#[test]
fn test_extract_mem() {
    let text = vec![
        "│  Total:  15.6 GiB                     │".to_string(),
        "│  Used: █████████░░░ 8.2 GiB  53 %     │".to_string(),
        "│  Free: ░░░░░░░░░░░  7.4 GiB  47 %     │".to_string(),
    ];
    let mem = extract_mem(&text).unwrap();
    assert_eq!(mem.total, "15.6 GiB");
    assert_eq!(mem.used_pct.as_deref().map(as_f64), Some(53.0));
    assert_eq!(mem.free_pct.as_deref().map(as_f64), Some(47.0));
}

#[test]
fn test_extract_net() {
    let text = vec!["  ▼ 1.2 MiB/s  ▲ 256 KiB/s  ".to_string()];
    let net = extract_net(&text).unwrap();
    assert_eq!(net.download, Some("1.2 MiB/s".to_string()));
    assert_eq!(net.upload, Some("256 KiB/s".to_string()));
}

#[test]
fn cpu_total_skips_out_of_range_values() {
    let text = vec!["CPU 250 %".to_string(), "CPU usage 99%".to_string()];
    assert_eq!(extract_cpu_total(&text), Some(99));
    let none: Vec<String> = vec!["no cpu here".to_string()];
    assert_eq!(extract_cpu_total(&none), None);
}

#[test]
fn cpu_cores_sorted_by_core_number() {
    let text = vec![
        "C2  ███ 30%   C0 ██ 10%".to_string(),
        "Core1 ▒▒ 20%  cpu3 x 101%".to_string(),
        "C0 dup 55%".to_string(),
    ];
    // Core 3 reads 101 %, which is no percentage; the two entries for core 0
    // keep their order.
    assert_eq!(extract_cpu_cores(&text), vec![10, 55, 20, 30]);
}

#[test]
fn load_avg_needs_three_numbers() {
    let text = vec![
        "Load avg: 1.2.3 0.5 0.6".to_string(),
        "Load avg: 0.10 .5 2.".to_string(),
    ];
    let (a, b, c) = extract_load_avg(&text).unwrap();
    assert_eq!((a.as_str(), b.as_str(), c.as_str()), ("0.10", ".5", "2."));
}

#[test]
fn mem_needs_a_total() {
    let text = vec!["Used: x 12 %".to_string()];
    assert!(extract_mem(&text).is_none());
    let text = vec![
        "Total: 8 GiB".to_string(),
        "Used: x 12 %  Cached: 3 %".to_string(),
        "Available: 80%  Used: 13 %".to_string(),
    ];
    let mem = extract_mem(&text).unwrap();
    assert_eq!(mem.total, "8 GiB");
    assert_eq!(mem.used_pct.as_deref(), Some("13"));
    assert_eq!(mem.cached_pct.as_deref(), Some("3"));
    assert_eq!(mem.available_pct.as_deref(), Some("80"));
    assert_eq!(mem.free_pct, None);
}

#[test]
fn net_with_one_direction() {
    let text = vec!["▲ 3 KiB/s".to_string()];
    let net = extract_net(&text).unwrap();
    assert_eq!(net.download, None);
    assert_eq!(net.upload.as_deref(), Some("3 KiB/s"));
    assert!(extract_net(&["nothing".to_string()]).is_none());
}

fn event(t: f64, kind: &str, data: &str) -> CastEvent {
    CastEvent { time_bits: t.to_bits(), event_type: kind.to_string(), data: data.to_string() }
}

#[test]
fn frames_at_sync_ends() {
    let header = CastHeader::new(40, 4, None);
    let events = vec![
        event(0.5, "o", "\x1b[?2026h CPU  50 %\x1b[?2026l"),
        event(0.7, "i", "\x1b[?2026l"),
        event(1.0, "o", "\x1b[H CPU  60 %"),
        event(1.5, "o", "\x1b[2;1HLoad avg: 1.0 2.0 3.0\x1b[?2026l"),
        event(2.0, "o", "\x1b[2J\x1b[?2026l"),
    ];
    let frames = extract_from_events(&header, &events);
    assert_eq!(frames.len(), 2);
    assert_eq!(f64::from_bits(frames[0].timestamp_bits), 0.5);
    assert_eq!(frames[0].cpu_total, Some(50));
    assert!(frames[0].load_avg.is_none());
    assert_eq!(f64::from_bits(frames[1].timestamp_bits), 1.5);
    assert_eq!(frames[1].cpu_total, Some(60));
    let (a, _, c) = frames[1].load_avg.clone().unwrap();
    assert_eq!((a.as_str(), c.as_str()), ("1.0", "3.0"));
}

#[test]
fn load_alone_makes_no_frame() {
    let header = CastHeader::new(40, 2, None);
    let events = vec![event(0.0, "o", "Load avg: 1 2 3\x1b[?2026l")];
    assert!(extract_from_events(&header, &events).is_empty());
}

#[test]
fn zero_size_screen_has_no_frames() {
    let header = CastHeader::new(0, 24, None);
    let events = vec![event(0.0, "o", "CPU 5 %\x1b[?2026l")];
    assert!(extract_from_events(&header, &events).is_empty());
}
