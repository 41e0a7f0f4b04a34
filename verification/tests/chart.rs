use termrec::chart::{
    chart_panels, max_core_count, metric_from_lowercase, series_points, speed_parts, unit_scale, MetricKind, Series,
};
use termrec::metrics::{BtopFrame, MemMetrics, NetMetrics};

#[test]
fn metric_names_ignore_case() {
    assert_eq!(MetricKind::from_str("CPU"), Some(MetricKind::Cpu));
    assert_eq!(MetricKind::from_str("Cpu-Cores"), Some(MetricKind::CpuCores));
    assert_eq!(MetricKind::from_str("cores"), Some(MetricKind::CpuCores));
    assert_eq!(MetricKind::from_str("MEMORY"), Some(MetricKind::Mem));
    assert_eq!(MetricKind::from_str("Network"), Some(MetricKind::Net));
    assert_eq!(MetricKind::from_str("load"), Some(MetricKind::Load));
    assert_eq!(MetricKind::from_str("ALL"), Some(MetricKind::All));
    assert_eq!(MetricKind::from_str("disk"), None);
    assert_eq!(metric_from_lowercase("CPU"), None);
    assert_eq!(metric_from_lowercase("cpucores"), Some(MetricKind::CpuCores));
}

#[test]
fn panels() {
    assert_eq!(
        chart_panels(MetricKind::All),
        vec![MetricKind::Cpu, MetricKind::Mem, MetricKind::Net, MetricKind::Load]
    );
    assert_eq!(chart_panels(MetricKind::Net), vec![MetricKind::Net]);
}

fn frame(t: f64, cpu: Option<u64>, cores: Vec<u64>) -> BtopFrame {
    BtopFrame {
        timestamp_bits: t.to_bits(),
        cpu_total: cpu,
        cpu_cores: cores,
        load_avg: Some(("0.5".to_string(), "1".to_string(), "2.25".to_string())),
        mem: Some(MemMetrics {
            total: "8 GiB".to_string(),
            used_pct: Some("40".to_string()),
            available_pct: None,
            cached_pct: None,
            free_pct: None,
        }),
        net: Some(NetMetrics { download: None, upload: Some("1 KiB/s".to_string()) }),
    }
}

#[test]
fn series() {
    let frames = vec![frame(0.0, Some(7), vec![1, 2]), frame(1.0, None, vec![3]), frame(2.0, Some(100), vec![])];
    let cpu = series_points(&frames, Series::CpuTotal);
    assert_eq!(cpu, vec![(0.0f64.to_bits(), "7".to_string()), (2.0f64.to_bits(), "100".to_string())]);
    let core1 = series_points(&frames, Series::Core(1));
    assert_eq!(core1, vec![(0.0f64.to_bits(), "2".to_string())]);
    assert_eq!(series_points(&frames, Series::Load15)[2].1, "2.25");
    assert_eq!(series_points(&frames, Series::MemUsed).len(), 3);
    assert!(series_points(&frames, Series::MemCached).is_empty());
    assert!(series_points(&frames, Series::NetDownload).is_empty());
    assert_eq!(series_points(&frames, Series::NetUpload)[0].1, "1 KiB/s");
    assert_eq!(max_core_count(&frames), 2);
    assert_eq!(max_core_count(&[]), 0);
}

#[test]
fn speeds() {
    let p = speed_parts("1.2 MiB/s");
    assert_eq!(p.number.as_deref(), Some("1.2"));
    assert_eq!(p.multiplier, 1048576);
    let p = speed_parts("  3 GB/s ");
    assert_eq!((p.number.as_deref(), p.multiplier), (Some("3"), 1073741824));
    let p = speed_parts("256 KiB/s");
    assert_eq!(p.multiplier, 1024);
    let p = speed_parts("12 B/s");
    assert_eq!(p.multiplier, 1);
    let p = speed_parts("42");
    assert_eq!((p.number.as_deref(), p.multiplier), (Some("42"), 1));
    let p = speed_parts("   ");
    assert_eq!((p.number, p.multiplier), (None, 1));
    assert_eq!(unit_scale("kb/s"), 1024);
    assert_eq!(unit_scale("KB/s"), 1);
}
