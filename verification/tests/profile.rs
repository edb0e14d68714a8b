use co_scientist::tui::profile::{badge_text, percentile, FrameProfile, FrameSample, WINDOW};

#[test]
fn percentile_nearest_rank() {
    let mut v: Vec<u64> = (1..=10).map(|i| i * 10).collect();
    v.sort_unstable();
    assert_eq!(percentile(&v, 50), 50);
    assert_eq!(percentile(&v, 95), 100);
    assert_eq!(percentile(&v, 99), 100);
}

#[test]
fn percentile_handles_empty() {
    let v: Vec<u64> = vec![];
    assert_eq!(percentile(&v, 50), 0);
}

#[test]
fn percentile_handles_single() {
    assert_eq!(percentile(&[42], 99), 42);
}

#[test]
fn record_overwrites_ring_buffer() {
    let mut p = FrameProfile::new();
    for i in 0..WINDOW + 5 {
        p.record(FrameSample {
            total_us: i as u64,
            ..FrameSample::zero()
        });
    }
    assert_eq!(p.frame_count(), WINDOW);
    let latest = p.latest().unwrap();
    assert_eq!(latest.total_us, WINDOW as u64 + 4);
}

#[test]
fn summary_uses_window() {
    let mut p = FrameProfile::new();
    for i in 1..=100u64 {
        p.record(FrameSample {
            draw_us: i * 1000,
            ..FrameSample::zero()
        });
    }
    let s = p.summary();
    let draw = s.phases.iter().find(|(n, _)| *n == "draw").unwrap().1.unwrap();
    assert_eq!(draw.p50, 50000);
    assert_eq!(draw.p95, 95000);
    assert_eq!(draw.max, 100000);
}

#[test]
fn badge_text_renders_two_metrics() {
    let s = FrameSample {
        drain_us: 100,
        draw_us: 12_345,
        tick_us: 200,
        poll_us: 5_000,
        key_us: 50,
        total_us: 18_000,
        agent_msg_count: 0,
    };
    assert_eq!(badge_text(s), "draw 12.3ms · frame 18.0ms");
}

fn ms(us: u64) -> String {
    format!("{:.1}", us as f64 / 1000.0)
}

#[test]
fn badge_rounds_as_floats_do() {
    let mut us: u64 = 0;
    while us < 400_000 {
        let s = FrameSample { draw_us: us, total_us: us + 13, ..FrameSample::zero() };
        assert_eq!(badge_text(s), format!("draw {}ms · frame {}ms", ms(us), ms(us + 13)));
        us += 7;
    }
    for us in [50, 150, 250, 350, 450, 1_050, 999_950, 1 << 40, (1 << 53) - 1, 1 << 53, u64::MAX - 13] {
        let s = FrameSample { draw_us: us, total_us: us + 13, ..FrameSample::zero() };
        assert_eq!(badge_text(s), format!("draw {}ms · frame {}ms", ms(us), ms(us + 13)));
    }
}

#[test]
fn summary_lists_the_phases() {
    let mut p = FrameProfile::new();
    assert_eq!(p.max_agent_msgs(), 0);
    assert!(p.latest().is_none());
    p.record(FrameSample { draw_us: 1_500, agent_msg_count: 3, ..FrameSample::zero() });
    p.record(FrameSample { draw_us: 2_500, agent_msg_count: 1, ..FrameSample::zero() });
    assert_eq!(p.max_agent_msgs(), 3);
    let text = p.summary().format(p.frame_count());
    assert!(text.contains("draw"), "{text}");
    assert!(text.contains(&ms(2_500)), "{text}");
}
