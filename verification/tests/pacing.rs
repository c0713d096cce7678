use pipewire_vircam::pacing::Pacing;

fn pacing() -> Pacing {
    Pacing {
        streaming: true,
        period_ns: 100,
        next_due: 1000,
    }
}

#[test]
fn nothing_is_due_at_first() {
    let mut p = Pacing::new();
    assert!(!p.tick(0));
    assert!(!p.tick(u64::MAX));
    assert_eq!(p, Pacing::new());
}

#[test]
fn nothing_is_due_before_the_deadline() {
    let mut p = pacing();
    assert!(!p.tick(999));
    assert_eq!(p, pacing());
    assert!(p.tick(1000));
    assert_eq!(p.next_due, 1100);
}

#[test]
fn missed_periods_are_skipped() {
    let mut p = pacing();
    assert!(p.tick(1350));
    assert_eq!(p.next_due, 1400);
    assert!(!p.tick(1350));
    assert!(!p.tick(1399));
    assert!(p.tick(1400));
    assert_eq!(p.next_due, 1500);
}

#[test]
fn at_most_one_frame_per_period() {
    let mut p = pacing();
    let mut frames = 0;
    for now in 900..=2000u64 {
        if p.tick(now) {
            frames += 1;
        }
    }
    assert_eq!(frames, 11);
}

#[test]
fn no_rate_or_no_stream_means_no_frame() {
    let mut still = Pacing {
        period_ns: 0,
        ..pacing()
    };
    let mut paused = Pacing {
        streaming: false,
        ..pacing()
    };
    assert!(!still.tick(5000));
    assert!(!paused.tick(5000));
    assert_eq!(paused.next_due, 1000);
}

#[test]
fn every_deadline_has_its_frame() {
    let mut pacing = Pacing {
        streaming: true,
        period_ns: 10,
        next_due: 100,
    };
    let mut deadlines: Vec<u64> = Vec::new();
    // Less than a period apart, and the first one before the first deadline.
    for now in [95u64, 104, 104, 113, 120, 129, 138, 139] {
        let due = pacing.next_due;
        if pacing.tick(now) {
            deadlines.push(due);
        }
    }
    assert_eq!(deadlines, vec![100, 110, 120, 130]);
    assert_eq!(deadlines.len() as u64, (139 - 100) / 10 + 1);
    assert_eq!(pacing.next_due, 140);
}
