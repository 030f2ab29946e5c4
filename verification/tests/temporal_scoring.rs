use logcrab::temporal::{Recency, TemporalObservation, TemporalScorer};

/// The temporal score of an observation: 0.7 for a novel template, 0.5 for
/// a long gap, otherwise 0.3 times the gap's share of the window; 0.3 more
/// for a burst; clamped to [0, 1].
fn temporal_score(obs: TemporalObservation) -> f64 {
    let mut score = match obs.recency {
        Recency::Novel => 0.7,
        Recency::LongGap => 0.5,
        Recency::Within { gap_secs, window_secs } => {
            let ratio = (gap_secs as f64 / window_secs as f64).min(1.0);
            ratio * 0.3
        }
    };
    if obs.burst {
        score += 0.3;
    }
    score.clamp(0.0, 1.0)
}

#[test]
fn test_temporal_scorer() {
    let mut scorer = TemporalScorer::new(10);
    let now = 1_700_000_000_000i64;

    // First occurrence
    let score1 = temporal_score(scorer.score("test", now));
    assert!(score1 > 0.5); // Novel

    scorer.update("test", now);

    // Immediate repeat
    let score2 = temporal_score(scorer.score("test", now));
    assert!(score2 < score1); // Less anomalous
}

#[test]
fn temporal_recency_classes() {
    let mut scorer = TemporalScorer::new(30);
    assert_eq!(scorer.score("a", 100_000).recency, Recency::Novel);
    scorer.update("a", 100_000);
    assert_eq!(
        scorer.score("a", 112_999).recency,
        Recency::Within { gap_secs: 12, window_secs: 30 }
    );
    // Out-of-order lines count by the size of the gap.
    assert_eq!(
        scorer.score("a", 90_500).recency,
        Recency::Within { gap_secs: 9, window_secs: 30 }
    );
    assert_eq!(scorer.score("a", 131_000).recency, Recency::LongGap);
    assert_eq!(scorer.score("b", 131_000).recency, Recency::Novel);
}

#[test]
fn temporal_burst_needs_more_than_a_hundred_lines_at_ten_per_second() {
    let mut scorer = TemporalScorer::new(10);
    for i in 0..101 {
        scorer.update("x", 1_000 + i);
    }
    // 101 lines in a 10 s window: rate 10.1 per second.
    assert!(scorer.score("x", 1_200).burst);

    let mut slow = TemporalScorer::new(30);
    for i in 0..200 {
        slow.update("x", 1_000 + i);
    }
    // 200 lines in a 30 s window: rate 6.7 per second.
    assert!(!slow.score("x", 1_300).burst);

    let mut few = TemporalScorer::new(1);
    for i in 0..100 {
        few.update("x", 1_000 + i);
    }
    assert!(!few.score("x", 1_100).burst);
}

#[test]
fn temporal_score_clears_expired_times_from_the_window() {
    let mut scorer = TemporalScorer::new(1);
    for i in 0..150 {
        scorer.update("x", i);
    }
    assert!(scorer.score("x", 1_000).burst);
    // 2 s later every time in the window is more than 1 s old.
    assert!(!scorer.score("x", 2_200).burst);
}
