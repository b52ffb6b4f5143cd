use tafl::{Play, RepetitionTracker, Side};

#[test]
fn test_repetition_tracker() {
    let mut tracker = RepetitionTracker::default();
    for i in 0..5 {
        tracker.track_play(Side::Attacker, Play::from_str("a1-b1").unwrap(), false);
        assert_eq!(tracker.get_repetitions(Side::Attacker), i);
        tracker.track_play(Side::Defender, Play::from_str("a2-b2").unwrap(), false);
        assert_eq!(tracker.get_repetitions(Side::Defender), i);
        tracker.track_play(Side::Attacker, Play::from_str("b1-a1").unwrap(), false);
        assert_eq!(tracker.get_repetitions(Side::Attacker), i);
        tracker.track_play(Side::Defender, Play::from_str("b2-a2").unwrap(), false);
        assert_eq!(tracker.get_repetitions(Side::Defender), i);
    }
    for i in 0..5 {
        tracker.track_play(Side::Attacker, Play::from_str("f1-g1").unwrap(), false);
        assert_eq!(tracker.get_repetitions(Side::Attacker), i);
        tracker.track_play(Side::Defender, Play::from_str("f2-g2").unwrap(), false);
        assert_eq!(tracker.get_repetitions(Side::Defender), i);
        tracker.track_play(Side::Attacker, Play::from_str("g1-f1").unwrap(), false);
        assert_eq!(tracker.get_repetitions(Side::Attacker), i);
        tracker.track_play(Side::Defender, Play::from_str("g2-f2").unwrap(), false);
        assert_eq!(tracker.get_repetitions(Side::Defender), i);
    }
}

#[test]
fn capturing_play_resets_counter() {
    let mut tracker = RepetitionTracker::new();
    let plays = ["a1-b1", "a2-b2", "b1-a1", "b2-a2"];
    for _ in 0..3 {
        for (i, p) in plays.iter().enumerate() {
            let side = if i % 2 == 0 { Side::Attacker } else { Side::Defender };
            tracker.track_play(side, Play::from_str(p).unwrap(), false);
        }
    }
    assert_eq!(tracker.get_repetitions(Side::Attacker), 2);
    assert_eq!(tracker.get_repetitions(Side::Defender), 2);
    tracker.track_play(Side::Attacker, Play::from_str("a1-b1").unwrap(), true);
    assert_eq!(tracker.get_repetitions(Side::Attacker), 0);
    assert_eq!(tracker.get_repetitions(Side::Defender), 2);
}
