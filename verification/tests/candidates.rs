use ftdecode::candidates::{prioritize, scores_enough, select, Candidate};

fn peak(frequency: f32, start: f32, score: f32) -> Candidate {
    Candidate {
        frequency: frequency.to_bits(),
        start: start.to_bits(),
        score: score.to_bits(),
    }
}

fn frequencies(all: &[Candidate]) -> Vec<f32> {
    all.iter().map(|c| f32::from_bits(c.frequency)).collect()
}

#[test]
fn scores_are_held_to_the_depth() {
    assert!(!scores_enough(2.09_f32.to_bits(), 2));
    assert!(scores_enough(2.1_f32.to_bits(), 1));
    assert!(scores_enough(1.3_f32.to_bits(), 3));
    assert!(!scores_enough(1.29_f32.to_bits(), 3));
    assert!(!scores_enough(f32::NAN.to_bits(), 3));
}

#[test]
fn the_best_of_close_peaks_is_kept() {
    let all = vec![
        peak(1000.0, 0.5, 3.0),
        peak(1003.125, 0.5, 5.0),
        peak(1500.0, 0.5, 4.0),
        peak(1500.0, 0.54, 9.0),
        peak(2000.0, 0.5, 4.0),
    ];
    let kept = select(&all, None, 0);
    assert_eq!(frequencies(&kept), [1500.0, 1003.125, 1500.0, 2000.0]);
}

#[test]
fn equal_scores_keep_their_order_and_priority_comes_first() {
    let all: Vec<Candidate> = (0..10)
        .map(|i| peak(500.0 + 100.0 * i as f32, 0.5, if i == 7 { 2.0 } else { 1.5 }))
        .collect();
    let kept = select(&all, Some(805.0_f32.to_bits()), 10.0_f32.to_bits());
    assert_eq!(frequencies(&kept)[..4], [800.0, 1200.0, 500.0, 600.0]);
    assert_eq!(kept.len(), 10);
    let ordered = prioritize(all, Some(900.0_f32.to_bits()), 100.0_f32.to_bits());
    assert_eq!(
        frequencies(&ordered)[..5],
        [800.0, 900.0, 1000.0, 500.0, 600.0]
    );
}

#[test]
fn a_thousand_candidates_are_kept() {
    let all: Vec<Candidate> = (0..1200)
        .map(|i| peak(5.0 * i as f32, 0.5, 1.0 + i as f32))
        .collect();
    let kept = select(&all, None, 0);
    assert_eq!(kept.len(), 1000);
    assert_eq!(frequencies(&kept)[0], 5995.0);
    assert_eq!(frequencies(&kept)[999], 1000.0);
}
