use adaboost::weights::{SampleWeights, WEIGHT_SCALE};

#[test]
fn uniform_weights_round_up() {
    let w = SampleWeights::uniform(3);
    assert_eq!(w.masses(), &vec![366503875926, 366503875926, 366503875926]);
    assert_eq!(w.len(), 3);
    assert_eq!(w.total_mass(), 1099511627778);
    let one = SampleWeights::uniform(1);
    assert_eq!(one.masses(), &vec![WEIGHT_SCALE]);
}

#[test]
fn reweighting_gives_missed_samples_half_the_mass() {
    let mut w = SampleWeights::uniform(4);
    let labels = vec![1, 1, -1, -1];
    let preds = vec![-1, 1, -1, -1];
    assert_eq!(w.missed(&labels, &preds), WEIGHT_SCALE / 4);
    w.reweight(&labels, &preds);
    assert_eq!(w.masses(), &vec![549755813888, 183251937963, 183251937963, 183251937963]);
    assert_eq!(w.total_mass(), WEIGHT_SCALE + 1);
}

#[test]
fn weights_stay_positive_and_normalized_over_rounds() {
    let labels = vec![1, -1, 1, -1, 1];
    let mut w = SampleWeights::uniform(5);
    for round in 0..60 {
        let preds: Vec<i32> = (0..5).map(|i| if (i + round) % 3 == 0 { -1 } else { 1 }).collect();
        w.reweight(&labels, &preds);
        let total = w.total_mass();
        assert!(total >= WEIGHT_SCALE && total <= WEIGHT_SCALE + 5);
        assert!(w.masses().iter().all(|m| *m >= 1));
        let share: f64 = w.masses().iter().map(|m| *m as f64 / total as f64).sum();
        assert!((share - 1.0).abs() < 1e-9);
    }
}

#[test]
fn perfect_rule_keeps_the_distribution() {
    let mut w = SampleWeights::uniform(4);
    let before = w.masses().clone();
    let labels = vec![1, -1, 1, -1];
    w.reweight(&labels, &vec![1, -1, 1, -1]);
    assert_eq!(w.masses(), &before);
}
