use matchmaking::{Gender, Individual, MatchError};

fn ind(identity: u128, gender: Gender, weights: Vec<u16>, ratings: Vec<u16>) -> Individual {
    let d = weights.len() as i8;
    Individual::with_attributes(identity, gender, d, weights, ratings).unwrap()
}

#[test]
fn score_is_the_weighted_sum() {
    let a = ind(1, Gender::Female, vec![1, 2, 3], vec![1, 1, 1]);
    let b = ind(2, Gender::Male, vec![9, 9, 9], vec![4, 5, 6]);
    // 1*4 + 2*5 + 3*6
    assert_eq!(a.score(&b).unwrap(), 32);
}

#[test]
fn score_is_asymmetric_for_distinct_vectors() {
    let a = ind(1, Gender::Female, vec![1, 2], vec![3, 4]);
    let b = ind(2, Gender::Male, vec![5, 6], vec![7, 8]);
    let ab = a.score(&b).unwrap();
    let ba = b.score(&a).unwrap();
    assert_eq!(ab, 1 * 7 + 2 * 8);
    assert_eq!(ba, 5 * 3 + 6 * 4);
    assert_ne!(ab, ba);
}

#[test]
fn score_can_coincide_for_proportional_vectors() {
    let a = ind(1, Gender::Female, vec![1, 2], vec![1, 2]);
    let b = ind(2, Gender::Male, vec![2, 4], vec![2, 4]);
    assert_eq!(a.score(&b).unwrap(), 10);
    assert_eq!(b.score(&a).unwrap(), 10);
}

#[test]
fn score_rejects_mismatched_dimensions() {
    let a = ind(1, Gender::Female, vec![1], vec![2]);
    let b = ind(2, Gender::Male, vec![3, 4], vec![5, 6]);
    assert_eq!(a.score(&b).unwrap_err(), MatchError::DimensionMismatch);
}

#[test]
fn score_of_empty_vectors_is_zero() {
    // built directly: the constructors insist on at least one dimension
    let a = Individual {
        identity: 1,
        gender: Gender::Female,
        preference_weights: vec![],
        ratings: vec![],
        blacklist: vec![],
        candidate: None,
        candidate_score: None,
    };
    let b = Individual {
        identity: 2,
        gender: Gender::Male,
        preference_weights: vec![],
        ratings: vec![],
        blacklist: vec![],
        candidate: None,
        candidate_score: None,
    };
    assert_eq!(a.score(&b).unwrap(), 0);
}
