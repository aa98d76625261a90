use matchmaking::individual::{Individual, RATING_MAX, RATING_MIN, WEIGHT_ONE};
use matchmaking::{Gender, MatchError, Sample};

#[test]
fn generated_individual_has_matching_dimensions() {
    let ind = Individual::new(3, None).unwrap();
    assert_eq!(ind.preference_weights.len(), 3);
    assert_eq!(ind.ratings.len(), 3);
    assert!(ind.blacklist.is_empty());
    assert!(ind.candidate.is_none());
    assert!(ind.candidate_score.is_none());
}

#[test]
fn generated_attributes_stay_in_range() {
    // would fail if the sampling wrapper ignored the requested range
    for _ in 0..20 {
        let ind = Individual::new(4, None).unwrap();
        for w in &ind.preference_weights {
            assert!(*w < WEIGHT_ONE);
        }
        for r in &ind.ratings {
            assert!(*r >= RATING_MIN && *r <= RATING_MAX);
        }
    }
}

#[test]
fn supplied_weights_are_kept() {
    let ind = Individual::new(2, Some(vec![5, 7])).unwrap();
    assert_eq!(ind.preference_weights, vec![5, 7]);
    assert_eq!(ind.ratings.len(), 2);
}

#[test]
fn wrong_sized_weights_are_a_configuration_error() {
    let r = Individual::new(2, Some(vec![5]));
    assert_eq!(r.unwrap_err(), MatchError::Configuration);
}

#[test]
fn population_partitions_by_gender() {
    let sample = Sample::new(50, 2, None).unwrap();
    assert_eq!(
        sample.male_population.len() + sample.female_population.len(),
        50
    );
    for m in &sample.male_population {
        assert_eq!(m.gender, Gender::Male);
        assert_eq!(m.preference_weights.len(), 2);
        assert_eq!(m.ratings.len(), 2);
    }
    for f in &sample.female_population {
        assert_eq!(f.gender, Gender::Female);
        assert_eq!(f.preference_weights.len(), 2);
        assert_eq!(f.ratings.len(), 2);
    }
}

#[test]
fn population_identities_are_unique() {
    let sample = Sample::new(200, 1, None).unwrap();
    let mut ids: Vec<u128> = Vec::new();
    for m in &sample.male_population {
        ids.push(m.identity);
    }
    for f in &sample.female_population {
        ids.push(f.identity);
    }
    for i in 0..ids.len() {
        for j in 0..i {
            assert_ne!(ids[i], ids[j]);
        }
    }
}

#[test]
fn population_applies_shared_weight_override() {
    let sample = Sample::new(20, 2, Some(vec![3, 4])).unwrap();
    for ind in sample
        .male_population
        .iter()
        .chain(sample.female_population.iter())
    {
        assert_eq!(ind.preference_weights, vec![3, 4]);
        assert_eq!(ind.ratings.len(), 2);
    }
}

#[test]
fn population_rejects_wrong_sized_weights() {
    let r = Sample::new(4, 2, Some(vec![9]));
    assert_eq!(r.unwrap_err(), MatchError::Configuration);
}

#[test]
fn empty_population_is_allowed() {
    let sample = Sample::new(0, 1, None).unwrap();
    assert!(sample.male_population.is_empty());
    assert!(sample.female_population.is_empty());
}

#[test]
fn with_attributes_checks_both_vector_lengths() {
    let ok = Individual::with_attributes(7, Gender::Male, 2, vec![1, 2], vec![3, 4]).unwrap();
    assert_eq!(ok.identity, 7);
    assert_eq!(ok.preference_weights, vec![1, 2]);
    assert_eq!(ok.ratings, vec![3, 4]);
    let bad = Individual::with_attributes(7, Gender::Male, 2, vec![1, 2], vec![3]);
    assert_eq!(bad.unwrap_err(), MatchError::Configuration);
}
