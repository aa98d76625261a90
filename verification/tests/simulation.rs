use matchmaking::{Gender, Individual, Sample};

fn male(identity: u128, ratings: Vec<u16>) -> Individual {
    let d = ratings.len() as i8;
    let weights = vec![1; ratings.len()];
    Individual::with_attributes(identity, Gender::Male, d, weights, ratings).unwrap()
}

fn female(identity: u128, weights: Vec<u16>) -> Individual {
    let d = weights.len() as i8;
    let ratings = vec![1; weights.len()];
    Individual::with_attributes(identity, Gender::Female, d, weights, ratings).unwrap()
}

#[test]
fn uncontested_round_pairs_everyone() {
    // the first male takes the first female; the second is rejected by her
    // (she values him less) and settles with the second female, so both
    // pairs end up matched and exactly one rejection is recorded
    let mut sample = Sample {
        male_population: vec![male(1, vec![9]), male(2, vec![5])],
        female_population: vec![female(10, vec![10]), female(20, vec![10])],
    };
    sample.match_making().unwrap();

    let m1 = &sample.male_population[0];
    let m2 = &sample.male_population[1];
    let f1 = &sample.female_population[0];
    let f2 = &sample.female_population[1];

    assert_eq!(m1.candidate, Some(10));
    assert_eq!(m1.candidate_score, Some(90));
    assert_eq!(f1.candidate, Some(1));
    assert_eq!(f1.candidate_score, Some(90));

    assert_eq!(m2.candidate, Some(20));
    assert_eq!(m2.candidate_score, Some(50));
    assert_eq!(f2.candidate, Some(2));
    assert_eq!(f2.candidate_score, Some(50));

    // the one rejection that the scan order forces
    assert_eq!(m2.blacklist, vec![10]);
    assert!(m1.blacklist.is_empty());
    assert!(f1.blacklist.is_empty());
    assert!(f2.blacklist.is_empty());
}

#[test]
fn higher_scorer_displaces_and_leaves_a_stale_candidate() {
    // the first male is accepted first, then the second scores higher with
    // the same female and displaces him; the displaced male's candidate
    // field still points at her, as the displacement semantics leave it
    let mut sample = Sample {
        male_population: vec![male(1, vec![5]), male(2, vec![9])],
        female_population: vec![female(10, vec![10])],
    };
    sample.match_making().unwrap();

    let m1 = &sample.male_population[0];
    let m2 = &sample.male_population[1];
    let f = &sample.female_population[0];

    assert_eq!(f.candidate, Some(2));
    assert_eq!(f.candidate_score, Some(90));
    assert_eq!(m2.candidate, Some(10));
    assert_eq!(m2.candidate_score, Some(90));

    // stale one-sided pairing, kept on purpose
    assert_eq!(m1.candidate, Some(10));
    assert_eq!(m1.candidate_score, Some(50));

    assert!(m1.blacklist.is_empty());
    assert!(m2.blacklist.is_empty());
    assert!(f.blacklist.is_empty());
}

#[test]
fn blacklist_from_one_round_persists_into_the_next() {
    // round one: the second male is rejected by the only female; round two
    // runs on the same population and must skip her for him again without
    // recording the rejection twice
    let mut sample = Sample {
        male_population: vec![male(1, vec![9]), male(2, vec![5])],
        female_population: vec![female(10, vec![10])],
    };
    sample.match_making().unwrap();
    assert_eq!(sample.male_population[1].blacklist, vec![10]);
    assert_eq!(sample.male_population[1].candidate, None);

    sample.match_making().unwrap();

    let m1 = &sample.male_population[0];
    let m2 = &sample.male_population[1];
    let f = &sample.female_population[0];

    assert_eq!(m2.blacklist, vec![10]);
    assert_eq!(m2.candidate, None);
    assert_eq!(m2.candidate_score, None);
    assert_eq!(f.candidate, Some(1));
    assert_eq!(m1.candidate, Some(10));
}

#[test]
fn ties_are_accepted_and_displace() {
    // an equal score does not reject: the newcomer displaces the holder
    let mut sample = Sample {
        male_population: vec![male(1, vec![7]), male(2, vec![7])],
        female_population: vec![female(10, vec![10])],
    };
    sample.match_making().unwrap();

    assert_eq!(sample.female_population[0].candidate, Some(2));
    assert!(sample.male_population[1].blacklist.is_empty());
}

#[test]
fn liked_pairs_both_parties() {
    let mut f = female(10, vec![3]);
    let mut m = male(1, vec![4]);
    Sample::liked(&mut f, &mut m, 99);
    assert_eq!(f.candidate, Some(1));
    assert_eq!(f.candidate_score, Some(99));
    assert_eq!(m.candidate, Some(10));
    assert_eq!(m.candidate_score, Some(99));
}

#[test]
fn round_on_generated_population_keeps_lockstep() {
    let mut sample = Sample::new(60, 2, None).unwrap();
    sample.match_making().unwrap();
    for ind in sample
        .male_population
        .iter()
        .chain(sample.female_population.iter())
    {
        assert_eq!(ind.candidate.is_some(), ind.candidate_score.is_some());
    }
}
