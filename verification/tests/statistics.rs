use matchmaking::stats::Imbalance;
use matchmaking::{Gender, Individual, Sample};

fn plain(identity: u128, gender: Gender) -> Individual {
    Individual::with_attributes(identity, gender, 1, vec![1], vec![1]).unwrap()
}

#[test]
fn empty_population_reports_zero_percent_unmatched() {
    let sample = Sample {
        male_population: vec![],
        female_population: vec![],
    };
    let st = sample.statistics();
    assert_eq!(st.total_males, 0);
    assert_eq!(st.total_females, 0);
    assert_eq!(st.matched_males, 0);
    assert_eq!(st.matched_females, 0);
    assert_eq!(st.unmatched_basis_points, 0);
    assert_eq!(st.imbalance, Imbalance::Balanced);
}

#[test]
fn statistics_count_candidates_and_imbalance() {
    let mut matched_male = plain(1, Gender::Male);
    matched_male.candidate = Some(10);
    matched_male.candidate_score = Some(5);
    let sample = Sample {
        male_population: vec![matched_male, plain(2, Gender::Male), plain(3, Gender::Male)],
        female_population: vec![plain(10, Gender::Female)],
    };
    let st = sample.statistics();
    assert_eq!(st.matched_males, 1);
    assert_eq!(st.total_males, 3);
    assert_eq!(st.matched_females, 0);
    assert_eq!(st.total_females, 1);
    assert_eq!(st.imbalance, Imbalance::MalesExceed(2));
    // three of four unmatched: 75 percent, in hundredths of a percent
    assert_eq!(st.unmatched_basis_points, 7500);
}

#[test]
fn statistics_after_a_full_round() {
    let mut sample = Sample {
        male_population: vec![
            Individual::with_attributes(1, Gender::Male, 1, vec![1], vec![9]).unwrap(),
            Individual::with_attributes(2, Gender::Male, 1, vec![1], vec![5]).unwrap(),
        ],
        female_population: vec![
            Individual::with_attributes(10, Gender::Female, 1, vec![10], vec![1]).unwrap(),
            Individual::with_attributes(20, Gender::Female, 1, vec![10], vec![1]).unwrap(),
        ],
    };
    sample.match_making().unwrap();
    let st = sample.statistics();
    assert_eq!(st.matched_males, 2);
    assert_eq!(st.matched_females, 2);
    assert_eq!(st.imbalance, Imbalance::Balanced);
    assert_eq!(st.unmatched_basis_points, 0);
}

#[test]
fn unmatched_share_rounds_down() {
    // one of three unmatched: 3333 hundredths of a percent, truncated
    let mut m1 = plain(1, Gender::Male);
    m1.candidate = Some(10);
    m1.candidate_score = Some(5);
    let mut f1 = plain(10, Gender::Female);
    f1.candidate = Some(1);
    f1.candidate_score = Some(5);
    let sample = Sample {
        male_population: vec![m1, plain(2, Gender::Male)],
        female_population: vec![f1],
    };
    let st = sample.statistics();
    assert_eq!(st.imbalance, Imbalance::MalesExceed(1));
    assert_eq!(st.unmatched_basis_points, 3333);
}
