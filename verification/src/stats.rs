//! Read-only statistics over the population after any number of rounds:
//! matched counts per gender, the size imbalance between the genders, and
//! the share of individuals that never found a match.

use vstd::prelude::*;

use crate::individual::{Individual, IndividualModel};
use crate::sample::{seq_view, Sample};

verus! {

/// Which gender outnumbers the other, and by how many individuals.
#[derive(Clone, Copy, Debug, PartialEq, Eq, Structural)]
pub enum Imbalance {
    MalesExceed(usize),
    FemalesExceed(usize),
    Balanced,
}

/// The outcome of one statistics pass.
///
/// `unmatched_basis_points` is the share of all individuals, of both
/// genders together, that have no candidate, in hundredths of a percent
/// (so 10000 stands for the whole population); an empty population reports
/// zero rather than a division by zero.
#[derive(Clone, Copy, Debug, PartialEq, Eq, Structural)]
pub struct Statistics {
    pub matched_males: usize,
    pub total_males: usize,
    pub matched_females: usize,
    pub total_females: usize,
    pub imbalance: Imbalance,
    pub unmatched_basis_points: u64,
}

/// How many individuals of the sequence currently hold a candidate.
pub open spec fn count_matched(s: Seq<IndividualModel>) -> int
    decreases s.len(),
{
    if s.len() == 0 {
        0
    } else {
        count_matched(s.drop_last()) + (if s.last().candidate is Some {
            1int
        } else {
            0int
        })
    }
}

/// The matched count never exceeds the sequence's length.
pub proof fn lemma_count_matched_bounds(s: Seq<IndividualModel>)
    ensures
        0 <= count_matched(s) <= s.len(),
    decreases s.len(),
{
    if s.len() > 0 {
        lemma_count_matched_bounds(s.drop_last());
    }
}

/// Count the individuals of `v` that currently hold a candidate.
fn count_with_candidate(v: &Vec<Individual>) -> (c: usize)
    ensures
        c as int == count_matched(seq_view(v@)),
        c <= v@.len(),
{
    let n = v.len();
    let mut c: usize = 0;
    let mut i: usize = 0;
    while i < n
        invariant
            i <= n,
            n == v@.len(),
            c as int == count_matched(seq_view(v@).take(i as int)),
            c <= i,
        decreases n - i,
    {
        proof {
            assert(seq_view(v@).take(i + 1).drop_last() =~= seq_view(v@).take(i as int));
            assert(seq_view(v@).take(i + 1).last() == v@[i as int]@);
        }
        if v[i].candidate.is_some() {
            c = c + 1;
        }
        i = i + 1;
    }
    proof {
        assert(seq_view(v@).take(n as int) =~= seq_view(v@));
    }
    c
}

impl Sample {
    /// Walk the population and report: how many individuals of either
    /// gender hold a candidate, which gender outnumbers the other and by
    /// how much, and the share of all individuals without a candidate in
    /// hundredths of a percent — zero for an empty population.
    pub fn statistics(&self) -> (st: Statistics)
        ensures
            st.total_males == self@.males.len(),
            st.total_females == self@.females.len(),
            st.matched_males as int == count_matched(self@.males),
            st.matched_females as int == count_matched(self@.females),
            st.imbalance == (if self@.males.len() > self@.females.len() {
                Imbalance::MalesExceed((self@.males.len() - self@.females.len()) as usize)
            } else if self@.females.len() > self@.males.len() {
                Imbalance::FemalesExceed((self@.females.len() - self@.males.len()) as usize)
            } else {
                Imbalance::Balanced
            }),
            st.unmatched_basis_points <= 10000,
            st.unmatched_basis_points as int == {
                let total = self@.males.len() + self@.females.len();
                let unmatched = total - count_matched(self@.males) - count_matched(self@.females);
                if total == 0 {
                    0int
                } else {
                    (unmatched * 10000) / (total as int)
                }
            },
    {
        let matched_males = count_with_candidate(&self.male_population);
        let matched_females = count_with_candidate(&self.female_population);
        let total_males = self.male_population.len();
        let total_females = self.female_population.len();

        let imbalance = if total_males > total_females {
            Imbalance::MalesExceed(total_males - total_females)
        } else if total_females > total_males {
            Imbalance::FemalesExceed(total_females - total_males)
        } else {
            Imbalance::Balanced
        };

        let total: u128 = (total_males as u128) + (total_females as u128);
        let matched: u128 = (matched_males as u128) + (matched_females as u128);
        let unmatched_basis_points: u64 = if total == 0 {
            0
        } else {
            let unmatched: u128 = total - matched;
            proof {
                vstd::arithmetic::div_mod::lemma_div_is_ordered(
                    unmatched as int * 10000,
                    total as int * 10000,
                    total as int,
                );
                vstd::arithmetic::div_mod::lemma_div_multiples_vanish(10000, total as int);
            }
            (unmatched * 10000 / total) as u64
        };

        Statistics {
            matched_males,
            total_males,
            matched_females,
            total_females,
            imbalance,
            unmatched_basis_points,
        }
    }
}

} // verus!
