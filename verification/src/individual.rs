//! A single participant of the simulation: identity, gender, attribute
//! vectors, rejection memory and current candidate, together with the
//! directional compatibility score.
//!
//! Attribute values are fixed-point numbers counted in thousandths: a
//! preference weight below [`WEIGHT_ONE`] stands for a fraction of one, and
//! a rating between [`RATING_MIN`] and [`RATING_MAX`] stands for a value
//! between one and ten. A score, being a sum of weight-rating products, is
//! accordingly counted in millionths; only comparisons between scores ever
//! matter, so the unit has no effect on the matching outcome.

use vstd::prelude::*;

use crate::entropy;
use crate::errors::MatchError;

verus! {

/// One whole, in thousandths: generated preference weights lie in
/// `[0, WEIGHT_ONE)`, standing for the interval from zero up to but not
/// including one.
pub const WEIGHT_ONE: u16 = 1000;

/// The least generated rating, in thousandths: stands for one.
pub const RATING_MIN: u16 = 1000;

/// The greatest generated rating, in thousandths: stands for ten.
pub const RATING_MAX: u16 = 10000;

/// The largest preference complexity (vector dimensionality) of a run.
pub const MAX_COMPLEXITY: usize = 127;

/// Identity tokens drawn at random are reduced below this bound; the
/// population builder resolves the (vanishingly rare) collisions by handing
/// out deterministic tokens at or above it, so that identities stay unique.
pub const RANDOM_TOKEN_LIMIT: u128 = 0x8000_0000_0000_0000_0000_0000_0000_0000;

/// The two population sides: males propose, females respond.
#[derive(Clone, Copy, Debug, PartialEq, Eq, Structural)]
pub enum Gender {
    Male,
    Female,
}

impl Gender {
    /// Draw a gender uniformly at random.
    pub fn new() -> Self {
        if entropy::sample_bool() {
            Gender::Male
        } else {
            Gender::Female
        }
    }
}

/// The mathematical view of an [`Individual`].
#[verifier::ext_equal]
pub ghost struct IndividualModel {
    pub identity: u128,
    pub gender: Gender,
    pub preference_weights: Seq<u16>,
    pub ratings: Seq<u16>,
    pub blacklist: Seq<u128>,
    pub candidate: Option<u128>,
    pub candidate_score: Option<u64>,
}

impl IndividualModel {
    /// Well-formedness: the two attribute vectors share one bounded length,
    /// and the candidate token and its score are set in lockstep.
    pub open spec fn wf(self) -> bool {
        &&& self.preference_weights.len() == self.ratings.len()
        &&& self.ratings.len() <= MAX_COMPLEXITY
        &&& (self.candidate is Some <==> self.candidate_score is Some)
    }
}

/// A participant.
///
/// `identity` is an opaque token, unique within a population and immutable
/// once created; `preference_weights` says how much this individual cares
/// about each attribute when evaluating a partner, and `ratings` how this
/// individual scores on each attribute in the eyes of others. `blacklist`
/// holds the tokens of responders this individual will never propose to
/// again; `candidate` and `candidate_score` hold the currently accepted
/// partner and the score it was accepted at.
#[derive(Debug)]
pub struct Individual {
    pub identity: u128,
    pub gender: Gender,
    pub preference_weights: Vec<u16>,
    pub ratings: Vec<u16>,
    pub blacklist: Vec<u128>,
    pub candidate: Option<u128>,
    pub candidate_score: Option<u64>,
}

impl View for Individual {
    type V = IndividualModel;

    open spec fn view(&self) -> IndividualModel {
        IndividualModel {
            identity: self.identity,
            gender: self.gender,
            preference_weights: self.preference_weights@,
            ratings: self.ratings@,
            blacklist: self.blacklist@,
            candidate: self.candidate,
            candidate_score: self.candidate_score,
        }
    }
}

/// The directional compatibility score: the dot product of an evaluator's
/// preference weights with a target's ratings.
pub open spec fn dot(w: Seq<u16>, r: Seq<u16>) -> int
    decreases w.len(),
{
    if w.len() == 0 || r.len() == 0 {
        0
    } else {
        dot(w.drop_last(), r.drop_last()) + w.last() * r.last()
    }
}

/// The dot product of `u16` vectors is nonnegative and grows at most
/// linearly with the length, each term being below `2^32`.
pub proof fn lemma_dot_bounds(w: Seq<u16>, r: Seq<u16>)
    ensures
        0 <= dot(w, r) <= w.len() * 0xffff_ffff,
    decreases w.len(),
{
    if w.len() == 0 || r.len() == 0 {
    } else {
        lemma_dot_bounds(w.drop_last(), r.drop_last());
        assert(w.last() * r.last() <= 0xffff * 0xffff) by (nonlinear_arith)
            requires
                w.last() <= 0xffff,
                r.last() <= 0xffff,
        ;
    }
}

impl Individual {
    /// Generate an individual of the given preference complexity: a fresh
    /// identity token, a random gender, the supplied weights (validated to
    /// have exactly `preference_complexity` entries, before any other work)
    /// or random ones, random ratings, an empty blacklist and no candidate.
    pub fn new(preference_complexity: i8, specified_predefined_weights: Option<Vec<u16>>) -> (r:
        Result<Individual, MatchError>)
        requires
            1 <= preference_complexity,
        ensures
            r is Ok <==> match specified_predefined_weights {
                Some(w) => w@.len() == preference_complexity as nat,
                None => true,
            },
            r is Err ==> r->Err_0 == MatchError::Configuration,
            r is Ok ==> {
                let ind = r->Ok_0@;
                &&& ind.wf()
                &&& ind.preference_weights.len() == preference_complexity as nat
                &&& ind.ratings.len() == preference_complexity as nat
                &&& ind.blacklist =~= Seq::<u128>::empty()
                &&& ind.candidate is None
                &&& ind.candidate_score is None
                &&& ind.identity < RANDOM_TOKEN_LIMIT
                &&& (specified_predefined_weights is Some ==> ind.preference_weights
                    == specified_predefined_weights->Some_0@)
                &&& (specified_predefined_weights is None ==> forall|i: int|
                    0 <= i < ind.preference_weights.len() ==> #[trigger] ind.preference_weights[i]
                        < WEIGHT_ONE)
                &&& forall|i: int|
                    0 <= i < ind.ratings.len() ==> RATING_MIN <= #[trigger] ind.ratings[i]
                        <= RATING_MAX
            },
    {
        let d = preference_complexity as usize;
        let predefined_weights: Vec<u16> = match specified_predefined_weights {
            Some(w) => {
                if w.len() != d {
                    return Err(MatchError::Configuration);
                }
                w
            },
            None => {
                let mut generated: Vec<u16> = Vec::new();
                let mut i: usize = 0;
                while i < d
                    invariant
                        i <= d,
                        generated@.len() == i,
                        forall|k: int| 0 <= k < i ==> generated@[k] < WEIGHT_ONE,
                    decreases d - i,
                {
                    generated.push(entropy::sample_in_range(0, WEIGHT_ONE - 1));
                    i = i + 1;
                }
                generated
            },
        };

        let gender = Gender::new();
        let identity = entropy::fresh_token() % RANDOM_TOKEN_LIMIT;

        let mut ratings: Vec<u16> = Vec::new();
        let mut i: usize = 0;
        while i < d
            invariant
                i <= d,
                ratings@.len() == i,
                forall|k: int| 0 <= k < i ==> RATING_MIN <= #[trigger] ratings@[k] <= RATING_MAX,
            decreases d - i,
        {
            ratings.push(entropy::sample_in_range(RATING_MIN, RATING_MAX));
            i = i + 1;
        }

        Ok(
            Individual {
                identity,
                gender,
                preference_weights: predefined_weights,
                ratings,
                blacklist: Vec::new(),
                candidate: None,
                candidate_score: None,
            },
        )
    }

    /// Build an individual from caller-chosen parts: the attribute vectors
    /// must both have exactly `preference_complexity` entries. The result
    /// starts with an empty blacklist and no candidate.
    pub fn with_attributes(
        identity: u128,
        gender: Gender,
        preference_complexity: i8,
        preference_weights: Vec<u16>,
        ratings: Vec<u16>,
    ) -> (r: Result<Individual, MatchError>)
        requires
            1 <= preference_complexity,
        ensures
            r is Ok <==> preference_weights@.len() == preference_complexity as nat
                && ratings@.len() == preference_complexity as nat,
            r is Err ==> r->Err_0 == MatchError::Configuration,
            r is Ok ==> r->Ok_0@ =~= (IndividualModel {
                identity,
                gender,
                preference_weights: preference_weights@,
                ratings: ratings@,
                blacklist: Seq::<u128>::empty(),
                candidate: None,
                candidate_score: None,
            }),
            r is Ok ==> r->Ok_0@.wf(),
    {
        let d = preference_complexity as usize;
        if preference_weights.len() != d || ratings.len() != d {
            return Err(MatchError::Configuration);
        }
        Ok(
            Individual {
                identity,
                gender,
                preference_weights,
                ratings,
                blacklist: Vec::new(),
                candidate: None,
                candidate_score: None,
            },
        )
    }

    /// The score this individual gives the other: this individual's
    /// preference weights against the other's ratings. Fails if and only if
    /// the two vectors differ in length.
    pub fn score(&self, matcher: &Individual) -> (r: Result<u64, MatchError>)
        requires
            self.preference_weights@.len() <= 0x1_0000_0000,
        ensures
            r is Ok <==> self.preference_weights@.len() == matcher.ratings@.len(),
            r is Ok ==> r->Ok_0 as int == dot(self.preference_weights@, matcher.ratings@),
            r is Err ==> r->Err_0 == MatchError::DimensionMismatch,
    {
        if self.preference_weights.len() != matcher.ratings.len() {
            return Err(MatchError::DimensionMismatch);
        }
        let n = self.preference_weights.len();
        let mut sum: u64 = 0;
        let mut i: usize = 0;
        while i < n
            invariant
                i <= n,
                n == self.preference_weights@.len(),
                n == matcher.ratings@.len(),
                n <= 0x1_0000_0000,
                sum as int == dot(
                    self.preference_weights@.take(i as int),
                    matcher.ratings@.take(i as int),
                ),
            decreases n - i,
        {
            let w_i = self.preference_weights[i];
            let r_i = matcher.ratings[i];
            proof {
                lemma_dot_bounds(
                    self.preference_weights@.take(i as int),
                    matcher.ratings@.take(i as int),
                );
                assert(self.preference_weights@.take(i + 1).drop_last()
                    =~= self.preference_weights@.take(i as int));
                assert(matcher.ratings@.take(i + 1).drop_last() =~= matcher.ratings@.take(i as int));
                assert((w_i as int) * (r_i as int) <= 0xffff_ffff) by (nonlinear_arith)
                    requires
                        w_i <= 0xffff,
                        r_i <= 0xffff,
                ;
            }
            let term: u64 = (w_i as u64) * (r_i as u64);
            sum = sum + term;
            i = i + 1;
        }
        proof {
            assert(self.preference_weights@.take(n as int) =~= self.preference_weights@);
            assert(matcher.ratings@.take(n as int) =~= matcher.ratings@);
        }
        Ok(sum)
    }
}

} // verus!
