//! The simulation population and the matching round engine.
//!
//! A [`Sample`] owns the two gender-partitioned populations. One matching
//! round walks the male population in storage order; each male scans the
//! female population in storage order, skipping blacklisted females, and the
//! first female that either has no candidate or values him at least as much
//! as her current candidate accepts him (displacing that candidate). A
//! female that values him strictly less rejects him into his blacklist and
//! the scan goes on. The whole round is specified by the recursive
//! [`round_spec`] function, and [`Sample::match_making`] is proved to
//! compute exactly that.

use vstd::prelude::*;

use crate::errors::MatchError;
use crate::individual::{dot, Gender, Individual, IndividualModel, RANDOM_TOKEN_LIMIT};

verus! {

/// The mathematical view of a [`Sample`].
#[verifier::ext_equal]
pub ghost struct SampleModel {
    pub males: Seq<IndividualModel>,
    pub females: Seq<IndividualModel>,
}

/// The view of a sequence of individuals: each taken to its model.
pub open spec fn seq_view(v: Seq<Individual>) -> Seq<IndividualModel> {
    v.map_values(|ind: Individual| ind@)
}

impl SampleModel {
    /// Well-formedness: every individual is well formed, and every female's
    /// preference vector has the length of every male's rating vector, so
    /// that every score the round engine computes is defined.
    pub open spec fn wf(self) -> bool {
        &&& forall|i: int| 0 <= i < self.males.len() ==> (#[trigger] self.males[i]).wf()
        &&& forall|j: int| 0 <= j < self.females.len() ==> (#[trigger] self.females[j]).wf()
        &&& forall|i: int, j: int|
            #![trigger self.males[i], self.females[j]]
            0 <= i < self.males.len() && 0 <= j < self.females.len()
                ==> self.females[j].preference_weights.len() == self.males[i].ratings.len()
    }

    /// No identity token occurs twice across the union of both populations.
    pub open spec fn distinct_identities(self) -> bool {
        &&& forall|i: int, j: int|
            #![trigger self.males[i].identity, self.males[j].identity]
            0 <= i < j < self.males.len() ==> self.males[i].identity != self.males[j].identity
        &&& forall|i: int, j: int|
            #![trigger self.females[i].identity, self.females[j].identity]
            0 <= i < j < self.females.len() ==> self.females[i].identity
                != self.females[j].identity
        &&& forall|i: int, j: int|
            #![trigger self.males[i].identity, self.females[j].identity]
            0 <= i < self.males.len() && 0 <= j < self.females.len() ==> self.males[i].identity
                != self.females[j].identity
    }
}

/// What one male's scan of the female population comes to: the male with
/// his blacklist as grown by the scan, and, if some female accepted him,
/// her index and the score she valued him at.
pub ghost struct ScanOutcome {
    pub proposer: IndividualModel,
    pub accepted: Option<(int, u64)>,
}

/// One male's scan of the females from index `i` on: a blacklisted female
/// is skipped; otherwise her score `s` for him is computed, and she accepts
/// if she has no candidate or `s` is at least her candidate's score, while
/// `s` strictly below her candidate's score sends her token into the male's
/// blacklist and the scan on to the next female.
pub open spec fn scan_from(p: IndividualModel, rs: Seq<IndividualModel>, i: int) -> ScanOutcome
    decreases rs.len() - i,
{
    if i < 0 || i >= rs.len() {
        ScanOutcome { proposer: p, accepted: None }
    } else {
        let r = rs[i];
        if p.blacklist.contains(r.identity) {
            scan_from(p, rs, i + 1)
        } else {
            let s = dot(r.preference_weights, p.ratings);
            if r.candidate is None {
                ScanOutcome { proposer: p, accepted: Some((i, s as u64)) }
            } else if s < r.candidate_score->Some_0 {
                scan_from(
                    IndividualModel { blacklist: p.blacklist.push(r.identity), ..p },
                    rs,
                    i + 1,
                )
            } else {
                ScanOutcome { proposer: p, accepted: Some((i, s as u64)) }
            }
        }
    }
}

/// One male's whole turn: his scan of the females, and, on acceptance, both
/// parties' candidate fields set to each other at the accepted score. The
/// female's previous candidate, if any, is displaced and not told: his own
/// candidate field keeps pointing at her.
pub open spec fn step_spec(p: IndividualModel, rs: Seq<IndividualModel>) -> (
    IndividualModel,
    Seq<IndividualModel>,
) {
    let out = scan_from(p, rs, 0);
    match out.accepted {
        None => (out.proposer, rs),
        Some((j, s)) => (
            IndividualModel {
                candidate: Some(rs[j].identity),
                candidate_score: Some(s),
                ..out.proposer
            },
            rs.update(
                j,
                IndividualModel { candidate: Some(p.identity), candidate_score: Some(s), ..rs[j] },
            ),
        ),
    }
}

/// The males from index `k` on each take their turn, every turn reading the
/// population state the previous turns left behind.
pub open spec fn rounds_from(ps: Seq<IndividualModel>, rs: Seq<IndividualModel>, k: int) -> (
    Seq<IndividualModel>,
    Seq<IndividualModel>,
)
    decreases ps.len() - k,
{
    if k < 0 || k >= ps.len() {
        (ps, rs)
    } else {
        let next = step_spec(ps[k], rs);
        rounds_from(ps.update(k, next.0), next.1, k + 1)
    }
}

/// One full matching round over the whole population.
pub open spec fn round_spec(s: SampleModel) -> SampleModel {
    let finished = rounds_from(s.males, s.females, 0);
    SampleModel { males: finished.0, females: finished.1 }
}

/// The simulation population: all individuals, partitioned by gender.
#[derive(Debug)]
pub struct Sample {
    pub male_population: Vec<Individual>,
    pub female_population: Vec<Individual>,
}

impl View for Sample {
    type V = SampleModel;

    open spec fn view(&self) -> SampleModel {
        SampleModel {
            males: seq_view(self.male_population@),
            females: seq_view(self.female_population@),
        }
    }
}

/// Whether some individual of `v` carries the identity token `t`.
pub(crate) fn contains_id(v: &Vec<Individual>, t: u128) -> (r: bool)
    ensures
        r == exists|i: int| 0 <= i < v@.len() && (#[trigger] v@[i]).identity == t,
{
    let n = v.len();
    let mut i: usize = 0;
    while i < n
        invariant
            i <= n,
            n == v@.len(),
            forall|k: int| 0 <= k < i ==> (#[trigger] v@[k]).identity != t,
        decreases n - i,
    {
        if v[i].identity == t {
            return true;
        }
        i = i + 1;
    }
    false
}

/// A copy of an optional weight vector, made so that each generated
/// individual can be handed its own.
fn clone_weights(w: &Option<Vec<u16>>) -> (r: Option<Vec<u16>>)
    ensures
        r is Some <==> *w is Some,
        r is Some ==> r->Some_0@ == (*w)->Some_0@,
{
    match w {
        None => None,
        Some(v) => {
            let n = v.len();
            let mut out: Vec<u16> = Vec::new();
            let mut i: usize = 0;
            while i < n
                invariant
                    i <= n,
                    n == v@.len(),
                    out@ =~= v@.take(i as int),
                decreases n - i,
            {
                out.push(v[i]);
                i = i + 1;
            }
            proof {
                assert(v@.take(n as int) =~= v@);
            }
            Some(out)
        },
    }
}

/// An individual as the population builder leaves it: attribute vectors of
/// length `d` (the supplied weights, or random ones below [`crate::individual::WEIGHT_ONE`]),
/// ratings within the generated range, an empty blacklist and no candidate.
pub open spec fn freshly_generated(m: IndividualModel, d: int, w: Option<Vec<u16>>) -> bool {
    &&& m.preference_weights.len() == d
    &&& m.ratings.len() == d
    &&& m.blacklist.len() == 0
    &&& m.candidate is None
    &&& m.candidate_score is None
    &&& (w is Some ==> m.preference_weights == w->Some_0@)
    &&& (w is None ==> forall|i: int|
        0 <= i < d ==> #[trigger] m.preference_weights[i] < crate::individual::WEIGHT_ONE)
    &&& forall|i: int|
        0 <= i < d ==> crate::individual::RATING_MIN <= #[trigger] m.ratings[i]
            <= crate::individual::RATING_MAX
}

impl Sample {
    /// Build the simulation population: `population_size` individuals of
    /// preference complexity `preference_complexity`, each with the supplied
    /// weight vector (validated, before any individual is created, to have
    /// exactly that many entries) or random weights, partitioned by their
    /// randomly drawn genders, with all identity tokens distinct.
    pub fn new(
        population_size: i64,
        preference_complexity: i8,
        specified_predefined_weights: Option<Vec<u16>>,
    ) -> (r: Result<Sample, MatchError>)
        requires
            0 <= population_size,
            1 <= preference_complexity,
        ensures
            r is Ok <==> match specified_predefined_weights {
                Some(w) => w@.len() == preference_complexity as nat,
                None => true,
            },
            r is Err ==> r->Err_0 == MatchError::Configuration,
            r is Ok ==> {
                let s = r->Ok_0@;
                &&& s.wf()
                &&& s.distinct_identities()
                &&& s.males.len() + s.females.len() == population_size
                &&& forall|i: int|
                    0 <= i < s.males.len() ==> freshly_generated(
                        #[trigger] s.males[i],
                        preference_complexity as int,
                        specified_predefined_weights,
                    ) && s.males[i].gender == Gender::Male
                &&& forall|j: int|
                    0 <= j < s.females.len() ==> freshly_generated(
                        #[trigger] s.females[j],
                        preference_complexity as int,
                        specified_predefined_weights,
                    ) && s.females[j].gender == Gender::Female
            },
    {
        let ghost d = preference_complexity as int;
        match &specified_predefined_weights {
            Some(w) => {
                if w.len() != preference_complexity as usize {
                    return Err(MatchError::Configuration);
                }
            },
            None => {},
        }

        let mut male_population: Vec<Individual> = Vec::new();
        let mut female_population: Vec<Individual> = Vec::new();
        let mut fallback_count: i64 = 0;
        let mut created: i64 = 0;

        while created < population_size
            invariant
                0 <= created <= population_size,
                0 <= fallback_count <= created,
                1 <= preference_complexity,
                male_population@.len() + female_population@.len() == created,
                specified_predefined_weights is Some
                    ==> specified_predefined_weights->Some_0@.len() == d,
                d == preference_complexity as int,
                forall|i: int|
                    0 <= i < male_population@.len() ==> freshly_generated(
                        (#[trigger] male_population@[i])@,
                        d,
                        specified_predefined_weights,
                    ) && male_population@[i]@.gender == Gender::Male,
                forall|j: int|
                    0 <= j < female_population@.len() ==> freshly_generated(
                        (#[trigger] female_population@[j])@,
                        d,
                        specified_predefined_weights,
                    ) && female_population@[j]@.gender == Gender::Female,
                forall|i: int|
                    0 <= i < male_population@.len() ==> (#[trigger] male_population@[i]).identity
                        < RANDOM_TOKEN_LIMIT + fallback_count,
                forall|j: int|
                    0 <= j < female_population@.len() ==> (#[trigger] female_population@[j]).identity
                        < RANDOM_TOKEN_LIMIT + fallback_count,
                forall|i: int, j: int|
                    #![trigger male_population@[i], male_population@[j]]
                    0 <= i < j < male_population@.len() ==> male_population@[i].identity
                        != male_population@[j].identity,
                forall|i: int, j: int|
                    #![trigger female_population@[i], female_population@[j]]
                    0 <= i < j < female_population@.len() ==> female_population@[i].identity
                        != female_population@[j].identity,
                forall|i: int, j: int|
                    #![trigger male_population@[i], female_population@[j]]
                    0 <= i < male_population@.len() && 0 <= j < female_population@.len()
                        ==> male_population@[i].identity != female_population@[j].identity,
            decreases population_size - created,
        {
            let weights_copy = clone_weights(&specified_predefined_weights);
            let mut individual = Individual::new(preference_complexity, weights_copy)?;

            if contains_id(&male_population, individual.identity) || contains_id(
                &female_population,
                individual.identity,
            ) {
                individual.identity = RANDOM_TOKEN_LIMIT + (fallback_count as u128);
                fallback_count = fallback_count + 1;
            }

            if individual.gender == Gender::Female {
                female_population.push(individual);
            } else {
                male_population.push(individual);
            }
            created = created + 1;
        }

        let sample = Sample { male_population, female_population };
        proof {
            assert forall|i: int, j: int|
                0 <= i < sample@.males.len() && 0 <= j < sample@.females.len() implies (
            #[trigger] sample@.females[j]).preference_weights.len() == (
            #[trigger] sample@.males[i]).ratings.len() by {
                assert(freshly_generated(sample@.males[i], d, specified_predefined_weights));
                assert(freshly_generated(sample@.females[j], d, specified_predefined_weights));
            }
        }
        Ok(sample)
    }

    /// Record a mutual acceptance: both parties' candidate fields are set to
    /// each other's identity tokens, both at the accepted score.
    pub fn liked(female_individual: &mut Individual, male_individual: &mut Individual, score: u64)
        ensures
            final(female_individual)@ =~= (IndividualModel {
                candidate: Some(old(male_individual)@.identity),
                candidate_score: Some(score),
                ..old(female_individual)@
            }),
            final(male_individual)@ =~= (IndividualModel {
                candidate: Some(old(female_individual)@.identity),
                candidate_score: Some(score),
                ..old(male_individual)@
            }),
    {
        female_individual.candidate = Some(male_individual.identity);
        female_individual.candidate_score = Some(score);
        male_individual.candidate = Some(female_individual.identity);
        male_individual.candidate_score = Some(score);
    }
}

/// Whether the token `t` occurs in the token list `v`.
pub(crate) fn contains_token(v: &Vec<u128>, t: u128) -> (r: bool)
    ensures
        r == v@.contains(t),
{
    let n = v.len();
    let mut i: usize = 0;
    while i < n
        invariant
            i <= n,
            n == v@.len(),
            forall|k: int| 0 <= k < i ==> v@[k] != t,
        decreases n - i,
    {
        if v[i] == t {
            assert(v@.contains(t));
            return true;
        }
        i = i + 1;
    }
    false
}

/// Replacing one element of a sequence of individuals replaces its model in
/// the sequence's view.
proof fn lemma_seq_view_update(v: Seq<Individual>, k: int, x: Individual)
    requires
        0 <= k < v.len(),
    ensures
        seq_view(v.update(k, x)) == seq_view(v).update(k, x@),
{
    assert(seq_view(v.update(k, x)) =~= seq_view(v).update(k, x@));
}

/// Replacing a male by one with the same attribute vectors and a lockstep
/// candidate keeps the population well formed.
proof fn lemma_wf_update_male(s: SampleModel, k: int, m2: IndividualModel)
    requires
        s.wf(),
        0 <= k < s.males.len(),
        m2.preference_weights == s.males[k].preference_weights,
        m2.ratings == s.males[k].ratings,
        m2.candidate is Some <==> m2.candidate_score is Some,
    ensures
        (SampleModel { males: s.males.update(k, m2), females: s.females }).wf(),
{
    assert(s.males[k].wf());
}

/// Replacing a female by one with the same attribute vectors and a lockstep
/// candidate keeps the population well formed.
proof fn lemma_wf_update_female(s: SampleModel, j: int, f2: IndividualModel)
    requires
        s.wf(),
        0 <= j < s.females.len(),
        f2.preference_weights == s.females[j].preference_weights,
        f2.ratings == s.females[j].ratings,
        f2.candidate is Some <==> f2.candidate_score is Some,
    ensures
        (SampleModel { males: s.males, females: s.females.update(j, f2) }).wf(),
{
    assert(s.females[j].wf());
}

impl Sample {
    /// Run one matching round: every male in storage order takes one scan
    /// of the females, exactly as [`round_spec`] describes. The scan aborts
    /// the whole round on a dimension mismatch, which well-formedness rules
    /// out, so the round always completes.
    #[verifier::loop_isolation(false)]
    pub fn match_making(&mut self) -> (r: Result<(), MatchError>)
        requires
            old(self)@.wf(),
        ensures
            r is Ok,
            final(self)@ == round_spec(old(self)@),
            final(self)@.wf(),
    {
        let ghost s0 = self@;
        let n = self.male_population.len();
        let mut k: usize = 0;

        while k < n
            invariant
                k <= n,
                self.male_population@.len() == n,
                self.female_population@.len() == s0.females.len(),
                self@.wf(),
                rounds_from(seq_view(self.male_population@), seq_view(self.female_population@), k as int)
                    == rounds_from(s0.males, s0.females, 0),
            decreases n - k,
        {
            let ghost ms_turn = seq_view(self.male_population@);
            let ghost rs0 = seq_view(self.female_population@);
            let ghost p0 = ms_turn[k as int];

            let m = self.female_population.len();
            let mut j: usize = 0;
            let mut done: bool = false;

            while j < m && !done
                invariant
                    j <= m,
                    self.male_population@.len() == n,
                    self.female_population@.len() == m,
                    self@.wf(),
                    !done ==> seq_view(self.female_population@) == rs0,
                    !done ==> forall|i: int|
                        0 <= i < n && i != k ==> seq_view(self.male_population@)[i] == ms_turn[i],
                    !done ==> seq_view(self.male_population@)[k as int].identity == p0.identity,
                    !done ==> seq_view(self.male_population@)[k as int].gender == p0.gender,
                    !done ==> seq_view(self.male_population@)[k as int].preference_weights
                        == p0.preference_weights,
                    !done ==> seq_view(self.male_population@)[k as int].ratings == p0.ratings,
                    !done ==> seq_view(self.male_population@)[k as int].candidate == p0.candidate,
                    !done ==> seq_view(self.male_population@)[k as int].candidate_score
                        == p0.candidate_score,
                    !done ==> scan_from(p0, rs0, 0) == scan_from(
                        seq_view(self.male_population@)[k as int],
                        rs0,
                        j as int,
                    ),
                    done ==> seq_view(self.male_population@) == ms_turn.update(
                        k as int,
                        step_spec(p0, rs0).0,
                    ),
                    done ==> seq_view(self.female_population@) == step_spec(p0, rs0).1,
                decreases m - j + (if done { 0int } else { 1int }),
            {
                let ghost cur = seq_view(self.male_population@)[k as int];
                proof {
                    assert(cur == self.male_population@[k as int]@);
                    assert(rs0[j as int] == self.female_population@[j as int]@);
                }
                let t = self.female_population[j].identity;

                if contains_token(&self.male_population[k].blacklist, t) {
                    proof {
                        assert(cur.blacklist.contains(t));
                        assert(scan_from(cur, rs0, j as int) == scan_from(cur, rs0, j + 1));
                    }
                    j = j + 1;
                    continue;
                }

                let score_result = self.female_population[j].score(&self.male_population[k]);
                let s: u64 = match score_result {
                    Ok(s) => s,
                    Err(e) => {
                        proof {
                            assert(rs0[j as int].preference_weights.len() == cur.ratings.len());
                            assert(false);
                        }
                        return Err(e);
                    },
                };

                if !self.female_population[j].candidate.is_none() {
                    let current_score = match self.female_population[j].candidate_score {
                        Some(cs) => cs,
                        None => {
                            proof {
                                assert(rs0[j as int].wf());
                                assert(false);
                            }
                            return Err(MatchError::DimensionMismatch);
                        },
                    };

                    if s < current_score {
                        self.male_population[k].blacklist.push(t);
                        proof {
                            let cur2 = seq_view(self.male_population@)[k as int];
                            assert(cur2 =~= (IndividualModel {
                                blacklist: cur.blacklist.push(t),
                                ..cur
                            }));
                            assert(scan_from(cur, rs0, j as int) == scan_from(cur2, rs0, j + 1));
                            lemma_wf_update_male(
                                SampleModel { males: ms_turn, females: rs0 },
                                k as int,
                                cur2,
                            );
                            assert(seq_view(self.male_population@) =~= ms_turn.update(
                                k as int,
                                cur2,
                            ));
                            assert(self@ =~= (SampleModel {
                                males: ms_turn.update(k as int, cur2),
                                females: rs0,
                            }));
                        }
                        j = j + 1;
                        continue;
                    }
                }

                // the female at `j` accepts: she has no candidate, or values
                // this male at least as much as her current one
                proof {
                    assert(scan_from(cur, rs0, j as int) == (ScanOutcome {
                        proposer: cur,
                        accepted: Some((j as int, s)),
                    }));
                }
                let ghost mvec = self.male_population@;
                let ghost fvec = self.female_population@;
                let ghost model_top = self@;
                Sample::liked(&mut self.female_population[j], &mut self.male_population[k], s);
                done = true;
                proof {
                    let f_new = self.female_population@[j as int];
                    let m_new = self.male_population@[k as int];
                    assert(self.female_population@ =~= fvec.update(j as int, f_new));
                    assert(self.male_population@ =~= mvec.update(k as int, m_new));
                    lemma_seq_view_update(fvec, j as int, f_new);
                    lemma_seq_view_update(mvec, k as int, m_new);
                    assert(f_new@ == (IndividualModel {
                        candidate: Some(p0.identity),
                        candidate_score: Some(s),
                        ..rs0[j as int]
                    }));
                    assert(m_new@ == (IndividualModel {
                        candidate: Some(rs0[j as int].identity),
                        candidate_score: Some(s),
                        ..cur
                    }));
                    assert(scan_from(p0, rs0, 0) == (ScanOutcome {
                        proposer: cur,
                        accepted: Some((j as int, s)),
                    }));
                    assert(step_spec(p0, rs0).0 == m_new@);
                    assert(step_spec(p0, rs0).1 == rs0.update(j as int, f_new@));
                    assert(seq_view(mvec) =~= ms_turn.update(k as int, cur));
                    assert(seq_view(self.male_population@) =~= ms_turn.update(
                        k as int,
                        m_new@,
                    ));
                    assert(seq_view(self.female_population@) == rs0.update(j as int, f_new@));
                    lemma_wf_update_female(model_top, j as int, f_new@);
                    lemma_wf_update_male(
                        SampleModel {
                            males: model_top.males,
                            females: model_top.females.update(j as int, f_new@),
                        },
                        k as int,
                        m_new@,
                    );
                    assert(self@ =~= (SampleModel {
                        males: model_top.males.update(k as int, m_new@),
                        females: model_top.females.update(j as int, f_new@),
                    }));
                }
            }

            proof {
                let males_now = seq_view(self.male_population@);
                let females_now = seq_view(self.female_population@);
                if !done {
                    assert(step_spec(p0, rs0).0 == males_now[k as int]);
                    assert(step_spec(p0, rs0).1 == rs0);
                    assert(males_now =~= ms_turn.update(k as int, males_now[k as int]));
                }
                assert(males_now == ms_turn.update(k as int, step_spec(p0, rs0).0));
                assert(females_now == step_spec(p0, rs0).1);
                assert(ms_turn[k as int] == p0);
                assert(rounds_from(ms_turn, rs0, k as int) == rounds_from(
                    males_now,
                    females_now,
                    k + 1,
                ));
            }
            k = k + 1;
        }

        proof {
            assert(rounds_from(
                seq_view(self.male_population@),
                seq_view(self.female_population@),
                n as int,
            ) == (seq_view(self.male_population@), seq_view(self.female_population@)));
            assert(self@ =~= round_spec(s0));
        }
        Ok(())
    }
}

} // verus!
