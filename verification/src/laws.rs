//! The round engine's general guarantees, stated and proved over the round
//! specification: acceptance always pairs both parties at once, a round
//! preserves well-formedness and every identity, blacklist entries are
//! permanent, and a blacklisted pair can never become matched again in any
//! later round.

use vstd::prelude::*;

use crate::individual::{dot, IndividualModel};
use crate::sample::{round_spec, rounds_from, scan_from, step_spec, SampleModel};

verus! {

/// Whether the male at `i` and the female at `j` currently name each other
/// as candidates.
pub open spec fn mutually_matched(s: SampleModel, i: int, j: int) -> bool {
    &&& s.males[i].candidate == Some(s.females[j].identity)
    &&& s.females[j].candidate == Some(s.males[i].identity)
}

/// The population after `r` whole matching rounds.
pub open spec fn run_rounds(s: SampleModel, r: nat) -> SampleModel
    decreases r,
{
    if r == 0 {
        s
    } else {
        round_spec(run_rounds(s, (r - 1) as nat))
    }
}

/// A male's scan changes nothing of him but his blacklist, which only
/// grows; an acceptance names a female in range whom he had not
/// blacklisted before the scan, at her score for him, and only when she
/// had no candidate or valued him at least as much as her candidate.
proof fn lemma_scan_props(p: IndividualModel, rs: Seq<IndividualModel>, i: int)
    ensures
        ({
            let out = scan_from(p, rs, i);
            &&& out.proposer.identity == p.identity
            &&& out.proposer.gender == p.gender
            &&& out.proposer.preference_weights == p.preference_weights
            &&& out.proposer.ratings == p.ratings
            &&& out.proposer.candidate == p.candidate
            &&& out.proposer.candidate_score == p.candidate_score
            &&& (forall|t: u128|
                p.blacklist.contains(t) ==> out.proposer.blacklist.contains(t))
            &&& (out.accepted is Some ==> {
                let j = out.accepted->Some_0.0;
                let s = out.accepted->Some_0.1;
                &&& i <= j < rs.len()
                &&& !p.blacklist.contains(rs[j].identity)
                &&& !out.proposer.blacklist.contains(rs[j].identity)
                &&& s == dot(rs[j].preference_weights, p.ratings) as u64
                &&& (rs[j].candidate is None || dot(rs[j].preference_weights, p.ratings)
                    >= rs[j].candidate_score->Some_0)
            })
        }),
    decreases rs.len() - i,
{
    if i < 0 || i >= rs.len() {
    } else {
        let r = rs[i];
        if p.blacklist.contains(r.identity) {
            lemma_scan_props(p, rs, i + 1);
        } else {
            let s = dot(r.preference_weights, p.ratings);
            if r.candidate is None {
            } else if s < r.candidate_score->Some_0 {
                let p2 = IndividualModel { blacklist: p.blacklist.push(r.identity), ..p };
                lemma_scan_props(p2, rs, i + 1);
                assert forall|t: u128| p.blacklist.contains(t) implies p2.blacklist.contains(
                    t,
                ) by {
                    let idx = choose|idx: int|
                        0 <= idx < p.blacklist.len() && p.blacklist[idx] == t;
                    assert(p2.blacklist[idx] == t);
                }
            } else {
            }
        }
    }
}

/// A male's whole turn changes only his candidate state and blacklist and
/// at most one female's candidate state; identities, genders and attribute
/// vectors stay as they were, blacklist entries stay, and candidate and
/// score stay in lockstep.
proof fn lemma_step_props(p: IndividualModel, rs: Seq<IndividualModel>)
    ensures
        ({
            let next = step_spec(p, rs);
            let out = scan_from(p, rs, 0);
            &&& next.1.len() == rs.len()
            &&& next.0.identity == p.identity
            &&& next.0.gender == p.gender
            &&& next.0.preference_weights == p.preference_weights
            &&& next.0.ratings == p.ratings
            &&& (forall|t: u128| p.blacklist.contains(t) ==> next.0.blacklist.contains(t))
            &&& ((p.candidate is Some <==> p.candidate_score is Some) ==> (next.0.candidate
                is Some <==> next.0.candidate_score is Some))
            &&& (forall|l: int|
                0 <= l < rs.len() ==> {
                    &&& (#[trigger] next.1[l]).identity == rs[l].identity
                    &&& next.1[l].gender == rs[l].gender
                    &&& next.1[l].preference_weights == rs[l].preference_weights
                    &&& next.1[l].ratings == rs[l].ratings
                    &&& next.1[l].blacklist == rs[l].blacklist
                    &&& ((rs[l].candidate is Some <==> rs[l].candidate_score is Some) ==> (
                    next.1[l].candidate is Some <==> next.1[l].candidate_score is Some))
                })
            &&& (out.accepted is None ==> next.0.candidate == p.candidate
                && next.0.candidate_score == p.candidate_score && next.1 == rs)
            &&& (out.accepted is Some ==> {
                let j = out.accepted->Some_0.0;
                &&& 0 <= j < rs.len()
                &&& !p.blacklist.contains(rs[j].identity)
                &&& next.0.candidate == Some(rs[j].identity)
                &&& next.0.candidate_score is Some
                &&& next.1[j].candidate == Some(p.identity)
                &&& next.1[j].candidate_score is Some
                &&& (forall|l: int|
                    0 <= l < rs.len() && l != j ==> (#[trigger] next.1[l]).candidate
                        == rs[l].candidate && next.1[l].candidate_score
                        == rs[l].candidate_score)
            })
        }),
{
    lemma_scan_props(p, rs, 0);
}

/// Identities alone decide distinctness: a population whose individuals
/// carry the same tokens in the same positions as a distinct one is
/// distinct itself.
proof fn lemma_distinct_transfer(a: SampleModel, b: SampleModel)
    requires
        a.distinct_identities(),
        b.males.len() == a.males.len(),
        b.females.len() == a.females.len(),
        forall|i: int|
            0 <= i < a.males.len() ==> (#[trigger] b.males[i]).identity == a.males[i].identity,
        forall|l: int|
            0 <= l < a.females.len() ==> (#[trigger] b.females[l]).identity
                == a.females[l].identity,
    ensures
        b.distinct_identities(),
{
    assert forall|i: int, j: int| 0 <= i < j < b.males.len() implies b.males[i].identity
        != b.males[j].identity by {
        assert(a.males[i].identity != a.males[j].identity);
    }
    assert forall|i: int, j: int| 0 <= i < j < b.females.len() implies b.females[i].identity
        != b.females[j].identity by {
        assert(a.females[i].identity != a.females[j].identity);
    }
    assert forall|i: int, j: int|
        0 <= i < b.males.len() && 0 <= j < b.females.len() implies b.males[i].identity
        != b.females[j].identity by {
        assert(a.males[i].identity != a.females[j].identity);
    }
}

/// The remaining turns of a round keep every identity, gender and
/// attribute vector, keep every blacklist entry of every male, keep every
/// female's blacklist as it is, and keep candidate and score in lockstep.
proof fn lemma_rounds_from_preserves(ps: Seq<IndividualModel>, rs: Seq<IndividualModel>, k: int)
    ensures
        ({
            let out = rounds_from(ps, rs, k);
            &&& out.0.len() == ps.len()
            &&& out.1.len() == rs.len()
            &&& (forall|i: int|
                0 <= i < ps.len() ==> {
                    &&& (#[trigger] out.0[i]).identity == ps[i].identity
                    &&& out.0[i].gender == ps[i].gender
                    &&& out.0[i].preference_weights == ps[i].preference_weights
                    &&& out.0[i].ratings == ps[i].ratings
                    &&& (forall|t: u128|
                        ps[i].blacklist.contains(t) ==> out.0[i].blacklist.contains(t))
                    &&& ((ps[i].candidate is Some <==> ps[i].candidate_score is Some) ==> (
                    out.0[i].candidate is Some <==> out.0[i].candidate_score is Some))
                })
            &&& (forall|l: int|
                0 <= l < rs.len() ==> {
                    &&& (#[trigger] out.1[l]).identity == rs[l].identity
                    &&& out.1[l].gender == rs[l].gender
                    &&& out.1[l].preference_weights == rs[l].preference_weights
                    &&& out.1[l].ratings == rs[l].ratings
                    &&& out.1[l].blacklist == rs[l].blacklist
                    &&& ((rs[l].candidate is Some <==> rs[l].candidate_score is Some) ==> (
                    out.1[l].candidate is Some <==> out.1[l].candidate_score is Some))
                })
        }),
    decreases ps.len() - k,
{
    if k < 0 || k >= ps.len() {
    } else {
        let next = step_spec(ps[k], rs);
        lemma_step_props(ps[k], rs);
        let ps2 = ps.update(k, next.0);
        lemma_rounds_from_preserves(ps2, next.1, k + 1);
    }
}

/// A whole round preserves well-formedness: in particular, candidate and
/// candidate score stay set in lockstep for every individual at every
/// observable point between rounds.
pub proof fn law_round_preserves_wf(s: SampleModel)
    requires
        s.wf(),
    ensures
        round_spec(s).wf(),
        round_spec(s).males.len() == s.males.len(),
        round_spec(s).females.len() == s.females.len(),
{
    lemma_rounds_from_preserves(s.males, s.females, 0);
    let after = round_spec(s);
    assert forall|i: int| 0 <= i < after.males.len() implies (#[trigger] after.males[i]).wf() by {
        assert(s.males[i].wf());
    }
    assert forall|j: int| 0 <= j < after.females.len() implies (
    #[trigger] after.females[j]).wf() by {
        assert(s.females[j].wf());
    }
    assert forall|i: int, j: int|
        0 <= i < after.males.len() && 0 <= j < after.females.len() implies (
    #[trigger] after.females[j]).preference_weights.len() == (
    #[trigger] after.males[i]).ratings.len() by {
        assert(s.females[j].preference_weights.len() == s.males[i].ratings.len());
    }
}

/// Blacklist entries are permanent: whatever a male's blacklist holds
/// before a round, it still holds after it.
pub proof fn law_blacklist_entries_permanent(s: SampleModel)
    ensures
        forall|i: int, t: u128|
            0 <= i < s.males.len() && (#[trigger] s.males[i].blacklist.contains(t))
                ==> round_spec(s).males[i].blacklist.contains(t),
{
    lemma_rounds_from_preserves(s.males, s.females, 0);
}

/// The turns from `k` on neither clear a blacklist entry of the male at
/// `i` nor let a blacklisted, currently unmatched pair become mutual.
proof fn lemma_rounds_from_no_new_match(
    ps: Seq<IndividualModel>,
    rs: Seq<IndividualModel>,
    k: int,
    i: int,
    j: int,
)
    requires
        0 <= i < ps.len(),
        0 <= j < rs.len(),
        (SampleModel { males: ps, females: rs }).distinct_identities(),
        ps[i].blacklist.contains(rs[j].identity),
        !(ps[i].candidate == Some(rs[j].identity) && rs[j].candidate == Some(ps[i].identity)),
    ensures
        ({
            let out = rounds_from(ps, rs, k);
            &&& out.0[i].blacklist.contains(rs[j].identity)
            &&& !(out.0[i].candidate == Some(rs[j].identity) && out.1[j].candidate == Some(
                ps[i].identity,
            ))
        }),
    decreases ps.len() - k,
{
    if k < 0 || k >= ps.len() {
    } else {
        let next = step_spec(ps[k], rs);
        let out = scan_from(ps[k], rs, 0);
        lemma_step_props(ps[k], rs);
        let ps2 = ps.update(k, next.0);
        let rs2 = next.1;

        let a = SampleModel { males: ps, females: rs };
        let b = SampleModel { males: ps2, females: rs2 };
        assert forall|x: int|
            0 <= x < a.males.len() implies (#[trigger] b.males[x]).identity
            == a.males[x].identity by {}
        lemma_distinct_transfer(a, b);

        if k == i {
            if out.accepted is Some {
                let j2 = out.accepted->Some_0.0;
                // the accepted female was never blacklisted, so she is not
                // the one at `j`, and distinct tokens keep them apart
                assert(rs[j2].identity != rs[j].identity);
            }
        } else {
            assert(ps2[i] == ps[i]);
            if out.accepted is Some {
                let j2 = out.accepted->Some_0.0;
                if j2 == j {
                    // the female at `j` now names the male at `k`, whose
                    // token differs from the token of the male at `i`
                    assert(ps[k].identity != ps[i].identity);
                }
            }
        }

        lemma_rounds_from_no_new_match(ps2, rs2, k + 1, i, j);
        assert(rs2[j].identity == rs[j].identity);
        assert(ps2[i].identity == ps[i].identity);
    }
}

/// Once a female's token stands in a male's blacklist while the two do not
/// name each other, no later round can ever make them name each other: he
/// skips her in every scan, and every other male carries a different
/// token. Identities and distinctness survive every round, so the claim
/// compounds over any number of rounds.
pub proof fn law_blacklisted_pair_never_matches(s: SampleModel, i: int, j: int, r: nat)
    requires
        s.distinct_identities(),
        0 <= i < s.males.len(),
        0 <= j < s.females.len(),
        s.males[i].blacklist.contains(s.females[j].identity),
        !mutually_matched(s, i, j),
    ensures
        run_rounds(s, r).males.len() == s.males.len(),
        run_rounds(s, r).females.len() == s.females.len(),
        run_rounds(s, r).males[i].identity == s.males[i].identity,
        run_rounds(s, r).females[j].identity == s.females[j].identity,
        run_rounds(s, r).distinct_identities(),
        run_rounds(s, r).males[i].blacklist.contains(s.females[j].identity),
        !mutually_matched(run_rounds(s, r), i, j),
    decreases r,
{
    if r == 0 {
    } else {
        law_blacklisted_pair_never_matches(s, i, j, (r - 1) as nat);
        let prev = run_rounds(s, (r - 1) as nat);
        lemma_rounds_from_no_new_match(prev.males, prev.females, 0, i, j);
        lemma_rounds_from_preserves(prev.males, prev.females, 0);
        lemma_distinct_transfer(prev, round_spec(prev));
        assert(round_spec(prev).males[i].identity == prev.males[i].identity);
        assert(round_spec(prev).females[j].identity == prev.females[j].identity);
    }
}

/// Every female naming a male as her candidate carries exactly the score
/// she gives him: the dot product of her preference weights with his
/// ratings. Freshly built populations satisfy this vacuously, and every
/// round re-establishes it at each acceptance.
pub open spec fn score_consistent(s: SampleModel) -> bool {
    forall|i: int, j: int|
        #![trigger s.females[j].candidate, s.males[i].identity]
        0 <= i < s.males.len() && 0 <= j < s.females.len() && s.females[j].candidate == Some(
            s.males[i].identity,
        ) ==> s.females[j].candidate_score == Some(
            dot(s.females[j].preference_weights, s.males[i].ratings) as u64,
        )
}

/// No female holds as her candidate a male who has blacklisted her.
pub open spec fn no_match_with_blacklisted(s: SampleModel) -> bool {
    forall|i: int, j: int|
        #![trigger s.males[i].blacklist.contains(s.females[j].identity)]
        0 <= i < s.males.len() && 0 <= j < s.females.len()
            && s.males[i].blacklist.contains(s.females[j].identity) ==> s.females[j].candidate
            != Some(s.males[i].identity)
}

/// A population whose blacklists are empty and whose females hold no
/// candidate — as the population builder delivers it — satisfies both
/// round invariants vacuously.
pub proof fn law_fresh_population_invariants(s: SampleModel)
    requires
        forall|i: int| 0 <= i < s.males.len() ==> (#[trigger] s.males[i]).blacklist.len() == 0,
        forall|j: int| 0 <= j < s.females.len() ==> (#[trigger] s.females[j]).candidate is None,
    ensures
        score_consistent(s),
        no_match_with_blacklisted(s),
{
}

/// An element is in a pushed sequence exactly when it is the pushed one or
/// was there before.
proof fn lemma_push_contains<A>(s: Seq<A>, x: A, t: A)
    ensures
        s.push(x).contains(t) <==> s.contains(t) || t == x,
{
    if s.push(x).contains(t) {
        let idx = choose|idx: int| 0 <= idx < s.push(x).len() && s.push(x)[idx] == t;
        if idx < s.len() {
            assert(s[idx] == t);
        }
    }
    if s.contains(t) {
        let idx = choose|idx: int| 0 <= idx < s.len() && s[idx] == t;
        assert(s.push(x)[idx] == t);
    }
    assert(s.push(x)[s.len() as int] == x);
}

/// A male's scan never rejects a female who currently holds him as her
/// candidate: her stored score is exactly the score she gives him, and an
/// equal score accepts. So every token his scan adds belongs to a female
/// whose candidate he is not.
proof fn lemma_scan_never_rejects_current_partner(
    p: IndividualModel,
    rs: Seq<IndividualModel>,
    i: int,
)
    requires
        forall|l: int|
            0 <= l < rs.len() ==> (#[trigger] rs[l]).preference_weights.len() <= 127,
        forall|l: int|
            0 <= l < rs.len() && (#[trigger] rs[l]).candidate == Some(p.identity)
                ==> rs[l].candidate_score == Some(
                dot(rs[l].preference_weights, p.ratings) as u64,
            ),
        forall|l1: int, l2: int|
            #![trigger rs[l1].identity, rs[l2].identity]
            0 <= l1 < l2 < rs.len() ==> rs[l1].identity != rs[l2].identity,
    ensures
        forall|l: int|
            0 <= l < rs.len() && (#[trigger] rs[l]).candidate == Some(p.identity)
                && scan_from(p, rs, i).proposer.blacklist.contains(rs[l].identity)
                ==> p.blacklist.contains(rs[l].identity),
    decreases rs.len() - i,
{
    if i < 0 || i >= rs.len() {
    } else {
        let r = rs[i];
        if p.blacklist.contains(r.identity) {
            lemma_scan_never_rejects_current_partner(p, rs, i + 1);
        } else {
            let s = dot(r.preference_weights, p.ratings);
            if r.candidate is None {
            } else if s < r.candidate_score->Some_0 {
                // she is not his current partner: her stored score would
                // equal `s`, and `s < s` cannot hold
                crate::individual::lemma_dot_bounds(r.preference_weights, p.ratings);
                assert(r.candidate != Some(p.identity));
                let p2 = IndividualModel { blacklist: p.blacklist.push(r.identity), ..p };
                lemma_scan_never_rejects_current_partner(p2, rs, i + 1);
                assert forall|l: int|
                    0 <= l < rs.len() && (#[trigger] rs[l]).candidate == Some(p.identity)
                        && scan_from(p, rs, i).proposer.blacklist.contains(rs[l].identity)
                    implies p.blacklist.contains(rs[l].identity) by {
                    assert(p2.blacklist.contains(rs[l].identity));
                    lemma_push_contains(p.blacklist, r.identity, rs[l].identity);
                    if rs[l].identity == r.identity {
                        assert(l == i);
                    }
                }
            } else {
            }
        }
    }
}

/// One male's turn preserves all four round invariants: well-formedness,
/// distinct identities, score consistency, and that no female holds a male
/// who has blacklisted her.
proof fn lemma_step_invariants(ps: Seq<IndividualModel>, rs: Seq<IndividualModel>, k: int)
    requires
        0 <= k < ps.len(),
        (SampleModel { males: ps, females: rs }).wf(),
        (SampleModel { males: ps, females: rs }).distinct_identities(),
        score_consistent(SampleModel { males: ps, females: rs }),
        no_match_with_blacklisted(SampleModel { males: ps, females: rs }),
    ensures
        ({
            let next = step_spec(ps[k], rs);
            let b = SampleModel { males: ps.update(k, next.0), females: next.1 };
            &&& b.wf()
            &&& b.distinct_identities()
            &&& score_consistent(b)
            &&& no_match_with_blacklisted(b)
        }),
{
    let a = SampleModel { males: ps, females: rs };
    let p = ps[k];
    let out = scan_from(p, rs, 0);
    let next = step_spec(p, rs);
    let b = SampleModel { males: ps.update(k, next.0), females: next.1 };
    lemma_scan_props(p, rs, 0);
    lemma_step_props(p, rs);
    lemma_scan_never_rejects_current_partner(p, rs, 0);

    assert forall|x: int| 0 <= x < a.males.len() implies (#[trigger] b.males[x]).identity
        == a.males[x].identity by {}
    lemma_distinct_transfer(a, b);

    assert forall|x: int| 0 <= x < b.males.len() implies (#[trigger] b.males[x]).wf() by {
        assert(a.males[x].wf());
    }
    assert forall|x: int| 0 <= x < b.females.len() implies (#[trigger] b.females[x]).wf() by {
        assert(a.females[x].wf());
    }
    assert forall|x: int, y: int|
        #![trigger b.males[x], b.females[y]]
        0 <= x < b.males.len() && 0 <= y < b.females.len() implies b.females[y].preference_weights.len()
        == b.males[x].ratings.len() by {
        assert(a.females[y].preference_weights.len() == a.males[x].ratings.len());
    }

    assert forall|i: int, j: int|
        #![trigger b.females[j].candidate, b.males[i].identity]
        0 <= i < b.males.len() && 0 <= j < b.females.len() && b.females[j].candidate == Some(
            b.males[i].identity,
        ) implies b.females[j].candidate_score == Some(
        dot(b.females[j].preference_weights, b.males[i].ratings) as u64,
    ) by {
        if out.accepted is Some && out.accepted->Some_0.0 == j {
            // she now names the male whose turn this was
            assert(b.females[j].candidate == Some(p.identity));
            if i != k {
                assert(a.males[i].identity != a.males[k].identity);
            }
            assert(i == k);
        } else {
            assert(b.females[j].candidate == a.females[j].candidate);
            assert(a.females[j].candidate == Some(a.males[i].identity));
        }
    }

    assert forall|i: int, j: int|
        #![trigger b.males[i].blacklist.contains(b.females[j].identity)]
        0 <= i < b.males.len() && 0 <= j < b.females.len() && b.males[i].blacklist.contains(
            b.females[j].identity,
        ) implies b.females[j].candidate != Some(b.males[i].identity) by {
        if out.accepted is Some && out.accepted->Some_0.0 == j {
            // she names the male at `k`, and his scan did not leave her
            // token in his blacklist; any other male carries another token
            assert(b.females[j].candidate == Some(p.identity));
            if i == k {
                assert(!out.proposer.blacklist.contains(rs[j].identity));
            } else {
                assert(a.males[i].identity != a.males[k].identity);
            }
        } else {
            assert(b.females[j].candidate == a.females[j].candidate);
            if i == k {
                if a.females[j].candidate == Some(p.identity) {
                    // his scan never rejects his current partner, so her
                    // token was in his blacklist before his turn already
                    assert(b.males[k].blacklist == out.proposer.blacklist);
                    assert(a.males[k].blacklist.contains(a.females[j].identity));
                }
            } else {
                assert(b.males[i].blacklist == a.males[i].blacklist);
            }
        }
    }
}

/// The turns from `k` on preserve all four round invariants.
proof fn lemma_rounds_from_invariants(ps: Seq<IndividualModel>, rs: Seq<IndividualModel>, k: int)
    requires
        (SampleModel { males: ps, females: rs }).wf(),
        (SampleModel { males: ps, females: rs }).distinct_identities(),
        score_consistent(SampleModel { males: ps, females: rs }),
        no_match_with_blacklisted(SampleModel { males: ps, females: rs }),
    ensures
        ({
            let out = rounds_from(ps, rs, k);
            let b = SampleModel { males: out.0, females: out.1 };
            &&& b.wf()
            &&& b.distinct_identities()
            &&& score_consistent(b)
            &&& no_match_with_blacklisted(b)
        }),
    decreases ps.len() - k,
{
    if k < 0 || k >= ps.len() {
    } else {
        let next = step_spec(ps[k], rs);
        lemma_step_invariants(ps, rs, k);
        lemma_rounds_from_invariants(ps.update(k, next.0), next.1, k + 1);
    }
}

/// The full blacklisting guarantee: on a well-formed population with
/// distinct identities whose candidates carry their own scores and avoid
/// the males that blacklisted them — as every freshly built population
/// does — any number of rounds keeps all of that true, and so no pair
/// whose token stands in the male's blacklist, whenever it got there, is
/// ever mutually matched between rounds.
pub proof fn law_blacklist_excludes_matching(s: SampleModel, r: nat)
    requires
        s.wf(),
        s.distinct_identities(),
        score_consistent(s),
        no_match_with_blacklisted(s),
    ensures
        run_rounds(s, r).wf(),
        run_rounds(s, r).distinct_identities(),
        score_consistent(run_rounds(s, r)),
        no_match_with_blacklisted(run_rounds(s, r)),
        forall|i: int, j: int|
            0 <= i < run_rounds(s, r).males.len() && 0 <= j < run_rounds(s, r).females.len()
                && run_rounds(s, r).males[i].blacklist.contains(
                run_rounds(s, r).females[j].identity,
            ) ==> !mutually_matched(run_rounds(s, r), i, j),
    decreases r,
{
    if r == 0 {
    } else {
        law_blacklist_excludes_matching(s, (r - 1) as nat);
        let prev = run_rounds(s, (r - 1) as nat);
        lemma_rounds_from_invariants(prev.males, prev.females, 0);
    }
}

/// When some female accepts a male's turn, the pairing is mutual at that
/// moment: his candidate token names her, hers names him, and both carry
/// the same accepted score.
pub proof fn law_acceptance_is_mutual(p: IndividualModel, rs: Seq<IndividualModel>)
    requires
        scan_from(p, rs, 0).accepted is Some,
    ensures
        ({
            let j = scan_from(p, rs, 0).accepted->Some_0.0;
            let next = step_spec(p, rs);
            &&& 0 <= j < rs.len()
            &&& next.0.candidate == Some(rs[j].identity)
            &&& next.1[j].candidate == Some(p.identity)
            &&& next.0.candidate_score == next.1[j].candidate_score
            &&& next.0.candidate_score is Some
        }),
{
    lemma_scan_props(p, rs, 0);
}

} // verus!
