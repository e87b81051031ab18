//! Matching engine: assigns unlabeled subtitle files to known episodes.
//!
//! Every (episode, candidate-file) pair is scored with the Levenshtein edit
//! distance between the episode's normalized subtitle text and the file's
//! normalized content. Per file, the candidates are ranked by ascending
//! distance with ties broken by episode id, and the best candidate becomes
//! the proposed assignment; the runner-up's distance is reported as a
//! confidence signal. The engine is deliberately greedy per file: it never
//! enforces a one-to-one mapping, because a human confirms each rename.
//!
//! The observations are produced row by row in a fixed order, so the global
//! re-sort and the per-episode grouping that a nondeterministic parallel
//! collector would need collapse into a direct per-file inversion; only the
//! per-file ranking, which decides the outcome, sorts.

use vstd::prelude::*;

use crate::distance::{edit_dist, levenshtein};
use vstd::multiset::Multiset;
use vstd::seq_lib::lemma_multiset_commutative;

verus! {

/// A known episode: numeric id (unique within a run), season and episode
/// numbers, display name, and its normalized subtitle text.
pub struct Episode {
    pub id: u32,
    pub season_number: u32,
    pub episode_number: u32,
    pub name: String,
    pub subtitle_text: String,
}

/// An unlabeled subtitle file: its path with the media extension stripped,
/// and its normalized content.
pub struct CandidateFile {
    pub stem: String,
    pub content: String,
}

/// One scored (episode, file) pair. `file` indexes the candidate-file list
/// handed to the engine.
#[derive(Clone, Copy, Debug, PartialEq, Eq, Structural)]
pub struct DistanceObservation {
    pub episode_id: u32,
    pub file: usize,
    pub distance: usize,
}

/// The winning episode for one file, with the runner-up's distance (if any)
/// as a confidence signal.
#[derive(Clone, Copy, Debug, PartialEq, Eq, Structural)]
pub struct Winner {
    pub episode_id: u32,
    pub distance: usize,
    pub closest_negative: Option<usize>,
}

/// The final decision for one candidate file: a winner, or no match at all.
#[derive(Clone, Copy, Debug, PartialEq, Eq, Structural)]
pub struct Assignment {
    pub file: usize,
    pub winner: Option<Winner>,
}

/// Episode ids are unique within a run.
pub open spec fn unique_ids(eps: Seq<Episode>) -> bool {
    forall|i: int, j: int| 0 <= i < j < eps.len() ==> eps[i].id != eps[j].id
}

/// The edit distance between episode `e` and file `f`.
pub open spec fn pair_dist(eps: Seq<Episode>, files: Seq<CandidateFile>, e: int, f: int) -> nat {
    edit_dist(eps[e].subtitle_text@, files[f].content@)
}

/// The observation the engine records for episode `e` and file `f`.
pub open spec fn pair_obs(
    eps: Seq<Episode>,
    files: Seq<CandidateFile>,
    e: int,
    f: int,
) -> DistanceObservation {
    DistanceObservation {
        episode_id: eps[e].id,
        file: f as usize,
        distance: pair_dist(eps, files, e, f) as usize,
    }
}

/// Scores every (episode, file) pair. The observations are laid out row by
/// row: the pair (e, f) lands at index `e * files.len() + f`, so zero
/// candidate files (or zero episodes) yield zero observations.
#[verifier::loop_isolation(false)]
pub fn compute_observations(episodes: &Vec<Episode>, files: &Vec<CandidateFile>) -> (obs: Vec<
    DistanceObservation,
>)
    ensures
        obs@.len() == episodes@.len() * files@.len(),
        forall|e: int, f: int|
            0 <= e < episodes@.len() && 0 <= f < files@.len() ==> obs@[e * files@.len() + f]
                == #[trigger] pair_obs(episodes@, files@, e, f),
        forall|e: int, f: int|
            0 <= e < episodes@.len() && 0 <= f < files@.len() ==> #[trigger] pair_dist(
                episodes@,
                files@,
                e,
                f,
            ) <= usize::MAX,
{
    let flen = files.len();
    let mut obs: Vec<DistanceObservation> = Vec::new();
    let mut e: usize = 0;
    while e < episodes.len()
        invariant
            e <= episodes@.len(),
            obs@.len() == e * flen,
            forall|e0: int, f0: int|
                0 <= e0 < e && 0 <= f0 < flen ==> obs@[e0 * flen + f0] == #[trigger] pair_obs(
                    episodes@,
                    files@,
                    e0,
                    f0,
                ),
            forall|e0: int, f0: int|
                0 <= e0 < e && 0 <= f0 < flen ==> #[trigger] pair_dist(episodes@, files@, e0, f0)
                    <= usize::MAX,
        decreases episodes@.len() - e,
    {
        let mut f: usize = 0;
        while f < flen
            invariant
                f <= flen,
                e < episodes@.len(),
                obs@.len() == e * flen + f,
                forall|e0: int, f0: int|
                    0 <= e0 < e && 0 <= f0 < flen ==> obs@[e0 * flen + f0] == #[trigger] pair_obs(
                        episodes@,
                        files@,
                        e0,
                        f0,
                    ),
                forall|f0: int|
                    0 <= f0 < f ==> obs@[e * flen + f0] == #[trigger] pair_obs(
                        episodes@,
                        files@,
                        e as int,
                        f0,
                    ),
                forall|e0: int, f0: int|
                    0 <= e0 < e && 0 <= f0 < flen ==> #[trigger] pair_dist(
                        episodes@,
                        files@,
                        e0,
                        f0,
                    ) <= usize::MAX,
                forall|f0: int|
                    0 <= f0 < f ==> #[trigger] pair_dist(episodes@, files@, e as int, f0)
                        <= usize::MAX,
            decreases flen - f,
        {
            let d = levenshtein(
                episodes[e].subtitle_text.as_str(),
                files[f].content.as_str(),
            );
            proof {
                assert(d == pair_dist(episodes@, files@, e as int, f as int));
                assert(e * flen + f < (e + 1) * flen <= episodes@.len() * flen) by (nonlinear_arith)
                    requires
                        0 <= e < episodes@.len(),
                        0 <= f < flen,
                ;
            }
            let ghost obs0 = obs@;
            obs.push(
                DistanceObservation { episode_id: episodes[e].id, file: f, distance: d },
            );
            proof {
                assert forall|e0: int, f0: int|
                    0 <= e0 < e && 0 <= f0 < flen implies obs@[e0 * flen + f0]
                    == #[trigger] pair_obs(episodes@, files@, e0, f0) by {
                    assert(e0 * flen + f0 < e * flen) by (nonlinear_arith)
                        requires
                            0 <= e0 < e,
                            0 <= f0 < flen,
                    ;
                    assert(obs@[e0 * flen + f0] == obs0[e0 * flen + f0]);
                }
            }
            f = f + 1;
        }
        proof {
            assert((e + 1) * flen == e * flen + flen) by (nonlinear_arith);
            assert forall|e0: int, f0: int|
                0 <= e0 < e + 1 && 0 <= f0 < flen implies obs@[e0 * flen + f0]
                == #[trigger] pair_obs(episodes@, files@, e0, f0) by {
                if e0 == e {
                    assert(obs@[e0 * flen + f0] == pair_obs(episodes@, files@, e as int, f0));
                }
            }
            assert forall|e0: int, f0: int|
                0 <= e0 < e + 1 && 0 <= f0 < flen implies #[trigger] pair_dist(
                episodes@,
                files@,
                e0,
                f0,
            ) <= usize::MAX by {
                if e0 == e {
                    assert(pair_dist(episodes@, files@, e as int, f0) <= usize::MAX);
                }
            }
        }
        e = e + 1;
    }
    obs
}

/// Candidates of one file, in episode order: the pair (distance, episode id)
/// for every episode, read off the observation list.
pub open spec fn file_cands(eps: Seq<Episode>, files: Seq<CandidateFile>, f: int) -> Seq<
    (usize, u32),
> {
    Seq::new(eps.len(), |e: int| (pair_dist(eps, files, e, f) as usize, eps[e].id))
}

/// Inverts the observations into a per-file list of (distance, episode id)
/// candidates, keeping episode order.
#[verifier::loop_isolation(false)]
pub fn matches_by_file(
    episodes: &Vec<Episode>,
    files: &Vec<CandidateFile>,
    obs: &Vec<DistanceObservation>,
) -> (r: Vec<Vec<(usize, u32)>>)
    requires
        obs@.len() == episodes@.len() * files@.len(),
        forall|e: int, f: int|
            0 <= e < episodes@.len() && 0 <= f < files@.len() ==> obs@[e * files@.len() + f]
                == #[trigger] pair_obs(episodes@, files@, e, f),
    ensures
        r@.len() == files@.len(),
        forall|f: int| 0 <= f < files@.len() ==> r@[f]@ == file_cands(episodes@, files@, f),
{
    let flen = files.len();
    let elen = episodes.len();
    let total = obs.len();
    proof {
        assert(total == elen * flen);
    }
    let mut r: Vec<Vec<(usize, u32)>> = Vec::new();
    let mut f: usize = 0;
    while f < flen
        invariant
            f <= flen,
            r@.len() == f,
            forall|f0: int| 0 <= f0 < f ==> r@[f0]@ == file_cands(episodes@, files@, f0),
        decreases flen - f,
    {
        let mut cands: Vec<(usize, u32)> = Vec::new();
        let mut e: usize = 0;
        while e < elen
            invariant
                e <= elen,
                f < flen,
                cands@.len() == e,
                forall|e0: int|
                    0 <= e0 < e ==> cands@[e0] == (
                    pair_dist(episodes@, files@, e0, f as int) as usize,
                    episodes@[e0].id,
                ),
            decreases elen - e,
        {
            proof {
                assert(e * flen + f < elen * flen) by (nonlinear_arith)
                    requires
                        0 <= e < elen,
                        0 <= f < flen,
                ;
                assert(e * flen + f < total);
            }
            let o = obs[e * flen + f];
            proof {
                assert(obs@[e * flen + f] == pair_obs(episodes@, files@, e as int, f as int));
            }
            cands.push((o.distance, o.episode_id));
            e = e + 1;
        }
        proof {
            assert(cands@ =~= file_cands(episodes@, files@, f as int));
        }
        r.push(cands);
        f = f + 1;
    }
    r
}

/// The ranking order on candidates: by ascending distance, ties broken by
/// ascending episode id.
pub open spec fn pair_le(x: (usize, u32), y: (usize, u32)) -> bool {
    x.0 < y.0 || (x.0 == y.0 && x.1 <= y.1)
}

/// The candidate list is sorted under the ranking order.
pub open spec fn ranked_order(s: Seq<(usize, u32)>) -> bool {
    forall|i: int, j: int| 0 <= i <= j < s.len() ==> pair_le(#[trigger] s[i], #[trigger] s[j])
}

/// Inserting an element anywhere adds exactly that element to the multiset.
proof fn lemma_insert_to_multiset(s: Seq<(usize, u32)>, i: int, x: (usize, u32))
    requires
        0 <= i <= s.len(),
    ensures
        s.insert(i, x).to_multiset() == s.to_multiset().insert(x),
{
    broadcast use vstd::seq_lib::group_to_multiset_ensures;

    assert(s.insert(i, x) =~= s.take(i) + (seq![x] + s.skip(i)));
    assert(s =~= s.take(i) + s.skip(i));
    lemma_multiset_commutative(s.take(i), seq![x] + s.skip(i));
    lemma_multiset_commutative(seq![x], s.skip(i));
    lemma_multiset_commutative(s.take(i), s.skip(i));
    assert(seq![x] =~= Seq::<(usize, u32)>::empty().push(x));
    assert(seq![x].to_multiset() =~= Multiset::<(usize, u32)>::empty().insert(x));
    assert(s.insert(i, x).to_multiset() =~= s.to_multiset().insert(x));
}

/// Sorts the candidates of one file by ascending distance, ties broken by
/// episode id, via insertion sort.
#[verifier::loop_isolation(false)]
pub fn rank_candidates(cands: &Vec<(usize, u32)>) -> (r: Vec<(usize, u32)>)
    ensures
        r@.len() == cands@.len(),
        ranked_order(r@),
        r@.to_multiset() == cands@.to_multiset(),
{
    broadcast use vstd::seq_lib::group_to_multiset_ensures;

    let mut r: Vec<(usize, u32)> = Vec::new();
    let mut k: usize = 0;
    proof {
        assert(cands@.take(0) =~= Seq::<(usize, u32)>::empty());
        assert(r@.to_multiset() =~= cands@.take(0).to_multiset());
    }
    while k < cands.len()
        invariant
            k <= cands@.len(),
            r@.len() == k,
            ranked_order(r@),
            r@.to_multiset() == cands@.take(k as int).to_multiset(),
        decreases cands@.len() - k,
    {
        let x = cands[k];
        let mut pos: usize = 0;
        while pos < r.len() && (r[pos].0 < x.0 || (r[pos].0 == x.0 && r[pos].1 <= x.1))
            invariant
                pos <= r@.len(),
                forall|i: int| 0 <= i < pos ==> pair_le(#[trigger] r@[i], x),
            decreases r@.len() - pos,
        {
            pos = pos + 1;
        }
        proof {
            let ghost r0 = r@;
            assert(pos < r0.len() ==> pair_le(x, r0[pos as int]));
            lemma_insert_to_multiset(r@, pos as int, x);
            assert(cands@.take(k + 1) =~= cands@.take(k as int).push(x));
        }
        r.insert(pos, x);
        k = k + 1;
    }
    proof {
        assert(cands@.take(cands@.len() as int) =~= cands@);
    }
    r
}

/// Builds the assignment for file `f` from its ranked candidates: no match
/// when nothing is ranked, otherwise the first candidate wins and the second
/// one's distance (if present) is the closest negative.
pub fn assign_from_ranked(f: usize, ranked: &Vec<(usize, u32)>) -> (a: Assignment)
    ensures
        a.file == f,
        ranked@.len() == 0 ==> a.winner is None,
        ranked@.len() > 0 ==> a.winner == (Some(
            Winner {
                episode_id: ranked@[0].1,
                distance: ranked@[0].0,
                closest_negative: if ranked@.len() >= 2 {
                    Some(ranked@[1].0)
                } else {
                    None
                },
            },
        )),
{
    if ranked.len() == 0 {
        Assignment { file: f, winner: None }
    } else {
        let closest_negative = if ranked.len() >= 2 {
            Some(ranked[1].0)
        } else {
            None
        };
        Assignment {
            file: f,
            winner: Some(
                Winner { episode_id: ranked[0].1, distance: ranked[0].0, closest_negative },
            ),
        }
    }
}

/// What the engine promises of the assignment for file `f`: exactly one
/// assignment per file; no match only when there are no episodes at all;
/// otherwise the winner is a real episode whose distance no candidate beats,
/// ties resolve to the lowest episode id, and the closest-negative signal is
/// the best distance among the remaining episodes, present exactly when a
/// runner-up exists.
pub open spec fn assignment_ok(
    eps: Seq<Episode>,
    files: Seq<CandidateFile>,
    a: Assignment,
    f: int,
) -> bool {
    &&& a.file == f
    &&& (a.winner is None <==> eps.len() == 0)
    &&& (a.winner matches Some(w) ==> {
        &&& (exists|e: int|
            0 <= e < eps.len() && eps[e].id == w.episode_id && w.distance == #[trigger] pair_dist(
                eps,
                files,
                e,
                f,
            ))
        &&& (forall|e: int|
            0 <= e < eps.len() ==> w.distance <= #[trigger] pair_dist(eps, files, e, f))
        &&& (forall|e: int|
            0 <= e < eps.len() && w.distance == #[trigger] pair_dist(eps, files, e, f)
                ==> w.episode_id <= eps[e].id)
        &&& (w.closest_negative is Some <==> eps.len() >= 2)
        &&& (w.closest_negative matches Some(d2) ==> {
            &&& (exists|e: int|
                0 <= e < eps.len() && eps[e].id != w.episode_id && d2 == #[trigger] pair_dist(
                    eps,
                    files,
                    e,
                    f,
                ))
            &&& (forall|e: int|
                0 <= e < eps.len() && eps[e].id != w.episode_id ==> d2 <= #[trigger] pair_dist(
                    eps,
                    files,
                    e,
                    f,
                ))
        })
    })
}

/// An assignment built from ranked candidates that are a permutation of the
/// file's true candidates meets the engine's promise.
proof fn lemma_assignment_ok(
    eps: Seq<Episode>,
    files: Seq<CandidateFile>,
    ranked: Seq<(usize, u32)>,
    a: Assignment,
    f: int,
)
    requires
        unique_ids(eps),
        0 <= f < files.len(),
        forall|e: int|
            0 <= e < eps.len() ==> #[trigger] pair_dist(eps, files, e, f) <= usize::MAX,
        ranked.len() == eps.len(),
        ranked_order(ranked),
        ranked.to_multiset() == file_cands(eps, files, f).to_multiset(),
        a.file == f,
        ranked.len() == 0 ==> a.winner is None,
        ranked.len() > 0 ==> a.winner == (Some(
            Winner {
                episode_id: ranked[0].1,
                distance: ranked[0].0,
                closest_negative: if ranked.len() >= 2 {
                    Some(ranked[1].0)
                } else {
                    None
                },
            },
        )),
    ensures
        assignment_ok(eps, files, a, f),
{
    broadcast use vstd::seq_lib::group_to_multiset_ensures;

    let cands = file_cands(eps, files, f);
    if eps.len() > 0 {
        let w = a.winner->0;
        // The candidate pairs are pairwise distinct because episode ids are.
        assert(forall|i: int, j: int|
            0 <= i < j < cands.len() ==> (#[trigger] cands[i]).1 != (#[trigger] cands[j]).1);
        assert(cands.no_duplicates());
        cands.lemma_multiset_has_no_duplicates();
        ranked.lemma_multiset_has_no_duplicates_conv();
        // Every true candidate appears somewhere in the ranking.
        assert forall|e: int| 0 <= e < eps.len() implies ranked.contains(#[trigger] cands[e]) by {
            assert(cands.contains(cands[e]));
            assert(cands.to_multiset().count(cands[e]) > 0);
            assert(ranked.to_multiset().count(cands[e]) > 0);
        }
        // The winner is a true candidate.
        assert(ranked.contains(ranked[0]));
        assert(ranked.to_multiset().count(ranked[0]) > 0);
        assert(cands.to_multiset().count(ranked[0]) > 0);
        assert(cands.contains(ranked[0]));
        let e0 = choose|e: int| 0 <= e < cands.len() && cands[e] == ranked[0];
        assert(pair_dist(eps, files, e0, f) <= usize::MAX);
        assert(eps[e0].id == w.episode_id && w.distance == pair_dist(eps, files, e0, f));
        // Minimality and tie-break, from sortedness.
        assert forall|e: int| 0 <= e < eps.len() implies w.distance <= #[trigger] pair_dist(
            eps,
            files,
            e,
            f,
        ) by {
            let j = choose|j: int| 0 <= j < ranked.len() && ranked[j] == cands[e];
            assert(pair_le(ranked[0], ranked[j]));
            assert(ranked[0].0 <= cands[e].0);
            assert(cands[e].0 <= pair_dist(eps, files, e, f));
        }
        assert forall|e: int|
            0 <= e < eps.len() && w.distance == #[trigger] pair_dist(eps, files, e, f) implies w
            .episode_id <= eps[e].id by {
            let j = choose|j: int| 0 <= j < ranked.len() && ranked[j] == cands[e];
            assert(pair_le(ranked[0], ranked[j]));
            assert(cands[e].0 == pair_dist(eps, files, e, f));
        }
        // The closest negative is the best distance among the other episodes.
        if eps.len() >= 2 {
            let d2 = w.closest_negative->0;
            assert(ranked.contains(ranked[1]));
            assert(ranked.to_multiset().count(ranked[1]) > 0);
            assert(cands.to_multiset().count(ranked[1]) > 0);
            assert(cands.contains(ranked[1]));
            let e1 = choose|e: int| 0 <= e < cands.len() && cands[e] == ranked[1];
            assert(ranked[0] != ranked[1]);
            assert(eps[e1].id != w.episode_id);
            assert(pair_dist(eps, files, e1, f) <= usize::MAX);
            assert(eps[e1].id != w.episode_id && d2 == pair_dist(eps, files, e1, f));
            assert forall|e: int|
                0 <= e < eps.len() && eps[e].id != w.episode_id implies d2 <= #[trigger] pair_dist(
                eps,
                files,
                e,
                f,
            ) by {
                let j = choose|j: int| 0 <= j < ranked.len() && ranked[j] == cands[e];
                assert(cands[e].1 != ranked[0].1);
                assert(j >= 1);
                assert(pair_le(ranked[1], ranked[j]));
                assert(cands[e].0 <= pair_dist(eps, files, e, f));
            }
        }
    }
}

/// Runs the whole matching engine: scores every (episode, file) pair, groups
/// the observations per file, ranks each file's candidates by ascending
/// distance (ties broken by episode id) and proposes one assignment per file.
/// Requires the episode ids to be unique, as they are within a run.
#[verifier::loop_isolation(false)]
pub fn make_assignments(episodes: &Vec<Episode>, files: &Vec<CandidateFile>) -> (r: Vec<Assignment>)
    requires
        unique_ids(episodes@),
    ensures
        r@.len() == files@.len(),
        forall|f: int|
            0 <= f < files@.len() ==> assignment_ok(episodes@, files@, #[trigger] r@[f], f),
{
    let obs = compute_observations(episodes, files);
    let by_file = matches_by_file(episodes, files, &obs);
    let mut r: Vec<Assignment> = Vec::new();
    let mut f: usize = 0;
    while f < files.len()
        invariant
            f <= files@.len(),
            r@.len() == f,
            by_file@.len() == files@.len(),
            forall|f0: int|
                0 <= f0 < files@.len() ==> #[trigger] by_file@[f0]@ == file_cands(
                    episodes@,
                    files@,
                    f0,
                ),
            forall|e0: int, f0: int|
                0 <= e0 < episodes@.len() && 0 <= f0 < files@.len() ==> #[trigger] pair_dist(
                    episodes@,
                    files@,
                    e0,
                    f0,
                ) <= usize::MAX,
            forall|f0: int|
                0 <= f0 < f ==> assignment_ok(episodes@, files@, #[trigger] r@[f0], f0),
        decreases files@.len() - f,
    {
        let ranked = rank_candidates(&by_file[f]);
        let a = assign_from_ranked(f, &ranked);
        proof {
            lemma_assignment_ok(episodes@, files@, ranked@, a, f as int);
        }
        r.push(a);
        f = f + 1;
    }
    r
}

} // verus!
