//! The lineup engine: an exact assignment solver (score-maximising
//! bijection of players to slots by backtracking), the assembler that
//! joins offense and defense assignments, and the local-search
//! optimizer that substitutes bench players while it improves.

use vstd::prelude::*;
use crate::arith::{sat_add, add_sat};
use crate::pick::{PickTempData, has_key};
use crate::composition::PositionRequirements;

verus! {

/// A slot code and the score earned on it.
#[derive(Debug)]
pub struct PositionDescription {
    pub position: String,
    pub score: i64,
}

impl Clone for PositionDescription {
    fn clone(&self) -> (r: Self)
        ensures
            r == *self,
    {
        PositionDescription { position: self.position.clone(), score: self.score }
    }
}

/// One starter with their offense and defense assignments.
#[derive(Debug)]
pub struct StartingPosition {
    pub name: String,
    pub offense: PositionDescription,
    pub defense: PositionDescription,
    pub total_score: i64,
}

/// The player has a score entry for `code`.
pub open spec fn pick_has_score(p: PickTempData, code: Seq<char>) -> bool {
    has_key(p.position_scores@, code)
}

/// First score entry for `code` at or after `q`; 0 where none exists.
pub open spec fn pick_score_from(ps: Seq<(String, i64)>, code: Seq<char>, q: int) -> i64
    decreases ps.len() - q,
{
    if q < 0 || q >= ps.len() {
        0i64
    } else if ps[q].0@ == code {
        ps[q].1
    } else {
        pick_score_from(ps, code, q + 1)
    }
}

/// The player's stored score for `code` (first entry wins).
pub open spec fn pick_score(p: PickTempData, code: Seq<char>) -> i64 {
    pick_score_from(p.position_scores@, code, 0)
}

/// Two pick records with the same content.
pub open spec fn pick_eq(a: PickTempData, b: PickTempData) -> bool {
    a.name@ == b.name@ && a.position_scores@ == b.position_scores@ && a.max_score == b.max_score
}

/// Pointwise [`pick_eq`] sequences.
pub open spec fn picks_eq(a: Seq<PickTempData>, b: Seq<PickTempData>) -> bool {
    a.len() == b.len() && (forall|t: int| 0 <= t < a.len() ==> pick_eq(#[trigger] a[t], b[t]))
}

/// All slots still open.
pub open spec fn full_avail(n: int) -> Seq<bool> {
    Seq::new(n as nat, |i: int| true)
}

/// The best total score assigning players `k..` to the open slots, or
/// `None` when no complete assignment exists.  Totals accumulate with
/// saturating addition.
pub open spec fn spec_solve(
    players: Seq<PickTempData>,
    slots: Seq<String>,
    k: int,
    avail: Seq<bool>,
) -> Option<i64>
    decreases players.len() - k, slots.len() + 1,
{
    if k < 0 || k >= players.len() {
        Some(0i64)
    } else {
        solve_try(players, slots, k, avail, 0)
    }
}

/// An earlier open slot carries the same code: slot `j` is then a
/// symmetric duplicate and only the first occurrence is tried.
pub open spec fn dup_before(slots: Seq<String>, avail: Seq<bool>, j: int) -> bool {
    exists|j2: int| 0 <= j2 < j && avail[j2] && #[trigger] slots[j2]@ == slots[j]@
}

/// The best total over the branches that assign player `k` to some
/// open slot with index at least `j`.  Of several open slots with one
/// code only the first is tried; the others lead to the same totals.
pub open spec fn solve_try(
    players: Seq<PickTempData>,
    slots: Seq<String>,
    k: int,
    avail: Seq<bool>,
    j: int,
) -> Option<i64>
    decreases players.len() - k, slots.len() - j,
{
    if k < 0 || k >= players.len() || j < 0 || j >= slots.len() {
        None
    } else {
        let rest = solve_try(players, slots, k, avail, j + 1);
        if j < avail.len() && avail[j] && !dup_before(slots, avail, j) && pick_has_score(
            players[k],
            slots[j]@,
        ) {
            match spec_solve(players, slots, k + 1, avail.update(j, false)) {
                None => rest,
                Some(sub) => {
                    let tot = sat_add(pick_score(players[k], slots[j]@), sub);
                    match rest {
                        None => Some(tot),
                        Some(rb) => if tot >= rb {
                            Some(tot)
                        } else {
                            Some(rb)
                        },
                    }
                },
            }
        } else {
            rest
        }
    }
}

/// `asg[t]` is the slot index given to player `k + t`: indices open,
/// pairwise distinct, and each player scored for their slot's code.
pub open spec fn valid_asg(
    players: Seq<PickTempData>,
    slots: Seq<String>,
    k: int,
    avail: Seq<bool>,
    asg: Seq<int>,
) -> bool {
    &&& asg.len() == players.len() - k
    &&& avail.len() == slots.len()
    &&& (forall|t: int|
        0 <= t < asg.len() ==> 0 <= #[trigger] asg[t] < slots.len() && avail[asg[t]]
            && pick_has_score(players[k + t], slots[asg[t]]@))
    &&& (forall|t1: int, t2: int| 0 <= t1 < t2 < asg.len() ==> asg[t1] != asg[t2])
}

/// The saturating total an assignment earns.
pub open spec fn asg_total(
    players: Seq<PickTempData>,
    slots: Seq<String>,
    k: int,
    asg: Seq<int>,
) -> i64
    decreases asg.len(),
{
    if asg.len() == 0 {
        0i64
    } else {
        sat_add(
            pick_score(players[k], slots[asg[0]]@),
            asg_total(players, slots, k + 1, asg.drop_first()),
        )
    }
}

/// First index at or after `i` that is open and carries code `c`,
/// else the slot count.
pub open spec fn first_avail_code(slots: Seq<String>, avail: Seq<bool>, c: Seq<char>, i: int) -> int
    decreases slots.len() - i,
{
    if i < 0 || i >= slots.len() {
        slots.len() as int
    } else if avail[i] && slots[i]@ == c {
        i
    } else {
        first_avail_code(slots, avail, c, i + 1)
    }
}

proof fn lemma_first_avail_code(slots: Seq<String>, avail: Seq<bool>, c: Seq<char>, i: int, w: int)
    requires
        0 <= i <= w < slots.len(),
        avail[w],
        slots[w]@ == c,
    ensures
        i <= first_avail_code(slots, avail, c, i) <= w,
        ({
            let f = first_avail_code(slots, avail, c, i);
            avail[f] && slots[f]@ == c && (forall|j2: int|
                i <= j2 < f ==> !(avail[j2] && #[trigger] slots[j2]@ == c))
        }),
    decreases w - i,
{
    if !(avail[i] && slots[i]@ == c) {
        lemma_first_avail_code(slots, avail, c, i + 1, w);
    }
}

/// Two assignments whose slots carry the same codes earn the same
/// total.
proof fn lemma_total_same_codes(
    players: Seq<PickTempData>,
    slots: Seq<String>,
    k: int,
    a1: Seq<int>,
    a2: Seq<int>,
)
    requires
        a1.len() == a2.len(),
        forall|t: int| 0 <= t < a1.len() ==> slots[#[trigger] a1[t]]@ == slots[#[trigger] a2[t]]@,
    ensures
        asg_total(players, slots, k, a1) == asg_total(players, slots, k, a2),
    decreases a1.len(),
{
    if a1.len() > 0 {
        assert(slots[a1[0]]@ == slots[a2[0]]@);
        assert forall|t: int| 0 <= t < a1.drop_first().len() implies slots[#[trigger] a1.drop_first()[t]]@
            == slots[#[trigger] a2.drop_first()[t]]@ by {
            assert(a1.drop_first()[t] == a1[t + 1] && a2.drop_first()[t] == a2[t + 1]);
        }
        lemma_total_same_codes(players, slots, k + 1, a1.drop_first(), a2.drop_first());
    }
}

/// No valid assignment beats the solver's value: the solver result is
/// an upper bound over every complete assignment of the open slots.
pub proof fn lemma_solve_upper(
    players: Seq<PickTempData>,
    slots: Seq<String>,
    k: int,
    avail: Seq<bool>,
    asg: Seq<int>,
)
    requires
        0 <= k <= players.len(),
        valid_asg(players, slots, k, avail, asg),
    ensures
        (match spec_solve(players, slots, k, avail) {
            Some(v) => asg_total(players, slots, k, asg) <= v,
            None => false,
        }),
    decreases players.len() - k,
{
    if k < players.len() {
        // replace the first player's slot by the first open slot with
        // the same code; totals are unchanged and the branch is tried
        let c = slots[asg[0]]@;
        let j0 = first_avail_code(slots, avail, c, 0);
        lemma_first_avail_code(slots, avail, c, 0, asg[0]);
        let asg2: Seq<int> = if j0 == asg[0] {
            asg
        } else if exists|t: int| 0 < t < asg.len() && asg[t] == j0 {
            let tw = choose|t: int| 0 < t < asg.len() && asg[t] == j0;
            asg.update(0, j0).update(tw, asg[0])
        } else {
            asg.update(0, j0)
        };
        assert forall|t: int| 0 <= t < asg2.len() implies slots[#[trigger] asg2[t]]@
            == slots[#[trigger] asg[t]]@ by {}
        assert forall|t: int| 0 <= t < asg2.len() implies 0 <= #[trigger] asg2[t] < slots.len()
            && avail[asg2[t]] && pick_has_score(players[k + t], slots[asg2[t]]@) by {
            assert(slots[asg2[t]]@ == slots[asg[t]]@);
            assert(pick_has_score(players[k + t], slots[asg[t]]@));
        }
        assert forall|t1: int, t2: int| 0 <= t1 < t2 < asg2.len() implies asg2[t1] != asg2[t2] by {}
        assert(valid_asg(players, slots, k, avail, asg2));
        lemma_total_same_codes(players, slots, k, asg2, asg);
        lemma_try_upper(players, slots, k, avail, asg2, 0);
    }
}

proof fn lemma_try_upper(
    players: Seq<PickTempData>,
    slots: Seq<String>,
    k: int,
    avail: Seq<bool>,
    asg: Seq<int>,
    j: int,
)
    requires
        0 <= k < players.len(),
        valid_asg(players, slots, k, avail, asg),
        0 <= j <= asg[0],
        forall|j2: int| 0 <= j2 < asg[0] ==> !(avail[j2] && #[trigger] slots[j2]@ == slots[asg[0]]@),
    ensures
        (match solve_try(players, slots, k, avail, j) {
            Some(v) => asg_total(players, slots, k, asg) <= v,
            None => false,
        }),
    decreases players.len() - k, slots.len() - j,
{
    assert(asg.len() > 0);
    assert(0 <= asg[0] < slots.len() && avail[asg[0]] && pick_has_score(players[k], slots[asg[0]]@));
    if asg[0] == j {
        assert(!dup_before(slots, avail, j));
        let avail2 = avail.update(j, false);
        let sub = asg.drop_first();
        assert forall|t: int| 0 <= t < sub.len() implies 0 <= #[trigger] sub[t] < slots.len()
            && avail2[sub[t]] && pick_has_score(players[k + 1 + t], slots[sub[t]]@) by {
            assert(sub[t] == asg[t + 1]);
            assert(asg[t + 1] != asg[0]);
        }
        assert(valid_asg(players, slots, k + 1, avail2, sub));
        lemma_solve_upper(players, slots, k + 1, avail2, sub);
    } else {
        lemma_try_upper(players, slots, k, avail, asg, j + 1);
    }
}

/// Solver results are unchanged under content-equal players.
pub proof fn lemma_solve_congruent(
    p1: Seq<PickTempData>,
    p2: Seq<PickTempData>,
    slots: Seq<String>,
    k: int,
    avail: Seq<bool>,
)
    requires
        picks_eq(p1, p2),
    ensures
        spec_solve(p1, slots, k, avail) == spec_solve(p2, slots, k, avail),
    decreases p1.len() - k, slots.len() + 1,
{
    if 0 <= k < p1.len() {
        lemma_try_congruent(p1, p2, slots, k, avail, 0);
    }
}

proof fn lemma_try_congruent(
    p1: Seq<PickTempData>,
    p2: Seq<PickTempData>,
    slots: Seq<String>,
    k: int,
    avail: Seq<bool>,
    j: int,
)
    requires
        picks_eq(p1, p2),
        0 <= k < p1.len(),
    ensures
        solve_try(p1, slots, k, avail, j) == solve_try(p2, slots, k, avail, j),
    decreases p1.len() - k, slots.len() - j,
{
    if 0 <= j < slots.len() {
        lemma_try_congruent(p1, p2, slots, k, avail, j + 1);
        lemma_solve_congruent(p1, p2, slots, k + 1, avail.update(j, false));
        assert(pick_eq(p1[k], p2[k]));
    }
}

/// Looks up a player's score entry for `code`.
fn pick_get_score(p: &PickTempData, code: &String) -> (r: Option<i64>)
    ensures
        (match r {
            Some(v) => pick_has_score(*p, code@) && v == pick_score(*p, code@),
            None => !pick_has_score(*p, code@),
        }),
{
    let mut q: usize = 0;
    while q < p.position_scores.len()
        invariant
            q <= p.position_scores.len(),
            forall|x: int| 0 <= x < q ==> p.position_scores@[x].0@ != code@,
            pick_score_from(p.position_scores@, code@, 0) == pick_score_from(
                p.position_scores@,
                code@,
                q as int,
            ),
        decreases p.position_scores.len() - q,
    {
        if crate::text::str_eq(p.position_scores[q].0.as_str(), code.as_str()) {
            return Some(p.position_scores[q].1);
        }
        q = q + 1;
    }
    None
}

/// The larger option under the solver's tie rule.
pub open spec fn omax(a: Option<i64>, b: Option<i64>) -> Option<i64> {
    match (a, b) {
        (None, x) => x,
        (Some(va), None) => Some(va),
        (Some(va), Some(vb)) => if va >= vb {
            Some(va)
        } else {
            Some(vb)
        },
    }
}

fn solve_rec(
    players: &Vec<PickTempData>,
    slots: &Vec<String>,
    k: usize,
    avail: &mut Vec<bool>,
) -> (r: Option<(Vec<usize>, i64)>)
    requires
        k <= players.len(),
        old(avail).len() == slots.len(),
    ensures
        final(avail)@ == old(avail)@,
        (match r {
            Some((asg, tot)) => {
                &&& valid_asg(
                    players@,
                    slots@,
                    k as int,
                    old(avail)@,
                    asg@.map_values(|x: usize| x as int),
                )
                &&& tot == asg_total(
                    players@,
                    slots@,
                    k as int,
                    asg@.map_values(|x: usize| x as int),
                )
                &&& spec_solve(players@, slots@, k as int, old(avail)@) == Some(tot)
            },
            None => spec_solve(players@, slots@, k as int, old(avail)@) is None,
        }),
    decreases players.len() - k,
{
    if k == players.len() {
        let empty: Vec<usize> = Vec::new();
        proof {
            assert(empty@.map_values(|x: usize| x as int) =~= Seq::<int>::empty());
        }
        return Some((empty, 0));
    }
    let ghost avail0 = avail@;
    let mut best: Option<(Vec<usize>, i64)> = None;
    let mut j: usize = 0;
    while j < slots.len()
        invariant
            k < players.len(),
            avail@ == avail0,
            avail0.len() == slots.len(),
            j <= slots.len(),
            (match best {
                None => solve_try(players@, slots@, k as int, avail0, 0) == solve_try(
                    players@,
                    slots@,
                    k as int,
                    avail0,
                    j as int,
                ),
                Some((asg, bv)) => {
                    &&& valid_asg(
                        players@,
                        slots@,
                        k as int,
                        avail0,
                        asg@.map_values(|x: usize| x as int),
                    )
                    &&& bv == asg_total(
                        players@,
                        slots@,
                        k as int,
                        asg@.map_values(|x: usize| x as int),
                    )
                    &&& solve_try(players@, slots@, k as int, avail0, 0) == omax(
                        Some(bv),
                        solve_try(players@, slots@, k as int, avail0, j as int),
                    )
                },
            }),
        decreases slots.len() - j,
    {
        let open = avail[j];
        let score_opt = pick_get_score(&players[k], &slots[j]);
        let mut dup = false;
        let mut j2: usize = 0;
        while j2 < j && !dup
            invariant
                j2 <= j < slots@.len(),
                avail@ == avail0,
                avail0.len() == slots@.len(),
                !dup ==> (forall|x: int|
                    0 <= x < j2 ==> !(avail0[x] && #[trigger] slots@[x]@ == slots@[j as int]@)),
                dup ==> dup_before(slots@, avail0, j as int),
            decreases j - j2 + (if dup {
                0int
            } else {
                1int
            }),
        {
            if avail[j2] && crate::text::str_eq(slots[j2].as_str(), slots[j].as_str()) {
                dup = true;
            } else {
                j2 = j2 + 1;
            }
        }
        proof {
            assert(dup == dup_before(slots@, avail0, j as int));
        }
        let usable = open && !dup && score_opt.is_some();
        if usable {
            avail.set(j, false);
            let ghost availj = avail@;
            let sub = solve_rec(players, slots, k + 1, avail);
            avail.set(j, true);
            proof {
                assert(avail@ =~= avail0);
                assert(availj =~= avail0.update(j as int, false));
            }
            match sub {
                None => {
                    proof {
                        assert(spec_solve(players@, slots@, k + 1, avail0.update(j as int, false))
                            is None);
                    }
                },
                Some((sub_asg, sub_tot)) => {
                    let score = match score_opt {
                        Some(v) => v,
                        None => 0,
                    };
                    let tot = add_sat(score, sub_tot);
                    let ghost subm = sub_asg@.map_values(|x: usize| x as int);
                    let take = match &best {
                        None => true,
                        Some((_, bv)) => tot > *bv,
                    };
                    proof {
                        assert(spec_solve(players@, slots@, k + 1, avail0.update(j as int, false))
                            == Some(sub_tot));
                    }
                    if take {
                        let mut a: Vec<usize> = Vec::new();
                        a.push(j);
                        let mut sub_asg2 = sub_asg;
                        a.append(&mut sub_asg2);
                        proof {
                            let am = a@.map_values(|x: usize| x as int);
                            assert(am.len() == 1 + subm.len());
                            assert(am[0] == j as int);
                            assert(forall|t: int| 0 <= t < subm.len() ==> am[t + 1] == subm[t]);
                            assert(am.drop_first() =~= subm);
                            assert forall|t: int| 0 <= t < am.len() implies 0 <= #[trigger] am[t]
                                < slots@.len() && avail0[am[t]] && pick_has_score(
                                players@[k + t],
                                slots@[am[t]]@,
                            ) by {
                                if t > 0 {
                                    assert(subm[t - 1] == am[t]);
                                    assert(avail0.update(j as int, false)[subm[t - 1]]);
                                }
                            }
                            assert forall|t1: int, t2: int| 0 <= t1 < t2 < am.len() implies am[t1]
                                != am[t2] by {
                                if t1 > 0 {
                                    assert(subm[t1 - 1] == am[t1] && subm[t2 - 1] == am[t2]);
                                } else {
                                    assert(avail0.update(j as int, false)[subm[t2 - 1]]);
                                }
                            }
                            assert(valid_asg(players@, slots@, k as int, avail0, am));
                            assert(asg_total(players@, slots@, k as int, am) == sat_add(
                                pick_score(players@[k as int], slots@[j as int]@),
                                asg_total(players@, slots@, k + 1, subm),
                            ));
                        }
                        best = Some((a, tot));
                    }
                },
            }
        }
        j = j + 1;
        proof {
            assert(solve_try(players@, slots@, k as int, avail0, j - 1) == (if (j - 1)
                < avail0.len() && avail0[j - 1] && !dup_before(slots@, avail0, (j - 1) as int)
                && pick_has_score(
                players@[k as int],
                slots@[(j - 1) as int]@,
            ) {
                match spec_solve(players@, slots@, k + 1, avail0.update(j - 1, false)) {
                    None => solve_try(players@, slots@, k as int, avail0, j as int),
                    Some(sub) => {
                        let tot = sat_add(pick_score(players@[k as int], slots@[(j - 1) as int]@), sub);
                        match solve_try(players@, slots@, k as int, avail0, j as int) {
                            None => Some(tot),
                            Some(rb) => if tot >= rb {
                                Some(tot)
                            } else {
                                Some(rb)
                            },
                        }
                    },
                }
            } else {
                solve_try(players@, slots@, k as int, avail0, j as int)
            }));
        }
    }
    proof {
        assert(solve_try(players@, slots@, k as int, avail0, slots@.len() as int) is None);
    }
    match best {
        None => None,
        Some((a, v)) => Some((a, v)),
    }
}

/// Finds the score-maximising assignment of `players` to `positions`:
/// the value equals `spec_solve` on fully open slots, the returned
/// entries carry the players in order with their slot codes and
/// scores, and no valid assignment scores more
/// ([`lemma_solve_upper`]).
pub fn find_best_positions(players: &Vec<PickTempData>, positions: &Vec<String>) -> (r: Option<
    (Vec<(String, PositionDescription)>, i64),
>)
    requires
        players.len() == positions.len(),
    ensures
        (match r {
            None => spec_solve(players@, positions@, 0, full_avail(positions@.len() as int))
                is None,
            Some((list, tot)) => {
                &&& spec_solve(players@, positions@, 0, full_avail(positions@.len() as int))
                    == Some(tot)
                &&& list@.len() == players@.len()
                &&& (forall|t: int|
                    0 <= t < list@.len() ==> #[trigger] list@[t].0@ == players@[t].name@)
                &&& (exists|asg: Seq<int>|
                    valid_asg(players@, positions@, 0, full_avail(positions@.len() as int), asg)
                        && tot == asg_total(players@, positions@, 0, asg) && (forall|t: int|
                        0 <= t < list@.len() ==> #[trigger] list@[t].1.position@
                            == positions@[asg[t]]@ && list@[t].1.score == pick_score(
                            players@[t],
                            positions@[asg[t]]@,
                        )))
            },
        }),
{
    let n = positions.len();
    let mut avail: Vec<bool> = Vec::new();
    let mut q: usize = 0;
    while q < n
        invariant
            q <= n,
            avail@.len() == q,
            forall|x: int| 0 <= x < q ==> avail@[x] == true,
        decreases n - q,
    {
        avail.push(true);
        q = q + 1;
    }
    proof {
        assert(avail@ =~= full_avail(n as int));
    }
    match solve_rec(players, positions, 0, &mut avail) {
        None => None,
        Some((asg, tot)) => {
            let ghost am = asg@.map_values(|x: usize| x as int);
            let mut list: Vec<(String, PositionDescription)> = Vec::new();
            let mut t: usize = 0;
            while t < players.len()
                invariant
                    t <= players.len(),
                    players@.len() == positions@.len(),
                    asg@.len() == players@.len(),
                    am == asg@.map_values(|x: usize| x as int),
                    valid_asg(players@, positions@, 0, full_avail(positions@.len() as int), am),
                    list@.len() == t,
                    forall|x: int| 0 <= x < t ==> #[trigger] list@[x].0@ == players@[x].name@,
                    forall|x: int|
                        0 <= x < t ==> #[trigger] list@[x].1.position@ == positions@[am[x]]@
                            && list@[x].1.score == pick_score(players@[x], positions@[am[x]]@),
                decreases players.len() - t,
            {
                let jdx = asg[t];
                proof {
                    assert(am[t as int] == jdx as int);
                    assert(0 <= am[t as int] < positions@.len());
                    assert(pick_has_score(players@[t as int], positions@[am[t as int]]@));
                }
                let score = match pick_get_score(&players[t], &positions[jdx]) {
                    Some(v) => v,
                    None => {
                        proof {
                            assert(false);
                        }
                        0
                    },
                };
                list.push(
                    (
                        players[t].name.clone(),
                        PositionDescription { position: positions[jdx].clone(), score },
                    ),
                );
                t = t + 1;
            }
            Some((list, tot))
        },
    }
}

/// The name occurs exactly once among the assignment entries.
pub open spec fn occurs_once(list: Seq<(String, PositionDescription)>, name: Seq<char>) -> bool {
    (exists|q: int| 0 <= q < list.len() && #[trigger] list[q].0@ == name) && (forall|q1: int, q2: int|
        0 <= q1 < list.len() && 0 <= q2 < list.len() && #[trigger] list[q1].0@ == name
            && #[trigger] list[q2].0@ == name ==> q1 == q2)
}

fn find_by_name(list: &Vec<(String, PositionDescription)>, name: &String) -> (r:
    PositionDescription)
    requires
        occurs_once(list@, name@),
    ensures
        exists|q: int| 0 <= q < list@.len() && #[trigger] list@[q].0@ == name@ && r == list@[q].1,
{
    let mut q: usize = 0;
    while q < list.len()
        invariant
            q <= list.len(),
            occurs_once(list@, name@),
            forall|x: int| 0 <= x < q ==> list@[x].0@ != name@,
        decreases list.len() - q,
    {
        if crate::text::str_eq(list[q].0.as_str(), name.as_str()) {
            return list[q].1.clone();
        }
        q = q + 1;
    }
    proof {
        assert(false);
    }
    PositionDescription { position: String::new(), score: 0 }
}

/// The record `d` is the entry that `list` holds for `name`.
pub open spec fn joined(
    list: Seq<(String, PositionDescription)>,
    name: Seq<char>,
    d: PositionDescription,
) -> bool {
    exists|q: int| 0 <= q < list.len() && #[trigger] list[q].0@ == name && d == list[q].1
}

/// Joins the starters with their offense and defense assignments,
/// matched by name.  Every starter must occur exactly once in each
/// list; each record's total is the saturating sum of its two scores.
pub fn make_lineup(
    starters: &Vec<PickTempData>,
    offense: &Vec<(String, PositionDescription)>,
    defense: &Vec<(String, PositionDescription)>,
) -> (r: Vec<StartingPosition>)
    requires
        forall|t: int|
            0 <= t < starters@.len() ==> occurs_once(offense@, #[trigger] starters@[t].name@)
                && occurs_once(defense@, starters@[t].name@),
    ensures
        r@.len() == starters@.len(),
        forall|t: int| 0 <= t < r@.len() ==> #[trigger] r@[t].name@ == starters@[t].name@,
        forall|t: int|
            0 <= t < r@.len() ==> joined(offense@, starters@[t].name@, #[trigger] r@[t].offense),
        forall|t: int|
            0 <= t < r@.len() ==> joined(defense@, starters@[t].name@, #[trigger] r@[t].defense),
        forall|t: int|
            0 <= t < r@.len() ==> #[trigger] r@[t].total_score == sat_add(
                r@[t].offense.score,
                r@[t].defense.score,
            ),
{
    let mut r: Vec<StartingPosition> = Vec::new();
    let mut t: usize = 0;
    while t < starters.len()
        invariant
            t <= starters.len(),
            forall|x: int|
                0 <= x < starters@.len() ==> occurs_once(offense@, #[trigger] starters@[x].name@)
                    && occurs_once(defense@, starters@[x].name@),
            r@.len() == t,
            forall|x: int| 0 <= x < t ==> #[trigger] r@[x].name@ == starters@[x].name@,
            forall|x: int|
                0 <= x < t ==> joined(offense@, starters@[x].name@, #[trigger] r@[x].offense),
            forall|x: int|
                0 <= x < t ==> joined(defense@, starters@[x].name@, #[trigger] r@[x].defense),
            forall|x: int|
                0 <= x < t ==> #[trigger] r@[x].total_score == sat_add(
                    r@[x].offense.score,
                    r@[x].defense.score,
                ),
        decreases starters.len() - t,
    {
        let off = find_by_name(offense, &starters[t].name);
        let def = find_by_name(defense, &starters[t].name);
        let total = add_sat(off.score, def.score);
        proof {
            assert(joined(offense@, starters@[t as int].name@, off));
            assert(joined(defense@, starters@[t as int].name@, def));
        }
        r.push(
            StartingPosition {
                name: starters[t].name.clone(),
                offense: off,
                defense: def,
                total_score: total,
            },
        );
        t = t + 1;
    }
    r
}

/// Pairwise distinct player names.
pub open spec fn distinct_names(s: Seq<PickTempData>) -> bool {
    forall|q1: int, q2: int|
        0 <= q1 < q2 < s.len() ==> #[trigger] s[q1].name@ != #[trigger] s[q2].name@
}

/// The two-sided score of a roster: offense solve plus defense solve,
/// saturating; `None` when either side has no complete assignment.
pub open spec fn roster_score(starters: Seq<PickTempData>, reqs: &PositionRequirements) -> Option<
    i64,
> {
    match (
        spec_solve(starters, reqs.attacking@, 0, full_avail(reqs.attacking@.len() as int)),
        spec_solve(starters, reqs.defensive@, 0, full_avail(reqs.defensive@.len() as int)),
    ) {
        (Some(a), Some(b)) => Some(sat_add(a, b)),
        _ => None,
    }
}

/// The lineup's offense column realises a valid attacking assignment:
/// some bijection of players to slots gives each entry its slot code
/// and the player's stored score for it.
pub open spec fn offense_assigned(
    players: Seq<PickTempData>,
    slots: Seq<String>,
    lineup: Seq<StartingPosition>,
) -> bool {
    exists|asg: Seq<int>|
        valid_asg(players, slots, 0, full_avail(slots.len() as int), asg) && lineup.len()
            == players.len() && (forall|t: int|
            0 <= t < lineup.len() ==> (#[trigger] lineup[t].offense).position@ == slots[asg[t]]@
                && lineup[t].offense.score == pick_score(players[t], slots[asg[t]]@))
}

/// The defense column counterpart of [`offense_assigned`].
pub open spec fn defense_assigned(
    players: Seq<PickTempData>,
    slots: Seq<String>,
    lineup: Seq<StartingPosition>,
) -> bool {
    exists|asg: Seq<int>|
        valid_asg(players, slots, 0, full_avail(slots.len() as int), asg) && lineup.len()
            == players.len() && (forall|t: int|
            0 <= t < lineup.len() ==> (#[trigger] lineup[t].defense).position@ == slots[asg[t]]@
                && lineup[t].defense.score == pick_score(players[t], slots[asg[t]]@))
}

/// Solves offense and defense for the given starters and assembles the
/// lineup; the score is exactly [`roster_score`] of the starters.
pub fn get_initial_lineup(all: &Vec<PickTempData>, reqs: &PositionRequirements) -> (r: Option<
    (Vec<StartingPosition>, i64),
>)
    requires
        reqs.attacking@.len() == reqs.defensive@.len(),
        all@.len() == reqs.attacking@.len(),
        distinct_names(all@),
    ensures
        (match r {
            None => roster_score(all@, reqs) is None,
            Some((lineup, tot)) => {
                &&& roster_score(all@, reqs) == Some(tot)
                &&& lineup@.len() == all@.len()
                &&& (forall|t: int|
                    0 <= t < lineup@.len() ==> #[trigger] lineup@[t].name@ == all@[t].name@)
                &&& (forall|t: int|
                    0 <= t < lineup@.len() ==> #[trigger] lineup@[t].total_score == sat_add(
                        lineup@[t].offense.score,
                        lineup@[t].defense.score,
                    ))
                &&& offense_assigned(all@, reqs.attacking@, lineup@)
                &&& defense_assigned(all@, reqs.defensive@, lineup@)
            },
        }),
{
    let off = match find_best_positions(all, &reqs.attacking) {
        None => {
            return None;
        },
        Some(o) => o,
    };
    let def = match find_best_positions(all, &reqs.defensive) {
        None => {
            return None;
        },
        Some(d) => d,
    };
    proof {
        assert forall|t: int| 0 <= t < all@.len() implies occurs_once(
            off.0@,
            #[trigger] all@[t].name@,
        ) && occurs_once(def.0@, all@[t].name@) by {
            assert(off.0@[t].0@ == all@[t].name@);
            assert(def.0@[t].0@ == all@[t].name@);
            assert forall|q1: int, q2: int|
                0 <= q1 < off.0@.len() && 0 <= q2 < off.0@.len() && #[trigger] off.0@[q1].0@
                    == all@[t].name@ && #[trigger] off.0@[q2].0@ == all@[t].name@ implies q1
                == q2 by {
                assert(off.0@[q1].0@ == all@[q1].name@);
                assert(off.0@[q2].0@ == all@[q2].name@);
            }
            assert forall|q1: int, q2: int|
                0 <= q1 < def.0@.len() && 0 <= q2 < def.0@.len() && #[trigger] def.0@[q1].0@
                    == all@[t].name@ && #[trigger] def.0@[q2].0@ == all@[t].name@ implies q1
                == q2 by {
                assert(def.0@[q1].0@ == all@[q1].name@);
                assert(def.0@[q2].0@ == all@[q2].name@);
            }
        }
    }
    let lineup = make_lineup(all, &off.0, &def.0);
    proof {
        assert forall|t: int| 0 <= t < lineup@.len() implies (#[trigger] lineup@[t]).offense
            == off.0@[t].1 && lineup@[t].defense == def.0@[t].1 by {
            let q1 = choose|q: int|
                0 <= q < off.0@.len() && #[trigger] off.0@[q].0@ == all@[t].name@ && lineup@[t].offense
                    == off.0@[q].1;
            assert(off.0@[q1].0@ == all@[q1].name@);
            assert(q1 == t);
            let q2 = choose|q: int|
                0 <= q < def.0@.len() && #[trigger] def.0@[q].0@ == all@[t].name@ && lineup@[t].defense
                    == def.0@[q].1;
            assert(def.0@[q2].0@ == all@[q2].name@);
            assert(q2 == t);
        }
        let oasg = choose|asg: Seq<int>|
            valid_asg(all@, reqs.attacking@, 0, full_avail(reqs.attacking@.len() as int), asg)
                && off.1 == asg_total(all@, reqs.attacking@, 0, asg) && (forall|t: int|
                0 <= t < off.0@.len() ==> #[trigger] off.0@[t].1.position@
                    == reqs.attacking@[asg[t]]@ && off.0@[t].1.score == pick_score(
                    all@[t],
                    reqs.attacking@[asg[t]]@,
                ));
        assert forall|t: int| 0 <= t < lineup@.len() implies (#[trigger] lineup@[t].offense).position@
            == reqs.attacking@[oasg[t]]@ && lineup@[t].offense.score == pick_score(
            all@[t],
            reqs.attacking@[oasg[t]]@,
        ) by {
            assert(lineup@[t].offense == off.0@[t].1);
        }
        assert(offense_assigned(all@, reqs.attacking@, lineup@));
        let dasg = choose|asg: Seq<int>|
            valid_asg(all@, reqs.defensive@, 0, full_avail(reqs.defensive@.len() as int), asg)
                && def.1 == asg_total(all@, reqs.defensive@, 0, asg) && (forall|t: int|
                0 <= t < def.0@.len() ==> #[trigger] def.0@[t].1.position@
                    == reqs.defensive@[asg[t]]@ && def.0@[t].1.score == pick_score(
                    all@[t],
                    reqs.defensive@[asg[t]]@,
                ));
        assert forall|t: int| 0 <= t < lineup@.len() implies (#[trigger] lineup@[t].defense).position@
            == reqs.defensive@[dasg[t]]@ && lineup@[t].defense.score == pick_score(
            all@[t],
            reqs.defensive@[dasg[t]]@,
        ) by {
            assert(lineup@[t].defense == def.0@[t].1);
        }
        assert(defense_assigned(all@, reqs.defensive@, lineup@));
    }
    Some((lineup, add_sat(off.1, def.1)))
}

/// Some element of `s` carries the name.
pub open spec fn has_name(s: Seq<PickTempData>, name: Seq<char>) -> bool {
    exists|q: int| 0 <= q < s.len() && #[trigger] s[q].name@ == name
}

fn roster_has_name(s: &Vec<PickTempData>, name: &String) -> (r: bool)
    ensures
        r == has_name(s@, name@),
{
    let mut q: usize = 0;
    while q < s.len()
        invariant
            q <= s.len(),
            forall|x: int| 0 <= x < q ==> s@[x].name@ != name@,
        decreases s.len() - q,
    {
        if crate::text::str_eq(s[q].name.as_str(), name.as_str()) {
            return true;
        }
        q = q + 1;
    }
    false
}

/// What optimization promises about its outcome `(fs, lineup, score)`:
/// the score is the roster's own, never below the initial score, the
/// roster is unchanged when the score did not move, every starter came
/// from the bench pool or the initial roster, and no single bench
/// substitution scores higher.
pub open spec fn optimized(
    all: Seq<PickTempData>,
    init: Seq<PickTempData>,
    reqs: &PositionRequirements,
    fs: Seq<PickTempData>,
    lineup: Seq<StartingPosition>,
    score: i64,
) -> bool {
    &&& fs.len() == init.len()
    &&& roster_score(fs, reqs) == Some(score)
    &&& (match roster_score(init, reqs) {
        Some(v0) => score >= v0 && (score == v0 ==> fs =~= init),
        None => false,
    })
    &&& lineup.len() == fs.len()
    &&& (forall|t: int| 0 <= t < fs.len() ==> #[trigger] lineup[t].name@ == fs[t].name@)
    &&& (forall|t: int|
        0 <= t < lineup.len() ==> #[trigger] lineup[t].total_score == sat_add(
            lineup[t].offense.score,
            lineup[t].defense.score,
        ))
    &&& offense_assigned(fs, reqs.attacking@, lineup)
    &&& defense_assigned(fs, reqs.defensive@, lineup)
    &&& (forall|t: int|
        0 <= t < fs.len() ==> #[trigger] pick_eq(fs[t], init[t]) || (exists|b: int|
            0 <= b < all.len() && pick_eq(fs[t], #[trigger] all[b])))
    &&& (forall|b: int, t: int|
        #![trigger fs.update(t, all[b])]
        0 <= b < all.len() && 0 <= t < fs.len() && !has_name(fs, all[b].name@) ==> (
        match roster_score(fs.update(t, all[b]), reqs) {
            Some(v) => v <= score,
            None => true,
        }))
}

/// Some final roster witnesses [`optimized`] for this outcome.
pub open spec fn optimized_any(
    all: Seq<PickTempData>,
    init: Seq<PickTempData>,
    reqs: &PositionRequirements,
    lineup: Seq<StartingPosition>,
    score: i64,
) -> bool {
    exists|fs: Seq<PickTempData>| optimized(all, init, reqs, fs, lineup, score)
}

/// One scan pass: the first single-player substitution (bench player
/// in bench order, then slot order) whose exact two-sided score
/// strictly beats `best_score`, or `None` when no substitution
/// improves.
fn find_improvement(
    all_players: &Vec<PickTempData>,
    starters: &Vec<PickTempData>,
    reqs: &PositionRequirements,
    best_score: i64,
) -> (r: Option<(Vec<PickTempData>, Vec<StartingPosition>, i64)>)
    requires
        reqs.attacking@.len() == reqs.defensive@.len(),
        starters@.len() == reqs.attacking@.len(),
        distinct_names(starters@),
    ensures
        (match r {
            None => forall|b: int, t: int|
                #![trigger starters@.update(t, all_players@[b])]
                0 <= b < all_players@.len() && 0 <= t < starters@.len() && !has_name(
                    starters@,
                    all_players@[b].name@,
                ) ==> (match roster_score(starters@.update(t, all_players@[b]), reqs) {
                    Some(v) => v <= best_score,
                    None => true,
                }),
            Some((fs, lineup, score)) => {
                &&& score > best_score
                &&& roster_score(fs@, reqs) == Some(score)
                &&& distinct_names(fs@)
                &&& fs@.len() == starters@.len()
                &&& lineup@.len() == fs@.len()
                &&& (forall|t: int|
                    0 <= t < fs@.len() ==> #[trigger] lineup@[t].name@ == fs@[t].name@)
                &&& (forall|t: int|
                    0 <= t < lineup@.len() ==> #[trigger] lineup@[t].total_score == sat_add(
                        lineup@[t].offense.score,
                        lineup@[t].defense.score,
                    ))
                &&& offense_assigned(fs@, reqs.attacking@, lineup@)
                &&& defense_assigned(fs@, reqs.defensive@, lineup@)
                &&& (exists|b: int, t: int|
                    0 <= b < all_players@.len() && 0 <= t < starters@.len() && picks_eq(
                        fs@,
                        starters@.update(t, all_players@[b]),
                    ))
            },
        }),
{
    let mut b: usize = 0;
    while b < all_players.len()
        invariant
            reqs.attacking@.len() == reqs.defensive@.len(),
            starters@.len() == reqs.attacking@.len(),
            distinct_names(starters@),
            b <= all_players@.len(),
            forall|b2: int, t2: int|
                #![trigger starters@.update(t2, all_players@[b2])]
                0 <= b2 < b && 0 <= t2 < starters@.len() && !has_name(
                    starters@,
                    all_players@[b2].name@,
                ) ==> (match roster_score(starters@.update(t2, all_players@[b2]), reqs) {
                    Some(v) => v <= best_score,
                    None => true,
                }),
        decreases all_players.len() - b,
    {
        if !roster_has_name(starters, &all_players[b].name) {
            let mut t: usize = 0;
            while t < starters.len()
                invariant
                    reqs.attacking@.len() == reqs.defensive@.len(),
                    starters@.len() == reqs.attacking@.len(),
                    distinct_names(starters@),
                    b < all_players@.len(),
                    !has_name(starters@, all_players@[b as int].name@),
                    t <= starters@.len(),
                    forall|t2: int|
                        #![trigger starters@.update(t2, all_players@[b as int])]
                        0 <= t2 < t ==> (match roster_score(
                            starters@.update(t2, all_players@[b as int]),
                            reqs,
                        ) {
                            Some(v) => v <= best_score,
                            None => true,
                        }),
                decreases starters.len() - t,
            {
                let mut trial: Vec<PickTempData> = Vec::new();
                let mut x: usize = 0;
                while x < starters.len()
                    invariant
                        x <= starters@.len(),
                        t < starters@.len(),
                        b < all_players@.len(),
                        trial@.len() == x,
                        forall|y: int|
                            0 <= y < x ==> pick_eq(
                                #[trigger] trial@[y],
                                starters@.update(t as int, all_players@[b as int])[y],
                            ),
                    decreases starters.len() - x,
                {
                    if x == t {
                        trial.push(all_players[b].clone());
                    } else {
                        trial.push(starters[x].clone());
                    }
                    x = x + 1;
                }
                proof {
                    assert(picks_eq(trial@, starters@.update(t as int, all_players@[b as int])));
                    lemma_roster_congruent(
                        trial@,
                        starters@.update(t as int, all_players@[b as int]),
                        reqs,
                    );
                    assert forall|q1: int, q2: int| 0 <= q1 < q2 < trial@.len() implies #[trigger] trial@[q1].name@ != #[trigger] trial@[q2].name@ by {
                        let upd = starters@.update(t as int, all_players@[b as int]);
                        assert(pick_eq(trial@[q1], upd[q1]));
                        assert(pick_eq(trial@[q2], upd[q2]));
                        if q1 != t && q2 != t {
                            assert(starters@[q1].name@ != starters@[q2].name@);
                        } else if q1 == t {
                            assert(starters@[q2].name@ != all_players@[b as int].name@);
                        } else {
                            assert(starters@[q1].name@ != all_players@[b as int].name@);
                        }
                    }
                }
                match get_initial_lineup(&trial, reqs) {
                    None => {},
                    Some((tl, ts)) => {
                        if ts > best_score {
                            return Some((trial, tl, ts));
                        }
                    },
                }
                t = t + 1;
            }
        }
        b = b + 1;
    }
    None
}

/// First-improvement hill climbing over single-player substitutions:
/// repeatedly swaps a bench player into the starters whenever the trial
/// roster's exact two-sided score strictly improves, restarting the
/// scan after every acceptance, until no substitution improves.
///
/// Returns `None` exactly when the initial roster admits no complete
/// assignment; otherwise the result satisfies [`optimized`] for some
/// final roster.
pub fn optimize_lineup(
    all_players: &Vec<PickTempData>,
    initial_lineup: Vec<PickTempData>,
    reqs: &PositionRequirements,
) -> (r: Option<(Vec<StartingPosition>, i64)>)
    requires
        reqs.attacking@.len() == reqs.defensive@.len(),
        initial_lineup@.len() == reqs.attacking@.len(),
        distinct_names(initial_lineup@),
    ensures
        (r is None) == (roster_score(initial_lineup@, reqs) is None),
        r matches Some((lineup, score)) ==> optimized_any(
            all_players@,
            initial_lineup@,
            reqs,
            lineup@,
            score,
        ),
{
    let ghost init0 = initial_lineup@;
    let mut starters = initial_lineup;
    let (mut best_lineup, mut best_score) = match get_initial_lineup(&starters, reqs) {
        None => {
            return None;
        },
        Some(p) => p,
    };
    let ghost init_score = best_score;
    loop
        invariant
            init0 == initial_lineup@,
            reqs.attacking@.len() == reqs.defensive@.len(),
            starters@.len() == init0.len() == reqs.attacking@.len(),
            distinct_names(starters@),
            roster_score(starters@, reqs) == Some(best_score),
            roster_score(init0, reqs) == Some(init_score),
            best_score >= init_score,
            best_score == init_score ==> starters@ =~= init0,
            best_lineup@.len() == starters@.len(),
            forall|t: int|
                0 <= t < starters@.len() ==> #[trigger] best_lineup@[t].name@
                    == starters@[t].name@,
            forall|t: int|
                0 <= t < best_lineup@.len() ==> #[trigger] best_lineup@[t].total_score == sat_add(
                    best_lineup@[t].offense.score,
                    best_lineup@[t].defense.score,
                ),
            offense_assigned(starters@, reqs.attacking@, best_lineup@),
            defense_assigned(starters@, reqs.defensive@, best_lineup@),
            forall|t: int|
                0 <= t < starters@.len() ==> #[trigger] pick_eq(starters@[t], init0[t]) || (
                exists|b: int|
                    0 <= b < all_players@.len() && pick_eq(
                        starters@[t],
                        #[trigger] all_players@[b],
                    )),
        decreases i64::MAX - best_score,
    {
        match find_improvement(all_players, &starters, reqs, best_score) {
            None => {
                proof {
                    assert(optimized(
                        all_players@,
                        initial_lineup@,
                        reqs,
                        starters@,
                        best_lineup@,
                        best_score,
                    ));
                    assert(optimized_any(
                        all_players@,
                        initial_lineup@,
                        reqs,
                        best_lineup@,
                        best_score,
                    ));
                }
                return Some((best_lineup, best_score));
            },
            Some((fs, lineup, score)) => {
                proof {
                    let (bw, tw) = choose|b: int, t: int|
                        0 <= b < all_players@.len() && 0 <= t < starters@.len() && picks_eq(
                            fs@,
                            starters@.update(t, all_players@[b]),
                        );
                    assert forall|y: int|
                        0 <= y < fs@.len() implies #[trigger] pick_eq(fs@[y], init0[y]) || (
                    exists|b2: int|
                        0 <= b2 < all_players@.len() && pick_eq(
                            fs@[y],
                            #[trigger] all_players@[b2],
                        )) by {
                        assert(pick_eq(fs@[y], starters@.update(tw, all_players@[bw])[y]));
                        if y == tw {
                            assert(pick_eq(fs@[y], all_players@[bw]));
                        } else {
                            assert(pick_eq(fs@[y], starters@[y]));
                            assert(pick_eq(starters@[y], init0[y]) || (exists|b2: int|
                                0 <= b2 < all_players@.len() && pick_eq(
                                    starters@[y],
                                    #[trigger] all_players@[b2],
                                )));
                            if !pick_eq(starters@[y], init0[y]) {
                                let bb = choose|b2: int|
                                    0 <= b2 < all_players@.len() && pick_eq(
                                        starters@[y],
                                        #[trigger] all_players@[b2],
                                    );
                                assert(pick_eq(fs@[y], all_players@[bb]));
                            }
                        }
                    }
                }
                starters = fs;
                best_lineup = lineup;
                best_score = score;
            },
        }
    }
}

/// Roster scores are unchanged under content-equal rosters.
pub proof fn lemma_roster_congruent(
    p1: Seq<PickTempData>,
    p2: Seq<PickTempData>,
    reqs: &PositionRequirements,
)
    requires
        picks_eq(p1, p2),
    ensures
        roster_score(p1, reqs) == roster_score(p2, reqs),
{
    lemma_solve_congruent(p1, p2, reqs.attacking@, 0, full_avail(reqs.attacking@.len() as int));
    lemma_solve_congruent(p1, p2, reqs.defensive@, 0, full_avail(reqs.defensive@.len() as int));
}

} // verus!
