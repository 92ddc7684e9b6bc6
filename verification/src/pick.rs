//! Per-player scoring data: every required position evaluated once,
//! plus an upper-bound potential score used to seed the optimizer.

use vstd::prelude::*;
use crate::arith::{sat_add, max2, add_sat};
use crate::player::Player;
use crate::composition::{PositionRequirements, formula_of};
use crate::evaluator::{spec_evaluate, evaluate_position};

verus! {

/// A player's name, their score for every position code that the
/// requirements mention, and an upper-bound potential score.
#[derive(Debug)]
pub struct PickTempData {
    pub name: String,
    pub position_scores: Vec<(String, i64)>,
    pub max_score: i64,
}

impl Clone for PickTempData {
    fn clone(&self) -> (r: Self)
        ensures
            r.name@ == self.name@,
            r.position_scores@ == self.position_scores@,
            r.max_score == self.max_score,
    {
        let mut ps: Vec<(String, i64)> = Vec::new();
        let mut i: usize = 0;
        while i < self.position_scores.len()
            invariant
                i <= self.position_scores.len(),
                ps@.len() == i,
                forall|k: int| 0 <= k < i ==> ps@[k] == self.position_scores@[k],
            decreases self.position_scores.len() - i,
        {
            ps.push((self.position_scores[i].0.clone(), self.position_scores[i].1));
            i = i + 1;
        }
        proof {
            assert(ps@ =~= self.position_scores@);
        }
        PickTempData { name: self.name.clone(), position_scores: ps, max_score: self.max_score }
    }
}

/// The score a position contributes for a player: the formula's value,
/// or 0 where evaluation fails (a bad formula costs one score, never
/// the run).
pub open spec fn score_of(st: Seq<(String, i32)>, m: Seq<(String, String)>, code: Seq<char>) -> i64 {
    match spec_evaluate(st, formula_of(m, code)) {
        Ok(v) => v,
        Err(_) => 0i64,
    }
}

/// Some entry of `ps` carries the code `c`.
pub open spec fn has_key(ps: Seq<(String, i64)>, c: Seq<char>) -> bool {
    exists|q: int| 0 <= q < ps.len() && ps[q].0@ == c
}

/// Every entry's value is the score of its code.
pub open spec fn scores_correct(
    ps: Seq<(String, i64)>,
    st: Seq<(String, i32)>,
    m: Seq<(String, String)>,
) -> bool {
    forall|q: int| 0 <= q < ps.len() ==> ps[q].1 == score_of(st, m, #[trigger] ps[q].0@)
}

/// No code occurs twice.
pub open spec fn keys_distinct(ps: Seq<(String, i64)>) -> bool {
    forall|q1: int, q2: int| 0 <= q1 < q2 < ps.len() ==> #[trigger] ps[q1].0@ != #[trigger] ps[q2].0@
}

/// `c` occurs among the codes of `list`.
pub open spec fn in_codes(list: Seq<String>, c: Seq<char>) -> bool {
    exists|k: int| 0 <= k < list.len() && list[k]@ == c
}

/// The best score over a side's codes; an empty side yields the
/// sentinel minimum, kept from spilling by saturating addition.
pub open spec fn side_max(
    st: Seq<(String, i32)>,
    m: Seq<(String, String)>,
    list: Seq<String>,
) -> i64
    decreases list.len(),
{
    if list.len() == 0 {
        i64::MIN
    } else {
        max2(side_max(st, m, list.drop_last()), score_of(st, m, list.last()@))
    }
}

/// The potential-score bound: best attacking score plus best defensive
/// score, saturating.
pub open spec fn spec_max_score(
    st: Seq<(String, i32)>,
    reqs: &PositionRequirements,
) -> i64 {
    sat_add(
        side_max(st, reqs.position_to_calculation@, reqs.attacking@),
        side_max(st, reqs.position_to_calculation@, reqs.defensive@),
    )
}

fn scores_has_key(ps: &Vec<(String, i64)>, c: &String) -> (r: bool)
    ensures
        r == has_key(ps@, c@),
{
    let mut q: usize = 0;
    while q < ps.len()
        invariant
            q <= ps.len(),
            forall|k: int| 0 <= k < q ==> ps@[k].0@ != c@,
        decreases ps.len() - q,
    {
        if crate::text::str_eq(ps[q].0.as_str(), c.as_str()) {
            return true;
        }
        q = q + 1;
    }
    false
}

/// The value stored for `c`; with distinct, correct keys this is the
/// code's score.
fn scores_get(ps: &Vec<(String, i64)>, c: &String) -> (r: i64)
    requires
        has_key(ps@, c@),
    ensures
        exists|q: int| 0 <= q < ps@.len() && ps@[q].0@ == c@ && ps@[q].1 == r,
{
    let mut q: usize = 0;
    while q < ps.len()
        invariant
            q <= ps.len(),
            forall|k: int| 0 <= k < q ==> ps@[k].0@ != c@,
            has_key(ps@, c@),
        decreases ps.len() - q,
    {
        if crate::text::str_eq(ps[q].0.as_str(), c.as_str()) {
            return ps[q].1;
        }
        q = q + 1;
    }
    proof {
        assert(false);
    }
    0
}

/// Scores one side's codes into `ps`, skipping codes already present.
fn add_scores(
    player: &Player,
    reqs: &PositionRequirements,
    list: &Vec<String>,
    ps: &mut Vec<(String, i64)>,
)
    requires
        scores_correct(old(ps)@, player.stats@, reqs.position_to_calculation@),
        keys_distinct(old(ps)@),
    ensures
        scores_correct(final(ps)@, player.stats@, reqs.position_to_calculation@),
        keys_distinct(final(ps)@),
        forall|k: int| 0 <= k < list@.len() ==> has_key(final(ps)@, #[trigger] list@[k]@),
        forall|c: Seq<char>| has_key(old(ps)@, c) ==> has_key(final(ps)@, c),
        forall|q: int| 0 <= q < final(ps)@.len() ==> has_key(old(ps)@, #[trigger] final(ps)@[q].0@)
            || in_codes(list@, final(ps)@[q].0@),
{
    let mut k: usize = 0;
    while k < list.len()
        invariant
            k <= list.len(),
            scores_correct(ps@, player.stats@, reqs.position_to_calculation@),
            keys_distinct(ps@),
            forall|j: int| 0 <= j < k ==> has_key(ps@, #[trigger] list@[j]@),
            forall|c: Seq<char>| has_key(old(ps)@, c) ==> has_key(ps@, c),
            forall|q: int| 0 <= q < ps@.len() ==> has_key(old(ps)@, #[trigger] ps@[q].0@)
                || in_codes(list@, ps@[q].0@),
        decreases list.len() - k,
    {
        if !scores_has_key(ps, &list[k]) {
            let score = match evaluate_position(player, list[k].as_str(), reqs) {
                Ok(v) => v,
                Err(_) => 0,
            };
            let ghost prev = ps@;
            ps.push((list[k].clone(), score));
            proof {
                assert(forall|q: int| 0 <= q < prev.len() ==> ps@[q] == prev[q]);
                assert(ps@[prev.len() as int].0@ == list@[k as int]@);
                assert forall|c: Seq<char>| has_key(prev, c) implies has_key(ps@, c) by {
                    let q = choose|q: int| 0 <= q < prev.len() && prev[q].0@ == c;
                    assert(ps@[q].0@ == c);
                }
                assert(has_key(ps@, list@[k as int]@));
            }
        }
        k = k + 1;
    }
}

/// Evaluates every position code the requirements mention, once each,
/// and computes the potential-score bound.
pub fn to_pick_data(player: &Player, reqs: &PositionRequirements) -> (r: PickTempData)
    ensures
        r.name@ == player.name@,
        scores_correct(r.position_scores@, player.stats@, reqs.position_to_calculation@),
        keys_distinct(r.position_scores@),
        forall|k: int|
            0 <= k < reqs.attacking@.len() ==> has_key(
                r.position_scores@,
                #[trigger] reqs.attacking@[k]@,
            ),
        forall|k: int|
            0 <= k < reqs.defensive@.len() ==> has_key(
                r.position_scores@,
                #[trigger] reqs.defensive@[k]@,
            ),
        forall|q: int|
            0 <= q < r.position_scores@.len() ==> in_codes(
                reqs.attacking@,
                #[trigger] r.position_scores@[q].0@,
            ) || in_codes(reqs.defensive@, r.position_scores@[q].0@),
        r.max_score == spec_max_score(player.stats@, reqs),
{
    let mut ps: Vec<(String, i64)> = Vec::new();
    add_scores(player, reqs, &reqs.attacking, &mut ps);
    add_scores(player, reqs, &reqs.defensive, &mut ps);

    let max_off = side_max_exec(player, reqs, &reqs.attacking, &ps);
    let max_def = side_max_exec(player, reqs, &reqs.defensive, &ps);

    PickTempData {
        name: player.name.clone(),
        position_scores: ps,
        max_score: add_sat(max_off, max_def),
    }
}

/// The best score over one side's codes, read from the score table.
fn side_max_exec(
    player: &Player,
    reqs: &PositionRequirements,
    list: &Vec<String>,
    ps: &Vec<(String, i64)>,
) -> (r: i64)
    requires
        scores_correct(ps@, player.stats@, reqs.position_to_calculation@),
        forall|k: int| 0 <= k < list@.len() ==> has_key(ps@, #[trigger] list@[k]@),
    ensures
        r == side_max(player.stats@, reqs.position_to_calculation@, list@),
{
    let mut acc: i64 = i64::MIN;
    let mut k: usize = 0;
    while k < list.len()
        invariant
            k <= list.len(),
            scores_correct(ps@, player.stats@, reqs.position_to_calculation@),
            forall|j: int| 0 <= j < list@.len() ==> has_key(ps@, #[trigger] list@[j]@),
            acc == side_max(player.stats@, reqs.position_to_calculation@, list@.take(k as int)),
        decreases list.len() - k,
    {
        proof {
            assert(list@.take(k + 1).drop_last() =~= list@.take(k as int));
            assert(list@.take(k + 1).last() == list@[k as int]);
        }
        let v = scores_get(ps, &list[k]);
        proof {
            assert(v == score_of(player.stats@, reqs.position_to_calculation@, list@[k as int]@));
        }
        if v > acc {
            acc = v;
        }
        k = k + 1;
    }
    proof {
        assert(list@.take(list@.len() as int) =~= list@);
    }
    acc
}

} // verus!
