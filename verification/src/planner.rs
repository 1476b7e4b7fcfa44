//! The permutation planner: from a current and a target name assignment to a
//! collision-free rename sequence.
//!
//! The permutation decomposes into disjoint cycles of the relation "this
//! item's target name is currently held by that one".  A fixed point needs
//! no operation at all.  A longer cycle is opened by renaming one of its
//! items to a disposable name, which vacates a name; each following step
//! renames the item that wants the vacated name into it, vacating the next
//! one, until the opening item closes the cycle by taking the last vacated
//! name.  Every operation therefore assigns a name that nothing holds at
//! that instant.

use vstd::prelude::*;

use crate::model::{
    apply_ops, cost_split, count_moved, count_visited, count_visited_moved, ids_ok, is_perm_of,
    item_ids, item_names, lemma_apply_ops_push, lemma_count_all_visited, lemma_count_moved_bounds,
    lemma_count_none_visited, lemma_count_visited_bounds, lemma_count_visited_moved_update,
    lemma_count_visited_update, lemma_index_of_id_at, lemma_op_safe_preserves_no_duplicates,
    lemma_ops_safe_push, lemma_shuffled_perm, name_seq, names_ok, op_moves, op_safe, ops_safe,
    plan_cost_ok, temps_ok, Item, RenameOp,
};
use crate::util::{gen_temp_name, shuffle_slice};

verus! {

/// Why a plan could not be made.
#[derive(Debug, Clone, Copy, PartialEq, Eq, Structural)]
pub enum PlanError {
    /// Two items carry the same identifier.
    DuplicateId,
    /// Two items carry the same current name.
    DuplicateName,
    /// The requested names are not a permutation of the current names.
    NotAPermutation,
    /// The disposable names are too few, repeat, or collide with a live name.
    BadTempNames,
}

/// Whether the items' identifiers are pairwise distinct.
fn check_ids_distinct(items: &Vec<Item>) -> (b: bool)
    ensures
        b == ids_ok(items@),
{
    let n = items.len();
    for i in 0..n
        invariant
            n == items@.len(),
            forall|a: int, b: int|
                0 <= a < b < n && a < i ==> item_ids(items@)[a] != item_ids(items@)[b],
    {
        for j in (i + 1)..n
            invariant
                n == items@.len(),
                i < n,
                forall|a: int, b: int|
                    0 <= a < b < n && a < i ==> item_ids(items@)[a] != item_ids(items@)[b],
                forall|b: int| i < b < j ==> item_ids(items@)[i as int] != item_ids(items@)[b],
        {
            if items[i].id == items[j].id {
                proof {
                    assert(item_ids(items@)[i as int] == items@[i as int].id);
                    assert(item_ids(items@)[j as int] == items@[j as int].id);
                }
                return false;
            }
        }
    }
    true
}

/// Whether the items' current names are pairwise distinct.
fn check_names_distinct(items: &Vec<Item>) -> (b: bool)
    ensures
        b == names_ok(items@),
{
    let n = items.len();
    for i in 0..n
        invariant
            n == items@.len(),
            forall|a: int, b: int|
                0 <= a < b < n && a < i ==> item_names(items@)[a] != item_names(items@)[b],
    {
        for j in (i + 1)..n
            invariant
                n == items@.len(),
                i < n,
                forall|a: int, b: int|
                    0 <= a < b < n && a < i ==> item_names(items@)[a] != item_names(items@)[b],
                forall|b: int| i < b < j ==> item_names(items@)[i as int] != item_names(items@)[b],
        {
            if items[i].name == items[j].name {
                proof {
                    assert(item_names(items@)[i as int] == items@[i as int].name@);
                    assert(item_names(items@)[j as int] == items@[j as int].name@);
                }
                return false;
            }
        }
    }
    true
}

/// Whether a list of names is pairwise distinct.
fn check_strings_distinct(names: &Vec<String>) -> (b: bool)
    ensures
        b == name_seq(names@).no_duplicates(),
{
    let n = names.len();
    for i in 0..n
        invariant
            n == names@.len(),
            forall|a: int, b: int|
                0 <= a < b < n && a < i ==> name_seq(names@)[a] != name_seq(names@)[b],
    {
        for j in (i + 1)..n
            invariant
                n == names@.len(),
                i < n,
                forall|a: int, b: int|
                    0 <= a < b < n && a < i ==> name_seq(names@)[a] != name_seq(names@)[b],
                forall|b: int| i < b < j ==> name_seq(names@)[i as int] != name_seq(names@)[b],
        {
            if names[i] == names[j] {
                proof {
                    assert(name_seq(names@)[i as int] == names@[i as int]@);
                    assert(name_seq(names@)[j as int] == names@[j as int]@);
                }
                return false;
            }
        }
    }
    true
}

/// The first position of `names` holding exactly this name, if any.
fn find_name(names: &Vec<String>, target: &String) -> (r: Option<usize>)
    ensures
        match r {
            Some(q) => {
                &&& q < names@.len()
                &&& name_seq(names@)[q as int] == target@
                &&& forall|a: int| 0 <= a < q ==> name_seq(names@)[a] != target@
            },
            None => forall|a: int| 0 <= a < names@.len() ==> name_seq(names@)[a] != target@,
        },
{
    let n = names.len();
    for q in 0..n
        invariant
            n == names@.len(),
            forall|a: int| 0 <= a < q ==> name_seq(names@)[a] != target@,
    {
        if names[q] == *target {
            proof {
                assert(name_seq(names@)[q as int] == names@[q as int]@);
            }
            return Some(q);
        }
        proof {
            assert(name_seq(names@)[q as int] == names@[q as int]@);
        }
    }
    None
}

/// The first item holding exactly this name, if any.
fn find_item_name(items: &Vec<Item>, target: &String) -> (r: Option<usize>)
    ensures
        match r {
            Some(q) => {
                &&& q < items@.len()
                &&& item_names(items@)[q as int] == target@
            },
            None => forall|a: int| 0 <= a < items@.len() ==> item_names(items@)[a] != target@,
        },
{
    let n = items.len();
    for q in 0..n
        invariant
            n == items@.len(),
            forall|a: int| 0 <= a < q ==> item_names(items@)[a] != target@,
    {
        if items[q].name == *target {
            proof {
                assert(item_names(items@)[q as int] == items@[q as int].name@);
            }
            return Some(q);
        }
        proof {
            assert(item_names(items@)[q as int] == items@[q as int].name@);
        }
    }
    None
}

/// Computes a collision-free rename sequence that takes the items from
/// their current names to `permuted_names`, position by position, breaking
/// each nontrivial cycle with the disposable name of its opening position.
///
/// On success the sequence, applied strictly in order, is safe at every
/// step, ends in exactly the target assignment, leaves fixed points
/// untouched, and spends at most one extra operation per nontrivial cycle.
/// Each error names the first input fault found, and comes exactly when
/// that fault is present.
#[verifier::loop_isolation(false)]
#[verifier::rlimit(100)]
pub fn plan(items: &Vec<Item>, permuted_names: &Vec<String>, temp_names: &Vec<String>) -> (r:
    Result<Vec<RenameOp>, PlanError>)
    ensures
        ({
            let cur = item_names(items@);
            let tgt = name_seq(permuted_names@);
            let tmps = name_seq(temp_names@);
            let n = items@.len() as int;
            match r {
                Ok(ops) => {
                    &&& ids_ok(items@)
                    &&& names_ok(items@)
                    &&& is_perm_of(cur, tgt)
                    &&& temps_ok(tmps, cur)
                    &&& ops_safe(cur, items@, ops@)
                    &&& apply_ops(cur, items@, ops@) == tgt
                    &&& forall|j: int|
                        0 <= j < ops@.len() ==> op_moves(items@, cur, tgt, #[trigger] ops@[j])
                    &&& plan_cost_ok(ops@.len() as int, count_moved(cur, tgt, n))
                    &&& ops@.len() <= 2 * n
                },
                Err(PlanError::DuplicateId) => !ids_ok(items@),
                Err(PlanError::DuplicateName) => ids_ok(items@) && !names_ok(items@),
                Err(PlanError::NotAPermutation) => ids_ok(items@) && names_ok(items@)
                    && !is_perm_of(cur, tgt),
                Err(PlanError::BadTempNames) => ids_ok(items@) && names_ok(items@) && is_perm_of(
                    cur,
                    tgt,
                ) && !temps_ok(tmps, cur),
            }
        }),
{
    let ghost cur = item_names(items@);
    let ghost tgt = name_seq(permuted_names@);
    let ghost tmps = name_seq(temp_names@);
    let n = items.len();

    if !check_ids_distinct(items) {
        return Err(PlanError::DuplicateId);
    }
    if !check_names_distinct(items) {
        return Err(PlanError::DuplicateName);
    }
    if permuted_names.len() != n {
        return Err(PlanError::NotAPermutation);
    }
    if !check_strings_distinct(permuted_names) {
        return Err(PlanError::NotAPermutation);
    }
    // For each position p, the position of the target list that wants p's
    // current name; failing to find one means a current name is missing
    // from the target list.
    let mut tau: Vec<usize> = Vec::new();
    for p in 0..n
        invariant
            tau@.len() == p,
            forall|a: int|
                0 <= a < p ==> #[trigger] tau@[a] < n && tgt[tau@[a] as int] == cur[a],
    {
        proof {
            assert(item_names(items@)[p as int] == items@[p as int].name@);
        }
        match find_name(permuted_names, &items[p].name) {
            Some(q) => tau.push(q),
            None => {
                proof {
                    assert(!tgt.contains(cur[p as int]));
                }
                return Err(PlanError::NotAPermutation);
            },
        }
    }
    proof {
        assert forall|p: int| 0 <= p < n implies tgt.contains(#[trigger] cur[p]) by {
            assert(tgt[tau@[p] as int] == cur[p]);
        }
        assert(is_perm_of(cur, tgt));
    }
    if temp_names.len() != n {
        return Err(PlanError::BadTempNames);
    }
    if !check_strings_distinct(temp_names) {
        return Err(PlanError::BadTempNames);
    }
    for t in 0..n
        invariant
            forall|a: int| 0 <= a < t ==> !cur.contains(#[trigger] tmps[a]),
    {
        match find_item_name(items, &temp_names[t]) {
            Some(i) => {
                proof {
                    assert(tmps[t as int] == temp_names@[t as int]@);
                    assert(cur.contains(tmps[t as int]));
                }
                return Err(PlanError::BadTempNames);
            },
            None => {
                proof {
                    assert(tmps[t as int] == temp_names@[t as int]@);
                    if cur.contains(tmps[t as int]) {
                        let w = choose|w: int| 0 <= w < cur.len() && cur[w] == tmps[t as int];
                        assert(item_names(items@)[w] != tmps[t as int]);
                        assert(false);
                    }
                }
            },
        }
    }
    proof {
        assert(temps_ok(tmps, cur));
    }

    // Walk the cycles.  `s` is the name assignment the operations so far
    // would reach; visited positions already hold their target name.
    let mut visited: Vec<bool> = Vec::new();
    for k in 0..n
        invariant
            visited@.len() == k,
            forall|a: int| 0 <= a < k ==> !(#[trigger] visited@[a]),
    {
        visited.push(false);
    }
    let mut ops: Vec<RenameOp> = Vec::new();
    let ghost mut s: Seq<Seq<char>> = cur;
    let ghost mut cyc: int = 0;
    proof {
        lemma_count_none_visited(visited@, cur, tgt, n as int);
    }

    let mut p0: usize = 0;
    while p0 < n
        invariant
            p0 <= n,
            visited@.len() == n,
            s.len() == n,
            forall|i: int| 0 <= i < p0 ==> #[trigger] visited@[i],
            forall|i: int| 0 <= i < n && #[trigger] visited@[i] ==> s[i] == tgt[i],
            forall|i: int| 0 <= i < n && !(#[trigger] visited@[i]) ==> s[i] == cur[i],
            s.no_duplicates(),
            forall|i: int| 0 <= i < n ==> cur.contains(#[trigger] s[i]),
            apply_ops(cur, items@, ops@) == s,
            ops_safe(cur, items@, ops@),
            forall|j: int| 0 <= j < ops@.len() ==> op_moves(items@, cur, tgt, #[trigger] ops@[j]),
            ops@.len() == count_visited_moved(visited@, cur, tgt, n as int) + cyc,
            0 <= cyc,
            2 * cyc <= count_visited_moved(visited@, cur, tgt, n as int),
        decreases n - p0,
    {
        if !visited[p0] {
            let ghost vis0 = visited@;
            visited[p0] = true;
            proof {
                lemma_count_visited_moved_update(vis0, cur, tgt, p0 as int, n as int);
            }
            if items[p0].name == permuted_names[p0] {
                proof {
                    assert(cur[p0 as int] == items@[p0 as int].name@);
                    assert(tgt[p0 as int] == permuted_names@[p0 as int]@);
                    assert(cur[p0 as int] == tgt[p0 as int]);
                }
            } else {
                proof {
                    assert(cur[p0 as int] == items@[p0 as int].name@);
                    assert(tgt[p0 as int] == permuted_names@[p0 as int]@);
                    assert(cur[p0 as int] != tgt[p0 as int]);
                    cyc = cyc + 1;
                }
                let ghost s0 = s;
                let ghost ops0 = ops@;
                let opening = RenameOp { target_id: items[p0].id, new_name: temp_names[p0].clone() };
                let ghost opt = opening;
                ops.push(opening);
                proof {
                    lemma_index_of_id_at(items@, p0 as int);
                    assert(opt.new_name@ == tmps[p0 as int]);
                    assert forall|i: int|
                        0 <= i < s0.len() && i != p0 as int implies #[trigger] s0[i]
                        != opt.new_name@ by {
                        assert(cur.contains(s0[i]));
                        assert(!cur.contains(tmps[p0 as int]));
                    }
                    assert(op_safe(s0, items@, opt));
                    lemma_apply_ops_push(cur, items@, ops0, opt);
                    lemma_ops_safe_push(cur, items@, ops0, opt);
                    lemma_op_safe_preserves_no_duplicates(s0, items@, opt);
                    s = s0.update(p0 as int, tmps[p0 as int]);
                    assert(apply_ops(cur, items@, ops@) == s);
                    assert(items@[p0 as int].id == opt.target_id && cur[p0 as int] != tgt[p0 as int]);
                    assert(op_moves(items@, cur, tgt, opt));
                }
                let ghost mut vac: Seq<char> = cur[p0 as int];
                proof {
                    assert(cur[p0 as int] == cur[p0 as int]);
                    assert(cur.contains(vac));
                    assert(!cur.contains(tmps[p0 as int]));
                    assert forall|i: int| 0 <= i < n implies #[trigger] s[i] != vac by {
                        if i != p0 as int {
                            assert(s[i] == s0[i]);
                            assert(s0[p0 as int] == vac);
                        }
                    }
                }
                let mut q = tau[p0];
                proof {
                    assert(tgt[q as int] == cur[p0 as int]);
                    assert(q != p0) by {
                        if q == p0 {
                            assert(tgt[p0 as int] == cur[p0 as int]);
                        }
                    }
                    assert(!visited@[q as int]) by {
                        if visited@[q as int] {
                            assert(s[q as int] == tgt[q as int]);
                            assert(s[q as int] == vac);
                        }
                    }
                }
                let ghost pre_vis = visited@;
                loop
                    invariant
                        visited@.len() == n,
                        s.len() == n,
                        visited@[p0 as int],
                        forall|i: int| 0 <= i < n && pre_vis[i] ==> #[trigger] visited@[i],
                        forall|i: int|
                            0 <= i < n && #[trigger] visited@[i] && i != p0 as int ==> s[i]
                                == tgt[i],
                        forall|i: int| 0 <= i < n && !(#[trigger] visited@[i]) ==> s[i] == cur[i],
                        s.no_duplicates(),
                        forall|i: int|
                            0 <= i < n && i != p0 as int ==> cur.contains(#[trigger] s[i]),
                        apply_ops(cur, items@, ops@) == s,
                        ops_safe(cur, items@, ops@),
                        forall|j: int|
                            0 <= j < ops@.len() ==> op_moves(items@, cur, tgt, #[trigger] ops@[j]),
                        0 <= cyc,
                        q < n,
                        q != p0,
                        !visited@[q as int],
                        tgt[q as int] == vac,
                        s[p0 as int] == tmps[p0 as int],
                        cur.contains(vac),
                        forall|i: int| 0 <= i < n ==> #[trigger] s[i] != vac,
                        ops@.len() + 1 == count_visited_moved(visited@, cur, tgt, n as int) + cyc,
                        2 * cyc <= count_visited_moved(visited@, cur, tgt, n as int) + 1,
                    decreases n - count_visited(visited@, n as int),
                {
                    let ghost vis1 = visited@;
                    let ghost s1 = s;
                    let ghost ops1 = ops@;
                    proof {
                        assert(s1[q as int] == cur[q as int]);
                        assert(cur[q as int] != tgt[q as int]);
                        lemma_count_visited_bounds(vis1, n as int);
                    }
                    visited[q] = true;
                    let step = RenameOp { target_id: items[q].id, new_name: permuted_names[q].clone() };
                    let ghost opq = step;
                    ops.push(step);
                    proof {
                        lemma_count_visited_moved_update(vis1, cur, tgt, q as int, n as int);
                        lemma_count_visited_update(vis1, q as int, n as int);
                        lemma_count_visited_bounds(visited@, n as int);
                        lemma_index_of_id_at(items@, q as int);
                        assert(opq.new_name@ == tgt[q as int]);
                        assert(op_safe(s1, items@, opq));
                        lemma_apply_ops_push(cur, items@, ops1, opq);
                        lemma_ops_safe_push(cur, items@, ops1, opq);
                        lemma_op_safe_preserves_no_duplicates(s1, items@, opq);
                        s = s1.update(q as int, tgt[q as int]);
                        assert(apply_ops(cur, items@, ops@) == s);
                        assert(items@[q as int].id == opq.target_id && cur[q as int] != tgt[q as int]);
                        assert(op_moves(items@, cur, tgt, opq));
                        vac = cur[q as int];
                        assert(cur.contains(vac));
                        assert forall|i: int| 0 <= i < n implies #[trigger] s[i] != vac by {
                            if i == q as int {
                                assert(s[i] == tgt[q as int]);
                                assert(tgt[q as int] != cur[q as int]);
                            } else {
                                assert(s[i] == s1[i]);
                                assert(s1[q as int] == cur[q as int]);
                            }
                        }
                    }
                    let nxt = tau[q];
                    if nxt == p0 {
                        let ghost s2 = s;
                        let ghost ops2 = ops@;
                        proof {
                            assert(tgt[p0 as int] == cur[q as int]);
                            assert(tgt[p0 as int] == vac);
                        }
                        let closing = RenameOp {
                            target_id: items[p0].id,
                            new_name: permuted_names[p0].clone(),
                        };
                        let ghost opc = closing;
                        ops.push(closing);
                        proof {
                            lemma_index_of_id_at(items@, p0 as int);
                            assert(opc.new_name@ == tgt[p0 as int]);
                            assert(op_safe(s2, items@, opc));
                            lemma_apply_ops_push(cur, items@, ops2, opc);
                            lemma_ops_safe_push(cur, items@, ops2, opc);
                            lemma_op_safe_preserves_no_duplicates(s2, items@, opc);
                            s = s2.update(p0 as int, tgt[p0 as int]);
                            assert(apply_ops(cur, items@, ops@) == s);
                            assert(op_moves(items@, cur, tgt, opc));
                            assert(cur.contains(s[p0 as int]));
                        }
                        break;
                    }
                    q = nxt;
                    proof {
                        assert(tgt[q as int] == vac);
                        assert(q != p0);
                        assert(!visited@[q as int]) by {
                            if visited@[q as int] {
                                assert(s[q as int] == tgt[q as int]);
                            }
                        }
                    }
                }
            }
            proof {
                lemma_count_visited_bounds(visited@, n as int);
                assert forall|i: int| 0 <= i < p0 + 1 implies #[trigger] visited@[i] by {
                    if i < p0 {
                        assert(vis0[i]);
                    }
                }
            }
        }
        p0 = p0 + 1;
    }
    proof {
        assert forall|i: int| 0 <= i < n implies s[i] == tgt[i] by {
            assert(visited@[i]);
        }
        assert(s =~= tgt);
        lemma_count_all_visited(visited@, cur, tgt, n as int);
        lemma_count_moved_bounds(visited@, cur, tgt, n as int);
        assert(cost_split(ops@.len() as int, count_moved(cur, tgt, n as int), cyc));
        assert(ops@.len() <= 2 * n);
    }
    Ok(ops)
}

/// Length, in characters, of a disposable cycle-breaking name.
pub const TEMP_NAME_LEN: usize = 16;

/// Draws a uniformly random target order for the items' names, one
/// disposable name per item, and plans the rename sequence that realizes
/// it.  Returns the target name list together with the operations.
///
/// Success is owed whenever the items' identifiers and names are distinct,
/// unless one of the randomly drawn disposable names collides with a live
/// name or with another — a chance the caller may retry; a reordering of
/// distinct names is always a valid permutation of them, so the planner's
/// permutation check cannot fail here.  On an empty item list no name is
/// drawn at all, so success is owed outright: the result is the empty
/// target and the empty operation list.
pub fn plan_shuffle(items: &Vec<Item>) -> (r: Result<(Vec<String>, Vec<RenameOp>), PlanError>)
    ensures
        ({
            let cur = item_names(items@);
            let n = items@.len() as int;
            match r {
                Ok(pair) => {
                    let tgt = name_seq(pair.0@);
                    &&& ids_ok(items@)
                    &&& names_ok(items@)
                    &&& is_perm_of(cur, tgt)
                    &&& ops_safe(cur, items@, pair.1@)
                    &&& apply_ops(cur, items@, pair.1@) == tgt
                    &&& forall|j: int|
                        0 <= j < pair.1@.len() ==> op_moves(items@, cur, tgt, #[trigger] pair.1@[j])
                    &&& plan_cost_ok(pair.1@.len() as int, count_moved(cur, tgt, n))
                    &&& pair.1@.len() <= 2 * n
                },
                Err(PlanError::DuplicateId) => !ids_ok(items@),
                Err(PlanError::DuplicateName) => ids_ok(items@) && !names_ok(items@),
                Err(PlanError::NotAPermutation) => false,
                Err(PlanError::BadTempNames) => ids_ok(items@) && names_ok(items@) && n > 0,
            }
        }),
{
    let n = items.len();
    let mut names: Vec<String> = Vec::new();
    for i in 0..n
        invariant
            n == items@.len(),
            names@.len() == i,
            forall|a: int| 0 <= a < i ==> names@[a]@ == items@[a].name@,
    {
        names.push(items[i].name.clone());
    }
    proof {
        assert forall|a: int| 0 <= a < n implies name_seq(names@)[a] == item_names(items@)[a] by {
            assert(names@[a]@ == items@[a].name@);
        }
        assert(name_seq(names@) =~= item_names(items@));
    }
    let ghost names0 = names@;
    shuffle_slice(&mut names);
    let mut temps: Vec<String> = Vec::new();
    let mut t: usize = 0;
    while t < n
        invariant
            t <= n,
            temps@.len() == t,
        decreases n - t,
    {
        temps.push(gen_temp_name(TEMP_NAME_LEN));
        t = t + 1;
    }
    proof {
        if names_ok(items@) {
            lemma_shuffled_perm(names0, names@);
        }
        // On an empty item list nothing is drawn: the empty disposable-name
        // list is usable, so the planner cannot refuse it.
        if items@.len() == 0 {
            assert(name_seq(temps@).len() == 0);
            assert(temps_ok(name_seq(temps@), item_names(items@)));
        }
    }
    match plan(items, &names, &temps) {
        Ok(ops) => Ok((names, ops)),
        Err(e) => Err(e),
    }
}

} // verus!
