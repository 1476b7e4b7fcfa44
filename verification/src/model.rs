//! Data model of the rename problem and the semantics of rename sequences.
//!
//! A set is an ordered list of items, each with a stable identifier and a
//! mutable name.  A state records, position by position, the name each item
//! currently holds.  Applying a rename operation rewrites the name of the
//! item whose identifier it carries; an operation is safe in a state when no
//! other item holds the name it assigns.

use vstd::prelude::*;

verus! {

/// One member of the set: a stable identifier and its current name.
#[derive(Debug, Clone, PartialEq, Eq)]
pub struct Item {
    pub id: u128,
    pub name: String,
}

/// One atomic instruction: give the item `target_id` the name `new_name`.
#[derive(Debug, Clone, PartialEq, Eq)]
pub struct RenameOp {
    pub target_id: u128,
    pub new_name: String,
}

/// The identifiers of the items, in set order.
pub open spec fn item_ids(items: Seq<Item>) -> Seq<u128> {
    items.map_values(|it: Item| it.id)
}

/// The names of the items, in set order.
pub open spec fn item_names(items: Seq<Item>) -> Seq<Seq<char>> {
    items.map_values(|it: Item| it.name@)
}

/// The views of a list of names.
pub open spec fn name_seq(names: Seq<String>) -> Seq<Seq<char>> {
    names.map_values(|s: String| s@)
}

/// The identifiers are pairwise distinct.
pub open spec fn ids_ok(items: Seq<Item>) -> bool {
    item_ids(items).no_duplicates()
}

/// The current names are pairwise distinct.
pub open spec fn names_ok(items: Seq<Item>) -> bool {
    item_names(items).no_duplicates()
}

/// `tgt` lists the names of `cur` in some other order.  For a `cur` without
/// duplicates this says exactly that `tgt` is a permutation of `cur`: it has
/// the same length, repeats nothing, and draws every entry's value from
/// `cur`, so the two agree as multisets.
pub open spec fn is_perm_of(cur: Seq<Seq<char>>, tgt: Seq<Seq<char>>) -> bool {
    &&& tgt.len() == cur.len()
    &&& tgt.no_duplicates()
    &&& forall|p: int| 0 <= p < cur.len() ==> tgt.contains(#[trigger] cur[p])
}

/// The throwaway names are usable: one per item, pairwise distinct, and
/// distinct from every live name.
pub open spec fn temps_ok(temps: Seq<Seq<char>>, cur: Seq<Seq<char>>) -> bool {
    &&& temps.len() == cur.len()
    &&& temps.no_duplicates()
    &&& forall|i: int| 0 <= i < temps.len() ==> !cur.contains(#[trigger] temps[i])
}

/// Some item carries this identifier.
pub open spec fn has_id(items: Seq<Item>, id: u128) -> bool {
    exists|i: int| 0 <= i < items.len() && items[i].id == id
}

/// The position of the item carrying this identifier (meaningful when the
/// identifiers are distinct and the identifier occurs).
pub open spec fn index_of_id(items: Seq<Item>, id: u128) -> int {
    choose|i: int| 0 <= i < items.len() && items[i].id == id
}

/// The state after one rename: the item named by the operation now holds the
/// assigned name.  An operation whose identifier occurs nowhere leaves the
/// state unchanged.
pub open spec fn apply_op(state: Seq<Seq<char>>, items: Seq<Item>, op: RenameOp) -> Seq<Seq<char>> {
    if has_id(items, op.target_id) {
        state.update(index_of_id(items, op.target_id), op.new_name@)
    } else {
        state
    }
}

/// The state after a sequence of renames, applied strictly in order.
pub open spec fn apply_ops(state: Seq<Seq<char>>, items: Seq<Item>, ops: Seq<RenameOp>) -> Seq<
    Seq<char>,
>
    decreases ops.len(),
{
    if ops.len() == 0 {
        state
    } else {
        apply_ops(apply_op(state, items, ops[0]), items, ops.skip(1))
    }
}

/// The operation names an existing item and assigns a name that no other
/// item currently holds, so applying it cannot produce a duplicate.
pub open spec fn op_safe(state: Seq<Seq<char>>, items: Seq<Item>, op: RenameOp) -> bool {
    &&& has_id(items, op.target_id)
    &&& forall|i: int|
        0 <= i < state.len() && i != index_of_id(items, op.target_id) ==> #[trigger] state[i]
            != op.new_name@
}

/// Every operation of the sequence is safe in the state reached by the
/// operations before it.
pub open spec fn ops_safe(state: Seq<Seq<char>>, items: Seq<Item>, ops: Seq<RenameOp>) -> bool
    decreases ops.len(),
{
    ops.len() == 0 || {
        &&& op_safe(state, items, ops[0])
        &&& ops_safe(apply_op(state, items, ops[0]), items, ops.skip(1))
    }
}

/// The operation addresses an item whose name the permutation actually
/// moves; a plan made only of such operations leaves fixed points alone.
pub open spec fn op_moves(
    items: Seq<Item>,
    cur: Seq<Seq<char>>,
    tgt: Seq<Seq<char>>,
    op: RenameOp,
) -> bool {
    exists|i: int| 0 <= i < items.len() && items[i].id == op.target_id && cur[i] != tgt[i]
}

/// `c` witnesses the cost bound: the sequence spends one operation per
/// moved position plus `c` extra ones, and `c` is at most one per two moved
/// positions — one disposable rename per nontrivial cycle.
pub open spec fn cost_split(ops_len: int, moved: int, c: int) -> bool {
    0 <= c && ops_len == moved + c && 2 * c <= moved
}

/// The sequence's length is linear: `moved` operations plus at most one
/// extra per nontrivial cycle.
pub open spec fn plan_cost_ok(ops_len: int, moved: int) -> bool {
    exists|c: int| cost_split(ops_len, moved, c)
}

/// The number of positions below `k` whose name the permutation moves.
pub open spec fn count_moved(cur: Seq<Seq<char>>, tgt: Seq<Seq<char>>, k: int) -> int
    decreases k,
{
    if k <= 0 {
        0
    } else {
        count_moved(cur, tgt, k - 1) + if cur[k - 1] != tgt[k - 1] {
            1int
        } else {
            0int
        }
    }
}

/// The number of positions below `k` already marked visited.
pub open spec fn count_visited(vis: Seq<bool>, k: int) -> int
    decreases k,
{
    if k <= 0 {
        0
    } else {
        count_visited(vis, k - 1) + if vis[k - 1] {
            1int
        } else {
            0int
        }
    }
}

/// The number of positions below `k` that are visited and moved.
pub open spec fn count_visited_moved(
    vis: Seq<bool>,
    cur: Seq<Seq<char>>,
    tgt: Seq<Seq<char>>,
    k: int,
) -> int
    decreases k,
{
    if k <= 0 {
        0
    } else {
        count_visited_moved(vis, cur, tgt, k - 1) + if vis[k - 1] && cur[k - 1] != tgt[k - 1] {
            1int
        } else {
            0int
        }
    }
}

/// With distinct identifiers, the operation built for the item at `p`
/// resolves to position `p` and to no other.
pub proof fn lemma_index_of_id_at(items: Seq<Item>, p: int)
    requires
        ids_ok(items),
        0 <= p < items.len(),
    ensures
        has_id(items, items[p].id),
        index_of_id(items, items[p].id) == p,
{
    assert(item_ids(items)[p] == items[p].id);
    assert(has_id(items, items[p].id));
    let q = index_of_id(items, items[p].id);
    assert(0 <= q < items.len() && items[q].id == items[p].id);
    if q != p {
        assert(item_ids(items)[q] == items[q].id);
        assert(false);
    }
}

/// Appending an operation applies it after the ones already there.
pub proof fn lemma_apply_ops_push(
    state: Seq<Seq<char>>,
    items: Seq<Item>,
    ops: Seq<RenameOp>,
    op: RenameOp,
)
    ensures
        apply_ops(state, items, ops.push(op)) == apply_op(
            apply_ops(state, items, ops),
            items,
            op,
        ),
    decreases ops.len(),
{
    let one = ops.push(op);
    assert(one.len() == ops.len() + 1);
    assert(apply_ops(state, items, one) == apply_ops(apply_op(state, items, one[0]), items, one.skip(1)));
    if ops.len() == 0 {
        assert(one[0] == op);
        assert(one.skip(1) =~= Seq::<RenameOp>::empty());
        assert(apply_ops(apply_op(state, items, op), items, Seq::<RenameOp>::empty())
            == apply_op(state, items, op));
    } else {
        assert(one[0] == ops[0]);
        assert(one.skip(1) =~= ops.skip(1).push(op));
        lemma_apply_ops_push(apply_op(state, items, ops[0]), items, ops.skip(1), op);
        assert(apply_ops(state, items, ops) == apply_ops(apply_op(state, items, ops[0]), items, ops.skip(1)));
    }
}

/// An extended sequence is safe exactly when the original is and the new
/// operation is safe in the state the original reaches.
pub proof fn lemma_ops_safe_push(
    state: Seq<Seq<char>>,
    items: Seq<Item>,
    ops: Seq<RenameOp>,
    op: RenameOp,
)
    ensures
        ops_safe(state, items, ops.push(op)) <==> (ops_safe(state, items, ops) && op_safe(
            apply_ops(state, items, ops),
            items,
            op,
        )),
    decreases ops.len(),
{
    let one = ops.push(op);
    assert(one.len() == ops.len() + 1);
    assert(ops_safe(state, items, one) <==> (op_safe(state, items, one[0]) && ops_safe(
        apply_op(state, items, one[0]),
        items,
        one.skip(1),
    )));
    if ops.len() == 0 {
        assert(one[0] == op);
        assert(one.skip(1) =~= Seq::<RenameOp>::empty());
        assert(ops_safe(apply_op(state, items, op), items, Seq::<RenameOp>::empty()));
        assert(ops_safe(state, items, ops));
        assert(apply_ops(state, items, ops) == state);
    } else {
        assert(one[0] == ops[0]);
        assert(one.skip(1) =~= ops.skip(1).push(op));
        lemma_ops_safe_push(apply_op(state, items, ops[0]), items, ops.skip(1), op);
        lemma_apply_ops_push(state, items, ops, op);
        assert(apply_ops(state, items, ops) == apply_ops(apply_op(state, items, ops[0]), items, ops.skip(1)));
        assert(ops_safe(state, items, ops) <==> (op_safe(state, items, ops[0]) && ops_safe(
            apply_op(state, items, ops[0]),
            items,
            ops.skip(1),
        )));
    }
}

/// One safe operation cannot create a duplicate name.
pub proof fn lemma_op_safe_preserves_no_duplicates(
    state: Seq<Seq<char>>,
    items: Seq<Item>,
    op: RenameOp,
)
    requires
        state.no_duplicates(),
        op_safe(state, items, op),
        state.len() == items.len(),
    ensures
        apply_op(state, items, op).no_duplicates(),
{
    let p = index_of_id(items, op.target_id);
    assert(0 <= p < items.len());
    let s1 = apply_op(state, items, op);
    assert forall|i: int, j: int|
        0 <= i < s1.len() && 0 <= j < s1.len() && i != j implies s1[i] != s1[j] by {
        if i != p && j != p {
            assert(s1[i] == state[i] && s1[j] == state[j]);
        } else if i == p {
            assert(s1[j] == state[j] && state[j] != op.new_name@);
        } else {
            assert(s1[i] == state[i] && state[i] != op.new_name@);
        }
    }
}

/// After any prefix of a safe sequence the names are still pairwise
/// distinct: a safe plan never lets two items share a name.
pub proof fn lemma_safe_prefix_no_duplicates(
    state: Seq<Seq<char>>,
    items: Seq<Item>,
    ops: Seq<RenameOp>,
    k: int,
)
    requires
        state.no_duplicates(),
        ops_safe(state, items, ops),
        state.len() == items.len(),
        0 <= k <= ops.len(),
    ensures
        apply_ops(state, items, ops.take(k)).no_duplicates(),
    decreases k,
{
    if k == 0 {
        assert(ops.take(0) =~= Seq::<RenameOp>::empty());
    } else {
        let s1 = apply_op(state, items, ops[0]);
        lemma_op_safe_preserves_no_duplicates(state, items, ops[0]);
        assert(s1.len() == state.len());
        lemma_safe_prefix_no_duplicates(s1, items, ops.skip(1), k - 1);
        assert(ops.take(k)[0] == ops[0]);
        assert(ops.take(k).skip(1) =~= ops.skip(1).take(k - 1));
        assert(apply_ops(state, items, ops.take(k)) == apply_ops(
            s1,
            items,
            ops.skip(1).take(k - 1),
        ));
    }
}

/// Any reordering of pairwise distinct names is a valid target assignment.
pub proof fn lemma_perm_of_multiset(cur: Seq<Seq<char>>, tgt: Seq<Seq<char>>)
    requires
        cur.no_duplicates(),
        tgt.to_multiset() == cur.to_multiset(),
    ensures
        is_perm_of(cur, tgt),
{
    broadcast use vstd::seq_lib::group_to_multiset_ensures;

    cur.lemma_multiset_has_no_duplicates();
    tgt.lemma_multiset_has_no_duplicates_conv();
    assert(cur.len() == cur.to_multiset().len());
    assert(tgt.len() == tgt.to_multiset().len());
    assert forall|p: int| 0 <= p < cur.len() implies tgt.contains(#[trigger] cur[p]) by {
        assert(cur.contains(cur[p]));
        assert(cur.to_multiset().count(cur[p]) > 0);
        assert(tgt.to_multiset().count(cur[p]) > 0);
    }
}

/// A reordering of a list of distinct names is a valid target assignment
/// for it: the views of the reordered list form a permutation of the views
/// of the original.
pub proof fn lemma_shuffled_perm(names0: Seq<String>, names1: Seq<String>)
    requires
        name_seq(names0).no_duplicates(),
        names1.to_multiset() == names0.to_multiset(),
    ensures
        is_perm_of(name_seq(names0), name_seq(names1)),
{
    broadcast use vstd::seq_lib::group_to_multiset_ensures;

    let cur = name_seq(names0);
    let tgt = name_seq(names1);
    assert(names0.no_duplicates()) by {
        assert forall|i: int, j: int|
            0 <= i < names0.len() && 0 <= j < names0.len() && i != j implies names0[i]
            != names0[j] by {
            assert(cur[i] != cur[j]);
        }
    }
    names0.lemma_multiset_has_no_duplicates();
    names1.lemma_multiset_has_no_duplicates_conv();
    assert(names0.len() == names0.to_multiset().len());
    assert(names1.len() == names1.to_multiset().len());
    // Every entry of the reordered list is one of the original values.
    assert forall|i: int|
        0 <= i < names1.len() implies exists|a: int|
        0 <= a < names0.len() && names0[a] == #[trigger] names1[i] by {
        assert(names1.contains(names1[i]));
        assert(names1.to_multiset().count(names1[i]) > 0);
        assert(names0.to_multiset().count(names1[i]) > 0);
        assert(names0.contains(names1[i]));
    }
    assert forall|i: int, j: int|
        0 <= i < tgt.len() && 0 <= j < tgt.len() && i != j implies tgt[i] != tgt[j] by {
        if tgt[i] == tgt[j] {
            let a = choose|a: int| 0 <= a < names0.len() && names0[a] == names1[i];
            let b = choose|b: int| 0 <= b < names0.len() && names0[b] == names1[j];
            assert(cur[a] == tgt[i] && cur[b] == tgt[j]);
            assert(a == b);
            assert(names1[i] == names1[j]);
        }
    }
    assert forall|p: int| 0 <= p < cur.len() implies tgt.contains(#[trigger] cur[p]) by {
        assert(names0.contains(names0[p]));
        assert(names0.to_multiset().count(names0[p]) > 0);
        assert(names1.to_multiset().count(names0[p]) > 0);
        assert(names1.contains(names0[p]));
        let w = choose|w: int| 0 <= w < names1.len() && names1[w] == names0[p];
        assert(tgt[w] == cur[p]);
    }
}

/// Marking one fresh position visited raises the visited count below `k` by
/// one when the position lies below `k`, and not at all otherwise.
pub proof fn lemma_count_visited_update(vis: Seq<bool>, j: int, k: int)
    requires
        0 <= j < vis.len(),
        !vis[j],
        k <= vis.len(),
    ensures
        count_visited(vis.update(j, true), k) == count_visited(vis, k) + if j < k {
            1int
        } else {
            0int
        },
    decreases k,
{
    if k > 0 {
        lemma_count_visited_update(vis, j, k - 1);
    }
}

/// The visited count stays between zero and `k`.
pub proof fn lemma_count_visited_bounds(vis: Seq<bool>, k: int)
    requires
        k <= vis.len(),
    ensures
        0 <= count_visited(vis, k),
        k >= 0 ==> count_visited(vis, k) <= k,
    decreases k,
{
    if k > 0 {
        lemma_count_visited_bounds(vis, k - 1);
    }
}

/// Marking one fresh position visited raises the visited-and-moved count by
/// one exactly when that position lies below `k` and is moved.
pub proof fn lemma_count_visited_moved_update(
    vis: Seq<bool>,
    cur: Seq<Seq<char>>,
    tgt: Seq<Seq<char>>,
    j: int,
    k: int,
)
    requires
        0 <= j < vis.len(),
        !vis[j],
        k <= vis.len(),
    ensures
        count_visited_moved(vis.update(j, true), cur, tgt, k) == count_visited_moved(
            vis,
            cur,
            tgt,
            k,
        ) + if j < k && cur[j] != tgt[j] {
            1int
        } else {
            0int
        },
    decreases k,
{
    if k > 0 {
        lemma_count_visited_moved_update(vis, cur, tgt, j, k - 1);
    }
}

/// Before anything is visited, both visited counts are zero.
pub proof fn lemma_count_none_visited(
    vis: Seq<bool>,
    cur: Seq<Seq<char>>,
    tgt: Seq<Seq<char>>,
    k: int,
)
    requires
        forall|i: int| 0 <= i < k ==> !vis[i],
    ensures
        count_visited_moved(vis, cur, tgt, k) == 0,
        count_visited(vis, k) == 0,
    decreases k,
{
    if k > 0 {
        lemma_count_none_visited(vis, cur, tgt, k - 1);
    }
}

/// Once every position is visited, the visited-and-moved count is the moved
/// count itself.
pub proof fn lemma_count_all_visited(
    vis: Seq<bool>,
    cur: Seq<Seq<char>>,
    tgt: Seq<Seq<char>>,
    k: int,
)
    requires
        forall|i: int| 0 <= i < k ==> vis[i],
    ensures
        count_visited_moved(vis, cur, tgt, k) == count_moved(cur, tgt, k),
    decreases k,
{
    if k > 0 {
        lemma_count_all_visited(vis, cur, tgt, k - 1);
    }
}

/// The moved count stays between zero and `k`, and dominates the
/// visited-and-moved count.
pub proof fn lemma_count_moved_bounds(
    vis: Seq<bool>,
    cur: Seq<Seq<char>>,
    tgt: Seq<Seq<char>>,
    k: int,
)
    ensures
        0 <= count_visited_moved(vis, cur, tgt, k),
        count_visited_moved(vis, cur, tgt, k) <= count_moved(cur, tgt, k),
        k >= 0 ==> count_moved(cur, tgt, k) <= k,
        k < 0 ==> count_moved(cur, tgt, k) == 0,
    decreases k,
{
    if k > 0 {
        lemma_count_moved_bounds(vis, cur, tgt, k - 1);
    }
}

} // verus!
