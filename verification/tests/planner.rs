use std::collections::HashSet;

use emote_shuffler::executor::{Executor, RunOutcome};
use emote_shuffler::model::{Item, RenameOp};
use emote_shuffler::planner::{plan, plan_shuffle, PlanError, TEMP_NAME_LEN};

fn item(id: u128, name: &str) -> Item {
    Item { id, name: name.to_string() }
}

/// Applies the operations in order to the current assignment, checking that
/// every intermediate assignment keeps the names pairwise distinct, and
/// returns the final names by position.
fn simulate(items: &[Item], ops: &[RenameOp]) -> Vec<String> {
    let mut state: Vec<String> = items.iter().map(|it| it.name.clone()).collect();
    let check_distinct = |state: &Vec<String>| {
        let set: HashSet<&String> = state.iter().collect();
        assert_eq!(set.len(), state.len(), "two items share a name");
    };
    check_distinct(&state);
    for op in ops {
        let pos = items
            .iter()
            .position(|it| it.id == op.target_id)
            .expect("operation names an unknown item");
        assert!(
            state.iter().enumerate().all(|(i, n)| i == pos || *n != op.new_name),
            "operation assigns a name another item still holds"
        );
        state[pos] = op.new_name.clone();
        check_distinct(&state);
    }
    state
}

#[test]
fn single_swap_exact_operations() {
    let items = vec![item(1, "x"), item(2, "y")];
    let permuted = vec!["y".to_string(), "x".to_string()];
    let temps = vec!["T0".to_string(), "T1".to_string()];
    let ops = plan(&items, &permuted, &temps).expect("a two-cycle must plan");
    assert_eq!(ops.len(), 3);
    assert_eq!(ops[0].target_id, 1);
    assert_eq!(ops[0].new_name, "T0");
    assert_eq!(ops[1].target_id, 2);
    assert_eq!(ops[1].new_name, "x");
    assert_eq!(ops[2].target_id, 1);
    assert_eq!(ops[2].new_name, "y");
    let end = simulate(&items, &ops);
    assert_eq!(end, permuted);
}

#[test]
fn three_cycle_four_operations() {
    let items = vec![item(1, "x"), item(2, "y"), item(3, "z")];
    let permuted = vec!["y".to_string(), "z".to_string(), "x".to_string()];
    let temps = vec!["T0".to_string(), "T1".to_string(), "T2".to_string()];
    let ops = plan(&items, &permuted, &temps).expect("a three-cycle must plan");
    assert_eq!(ops.len(), 4);
    // The cycle opens by freeing the first item's name with its disposable
    // name and closes by moving it onto its target.
    assert_eq!(ops[0].target_id, 1);
    assert_eq!(ops[0].new_name, "T0");
    assert_eq!(ops[3].target_id, 1);
    assert_eq!(ops[3].new_name, "y");
    let end = simulate(&items, &ops);
    assert_eq!(end, permuted);
}

#[test]
fn fixed_points_generate_no_operations() {
    let items = vec![item(1, "a"), item(2, "b"), item(3, "c")];
    let permuted = vec!["a".to_string(), "b".to_string(), "c".to_string()];
    let temps = vec!["T0".to_string(), "T1".to_string(), "T2".to_string()];
    let ops = plan(&items, &permuted, &temps).expect("the identity must plan");
    assert!(ops.is_empty());
}

#[test]
fn fixed_point_beside_a_swap_is_untouched() {
    let items = vec![item(1, "a"), item(2, "b"), item(3, "c")];
    let permuted = vec!["a".to_string(), "c".to_string(), "b".to_string()];
    let temps = vec!["T0".to_string(), "T1".to_string(), "T2".to_string()];
    let ops = plan(&items, &permuted, &temps).expect("a swap beside a fixed point must plan");
    assert_eq!(ops.len(), 3);
    assert!(ops.iter().all(|op| op.target_id != 1));
    let end = simulate(&items, &ops);
    assert_eq!(end, permuted);
}

#[test]
fn empty_input_yields_empty_plan() {
    let items: Vec<Item> = Vec::new();
    let ops = plan(&items, &Vec::new(), &Vec::new()).expect("empty input must plan");
    assert!(ops.is_empty());
}

#[test]
fn duplicate_id_is_rejected() {
    let items = vec![item(1, "a"), item(1, "b")];
    let permuted = vec!["b".to_string(), "a".to_string()];
    let temps = vec!["T0".to_string(), "T1".to_string()];
    assert_eq!(plan(&items, &permuted, &temps), Err(PlanError::DuplicateId));
}

#[test]
fn duplicate_name_is_rejected() {
    let items = vec![item(1, "a"), item(2, "a")];
    let permuted = vec!["a".to_string(), "a".to_string()];
    let temps = vec!["T0".to_string(), "T1".to_string()];
    assert_eq!(plan(&items, &permuted, &temps), Err(PlanError::DuplicateName));
}

#[test]
fn foreign_target_name_is_rejected() {
    let items = vec![item(1, "a"), item(2, "b")];
    let permuted = vec!["a".to_string(), "c".to_string()];
    let temps = vec!["T0".to_string(), "T1".to_string()];
    assert_eq!(plan(&items, &permuted, &temps), Err(PlanError::NotAPermutation));
}

#[test]
fn wrong_target_length_is_rejected() {
    let items = vec![item(1, "a"), item(2, "b")];
    let permuted = vec!["b".to_string()];
    let temps = vec!["T0".to_string(), "T1".to_string()];
    assert_eq!(plan(&items, &permuted, &temps), Err(PlanError::NotAPermutation));
}

#[test]
fn repeated_target_name_is_rejected() {
    let items = vec![item(1, "a"), item(2, "b")];
    let permuted = vec!["a".to_string(), "a".to_string()];
    let temps = vec!["T0".to_string(), "T1".to_string()];
    assert_eq!(plan(&items, &permuted, &temps), Err(PlanError::NotAPermutation));
}

#[test]
fn too_few_temp_names_are_rejected() {
    let items = vec![item(1, "a"), item(2, "b")];
    let permuted = vec!["b".to_string(), "a".to_string()];
    let temps = vec!["T0".to_string()];
    assert_eq!(plan(&items, &permuted, &temps), Err(PlanError::BadTempNames));
}

#[test]
fn live_temp_name_is_rejected() {
    let items = vec![item(1, "a"), item(2, "b")];
    let permuted = vec!["b".to_string(), "a".to_string()];
    let temps = vec!["a".to_string(), "T1".to_string()];
    assert_eq!(plan(&items, &permuted, &temps), Err(PlanError::BadTempNames));
}

#[test]
fn repeated_temp_name_is_rejected() {
    let items = vec![item(1, "a"), item(2, "b")];
    let permuted = vec!["b".to_string(), "a".to_string()];
    let temps = vec!["T0".to_string(), "T0".to_string()];
    assert_eq!(plan(&items, &permuted, &temps), Err(PlanError::BadTempNames));
}

#[test]
fn reversal_costs_at_most_one_extra_per_cycle() {
    // Reversing ten names moves all of them in five two-cycles: at most
    // n + c = 10 + 5 operations, and never more than 2n.
    let names: Vec<String> = (0..10).map(|i| format!("n{i}")).collect();
    let items: Vec<Item> = names
        .iter()
        .enumerate()
        .map(|(i, n)| item(i as u128 + 1, n))
        .collect();
    let permuted: Vec<String> = names.iter().rev().cloned().collect();
    let temps: Vec<String> = (0..10).map(|i| format!("TMP{i}")).collect();
    let ops = plan(&items, &permuted, &temps).expect("a reversal must plan");
    let moved = 10;
    assert!(ops.len() <= moved + moved / 2);
    assert!(ops.len() <= 2 * items.len());
    assert_eq!(ops.len(), 15);
    let end = simulate(&items, &ops);
    assert_eq!(end, permuted);
}

#[test]
fn shuffled_plan_reaches_its_target_safely() {
    let items: Vec<Item> = (0..25)
        .map(|i| item(i as u128 + 1, &format!("emote{i}")))
        .collect();
    let (target, ops) = plan_shuffle(&items).expect("distinct names must shuffle");
    assert_eq!(target.len(), items.len());
    let mut sorted_target = target.clone();
    sorted_target.sort();
    let mut sorted_names: Vec<String> = items.iter().map(|it| it.name.clone()).collect();
    sorted_names.sort();
    assert_eq!(sorted_target, sorted_names);
    assert!(ops.len() <= 2 * items.len());
    let end = simulate(&items, &ops);
    assert_eq!(end, target);
}

#[test]
fn shuffled_plan_of_empty_set_is_empty() {
    let items: Vec<Item> = Vec::new();
    let (target, ops) = plan_shuffle(&items).expect("the empty set must shuffle");
    assert!(target.is_empty());
    assert!(ops.is_empty());
}

#[test]
fn shuffle_rejects_duplicate_names() {
    let items = vec![item(1, "same"), item(2, "same")];
    assert_eq!(plan_shuffle(&items), Err(PlanError::DuplicateName));
}

#[test]
fn temp_name_length_matches_the_planner() {
    assert_eq!(TEMP_NAME_LEN, 16);
}

#[test]
fn failed_run_leaves_exactly_the_prefix_applied() {
    let items = vec![item(1, "x"), item(2, "y"), item(3, "z")];
    let permuted = vec!["y".to_string(), "z".to_string(), "x".to_string()];
    let temps = vec!["T0".to_string(), "T1".to_string(), "T2".to_string()];
    let ops = plan(&items, &permuted, &temps).expect("a three-cycle must plan");
    assert_eq!(ops.len(), 4);

    // Drain through the executor; the remote rename fails on the third
    // operation (index 2).
    let mut state: Vec<String> = items.iter().map(|it| it.name.clone()).collect();
    let mut exec = Executor::new(ops.clone());
    loop {
        let next = match exec.current_op() {
            Some(op) => op.clone(),
            None => break,
        };
        let (done, _) = exec.progress();
        if done == 2 {
            exec.record_failure();
        } else {
            let pos = items.iter().position(|it| it.id == next.target_id).unwrap();
            state[pos] = next.new_name.clone();
            exec.record_success();
        }
    }
    assert_eq!(exec.outcome(), RunOutcome::Failed(2));
    assert_eq!(exec.progress(), (2, 4));
    // The state is exactly the one the first two operations reach, with no
    // duplicate names: the cycle was opened and one item pulled forward.
    assert_eq!(state, simulate(&items, &ops[..2]));
    let distinct: HashSet<&String> = state.iter().collect();
    assert_eq!(distinct.len(), state.len());
}
