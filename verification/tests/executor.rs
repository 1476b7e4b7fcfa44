use emote_shuffler::executor::{interval_millis, Executor, RunOutcome, OPS_PER_MINUTE};
use emote_shuffler::model::RenameOp;

fn op(id: u128, name: &str) -> RenameOp {
    RenameOp { target_id: id, new_name: name.to_string() }
}

#[test]
fn drains_operations_strictly_in_order() {
    let ops = vec![op(1, "a"), op(2, "b"), op(3, "c")];
    let mut exec = Executor::new(ops.clone());
    for (k, expected) in ops.iter().enumerate() {
        assert_eq!(exec.progress(), (k, 3));
        assert_eq!(exec.outcome(), RunOutcome::InProgress);
        let current = exec.current_op().expect("an operation is owed");
        assert_eq!(current, expected);
        exec.record_success();
    }
    assert_eq!(exec.progress(), (3, 3));
    assert!(exec.current_op().is_none());
    assert_eq!(exec.outcome(), RunOutcome::Complete);
}

#[test]
fn empty_run_completes_immediately() {
    let mut updates = 0;
    let exec = Executor::new(Vec::new());
    while exec.current_op().is_some() {
        updates += 1;
    }
    assert_eq!(updates, 0);
    assert_eq!(exec.progress(), (0, 0));
    assert_eq!(exec.outcome(), RunOutcome::Complete);
}

#[test]
fn failure_stops_the_run_and_names_the_step() {
    let ops = vec![op(1, "a"), op(2, "b"), op(3, "c")];
    let mut exec = Executor::new(ops);
    exec.record_success();
    // The second operation (index 1) fails remotely.
    assert!(exec.current_op().is_some());
    exec.record_failure();
    assert_eq!(exec.outcome(), RunOutcome::Failed(1));
    assert!(exec.current_op().is_none(), "no operation may follow a failure");
    // Exactly the first operation was applied.
    assert_eq!(exec.progress(), (1, 3));
}

#[test]
fn failure_on_the_first_operation_applies_nothing() {
    let ops = vec![op(1, "a")];
    let mut exec = Executor::new(ops);
    exec.record_failure();
    assert_eq!(exec.outcome(), RunOutcome::Failed(0));
    assert_eq!(exec.progress(), (0, 1));
}

#[test]
fn pacing_interval_divides_the_minute() {
    assert_eq!(interval_millis(100), 600);
    assert_eq!(interval_millis(60), 1000);
    assert_eq!(interval_millis(1), 60000);
    assert_eq!(interval_millis(OPS_PER_MINUTE), 600);
}
