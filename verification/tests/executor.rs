use delete_ecs_clusters_rs::executor::{
    BatchAction, BatchError, BatchExecutor, OperationOutcome, OperationStatus,
};

/// Drives a batch to its end. The operation whose turn it is to end is picked
/// by `pick` among those in flight; operation `i` fails when `fails(i)`.
/// Returns the steps taken and the most operations seen in flight.
fn drive(
    batch: &mut BatchExecutor,
    pick: fn(&Vec<usize>) -> usize,
    fails: fn(usize) -> bool,
) -> (usize, usize) {
    let mut running: Vec<usize> = Vec::new();
    let mut started: Vec<usize> = Vec::new();
    let mut steps = 0;
    let mut most = 0;
    loop {
        match batch.poll() {
            BatchAction::Start(index) => {
                running.push(index);
                started.push(index);
                steps += 1;
            }
            BatchAction::Wait => {
                assert!(!running.is_empty());
                let index = running.remove(pick(&running));
                let outcome = if fails(index) {
                    OperationOutcome::Failed
                } else {
                    OperationOutcome::Succeeded
                };
                assert_eq!(batch.resolve(index, outcome), Ok(()));
                steps += 1;
            }
            BatchAction::Finished => break,
        }
        assert_eq!(batch.in_flight(), running.len());
        assert!(batch.in_flight() <= batch.limit());
        most = most.max(batch.in_flight());
    }
    assert!(running.is_empty());
    assert_eq!(started, (0..batch.operations()).collect::<Vec<usize>>());
    (steps, most)
}

fn first(_: &Vec<usize>) -> usize {
    0
}

fn last(running: &Vec<usize>) -> usize {
    running.len() - 1
}

fn never(_: usize) -> bool {
    false
}

fn odd(index: usize) -> bool {
    index % 2 == 1
}

fn always(_: usize) -> bool {
    true
}

#[test]
fn empty_batch_is_finished_at_once() {
    let mut batch = BatchExecutor::new(0, 5).unwrap();
    assert_eq!(batch.poll(), BatchAction::Finished);
    assert_eq!(batch.in_flight(), 0);
    assert_eq!(batch.resolved(), 0);
}

#[test]
fn zero_limit_is_refused() {
    assert_eq!(BatchExecutor::new(3, 0), Err(BatchError::ZeroLimit));
    assert_eq!(BatchExecutor::new(0, 0), Err(BatchError::ZeroLimit));
}

#[test]
fn fewer_operations_than_the_limit_all_start() {
    let mut batch = BatchExecutor::new(3, 5).unwrap();
    assert_eq!(batch.poll(), BatchAction::Start(0));
    assert_eq!(batch.poll(), BatchAction::Start(1));
    assert_eq!(batch.poll(), BatchAction::Start(2));
    assert_eq!(batch.poll(), BatchAction::Wait);
    assert_eq!(batch.in_flight(), 3);
    assert_eq!(batch.resolve(1, OperationOutcome::Succeeded), Ok(()));
    assert_eq!(batch.poll(), BatchAction::Wait);
    assert_eq!(batch.resolve(0, OperationOutcome::Failed), Ok(()));
    assert_eq!(batch.resolve(2, OperationOutcome::Succeeded), Ok(()));
    assert_eq!(batch.poll(), BatchAction::Finished);
    assert_eq!(batch.resolved(), 3);
    assert_eq!(batch.status(0), Some(OperationStatus::Failed));
    assert_eq!(batch.status(1), Some(OperationStatus::Succeeded));
    assert_eq!(batch.status(2), Some(OperationStatus::Succeeded));
    assert_eq!(batch.status(3), None);
}

#[test]
fn as_many_operations_as_the_limit_all_start() {
    let mut batch = BatchExecutor::new(5, 5).unwrap();
    for index in 0..5 {
        assert_eq!(batch.poll(), BatchAction::Start(index));
    }
    assert_eq!(batch.poll(), BatchAction::Wait);
    assert_eq!(batch.in_flight(), 5);
}

#[test]
fn more_operations_than_the_limit_wait_for_a_free_place() {
    let mut batch = BatchExecutor::new(7, 5).unwrap();
    for index in 0..5 {
        assert_eq!(batch.poll(), BatchAction::Start(index));
    }
    assert_eq!(batch.poll(), BatchAction::Wait);
    assert_eq!(batch.status(5), Some(OperationStatus::Pending));
    assert_eq!(batch.resolve(3, OperationOutcome::Succeeded), Ok(()));
    assert_eq!(batch.in_flight(), 4);
    assert_eq!(batch.poll(), BatchAction::Start(5));
    assert_eq!(batch.poll(), BatchAction::Wait);
    assert_eq!(batch.in_flight(), 5);
}

#[test]
fn the_limit_holds_and_every_operation_is_resolved() {
    for operations in 0..12usize {
        for limit in 1..8usize {
            for pick in [first as fn(&Vec<usize>) -> usize, last] {
                for fails in [never as fn(usize) -> bool, odd, always] {
                    let mut batch = BatchExecutor::new(operations, limit).unwrap();
                    let (steps, most) = drive(&mut batch, pick, fails);
                    assert_eq!(steps, 2 * operations);
                    assert_eq!(most, operations.min(limit));
                    assert_eq!(batch.resolved(), operations);
                    assert_eq!(batch.in_flight(), 0);
                    for index in 0..operations {
                        let expected = if fails(index) {
                            OperationStatus::Failed
                        } else {
                            OperationStatus::Succeeded
                        };
                        assert_eq!(batch.status(index), Some(expected));
                    }
                }
            }
        }
    }
}

#[test]
fn a_failure_changes_nothing_but_its_own_record() {
    let mut failed = BatchExecutor::new(8, 3).unwrap();
    let mut succeeded = BatchExecutor::new(8, 3).unwrap();
    for batch in [&mut failed, &mut succeeded] {
        assert_eq!(batch.poll(), BatchAction::Start(0));
        assert_eq!(batch.poll(), BatchAction::Start(1));
        assert_eq!(batch.poll(), BatchAction::Start(2));
    }
    assert_eq!(failed.resolve(1, OperationOutcome::Failed), Ok(()));
    assert_eq!(succeeded.resolve(1, OperationOutcome::Succeeded), Ok(()));
    let mut running = vec![0usize, 2];
    loop {
        let action = failed.poll();
        assert_eq!(action, succeeded.poll());
        match action {
            BatchAction::Start(index) => running.push(index),
            BatchAction::Wait => {
                let index = running.remove(0);
                assert_eq!(failed.resolve(index, OperationOutcome::Succeeded), Ok(()));
                assert_eq!(succeeded.resolve(index, OperationOutcome::Succeeded), Ok(()));
            }
            BatchAction::Finished => break,
        }
    }
    for index in 0..8 {
        if index == 1 {
            assert_eq!(failed.status(index), Some(OperationStatus::Failed));
            assert_eq!(succeeded.status(index), Some(OperationStatus::Succeeded));
        } else {
            assert_eq!(failed.status(index), succeeded.status(index));
            assert_eq!(failed.status(index), Some(OperationStatus::Succeeded));
        }
    }
}

#[test]
fn an_operation_that_is_not_in_flight_is_refused() {
    let mut batch = BatchExecutor::new(2, 1).unwrap();
    assert_eq!(batch.resolve(0, OperationOutcome::Succeeded), Err(BatchError::NotInFlight));
    assert_eq!(batch.resolve(9, OperationOutcome::Succeeded), Err(BatchError::NotInFlight));
    assert_eq!(batch.poll(), BatchAction::Start(0));
    assert_eq!(batch.resolve(1, OperationOutcome::Succeeded), Err(BatchError::NotInFlight));
    assert_eq!(batch.status(0), Some(OperationStatus::InFlight));
    assert_eq!(batch.status(1), Some(OperationStatus::Pending));
    assert_eq!(batch.resolve(0, OperationOutcome::Failed), Ok(()));
    assert_eq!(batch.resolve(0, OperationOutcome::Succeeded), Err(BatchError::NotInFlight));
    assert_eq!(batch.status(0), Some(OperationStatus::Failed));
    assert_eq!(batch.in_flight(), 0);
    assert_eq!(batch.resolved(), 1);
}

#[test]
fn a_limit_of_one_runs_the_operations_in_turn() {
    let mut batch = BatchExecutor::new(3, 1).unwrap();
    for index in 0..3 {
        assert_eq!(batch.poll(), BatchAction::Start(index));
        assert_eq!(batch.poll(), BatchAction::Wait);
        assert_eq!(batch.resolve(index, OperationOutcome::Succeeded), Ok(()));
    }
    assert_eq!(batch.poll(), BatchAction::Finished);
    assert_eq!(batch.operations(), 3);
    assert_eq!(batch.limit(), 1);
}
