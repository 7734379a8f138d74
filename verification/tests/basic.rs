use serde_json::Value;
use siling::basic::{
    fetched_task, next_poll_interval, wait_step, wakes_waiter, AckedTask, MockStorageAdaptor,
    QueueError, StorageError, StoredTask, StoredTaskStatus, Task, WaitStep, INITIAL_POLL_INTERVAL,
    MAX_POLL_INTERVAL,
};
use siling::event::Event;

fn stored(status: StoredTaskStatus, output: Option<Value>) -> StoredTask {
    StoredTask { status, input: Value::String("in".to_owned()), output }
}

#[test]
fn fetch_maps_stored_status() {
    let id = "7".to_owned();
    assert!(matches!(fetched_task(id.clone(), None), Ok(None)));
    match fetched_task(id.clone(), Some(stored(StoredTaskStatus::Pending, None))) {
        Ok(Some(Task::Pending { id: found })) => assert_eq!(found, "7"),
        _ => panic!("pending task not fetched as pending"),
    }
    match fetched_task(id.clone(), Some(stored(StoredTaskStatus::Claimed, None))) {
        Ok(Some(Task::Claimed(task))) => {
            assert_eq!(task.id, "7");
            assert_eq!(task.input, Value::String("in".to_owned()));
        }
        _ => panic!("claimed task not fetched as claimed"),
    }
    match fetched_task(id.clone(), Some(stored(StoredTaskStatus::Acked, Some(Value::Bool(true))))) {
        Ok(Some(Task::Acked(task))) => assert_eq!(task.output, Value::Bool(true)),
        _ => panic!("acked task not fetched as acked"),
    }
    match fetched_task(id.clone(), Some(stored(StoredTaskStatus::Acked, None))) {
        Err(QueueError::TaskError(tid, msg)) => {
            assert_eq!(tid, "7");
            assert_eq!(msg, "output missing");
        }
        _ => panic!("acked task without output accepted"),
    }
}

#[test]
fn wait_steps() {
    let id = "1".to_owned();
    assert!(matches!(wait_step::<u8, u8>(&id, None), Err(QueueError::TaskNotFound(t)) if t == "1"));
    let acked = Some(Task::<u8, u8>::Acked(AckedTask { id: id.clone(), output: 9 }));
    assert!(matches!(wait_step(&id, acked), Ok(WaitStep::Done(t)) if t.output == 9));
    let pending = Some(Task::<u8, u8>::Pending { id: id.clone() });
    assert!(matches!(wait_step(&id, pending), Ok(WaitStep::KeepWaiting)));
    let claimed = Some(Task::<u8, u8>::Claimed(siling::basic::ClaimedTask { id: id.clone(), input: 1 }));
    assert!(matches!(wait_step(&id, claimed), Ok(WaitStep::KeepWaiting)));
    assert!(wakes_waiter(&Event::TaskAcked("1".to_owned())));
    assert!(!wakes_waiter(&Event::TaskAdded("1".to_owned())));
}

#[test]
fn waiting_keeps_polling_until_the_task_is_acked() {
    // Lookups at successive polls: pending, claimed, claimed, then acked.
    let id = "w".to_owned();
    let lookups = vec![
        Some(Task::<u8, u8>::Pending { id: id.clone() }),
        Some(Task::Claimed(siling::basic::ClaimedTask { id: id.clone(), input: 0 })),
        Some(Task::Claimed(siling::basic::ClaimedTask { id: id.clone(), input: 0 })),
        Some(Task::Acked(AckedTask { id: id.clone(), output: 7 })),
    ];
    let mut interval = INITIAL_POLL_INTERVAL;
    let mut waited = 0;
    let mut result = None;
    for found in lookups {
        match wait_step(&id, found) {
            Ok(WaitStep::Done(task)) => {
                result = Some(task.output);
                break;
            }
            Ok(WaitStep::KeepWaiting) => {
                waited += interval;
                interval = next_poll_interval(interval);
            }
            Err(_) => panic!("wait failed while the task was not yet acked"),
        }
    }
    assert_eq!(result, Some(7));
    assert_eq!(waited, 5 + 10 + 20);
}

#[test]
fn poll_intervals_double_up_to_the_ceiling() {
    let mut interval = INITIAL_POLL_INTERVAL;
    let mut seen = vec![interval];
    for _ in 0..6 {
        interval = next_poll_interval(interval);
        seen.push(interval);
    }
    assert_eq!(seen, vec![5, 10, 20, 40, 60, 60, 60]);
    assert_eq!(next_poll_interval(30), 60);
    assert_eq!(next_poll_interval(31), MAX_POLL_INTERVAL);
    assert_eq!(next_poll_interval(u64::MAX), 60);
}

#[test]
fn basic_storage_numbers_tasks_from_its_counter() {
    let mut storage = MockStorageAdaptor::new();
    let mut ids = Vec::new();
    for i in 0..12i64 {
        match storage.add_task(Value::from(i)) {
            Ok(id) => ids.push(id),
            Err(_) => panic!("task not added"),
        }
    }
    assert_eq!(ids[0], "0");
    assert_eq!(ids[9], "9");
    assert_eq!(ids[10], "10");
    assert_eq!(ids[11], "11");
}

#[test]
fn basic_storage_add_is_no_op_for_an_existing_task() {
    let mut storage = MockStorageAdaptor::new();
    let first = match storage.add_task(Value::String("job".to_owned())) {
        Ok(id) => id,
        Err(StorageError::Unknown(_)) => panic!("task not added"),
    };
    let again = match storage.add_task(Value::String("job".to_owned())) {
        Ok(id) => id,
        Err(StorageError::Unknown(_)) => panic!("existing task refused"),
    };
    assert_eq!(first, again);
    match storage.add_task(Value::String("other".to_owned())) {
        Ok(id) => assert_eq!(id, "1"),
        Err(_) => panic!("task not added"),
    }
}

#[test]
fn basic_storage_treats_inputs_that_compare_equal_as_the_same_task() {
    let mut storage = MockStorageAdaptor::new();
    let zero = match storage.add_task(Value::from(0.0f64)) {
        Ok(id) => id,
        Err(_) => panic!("task not added"),
    };
    match storage.add_task(Value::from(-0.0f64)) {
        Ok(id) => assert_eq!(id, zero),
        Err(_) => panic!("equal input refused"),
    }
}
