use siling::claim::ClaimResult;
use siling::storage::{MockStorageAdaptor, MockStorageError};
use siling::task::{ClaimedTask, PendingTask, Task, TaskConfig};

const SECOND: i128 = 1_000_000_000;
const T0: i128 = 1_700_000_000 * SECOND;

fn config_at(at: i128) -> TaskConfig {
    TaskConfig::default().mature_at(at)
}

fn claimed(result: Option<ClaimResult<String>>) -> ClaimedTask<String> {
    match result {
        Some(ClaimResult::Claimed(task)) => task,
        _ => panic!("task not claimed"),
    }
}

#[test]
fn can_add_task() {
    let input = "asdf".to_owned();
    let mut storage = MockStorageAdaptor::new();
    let pending = storage.add_task_at(input.clone(), TaskConfig::default(), T0, "t1".to_owned());
    assert!(pending.is_some());
    let pending = storage.add_task_at(input.clone(), config_at(T0), T0, "t2".to_owned());
    assert!(pending.is_none());
}

#[test]
fn can_add_task_then_consume() {
    let input = "asdf".to_owned();
    let mut storage = MockStorageAdaptor::new();
    assert!(storage.claim_task_at(T0, "c0".to_owned()).is_none(), "task queue not started empty");
    let pending = storage
        .add_task_at(input.clone(), TaskConfig::default(), T0, "t1".to_owned())
        .expect("task not added");
    let task = claimed(storage.claim_task_at(T0, "c1".to_owned()));
    assert_eq!(task.input, input);
    assert_eq!(&task.task_id, pending.get_task_id());
    assert!(
        storage.claim_task_at(T0, "c2".to_owned()).is_none(),
        "claimed task not cleared from pending list"
    );
}

#[test]
fn can_add_delayed_task_then_consume() {
    let input = "asdf".to_owned();
    let delay = SECOND;
    let mut storage = MockStorageAdaptor::new();
    let pending = storage
        .add_task_at(input.clone(), config_at(T0 + delay), T0, "t1".to_owned())
        .expect("task not added");
    let immature = match pending {
        PendingTask::Immature(immature) => immature,
        _ => panic!("delayed task not added as immature"),
    };
    match storage.claim_task_at(T0, "c1".to_owned()) {
        Some(ClaimResult::Immature(task)) => assert_eq!(task.task_id, immature.task_id),
        _ => panic!("immature task not found"),
    }
    let later = T0 + delay + SECOND / 10;
    let task = claimed(storage.claim_task_at(later, "c2".to_owned()));
    assert_eq!(task.task_id, immature.task_id);
}

#[test]
fn can_revoke_timed_out_claims() {
    let input = "asdf".to_owned();
    let ttl = SECOND;
    let mut storage = MockStorageAdaptor::new();
    let pending = storage
        .add_task_at(input.clone(), TaskConfig::default(), T0, "t1".to_owned())
        .expect("task not added");
    storage.revoke_at(ttl, T0);
    let claim1 = claimed(storage.claim_task_at(T0, "c1".to_owned()));
    assert_eq!(&claim1.task_id, pending.get_task_id());
    let later = T0 + ttl + SECOND / 10;
    storage.revoke_at(ttl, later);
    let claim2 = claimed(storage.claim_task_at(later, "c2".to_owned()));
    assert_eq!(&claim2.task_id, pending.get_task_id());
}

#[test]
fn can_ack_claims() {
    let input = "asdf".to_owned();
    let output = "qwer".to_owned();
    let mut storage = MockStorageAdaptor::new();
    let pending = storage
        .add_task_at(input.clone(), TaskConfig::default(), T0, "t1".to_owned())
        .expect("task not added");
    let claim = claimed(storage.claim_task_at(T0, "c1".to_owned()));
    let second = ClaimedTask {
        task_id: claim.task_id.clone(),
        claim_id: claim.claim_id.clone(),
        input: claim.input.clone(),
    };
    let task = match storage.ack_task_at(claim, output.clone(), T0) {
        Ok(task) => task,
        Err(_) => panic!("ack refused"),
    };
    assert_eq!(task.output, output);
    assert_eq!(&task.task_id, pending.get_task_id());
    assert!(storage.ack_task_at(second, output.clone(), T0).is_err());
}

#[test]
fn can_find_tasks() {
    let input = "asdf".to_owned();
    let output = "qwer".to_owned();
    let mut storage = MockStorageAdaptor::new();
    let pending = storage
        .add_task_at(input.clone(), TaskConfig::default(), T0, "t1".to_owned())
        .expect("task not added");
    let task = storage.find_task_at(pending.get_task_id().to_owned(), T0).unwrap();
    assert_eq!(task.get_task_id(), pending.get_task_id());
    assert!(matches!(task, Task::Pending(_)));
    let claim = claimed(storage.claim_task_at(T0, "c1".to_owned()));
    let task = storage.find_task_at(claim.task_id.clone(), T0).unwrap();
    assert_eq!(task.get_task_id(), &claim.task_id);
    assert!(matches!(task, Task::Claimed(_)));
    let acked = match storage.ack_task_at(claim, output.clone(), T0) {
        Ok(task) => task,
        Err(_) => panic!("ack refused"),
    };
    match storage.find_task_at(acked.task_id.clone(), T0).unwrap() {
        Task::Acked(task) => {
            assert_eq!(acked.task_id, task.task_id);
            assert_eq!(acked.output, task.output);
        }
        _ => panic!("acked task not found"),
    }
}

#[test]
fn can_cleanup_acked_tasks() {
    let input = "asdf".to_owned();
    let output = "qwer".to_owned();
    let ttl = SECOND;
    let mut storage = MockStorageAdaptor::new();
    storage.add_task_at(input.clone(), TaskConfig::default(), T0, "t1".to_owned());
    let claim = claimed(storage.claim_task_at(T0, "c1".to_owned()));
    let claim_task_id = claim.task_id.clone();
    let task = match storage.ack_task_at(claim, output.clone(), T0) {
        Ok(task) => task,
        Err(_) => panic!("ack refused"),
    };
    storage.cleanup_at(ttl, T0);
    assert_eq!(
        storage.find_task_at(task.task_id.clone(), T0).unwrap().get_task_id(),
        &claim_task_id
    );
    let later = T0 + ttl + SECOND / 10;
    storage.cleanup_at(ttl, later);
    assert!(storage.find_task_at(task.task_id.clone(), later).is_none());
}

#[test]
fn ack_with_unknown_claim_is_refused() {
    let mut storage = MockStorageAdaptor::new();
    let claim = ClaimedTask { task_id: "t".to_owned(), claim_id: "nobody".to_owned(), input: "x".to_owned() };
    match storage.ack_task_at(claim, "out".to_owned(), T0) {
        Err(MockStorageError::InvalidClaimer(id)) => assert_eq!(id, "nobody"),
        Ok(_) => panic!("unknown claim accepted"),
    }
}

#[test]
fn add_reports_maturity_against_now() {
    let mut storage = MockStorageAdaptor::new();
    match storage.add_task_at("a".to_owned(), config_at(T0), T0, "t1".to_owned()) {
        Some(PendingTask::Mature(task)) => assert_eq!(task.task_id, "t1"),
        _ => panic!("task maturing now not reported mature"),
    }
    match storage.add_task_at("b".to_owned(), config_at(T0 + 1), T0, "t2".to_owned()) {
        Some(PendingTask::Immature(task)) => {
            assert_eq!(task.task_id, "t2");
            assert_eq!(task.mature_at, T0 + 1);
        }
        _ => panic!("task maturing later not reported immature"),
    }
    match storage.add_task_at("c".to_owned(), config_at(T0 - 5), T0, "t3".to_owned()) {
        Some(PendingTask::Mature(_)) => {}
        _ => panic!("task matured in the past not reported mature"),
    }
}

#[test]
fn add_inserts_before_first_later_task() {
    // Pending: t1 (T0 + 10). A task maturing earlier goes in front of it.
    let mut storage = MockStorageAdaptor::new();
    storage.add_task_at("a".to_owned(), config_at(T0 + 10), T0, "t1".to_owned());
    storage.add_task_at("b".to_owned(), config_at(T0 + 5), T0, "t2".to_owned());
    match storage.claim_task_at(T0 + 5, "c".to_owned()) {
        Some(ClaimResult::Claimed(task)) => assert_eq!(task.task_id, "t2"),
        _ => panic!("earlier task not at the head"),
    }
}

#[test]
fn add_without_later_task_goes_to_end() {
    // Pending: t1 (T0 + 5). No pending task matures after T0 + 10, so the new
    // task goes to the end of the list.
    let mut storage = MockStorageAdaptor::new();
    storage.add_task_at("a".to_owned(), config_at(T0 + 5), T0, "t1".to_owned());
    storage.add_task_at("b".to_owned(), config_at(T0 + 10), T0, "t2".to_owned());
    match storage.claim_task_at(T0 + 6, "c".to_owned()) {
        Some(ClaimResult::Claimed(task)) => assert_eq!(task.task_id, "t1"),
        _ => panic!("mature head not claimed"),
    }
}

#[test]
fn tasks_added_at_once_are_claimed_oldest_first() {
    let mut storage = MockStorageAdaptor::new();
    storage.add_task_at("a".to_owned(), TaskConfig::default(), T0, "ta".to_owned());
    storage.add_task_at("b".to_owned(), TaskConfig::default(), T0 + 1, "tb".to_owned());
    assert_eq!(claimed(storage.claim_task_at(T0 + 2, "c1".to_owned())).input, "a");
    assert_eq!(claimed(storage.claim_task_at(T0 + 2, "c2".to_owned())).input, "b");
}

#[test]
fn far_future_task_waits_behind_a_mature_one() {
    // 2999-01-01T00:00:00Z is 32_503_680_000 seconds after the epoch.
    let year_2999 = 32_503_680_000 * SECOND;
    let mut storage = MockStorageAdaptor::new();
    storage.add_task_at("a".to_owned(), TaskConfig::default(), T0, "ta".to_owned());
    match storage.add_task_at("b".to_owned(), config_at(year_2999), T0, "tb".to_owned()) {
        Some(PendingTask::Immature(_)) => {}
        _ => panic!("far-future task not immature"),
    }
    let task = claimed(storage.claim_task_at(T0 + 1, "c".to_owned()));
    assert_eq!(task.input, "a");
    match storage.claim_task_at(T0 + 1, "c2".to_owned()) {
        Some(ClaimResult::Immature(task)) => assert_eq!(task.task_id, "tb"),
        _ => panic!("only the immature task should be left"),
    }
}

#[test]
fn revoke_keeps_claims_that_have_not_timed_out() {
    // A claim made at T0 has timed out for ttl at `now` exactly when
    // T0 + ttl < now.
    let hour = 3600 * SECOND;
    let mut storage = MockStorageAdaptor::new();
    storage.add_task_at("a".to_owned(), TaskConfig::default(), T0, "t1".to_owned());
    let claim = claimed(storage.claim_task_at(T0, "c1".to_owned()));
    storage.revoke_at(hour, T0 + 1);
    assert!(storage.claim_task_at(T0 + 1, "c2".to_owned()).is_none());
    storage.revoke_at(hour, T0 + hour);
    assert!(matches!(storage.find_task_at("t1".to_owned(), T0), Some(Task::Claimed(_))));
    let second = ClaimedTask { task_id: claim.task_id.clone(), claim_id: claim.claim_id.clone(), input: claim.input.clone() };
    storage.revoke_at(hour, T0 + hour + 1);
    match storage.find_task_at("t1".to_owned(), T0 + hour + 1) {
        Some(Task::Pending(PendingTask::Mature(task))) => assert_eq!(task.task_id, "t1"),
        _ => panic!("timed-out claim not revoked"),
    }
    assert!(storage.ack_task_at(second, "o".to_owned(), T0 + hour + 2).is_err());
}

#[test]
fn fresh_claim_survives_revoke_and_can_be_acked() {
    let mut storage = MockStorageAdaptor::new();
    storage.add_task("a".to_owned(), TaskConfig::default()).expect("task not added");
    let claim = claimed(storage.claim_task());
    storage.revoke(3600 * SECOND);
    assert!(storage.claim_task().is_none());
    assert!(storage.ack_task(claim, "o".to_owned()).is_ok());
}

#[test]
fn revoked_task_goes_behind_earlier_pending_tasks() {
    // The pending list holds t2 (mature at T0 + 1); the claim on t1 is
    // revoked at T0 + 10 and goes back mature at T0 + 10, behind t2.
    let mut storage = MockStorageAdaptor::new();
    storage.add_task_at("a".to_owned(), TaskConfig::default(), T0, "t1".to_owned());
    claimed(storage.claim_task_at(T0, "c1".to_owned()));
    storage.add_task_at("b".to_owned(), config_at(T0 + 1), T0, "t2".to_owned());
    storage.revoke_at(0, T0 + 10);
    assert_eq!(claimed(storage.claim_task_at(T0 + 10, "c2".to_owned())).task_id, "t2");
    assert_eq!(claimed(storage.claim_task_at(T0 + 10, "c3".to_owned())).task_id, "t1");
}

#[test]
fn revoke_drops_task_whose_input_is_pending_again() {
    let mut storage = MockStorageAdaptor::new();
    storage.add_task_at("a".to_owned(), TaskConfig::default(), T0, "t1".to_owned());
    claimed(storage.claim_task_at(T0, "c1".to_owned()));
    storage.add_task_at("a".to_owned(), TaskConfig::default(), T0, "t2".to_owned());
    storage.revoke_at(0, T0 + 1);
    assert!(storage.find_task_at("t1".to_owned(), T0 + 1).is_none());
    assert!(matches!(storage.find_task_at("t2".to_owned(), T0 + 1), Some(Task::Pending(_))));
}

#[test]
fn find_reports_maturity_at_lookup_time() {
    let mut storage = MockStorageAdaptor::new();
    storage.add_task_at("a".to_owned(), config_at(T0 + 10), T0, "t1".to_owned());
    assert!(matches!(
        storage.find_task_at("t1".to_owned(), T0 + 9),
        Some(Task::Pending(PendingTask::Immature(_)))
    ));
    assert!(matches!(
        storage.find_task_at("t1".to_owned(), T0 + 10),
        Some(Task::Pending(PendingTask::Mature(_)))
    ));
    assert!(storage.find_task_at("t9".to_owned(), T0).is_none());
}

#[test]
fn clock_reading_operations_follow_the_clock() {
    let mut storage = MockStorageAdaptor::new();
    let pending = storage.add_task("job".to_owned(), TaskConfig::default()).expect("task not added");
    assert_eq!(pending.get_task_id().len(), 36);
    assert!(matches!(pending, PendingTask::Mature(_)));
    let claim = claimed(storage.claim_task());
    assert_eq!(&claim.task_id, pending.get_task_id());
    assert_eq!(claim.claim_id.len(), 36);
    assert_ne!(claim.claim_id, claim.task_id);
    assert!(matches!(storage.find_task(claim.task_id.clone()), Some(Task::Claimed(_))));
    let task_id = claim.task_id.clone();
    assert!(storage.ack_task(claim, "done".to_owned()).is_ok());
    storage.revoke(SECOND);
    storage.cleanup(3600 * SECOND);
    assert!(matches!(storage.find_task(task_id), Some(Task::Acked(_))));
}

#[test]
fn far_future_task_stays_immature_on_the_clock() {
    let mut storage = MockStorageAdaptor::new();
    let far = i128::MAX - 1;
    let pending = storage.add_task("job".to_owned(), config_at(far)).expect("task not added");
    assert!(matches!(pending, PendingTask::Immature(_)));
    assert!(matches!(storage.claim_task(), Some(ClaimResult::Immature(_))));
}

#[test]
fn claim_takes_the_earliest_of_an_ordered_list() {
    // Added in order of increasing maturity behind a later task, the list
    // stays ordered and a claim takes the task that matures first.
    let mut storage = MockStorageAdaptor::new();
    storage.add_task_at("late".to_owned(), config_at(T0 + 30), T0, "t3".to_owned());
    storage.add_task_at("mid".to_owned(), config_at(T0 + 20), T0, "t2".to_owned());
    storage.add_task_at("early".to_owned(), config_at(T0 + 10), T0, "t1".to_owned());
    for (now, expected) in [(T0 + 10, "t1"), (T0 + 40, "t2"), (T0 + 40, "t3")] {
        let task = claimed(storage.claim_task_at(now, format!("c-{}", expected)));
        assert_eq!(task.task_id, expected);
    }
    assert!(storage.claim_task_at(T0 + 40, "c-none".to_owned()).is_none());
}

#[test]
fn cleanup_removes_every_expired_task_and_keeps_the_rest() {
    let ttl = SECOND;
    let mut storage = MockStorageAdaptor::new();
    for (i, input) in ["a", "b", "c"].iter().enumerate() {
        let at = T0 + (i as i128) * SECOND;
        storage.add_task_at(input.to_string(), TaskConfig::default(), at, format!("t{}", i));
        let claim = claimed(storage.claim_task_at(at, format!("c{}", i)));
        assert!(storage.ack_task_at(claim, "out".to_owned(), at).is_ok());
    }
    // Acked at T0, T0 + 1 s and T0 + 2 s; at T0 + 2.5 s with a 1 s ttl the
    // first two have expired.
    let now = T0 + 2 * SECOND + SECOND / 2;
    storage.cleanup_at(ttl, now);
    assert!(storage.find_task_at("t0".to_owned(), now).is_none());
    assert!(storage.find_task_at("t1".to_owned(), now).is_none());
    assert!(matches!(storage.find_task_at("t2".to_owned(), now), Some(Task::Acked(_))));
}

#[test]
fn revoked_claim_is_found_pending_and_mature() {
    let mut storage = MockStorageAdaptor::new();
    storage.add_task_at("a".to_owned(), TaskConfig::default(), T0, "t1".to_owned());
    claimed(storage.claim_task_at(T0, "c1".to_owned()));
    storage.revoke_at(SECOND, T0 + 2 * SECOND);
    match storage.find_task_at("t1".to_owned(), T0 + 2 * SECOND) {
        Some(Task::Pending(PendingTask::Mature(task))) => assert_eq!(task.task_id, "t1"),
        _ => panic!("revoked claim not pending and mature"),
    }
}
