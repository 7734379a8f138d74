use siling::claim::ClaimResult;
use siling::event::{subscription_accepts, Event};
use siling::queue::{
    after_ack, after_pull, is_ack_event, maturation_delay, on_ack_event, on_first_look, push_events,
    revoke_before_pull, timer_event, triggers_pull, wait_for_task, PullStep, QueueConfig, QueueError,
};
use siling::storage::MockStorageAdaptor;
use siling::task::{AckedTask, ClaimedTask, ImmatureTask, MatureTask, PendingTask, Task, TaskConfig};

const SECOND: i128 = 1_000_000_000;
const T0: i128 = 1_700_000_000 * SECOND;

type Failure = QueueError<String, String>;

#[test]
fn can_push_tasks() {
    let mut storage = MockStorageAdaptor::new();
    let param = "4f2a1c".to_owned();
    let added = storage.add_task_at(param.clone(), TaskConfig::default(), T0, "t1".to_owned());
    assert!(added.is_some());
    let events = push_events(&added);
    assert_eq!(events, vec![Event::TaskAdded("t1".to_owned()), Event::TaskMaturated("t1".to_owned())]);
    let added = storage.add_task_at(
        param.clone(),
        TaskConfig::default().mature_at(T0 + 100 * SECOND),
        T0,
        "t2".to_owned(),
    );
    assert!(added.is_none());
    assert!(push_events(&added).is_empty());
}

#[test]
fn can_push_then_consume() {
    let mut storage = MockStorageAdaptor::new();
    let param = "7b9e".to_owned();
    let added = storage.add_task_at(param.clone(), TaskConfig::default(), T0, "t1".to_owned());
    assert_eq!(push_events(&added).len(), 2);
    match after_pull(storage.claim_task_at(T0, "c1".to_owned()), true) {
        PullStep::Deliver(task) => {
            assert_eq!(task.task_id, "t1");
            assert_eq!(task.input, param);
        }
        _ => panic!("pushed task not delivered"),
    }
}

#[test]
fn immature_push_is_announced_as_added_only() {
    let added = Some(PendingTask::Immature(ImmatureTask { task_id: "t".to_owned(), mature_at: T0 }));
    assert_eq!(push_events(&added), vec![Event::TaskAdded("t".to_owned())]);
    let added = Some(PendingTask::Mature(MatureTask { task_id: "m".to_owned() }));
    assert_eq!(push_events(&added).len(), 2);
}

#[test]
fn pull_steps() {
    let claim = ClaimedTask { task_id: "t".to_owned(), claim_id: "c".to_owned(), input: 3u8 };
    assert!(matches!(after_pull(Some(ClaimResult::Claimed(claim)), false), PullStep::Deliver(_)));
    let immature = ImmatureTask { task_id: "i".to_owned(), mature_at: T0 };
    match after_pull::<u8>(Some(ClaimResult::Immature(immature)), true) {
        PullStep::WaitFor(task) => assert_eq!(task.mature_at, T0),
        _ => panic!("immature head does not set the timer"),
    }
    assert!(matches!(after_pull::<u8>(None, true), PullStep::WaitWithoutTimer));
    assert!(matches!(after_pull::<u8>(None, false), PullStep::KeepWaiting));
}

#[test]
fn only_maturation_triggers_pull() {
    assert!(triggers_pull(&Event::TaskMaturated("x".to_owned())));
    assert!(!triggers_pull(&Event::TaskAdded("x".to_owned())));
    assert!(!triggers_pull(&Event::TaskAcked("x".to_owned())));
    assert_eq!(timer_event(), Event::TaskMaturated(String::new()));
    assert!(triggers_pull(&timer_event()));
}

#[test]
fn maturation_delay_is_the_remaining_time() {
    match maturation_delay::<String, String>(T0 + 5 * SECOND, T0) {
        Ok(delay) => assert_eq!(delay, 5_000_000_000),
        Err(_) => panic!("delay refused"),
    }
    assert!(matches!(maturation_delay::<String, String>(T0, T0), Ok(0)));
    match maturation_delay::<String, String>(T0 - 1, T0) {
        Err(QueueError::Unknown(msg)) => {
            assert_eq!(msg, "Source duration value is out of range for the target type")
        }
        _ => panic!("negative delay accepted"),
    }
    match maturation_delay::<String, String>(i128::MAX, i128::MIN) {
        Ok(delay) => assert_eq!(delay, u128::MAX),
        Err(_) => panic!("delay refused"),
    }
    match maturation_delay::<String, String>(5, -7) {
        Ok(delay) => assert_eq!(delay, 12),
        Err(_) => panic!("delay refused"),
    }
}

#[test]
fn wait_for_task_reads_the_clock() {
    let past = ImmatureTask { task_id: "p".to_owned(), mature_at: 0 };
    assert!(matches!(wait_for_task::<String, String>(&past), Err(QueueError::Unknown(_))));
    let future = ImmatureTask { task_id: "f".to_owned(), mature_at: i128::MAX };
    match wait_for_task::<String, String>(&future) {
        Ok(delay) => assert!(delay > 0 && delay <= i128::MAX as u128),
        Err(_) => panic!("future task refused"),
    }
}

#[test]
fn ack_plan_follows_config() {
    let config = QueueConfig::default();
    let (event, ttl) = after_ack(&config, &"t".to_owned());
    assert_eq!(event, Event::TaskAcked("t".to_owned()));
    assert_eq!(ttl, None);
    let config = QueueConfig::default().acked_ttl(7).claim_ttl(9);
    assert_eq!(after_ack(&config, &"t".to_owned()).1, Some(7));
    assert_eq!(revoke_before_pull(&config), Some(9));
    assert_eq!(revoke_before_pull(&QueueConfig::default()), None);
}

#[test]
fn awaiting_a_task() {
    let acked: Option<Task<String, u32>> =
        Some(Task::Acked(AckedTask { task_id: "t".to_owned(), output: 42 }));
    assert_eq!(on_first_look(acked).map(|t| t.output), Some(42));
    let pending: Option<Task<String, u32>> =
        Some(Task::Pending(PendingTask::Mature(MatureTask { task_id: "t".to_owned() })));
    assert!(on_first_look(pending).is_none());
    assert!(is_ack_event(&Event::TaskAcked("t".to_owned())));
    assert!(!is_ack_event(&Event::TaskClaimed("t".to_owned())));
    let acked: Option<Task<String, u32>> =
        Some(Task::Acked(AckedTask { task_id: "t".to_owned(), output: 1 }));
    assert!(matches!(on_ack_event::<String, u32, String, String>(&"t".to_owned(), acked), Ok(t) if t.output == 1));
    let missing: Result<AckedTask<u32>, Failure> = on_ack_event::<String, u32, String, String>(&"t9".to_owned(), None);
    match missing {
        Err(QueueError::Unknown(msg)) => assert_eq!(msg, "task t9 acked but not found"),
        _ => panic!("missing task not reported"),
    }
}

#[test]
fn subscriptions_filter_by_task() {
    let event = Event::TaskAdded("a".to_owned());
    assert!(subscription_accepts(&None, &event));
    assert!(subscription_accepts(&Some("a".to_owned()), &event));
    assert!(!subscription_accepts(&Some("b".to_owned()), &event));
    assert_eq!(Event::TaskMaturated("m".to_owned()).get_task_id(), "m");
    assert_eq!(Event::TaskClaimed("c".to_owned()).get_task_id(), "c");
    assert_eq!(Event::TaskAcked("k".to_owned()).clone(), Event::TaskAcked("k".to_owned()));
}

#[test]
fn task_ids_and_conversions() {
    let pending: PendingTask = ImmatureTask { task_id: "i".to_owned(), mature_at: 3 }.into();
    assert_eq!(pending.get_task_id(), "i");
    let task: Task<u8, u8> = pending.into();
    assert_eq!(task.get_task_id(), "i");
    let task: Task<u8, u8> = ClaimedTask { task_id: "c".to_owned(), claim_id: "x".to_owned(), input: 1 }.into();
    assert_eq!(task.get_task_id(), "c");
    let task: Task<u8, u8> = AckedTask { task_id: "a".to_owned(), output: 2 }.into();
    assert_eq!(task.get_task_id(), "a");
    let result: ClaimResult<u8> = ImmatureTask { task_id: "r".to_owned(), mature_at: 0 }.into();
    assert!(matches!(result, ClaimResult::Immature(_)));
    let pending: PendingTask = MatureTask { task_id: "m".to_owned() }.into();
    assert!(matches!(pending, PendingTask::Mature(_)));
}
