use scheduler_extension::error::SchedulerError;
use scheduler_extension::registry::Registry;
use scheduler_extension::task::{
    AccountId, ContractCallInput, Disposition, NewTask, Origin, Selector, Task, TaskId, TaskName,
    Weight,
};

fn payload(tag: u8) -> ContractCallInput {
    ContractCallInput {
        dest: AccountId { bytes: [tag; 32] },
        data: vec![tag, tag],
        gas_limit: Weight { ref_time: 10, proof_size: 20 },
        storage_deposit_limit: None,
        value: 0,
        max_weight: 1000,
    }
}

fn request(due_point: u32, priority: u8, tag: u8) -> NewTask {
    NewTask {
        name: None,
        origin: Origin::Address,
        account: AccountId { bytes: [0xaa; 32] },
        due_point,
        period: None,
        priority,
        payload: payload(tag),
    }
}

fn named(name: u8, due_point: u32, priority: u8) -> NewTask {
    NewTask { name: Some(TaskName { bytes: [name; 32] }), ..request(due_point, priority, name) }
}

fn tags(registry: &Registry) -> Vec<u8> {
    (0..registry.len()).map(|i| registry.task_at(i).payload.data[0]).collect()
}

#[test]
fn new_registry_is_empty() {
    let registry = Registry::new(1000);
    assert_eq!(registry.now(), 1000);
    assert_eq!(registry.len(), 0);
    assert!(registry.is_empty());
}

#[test]
fn insert_hands_out_sequence_numbers() {
    let mut registry = Registry::new(10);
    assert_eq!(registry.insert(request(12, 0, 1)), Ok(TaskId::Index(0)));
    assert_eq!(registry.insert(request(11, 0, 2)), Ok(TaskId::Index(1)));
    assert_eq!(
        registry.insert(named(9, 13, 0)),
        Ok(TaskId::Name(TaskName { bytes: [9; 32] }))
    );
    assert_eq!(registry.insert(request(11, 0, 3)), Ok(TaskId::Index(3)));
    assert_eq!(registry.len(), 4);
}

#[test]
fn insert_rejects_point_that_is_not_in_the_future() {
    let mut registry = Registry::new(10);
    registry.insert(request(12, 0, 1)).unwrap();
    assert_eq!(registry.insert(request(10, 0, 2)), Err(SchedulerError::TargetBlockNumberInPast));
    assert_eq!(registry.insert(request(9, 0, 2)), Err(SchedulerError::TargetBlockNumberInPast));
    assert_eq!(registry.insert(request(0, 0, 2)), Err(SchedulerError::TargetBlockNumberInPast));
    assert_eq!(registry.len(), 1);
    assert_eq!(tags(&registry), vec![1]);
    assert_eq!(registry.insert(request(11, 0, 2)), Ok(TaskId::Index(1)));
}

#[test]
fn past_point_is_named_before_any_other_refusal() {
    let mut registry = Registry::new(10);
    registry.insert(named(5, 12, 0)).unwrap();
    let mut bad = named(5, 10, 0);
    bad.period = Some((0, 3));
    assert_eq!(registry.insert(bad), Err(SchedulerError::TargetBlockNumberInPast));
}

#[test]
fn insert_rejects_taken_name() {
    let mut registry = Registry::new(10);
    registry.insert(named(5, 12, 0)).unwrap();
    assert_eq!(registry.insert(named(5, 14, 1)), Err(SchedulerError::Named));
    assert_eq!(registry.len(), 1);
    assert!(registry.insert(named(6, 14, 1)).is_ok());
    let mut both = named(5, 14, 1);
    both.period = Some((0, 1));
    assert_eq!(registry.insert(both), Err(SchedulerError::Named));
}

#[test]
fn insert_rejects_zero_interval() {
    let mut registry = Registry::new(10);
    let mut bad = request(12, 0, 1);
    bad.period = Some((0, 3));
    assert_eq!(registry.insert(bad), Err(SchedulerError::FailedToSchedule));
    assert!(registry.is_empty());
    let mut zero_repeats = request(12, 0, 1);
    zero_repeats.period = Some((1, 0));
    assert_eq!(registry.insert(zero_repeats), Ok(TaskId::Index(0)));
}

#[test]
fn tasks_stand_by_point_then_priority_then_arrival() {
    let mut registry = Registry::new(0);
    registry.insert(request(5, 2, 1)).unwrap();
    registry.insert(request(5, 1, 2)).unwrap();
    registry.insert(request(3, 9, 3)).unwrap();
    registry.insert(request(5, 2, 4)).unwrap();
    registry.insert(request(5, 1, 5)).unwrap();
    registry.insert(request(7, 0, 6)).unwrap();
    registry.insert(request(3, 0, 7)).unwrap();
    assert_eq!(tags(&registry), vec![7, 3, 2, 5, 1, 4, 6]);
}

#[test]
fn pop_due_takes_exactly_the_due_tasks_in_order() {
    let mut registry = Registry::new(0);
    registry.insert(request(5, 2, 1)).unwrap();
    registry.insert(request(5, 1, 2)).unwrap();
    registry.insert(request(3, 9, 3)).unwrap();
    registry.insert(request(5, 2, 4)).unwrap();
    registry.insert(request(7, 0, 6)).unwrap();
    let batch = registry.pop_due(5);
    let fired: Vec<u8> = batch.iter().map(|t| t.payload.data[0]).collect();
    assert_eq!(fired, vec![2, 1, 4]);
    assert_eq!(tags(&registry), vec![3, 6]);
    assert_eq!(registry.now(), 5);
    assert!(registry.pop_due(5).is_empty());
    assert!(registry.pop_due(6).is_empty());
    assert_eq!(registry.now(), 6);
    assert_eq!(registry.pop_due(4).len(), 0);
    assert_eq!(registry.now(), 6);
}

#[test]
fn lower_priority_value_fires_first_whatever_the_order_of_arrival() {
    let mut registry = Registry::new(0);
    registry.insert(request(4, 2, 0xb)).unwrap();
    registry.insert(request(4, 1, 0xa)).unwrap();
    let batch = registry.pop_due(4);
    assert_eq!(batch[0].payload.data[0], 0xa);
    assert_eq!(batch[1].payload.data[0], 0xb);

    let mut other = Registry::new(0);
    other.insert(request(4, 1, 0xa)).unwrap();
    other.insert(request(4, 2, 0xb)).unwrap();
    let batch = other.pop_due(4);
    assert_eq!(batch[0].payload.data[0], 0xa);
    assert_eq!(batch[1].payload.data[0], 0xb);
}

#[test]
fn cancel_by_position() {
    let mut registry = Registry::new(0);
    registry.insert(request(5, 0, 1)).unwrap();
    registry.insert(request(5, 0, 2)).unwrap();
    registry.insert(request(6, 0, 3)).unwrap();
    assert_eq!(registry.cancel(Selector::Position { due_point: 5, index: 1 }), Ok(()));
    assert_eq!(tags(&registry), vec![1, 3]);
    assert_eq!(
        registry.cancel(Selector::Position { due_point: 5, index: 1 }),
        Err(SchedulerError::NotFound)
    );
    assert_eq!(
        registry.cancel(Selector::Position { due_point: 5, index: 2 }),
        Err(SchedulerError::NotFound)
    );
    assert_eq!(
        registry.cancel(Selector::Position { due_point: 7, index: 0 }),
        Err(SchedulerError::NotFound)
    );
    assert_eq!(tags(&registry), vec![1, 3]);
    assert_eq!(registry.cancel(Selector::Position { due_point: 6, index: 2 }), Ok(()));
    assert_eq!(tags(&registry), vec![1]);
}

#[test]
fn cancel_by_name_and_named_misuse() {
    let mut registry = Registry::new(0);
    registry.insert(named(7, 5, 0)).unwrap();
    registry.insert(request(5, 0, 2)).unwrap();
    assert_eq!(
        registry.cancel(Selector::Position { due_point: 5, index: 0 }),
        Err(SchedulerError::Named)
    );
    assert_eq!(registry.len(), 2);
    assert_eq!(
        registry.cancel(Selector::Name(TaskName { bytes: [8; 32] })),
        Err(SchedulerError::NotFound)
    );
    assert_eq!(registry.cancel(Selector::Name(TaskName { bytes: [7; 32] })), Ok(()));
    assert_eq!(tags(&registry), vec![2]);
    assert_eq!(
        registry.cancel(Selector::Name(TaskName { bytes: [7; 32] })),
        Err(SchedulerError::NotFound)
    );
}

#[test]
fn cancel_after_pop_finds_nothing() {
    let mut registry = Registry::new(0);
    registry.insert(request(5, 0, 1)).unwrap();
    let batch = registry.pop_due(5);
    assert_eq!(batch.len(), 1);
    assert_eq!(
        registry.cancel(Selector::Position { due_point: 5, index: 0 }),
        Err(SchedulerError::NotFound)
    );
}

#[test]
fn reschedule_moves_the_task_and_keeps_the_rest() {
    let mut registry = Registry::new(2);
    registry.insert(request(5, 1, 1)).unwrap();
    registry.insert(request(8, 1, 2)).unwrap();
    registry.insert(request(8, 0, 3)).unwrap();
    let before: Task = registry.task_at(0).clone();
    assert_eq!(registry.reschedule(Selector::Position { due_point: 5, index: 0 }, 8), Ok(()));
    assert_eq!(tags(&registry), vec![3, 2, 1]);
    let moved = registry.task_at(2);
    assert_eq!(moved.due_point, 8);
    assert_eq!(moved.index, before.index);
    assert_eq!(moved.period, before.period);
    assert_eq!(moved.priority, before.priority);
    assert_eq!(moved.payload, before.payload);
    assert_eq!(
        registry.cancel(Selector::Position { due_point: 5, index: 0 }),
        Err(SchedulerError::NotFound)
    );
    assert_eq!(registry.cancel(Selector::Position { due_point: 8, index: 0 }), Ok(()));
}

#[test]
fn reschedule_refusals() {
    let mut registry = Registry::new(2);
    registry.insert(request(5, 1, 1)).unwrap();
    registry.insert(named(9, 6, 1)).unwrap();
    let at = Selector::Position { due_point: 5, index: 0 };
    assert_eq!(registry.reschedule(at, 5), Err(SchedulerError::RescheduleNoChange));
    assert_eq!(registry.reschedule(at, 2), Err(SchedulerError::TargetBlockNumberInPast));
    assert_eq!(registry.reschedule(at, 1), Err(SchedulerError::TargetBlockNumberInPast));
    assert_eq!(
        registry.reschedule(Selector::Position { due_point: 4, index: 0 }, 9),
        Err(SchedulerError::NotFound)
    );
    assert_eq!(
        registry.reschedule(Selector::Position { due_point: 6, index: 1 }, 9),
        Err(SchedulerError::Named)
    );
    assert_eq!(tags(&registry), vec![1, 9]);
    assert_eq!(registry.reschedule(Selector::Name(TaskName { bytes: [9; 32] }), 3), Ok(()));
    assert_eq!(tags(&registry), vec![9, 1]);
}

#[test]
fn find_and_position() {
    let mut registry = Registry::new(0);
    registry.insert(request(5, 0, 1)).unwrap();
    registry.insert(named(4, 3, 0)).unwrap();
    let by_name = Selector::Name(TaskName { bytes: [4; 32] });
    assert_eq!(registry.position(&by_name), Some(0));
    assert_eq!(registry.find(&by_name).unwrap().due_point, 3);
    assert_eq!(registry.position(&Selector::Position { due_point: 5, index: 0 }), Some(1));
    assert_eq!(registry.position(&Selector::Position { due_point: 5, index: 1 }), None);
    assert!(registry.find(&Selector::Position { due_point: 3, index: 0 }).is_none());
    assert!(registry.name_in_use(&TaskName { bytes: [4; 32] }));
    assert!(!registry.name_in_use(&TaskName { bytes: [5; 32] }));
    assert!(registry.index_in_use(1));
    assert!(!registry.index_in_use(2));
}

#[test]
fn settle_one_shot_completes() {
    let mut registry = Registry::new(0);
    registry.insert(request(5, 0, 1)).unwrap();
    let mut batch = registry.pop_due(5);
    let task = batch.pop().unwrap();
    assert!(!task.is_periodic());
    assert_eq!(task.id(), TaskId::Index(0));
    assert_eq!(registry.settle(task), Disposition::Completed);
    assert!(registry.is_empty());
}

#[test]
fn settle_periodic_re_enrolls_with_one_repeat_fewer() {
    let mut registry = Registry::new(0);
    let mut periodic = request(5, 0, 1);
    periodic.period = Some((4, 3));
    registry.insert(periodic).unwrap();
    let task = registry.pop_due(5).pop().unwrap();
    assert_eq!(registry.settle(task), Disposition::ReEnrolled(9));
    assert_eq!(registry.len(), 1);
    assert_eq!(registry.task_at(0).due_point, 9);
    assert_eq!(registry.task_at(0).period, Some((4, 2)));
    assert_eq!(registry.task_at(0).index, 0);
    let task = registry.pop_due(9).pop().unwrap();
    assert_eq!(registry.settle(task), Disposition::ReEnrolled(13));
    assert_eq!(registry.task_at(0).period, Some((4, 1)));
    let task = registry.pop_due(13).pop().unwrap();
    assert_eq!(registry.settle(task), Disposition::Exhausted);
    assert!(registry.is_empty());
}

#[test]
fn settle_drops_what_cannot_be_pending_again() {
    let mut registry = Registry::new(0);
    let mut late = request(u32::MAX - 1, 0, 1);
    late.period = Some((2, 5));
    registry.insert(late).unwrap();
    let task = registry.pop_due(u32::MAX - 1).pop().unwrap();
    assert_eq!(registry.settle(task), Disposition::Dropped);
    assert!(registry.is_empty());

    let mut other = Registry::new(0);
    let mut first = named(3, 5, 0);
    first.period = Some((1, 4));
    other.insert(first).unwrap();
    let task = other.pop_due(5).pop().unwrap();
    other.insert(named(3, 9, 0)).unwrap();
    assert_eq!(other.settle(task), Disposition::Dropped);
    assert_eq!(other.len(), 1);
}

#[test]
fn re_enrolled_task_goes_behind_tasks_of_its_key() {
    let mut registry = Registry::new(0);
    let mut periodic = request(2, 1, 1);
    periodic.period = Some((3, 2));
    registry.insert(periodic).unwrap();
    registry.insert(request(5, 1, 2)).unwrap();
    registry.insert(request(5, 0, 3)).unwrap();
    let batch = registry.pop_due(2);
    let dispositions = registry.settle_all(batch);
    assert_eq!(dispositions, vec![Disposition::ReEnrolled(5)]);
    assert_eq!(tags(&registry), vec![3, 2, 1]);
}

#[test]
fn a_batch_is_handed_out_once() {
    let mut registry = Registry::new(0);
    registry.insert(request(3, 0, 1)).unwrap();
    registry.insert(request(3, 1, 2)).unwrap();
    registry.insert(request(4, 0, 3)).unwrap();
    assert_eq!(registry.pop_due(3).len(), 2);
    assert_eq!(registry.pop_due(3).len(), 0);
    assert_eq!(tags(&registry), vec![3]);
}
