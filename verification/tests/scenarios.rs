use scheduler_extension::auth::{resolve_origin, CallContext};
use scheduler_extension::error::SchedulerError;
use scheduler_extension::extension::{status_of, SchedulerExtension};
use scheduler_extension::wire::{decode_response, Request};
use scheduler_extension::task::{
    AccountId, ContractCallInput, Origin, Selector, TaskId, TaskName, Weight,
};

fn context() -> CallContext {
    CallContext {
        address: AccountId { bytes: [1; 32] },
        caller: Some(AccountId { bytes: [2; 32] }),
    }
}

fn no_caller() -> CallContext {
    CallContext { address: AccountId { bytes: [1; 32] }, caller: None }
}

fn increase_value() -> ContractCallInput {
    ContractCallInput {
        dest: AccountId { bytes: [1; 32] },
        data: vec![0x11, 0x22, 0x33, 0x44],
        gas_limit: Weight { ref_time: 3951114240, proof_size: 125952 },
        storage_deposit_limit: None,
        value: 0,
        max_weight: 1_000_000_000_000,
    }
}

/// Takes the scheduler through `count` points and lists what was dispatched.
fn advance(scheduler: &mut SchedulerExtension, count: u32) -> Vec<(u32, TaskId)> {
    let mut dispatched = Vec::new();
    for _ in 0..count {
        let point = scheduler.registry().now() + 1;
        for task in scheduler.on_point_advanced(point) {
            dispatched.push((point, task.id()));
            scheduler.settle(task);
        }
    }
    dispatched
}

#[test]
fn schedule_set_value_works() {
    let mut scheduler = SchedulerExtension::new(1000);
    let done = scheduler.schedule(&context(), Origin::Address, 1002, None, 1, increase_value());
    assert_eq!(done, Ok(()));
    let dispatched = advance(&mut scheduler, 2);
    assert_eq!(dispatched, vec![(1002, TaskId::Index(0))]);
    assert!(scheduler.registry().is_empty());
    assert!(advance(&mut scheduler, 5).is_empty());
}

#[test]
fn cancel_call_works() {
    let mut scheduler = SchedulerExtension::new(1000);
    scheduler.schedule(&context(), Origin::Address, 1002, None, 1, increase_value()).unwrap();
    assert_eq!(scheduler.cancel(&context(), Origin::Address, 1002, 0), Ok(()));
    assert!(scheduler.registry().is_empty());
    assert!(advance(&mut scheduler, 2).is_empty());
    assert_eq!(
        scheduler.cancel(&context(), Origin::Address, 1002, 0),
        Err(SchedulerError::NotFound)
    );
}

#[test]
fn periodic_task_fires_three_times_in_eight_points() {
    let mut scheduler = SchedulerExtension::new(1000);
    scheduler
        .schedule(&context(), Origin::Address, 1002, Some((2, 3)), 1, increase_value())
        .unwrap();
    let dispatched = advance(&mut scheduler, 8);
    assert_eq!(
        dispatched,
        vec![(1002, TaskId::Index(0)), (1004, TaskId::Index(0)), (1006, TaskId::Index(0))]
    );
    assert!(scheduler.registry().is_empty());
    assert!(advance(&mut scheduler, 20).is_empty());
}

#[test]
fn periodic_task_fires_less_if_the_driver_stops_early() {
    let mut scheduler = SchedulerExtension::new(0);
    scheduler.schedule(&context(), Origin::Address, 3, Some((5, 4)), 0, increase_value()).unwrap();
    assert_eq!(advance(&mut scheduler, 2).len(), 0);
    assert_eq!(advance(&mut scheduler, 1).len(), 1);
    assert_eq!(advance(&mut scheduler, 4).len(), 0);
    assert_eq!(advance(&mut scheduler, 6).len(), 2);
    assert_eq!(scheduler.registry().len(), 1);
    assert_eq!(scheduler.registry().task_at(0).due_point, 18);
    assert_eq!(scheduler.registry().task_at(0).period, Some((5, 1)));
}

#[test]
fn periodic_task_with_one_or_no_repeat_fires_once() {
    for repeats in [0u32, 1] {
        let mut scheduler = SchedulerExtension::new(0);
        scheduler
            .schedule(&context(), Origin::Address, 1, Some((1, repeats)), 0, increase_value())
            .unwrap();
        assert_eq!(advance(&mut scheduler, 10).len(), 1);
        assert!(scheduler.registry().is_empty());
    }
}

#[test]
fn schedule_in_the_past_changes_nothing() {
    let mut scheduler = SchedulerExtension::new(1000);
    scheduler.schedule(&context(), Origin::Address, 1005, None, 1, increase_value()).unwrap();
    for when in [0u32, 999, 1000] {
        assert_eq!(
            scheduler.schedule(&context(), Origin::Address, when, None, 1, increase_value()),
            Err(SchedulerError::TargetBlockNumberInPast)
        );
    }
    assert_eq!(scheduler.registry().len(), 1);
    assert_eq!(scheduler.registry().task_at(0).due_point, 1005);
    assert_eq!(scheduler.registry().task_at(0).index, 0);
}

#[test]
fn origin_is_resolved_at_admission() {
    assert_eq!(resolve_origin(Origin::Address, &no_caller()), Ok(AccountId { bytes: [1; 32] }));
    assert_eq!(resolve_origin(Origin::Caller, &context()), Ok(AccountId { bytes: [2; 32] }));
    assert_eq!(
        resolve_origin(Origin::Caller, &no_caller()),
        Err(SchedulerError::OriginCannotBeCaller)
    );
    assert_eq!(Origin::default(), Origin::Address);

    let mut scheduler = SchedulerExtension::new(0);
    assert_eq!(
        scheduler.schedule(&no_caller(), Origin::Caller, 5, None, 0, increase_value()),
        Err(SchedulerError::OriginCannotBeCaller)
    );
    assert!(scheduler.registry().is_empty());
    scheduler.schedule(&context(), Origin::Caller, 5, None, 0, increase_value()).unwrap();
    scheduler.schedule(&context(), Origin::Address, 5, None, 0, increase_value()).unwrap();
    assert_eq!(scheduler.registry().task_at(0).account, AccountId { bytes: [2; 32] });
    assert_eq!(scheduler.registry().task_at(0).origin, Origin::Caller);
    assert_eq!(scheduler.registry().task_at(1).account, AccountId { bytes: [1; 32] });
    assert_eq!(
        scheduler.cancel(&no_caller(), Origin::Caller, 5, 0),
        Err(SchedulerError::OriginCannotBeCaller)
    );
    assert_eq!(scheduler.registry().len(), 2);
}

#[test]
fn named_tasks_through_the_operations() {
    let mut scheduler = SchedulerExtension::new(0);
    let name = TaskName { bytes: [9; 32] };
    let ctx = context();
    assert_eq!(
        scheduler.schedule_named(&ctx, name, Origin::Address, 4, Some((2, 2)), 0, increase_value()),
        Ok(())
    );
    assert_eq!(
        scheduler.schedule_named(&ctx, name, Origin::Address, 6, None, 0, increase_value()),
        Err(SchedulerError::Named)
    );
    assert_eq!(scheduler.cancel(&ctx, Origin::Address, 4, 0), Err(SchedulerError::Named));
    let dispatched = advance(&mut scheduler, 4);
    assert_eq!(dispatched, vec![(4, TaskId::Name(name))]);
    assert_eq!(scheduler.registry().task_at(0).name, Some(name));
    assert_eq!(scheduler.registry().task_at(0).due_point, 6);
    assert_eq!(scheduler.cancel_named(&ctx, Origin::Address, name), Ok(()));
    assert_eq!(
        scheduler.cancel_named(&ctx, Origin::Address, name),
        Err(SchedulerError::NotFound)
    );
    assert!(advance(&mut scheduler, 4).is_empty());
}

#[test]
fn reschedule_through_the_operations() {
    let mut scheduler = SchedulerExtension::new(0);
    let ctx = context();
    scheduler.schedule(&ctx, Origin::Address, 4, None, 0, increase_value()).unwrap();
    let at = Selector::Position { due_point: 4, index: 0 };
    assert_eq!(
        scheduler.reschedule(&ctx, Origin::Address, at, 4),
        Err(SchedulerError::RescheduleNoChange)
    );
    assert_eq!(
        scheduler.reschedule(&no_caller(), Origin::Caller, at, 6),
        Err(SchedulerError::OriginCannotBeCaller)
    );
    assert_eq!(scheduler.reschedule(&ctx, Origin::Address, at, 6), Ok(()));
    assert_eq!(advance(&mut scheduler, 5).len(), 0);
    assert_eq!(advance(&mut scheduler, 1), vec![(6, TaskId::Index(0))]);
}

#[test]
fn task_scheduled_while_a_batch_fires_waits_for_a_later_point() {
    let mut scheduler = SchedulerExtension::new(0);
    let ctx = context();
    scheduler.schedule(&ctx, Origin::Address, 3, None, 0, increase_value()).unwrap();
    scheduler.schedule(&ctx, Origin::Address, 3, None, 1, increase_value()).unwrap();
    let batch = scheduler.on_point_advanced(3);
    assert_eq!(batch.len(), 2);
    assert_eq!(
        scheduler.schedule(&ctx, Origin::Address, 3, None, 0, increase_value()),
        Err(SchedulerError::TargetBlockNumberInPast)
    );
    assert_eq!(scheduler.cancel(&ctx, Origin::Address, 3, 1), Err(SchedulerError::NotFound));
    scheduler.schedule(&ctx, Origin::Address, 4, None, 0, increase_value()).unwrap();
    let dispositions = scheduler.settle_all(batch);
    assert_eq!(dispositions.len(), 2);
    assert_eq!(advance(&mut scheduler, 1), vec![(4, TaskId::Index(2))]);
}

#[test]
fn served_requests_answer_with_status_codes() {
    let mut scheduler = SchedulerExtension::new(10);
    let ctx = context();
    let schedule = |when: u32, origin: Origin| Request::Schedule {
        origin,
        when,
        maybe_periodic: None,
        priority: 0,
        call_input: increase_value(),
    };
    assert_eq!(scheduler.serve(&ctx, schedule(12, Origin::Address)), 0);
    assert_eq!(scheduler.serve(&ctx, schedule(10, Origin::Address)), 3);
    assert_eq!(scheduler.serve(&no_caller(), schedule(12, Origin::Caller)), 98);
    assert_eq!(scheduler.serve(&no_caller(), schedule(9, Origin::Caller)), 98);
    let periodic = Request::Schedule {
        origin: Origin::Address,
        when: 12,
        maybe_periodic: Some((0, 2)),
        priority: 0,
        call_input: increase_value(),
    };
    assert_eq!(scheduler.serve(&ctx, periodic), 1);
    let name = TaskName { bytes: [3; 32] };
    let named = |when: u32| Request::ScheduleNamed {
        name,
        origin: Origin::Address,
        when,
        maybe_periodic: None,
        priority: 0,
        call_input: increase_value(),
    };
    assert_eq!(scheduler.serve(&ctx, named(12)), 0);
    assert_eq!(scheduler.serve(&ctx, named(13)), 5);
    assert_eq!(scheduler.registry().len(), 2);
    assert_eq!(
        scheduler.serve(&ctx, Request::Cancel { origin: Origin::Address, when: 12, index: 1 }),
        5
    );
    assert_eq!(
        scheduler.serve(&ctx, Request::Cancel { origin: Origin::Address, when: 12, index: 7 }),
        2
    );
    assert_eq!(
        scheduler.serve(&ctx, Request::Cancel { origin: Origin::Address, when: 12, index: 0 }),
        0
    );
    assert_eq!(scheduler.serve(&ctx, Request::CancelNamed { origin: Origin::Address, name }), 0);
    assert_eq!(scheduler.serve(&ctx, Request::CancelNamed { origin: Origin::Address, name }), 2);
    assert!(scheduler.registry().is_empty());
}

#[test]
fn status_of_each_outcome() {
    assert_eq!(status_of(Ok(())), 0);
    assert_eq!(status_of(Err(SchedulerError::FailedToSchedule)), 1);
    assert_eq!(status_of(Err(SchedulerError::RescheduleNoChange)), 4);
    assert_eq!(status_of(Err(SchedulerError::RuntimeError)), 99);
    assert_eq!(status_of(Err(SchedulerError::UnknownStatusCode)), 99);
    assert_eq!(status_of(Err(SchedulerError::InvalidScaleEncoding)), 99);
    for code in [0u32, 1, 2, 3, 4, 5, 98, 99] {
        assert_eq!(status_of(SchedulerError::from_status_code(code)), code);
    }
}

#[test]
fn root_exports_the_callers_types() {
    let mut scheduler = scheduler_extension::SchedulerExtension::new(0);
    let input = scheduler_extension::ContractCallInput { ..increase_value() };
    let outcome = scheduler.schedule(
        &context(),
        scheduler_extension::Origin::default(),
        1,
        None,
        0,
        input,
    );
    assert_eq!(outcome, Ok::<(), scheduler_extension::SchedulerError>(()));
}

#[test]
fn the_status_that_a_request_is_served_with_reads_back_as_its_outcome() {
    let mut scheduler = SchedulerExtension::new(10);
    let ctx = context();
    let request = |when: u32| Request::Schedule {
        origin: Origin::Address,
        when,
        maybe_periodic: None,
        priority: 0,
        call_input: increase_value(),
    };
    let accepted = scheduler.serve(&ctx, request(11));
    assert_eq!(decode_response(accepted, &vec![]), Ok(()));
    assert_eq!(scheduler.registry().len(), 1);
    let refused = scheduler.serve(&ctx, request(10));
    assert_eq!(decode_response(refused, &vec![]), Err(SchedulerError::TargetBlockNumberInPast));
    let missing =
        scheduler.serve(&ctx, Request::Cancel { origin: Origin::Address, when: 11, index: 9 });
    assert_eq!(decode_response(missing, &vec![]), Err(SchedulerError::NotFound));
}
