//! The caller-facing operations of the scheduler.

use crate::auth::{attribution, resolve_origin, CallContext};
use crate::error::{outcome_status, SchedulerError};
use crate::model::{due_at, RegistryView};
use crate::registry::Registry;
use crate::task::{
    AccountId, ContractCallInput, Disposition, NewTask, Origin, Selector, Task, TaskName,
};
use crate::wire::{decode_response, Request};
use vstd::prelude::*;

verus! {

/// The scheduler as its callers see it: the four request operations in
/// front of an owned task registry, and the two steps by which a driver
/// takes it through an execution point.
pub struct SchedulerExtension {
    registry: Registry,
}

impl View for SchedulerExtension {
    type V = RegistryView;

    closed spec fn view(&self) -> RegistryView {
        self.registry@
    }
}

/// The request that a call of `schedule` or `schedule_named` makes of the
/// registry once its origin is resolved to `account`.
pub open spec fn schedule_request(
    name: Option<TaskName>,
    origin: Origin,
    account: AccountId,
    when: u32,
    maybe_periodic: Option<(u32, u32)>,
    priority: u8,
    call_input: ContractCallInput,
) -> NewTask {
    NewTask {
        name,
        origin,
        account,
        due_point: when,
        period: maybe_periodic,
        priority,
        payload: call_input,
    }
}

/// Why a request with this origin is refused before the registry sees it,
/// if it is.
pub open spec fn origin_error(origin: Origin, context: CallContext) -> Option<SchedulerError> {
    match attribution(origin, context) {
        Ok(_) => None,
        Err(e) => Some(e),
    }
}

/// What a request comes to in the registry `v`: the origin is resolved
/// first, then the registry decides.
pub open spec fn outcome_of(v: RegistryView, context: CallContext, request: Request) -> Result<
    (),
    SchedulerError,
> {
    match request {
        Request::Schedule { origin, when, maybe_periodic, priority, call_input } => match attribution(
            origin,
            context,
        ) {
            Err(e) => Err(e),
            Ok(account) => match v.admission_error(
                schedule_request(None, origin, account, when, maybe_periodic, priority, call_input),
            ) {
                Some(e) => Err(e),
                None => Ok(()),
            },
        },
        Request::ScheduleNamed {
            name,
            origin,
            when,
            maybe_periodic,
            priority,
            call_input,
        } => match attribution(origin, context) {
            Err(e) => Err(e),
            Ok(account) => match v.admission_error(
                schedule_request(
                    Some(name),
                    origin,
                    account,
                    when,
                    maybe_periodic,
                    priority,
                    call_input,
                ),
            ) {
                Some(e) => Err(e),
                None => Ok(()),
            },
        },
        Request::Cancel { origin, when, index } => match origin_error(origin, context) {
            Some(e) => Err(e),
            None => match v.removal_error(Selector::Position { due_point: when, index }) {
                Some(e) => Err(e),
                None => Ok(()),
            },
        },
        Request::CancelNamed { origin, name } => match origin_error(origin, context) {
            Some(e) => Err(e),
            None => match v.removal_error(Selector::Name(name)) {
                Some(e) => Err(e),
                None => Ok(()),
            },
        },
    }
}

/// The registry after a request was served: a refused request leaves it as
/// it was, an accepted one admits or takes out its task.
pub open spec fn effect_of(v: RegistryView, context: CallContext, request: Request) -> RegistryView {
    if outcome_of(v, context, request) is Err {
        v
    } else {
        match request {
            Request::Schedule { origin, when, maybe_periodic, priority, call_input } => v.enrolled(
                schedule_request(
                    None,
                    origin,
                    attribution(origin, context)->Ok_0,
                    when,
                    maybe_periodic,
                    priority,
                    call_input,
                ),
            ),
            Request::ScheduleNamed {
                name,
                origin,
                when,
                maybe_periodic,
                priority,
                call_input,
            } => v.enrolled(
                schedule_request(
                    Some(name),
                    origin,
                    attribution(origin, context)->Ok_0,
                    when,
                    maybe_periodic,
                    priority,
                    call_input,
                ),
            ),
            Request::Cancel { origin, when, index } => v.cancelled(
                Selector::Position { due_point: when, index },
            ),
            Request::CancelNamed { origin, name } => v.cancelled(Selector::Name(name)),
        }
    }
}

/// The status code under which an outcome travels. A kind that has no code
/// of its own travels as a runtime error.
pub open spec fn wire_status(outcome: Result<(), SchedulerError>) -> u32 {
    match outcome_status(outcome) {
        Some(code) => code,
        None => 99,
    }
}

/// The status code under which an outcome travels.
pub fn status_of(outcome: Result<(), SchedulerError>) -> (code: u32)
    ensures
        code == wire_status(outcome),
{
    match outcome {
        Ok(()) => 0,
        Err(kind) => match kind.status_code() {
            Some(code) => code,
            None => 99,
        },
    }
}

/// No request comes to one of the two kinds that have no status code, so
/// the status code of what a request comes to is read back as just that,
/// whatever output travels with it.
pub proof fn served_status_decodes(
    v: RegistryView,
    context: CallContext,
    request: Request,
    output: Seq<u8>,
)
    ensures
        outcome_status(outcome_of(v, context, request)) is Some,
        crate::error::status_outcome(wire_status(outcome_of(v, context, request))) == outcome_of(
            v,
            context,
            request,
        ),
        crate::wire::response_outcome(wire_status(outcome_of(v, context, request)), output)
            == outcome_of(v, context, request),
{
    crate::error::status_code_round_trip(outcome_of(v, context, request));
}

impl SchedulerExtension {
    /// The registry's invariant holds.
    pub open spec fn wf(&self) -> bool {
        self@.valid()
    }

    /// A scheduler with nothing pending, at execution point `now`.
    pub fn new(now: u32) -> (scheduler: SchedulerExtension)
        ensures
            scheduler.wf(),
            scheduler@ == RegistryView::empty(now),
    {
        SchedulerExtension { registry: Registry::new(now) }
    }

    /// The registry behind the operations.
    pub fn registry(&self) -> (registry: &Registry)
        ensures
            registry@ == self@,
            self.wf() ==> registry.wf(),
    {
        &self.registry
    }

    /// Admits a task under `name`, or without a name, after resolving its
    /// origin.
    fn admit_request(
        &mut self,
        context: &CallContext,
        name: Option<TaskName>,
        origin: Origin,
        when: u32,
        maybe_periodic: Option<(u32, u32)>,
        priority: u8,
        call_input: ContractCallInput,
    ) -> (outcome: Result<(), SchedulerError>)
        requires
            old(self).wf(),
        ensures
            final(self).wf(),
            match attribution(origin, *context) {
                Err(e) => outcome == Err::<(), SchedulerError>(e) && final(self)@ == old(self)@,
                Ok(account) => match old(self)@.admission_error(
                    schedule_request(name, origin, account, when, maybe_periodic, priority, call_input),
                ) {
                    Some(e) => outcome == Err::<(), SchedulerError>(e) && final(self)@ == old(
                        self,
                    )@,
                    None => outcome == Ok::<(), SchedulerError>(()) && final(self)@ == old(
                        self,
                    )@.enrolled(
                        schedule_request(
                            name,
                            origin,
                            account,
                            when,
                            maybe_periodic,
                            priority,
                            call_input,
                        ),
                    ),
                },
            },
    {
        let account = match resolve_origin(origin, context) {
            Ok(account) => account,
            Err(e) => {
                return Err(e);
            },
        };
        let request = NewTask {
            name,
            origin,
            account,
            due_point: when,
            period: maybe_periodic,
            priority,
            payload: call_input,
        };
        match self.registry.insert(request) {
            Ok(_) => Ok(()),
            Err(e) => Err(e),
        }
    }

    /// Schedules an unnamed task: `call_input` is dispatched at the point
    /// `when`. With `maybe_periodic = Some((interval, repeats))` it is
    /// dispatched `repeats` times in all, `interval` points apart; with fewer
    /// than two repeats, none included, it is dispatched once, as a task
    /// without a period is. The origin is resolved first; then the registry
    /// decides. A refused request changes nothing.
    pub fn schedule(
        &mut self,
        context: &CallContext,
        origin: Origin,
        when: u32,
        maybe_periodic: Option<(u32, u32)>,
        priority: u8,
        call_input: ContractCallInput,
    ) -> (outcome: Result<(), SchedulerError>)
        requires
            old(self).wf(),
        ensures
            final(self).wf(),
            outcome == outcome_of(
                old(self)@,
                *context,
                (Request::Schedule { origin, when, maybe_periodic, priority, call_input }),
            ),
            final(self)@ == effect_of(
                old(self)@,
                *context,
                (Request::Schedule { origin, when, maybe_periodic, priority, call_input }),
            ),
    {
        let ghost asked = Request::Schedule { origin, when, maybe_periodic, priority, call_input };
        let status = self.serve(context, Request::Schedule { origin, when, maybe_periodic, priority, call_input });
        proof {
            served_status_decodes(old(self)@, *context, asked, Seq::<u8>::empty());
        }
        let output: Vec<u8> = Vec::new();
        decode_response(status, &output)
    }

    /// Schedules a task under `name`. A name that a pending task has is
    /// refused.
    pub fn schedule_named(
        &mut self,
        context: &CallContext,
        name: TaskName,
        origin: Origin,
        when: u32,
        maybe_periodic: Option<(u32, u32)>,
        priority: u8,
        call_input: ContractCallInput,
    ) -> (outcome: Result<(), SchedulerError>)
        requires
            old(self).wf(),
        ensures
            final(self).wf(),
            outcome == outcome_of(
                old(self)@,
                *context,
                (Request::ScheduleNamed { name, origin, when, maybe_periodic, priority, call_input }),
            ),
            final(self)@ == effect_of(
                old(self)@,
                *context,
                (Request::ScheduleNamed { name, origin, when, maybe_periodic, priority, call_input }),
            ),
    {
        let ghost asked = Request::ScheduleNamed {
            name,
            origin,
            when,
            maybe_periodic,
            priority,
            call_input,
        };
        let status = self.serve(context, Request::ScheduleNamed {
            name,
            origin,
            when,
            maybe_periodic,
            priority,
            call_input,
        });
        proof {
            served_status_decodes(old(self)@, *context, asked, Seq::<u8>::empty());
        }
        let output: Vec<u8> = Vec::new();
        decode_response(status, &output)
    }

    /// Takes out the task that `selector` addresses, after resolving the
    /// origin of the request.
    fn cancel_request(&mut self, context: &CallContext, origin: Origin, selector: Selector) -> (outcome:
        Result<(), SchedulerError>)
        requires
            old(self).wf(),
        ensures
            final(self).wf(),
            match origin_error(origin, *context) {
                Some(e) => outcome == Err::<(), SchedulerError>(e) && final(self)@ == old(self)@,
                None => match old(self)@.removal_error(selector) {
                    Some(e) => outcome == Err::<(), SchedulerError>(e) && final(self)@ == old(
                        self,
                    )@,
                    None => outcome == Ok::<(), SchedulerError>(()) && final(self)@ == old(
                        self,
                    )@.cancelled(selector),
                },
            },
    {
        match resolve_origin(origin, context) {
            Ok(_) => self.registry.cancel(selector),
            Err(e) => Err(e),
        }
    }

    /// Cancels the pending task with sequence number `index` that is due at
    /// `when`. A named task is not cancelled this way.
    pub fn cancel(&mut self, context: &CallContext, origin: Origin, when: u32, index: u64) -> (outcome:
        Result<(), SchedulerError>)
        requires
            old(self).wf(),
        ensures
            final(self).wf(),
            outcome == outcome_of(
                old(self)@,
                *context,
                (Request::Cancel { origin, when, index }),
            ),
            final(self)@ == effect_of(
                old(self)@,
                *context,
                (Request::Cancel { origin, when, index }),
            ),
    {
        let ghost asked = Request::Cancel { origin, when, index };
        let status = self.serve(context, Request::Cancel { origin, when, index });
        proof {
            served_status_decodes(old(self)@, *context, asked, Seq::<u8>::empty());
        }
        let output: Vec<u8> = Vec::new();
        decode_response(status, &output)
    }

    /// Cancels the pending task named `name`.
    pub fn cancel_named(&mut self, context: &CallContext, origin: Origin, name: TaskName) -> (outcome:
        Result<(), SchedulerError>)
        requires
            old(self).wf(),
        ensures
            final(self).wf(),
            outcome == outcome_of(
                old(self)@,
                *context,
                (Request::CancelNamed { origin, name }),
            ),
            final(self)@ == effect_of(
                old(self)@,
                *context,
                (Request::CancelNamed { origin, name }),
            ),
    {
        let ghost asked = Request::CancelNamed { origin, name };
        let status = self.serve(context, Request::CancelNamed { origin, name });
        proof {
            served_status_decodes(old(self)@, *context, asked, Seq::<u8>::empty());
        }
        let output: Vec<u8> = Vec::new();
        decode_response(status, &output)
    }

    /// Moves the pending task that `selector` addresses to `new_when`.
    pub fn reschedule(
        &mut self,
        context: &CallContext,
        origin: Origin,
        selector: Selector,
        new_when: u32,
    ) -> (outcome: Result<(), SchedulerError>)
        requires
            old(self).wf(),
        ensures
            final(self).wf(),
            match origin_error(origin, *context) {
                Some(e) => outcome == Err::<(), SchedulerError>(e) && final(self)@ == old(self)@,
                None => match old(self)@.reschedule_error(selector, new_when) {
                    Some(e) => outcome == Err::<(), SchedulerError>(e) && final(self)@ == old(
                        self,
                    )@,
                    None => outcome == Ok::<(), SchedulerError>(()) && final(self)@ == old(
                        self,
                    )@.rescheduled(selector, new_when),
                },
            },
    {
        match resolve_origin(origin, context) {
            Ok(_) => self.registry.reschedule(selector, new_when),
            Err(e) => Err(e),
        }
    }

    /// Serves a request as it arrives across the boundary and answers with
    /// the status code of what it came to. The four operations make their
    /// request of this function and read its status back.
    pub fn serve(&mut self, context: &CallContext, request: Request) -> (status: u32)
        requires
            old(self).wf(),
        ensures
            final(self).wf(),
            status == wire_status(outcome_of(old(self)@, *context, request)),
            final(self)@ == effect_of(old(self)@, *context, request),
    {
        let outcome = match request {
            Request::Schedule { origin, when, maybe_periodic, priority, call_input } => {
                self.admit_request(context, None, origin, when, maybe_periodic, priority, call_input)
            },
            Request::ScheduleNamed {
                name,
                origin,
                when,
                maybe_periodic,
                priority,
                call_input,
            } => self.admit_request(
                context,
                Some(name),
                origin,
                when,
                maybe_periodic,
                priority,
                call_input,
            ),
            Request::Cancel { origin, when, index } => self.cancel_request(
                context,
                origin,
                Selector::Position { due_point: when, index },
            ),
            Request::CancelNamed { origin, name } => self.cancel_request(
                context,
                origin,
                Selector::Name(name),
            ),
        };
        status_of(outcome)
    }

    /// The driver has reached `new_point`: the tasks due there leave the
    /// registry and are handed over in firing order, to be dispatched one
    /// by one and settled. What a dispatched call asks of the scheduler
    /// meanwhile cannot reach this batch.
    pub fn on_point_advanced(&mut self, new_point: u32) -> (batch: Vec<Task>)
        requires
            old(self).wf(),
        ensures
            final(self).wf(),
            batch@ == due_at(old(self)@.pending, new_point),
            final(self)@ == old(self)@.popped(new_point),
    {
        self.registry.pop_due(new_point)
    }

    /// Settles a task of the current batch after its dispatch, whatever the
    /// dispatch came to: a periodic task with repeats left is pending again,
    /// any other is gone.
    pub fn settle(&mut self, task: Task) -> (disposition: Disposition)
        requires
            old(self).wf(),
        ensures
            final(self).wf(),
            disposition == old(self)@.disposition(task),
            final(self)@ == old(self)@.settled(task),
    {
        self.registry.settle(task)
    }

    /// Settles the tasks of a batch in order, once all of them were
    /// dispatched. Reaching a point and settling its batch this way, with
    /// no request in between, is one step of the driver.
    pub fn settle_all(&mut self, batch: Vec<Task>) -> (dispositions: Vec<Disposition>)
        requires
            old(self).wf(),
        ensures
            final(self).wf(),
            final(self)@ == crate::drive::settled_all(old(self)@, batch@),
            dispositions@ == crate::drive::dispositions_of(old(self)@, batch@),
    {
        self.registry.settle_all(batch)
    }
}

} // verus!
