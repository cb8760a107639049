//! The data shape of a scheduled task.

use vstd::prelude::*;

verus! {

/// A 32-byte account address.
#[derive(Clone, Copy, Debug, PartialEq, Eq)]
pub struct AccountId {
    pub bytes: [u8; 32],
}

/// The fixed-length name of a named task.
#[derive(Clone, Copy, Debug, PartialEq, Eq)]
pub struct TaskName {
    pub bytes: [u8; 32],
}

/// Whether two 32-byte strings hold the same bytes.
pub fn same_bytes(a: &[u8; 32], b: &[u8; 32]) -> (same: bool)
    ensures
        same == (*a == *b),
{
    let mut i: usize = 0;
    while i < 32
        invariant
            i <= 32,
            forall|j: int| 0 <= j < i ==> a@[j] == b@[j],
        decreases 32 - i,
    {
        if a[i] != b[i] {
            return false;
        }
        i = i + 1;
    }
    assert(a@ =~= b@);
    assert(*a =~= *b);
    true
}

/// To whom a dispatched call is attributed.
#[derive(Clone, Copy, Debug, PartialEq, Eq, Structural)]
pub enum Origin {
    /// Whoever asked for the task to be scheduled.
    Caller,
    /// The registering contract's own address.
    Address,
}

impl Default for Origin {
    fn default() -> (origin: Self)
        ensures
            origin == Origin::Address,
    {
        Origin::Address
    }
}

/// An execution budget: computation time and proof size.
#[derive(Clone, Copy, Debug, PartialEq, Eq, Structural)]
pub struct Weight {
    pub ref_time: u64,
    pub proof_size: u64,
}

/// The call that a task dispatches.
#[derive(Debug, Clone, PartialEq, Eq)]
pub struct ContractCallInput {
    /// The destination of the call.
    pub dest: AccountId,
    /// Selector and arguments.
    pub data: Vec<u8>,
    /// The execution budget of the call.
    pub gas_limit: Weight,
    /// The most that the call may deposit for storage, if bounded.
    pub storage_deposit_limit: Option<u128>,
    /// The value transferred with the call.
    pub value: u128,
    /// The budget of the scheduled dispatch as a whole.
    pub max_weight: u64,
}

/// The identity of a task: its engine-assigned sequence number, or its name.
#[derive(Clone, Copy, Debug, PartialEq, Eq)]
pub enum TaskId {
    Index(u64),
    Name(TaskName),
}

/// How a pending task is addressed.
#[derive(Clone, Copy, Debug, PartialEq, Eq)]
pub enum Selector {
    /// By the point at which it is due and its sequence number.
    Position { due_point: u32, index: u64 },
    /// By its name.
    Name(TaskName),
}

/// A task as the registry holds it.
#[derive(Debug, Clone, PartialEq, Eq)]
pub struct Task {
    /// The sequence number that the engine gave the task at admission.
    pub index: u64,
    /// The caller's name for the task, if it has one.
    pub name: Option<TaskName>,
    /// The declared origin.
    pub origin: Origin,
    /// The identity to which dispatch is attributed, fixed at admission.
    pub account: AccountId,
    /// The execution point at which the task fires.
    pub due_point: u32,
    /// Interval and remaining repeats of a periodic task.
    pub period: Option<(u32, u32)>,
    /// Rank among tasks due at the same point; the lower value fires first.
    pub priority: u8,
    /// The call to dispatch.
    pub payload: ContractCallInput,
}

/// A request to admit a task.
#[derive(Debug, Clone, PartialEq, Eq)]
pub struct NewTask {
    /// The caller's name for the task, if it is to have one.
    pub name: Option<TaskName>,
    /// The declared origin.
    pub origin: Origin,
    /// The identity to which dispatch is attributed.
    pub account: AccountId,
    /// The execution point at which the task is first due.
    pub due_point: u32,
    /// Interval and number of firings of a periodic task.
    pub period: Option<(u32, u32)>,
    /// Rank among tasks due at the same point.
    pub priority: u8,
    /// The call to dispatch.
    pub payload: ContractCallInput,
}

/// What became of a task after it fired.
#[derive(Clone, Copy, Debug, PartialEq, Eq, Structural)]
pub enum Disposition {
    /// A one-shot task: it is gone.
    Completed,
    /// A periodic task whose repeats are used up: it is gone.
    Exhausted,
    /// A periodic task that is pending again, due at the given point.
    ReEnrolled(u32),
    /// A periodic task with repeats left that cannot be pending again: its
    /// next point is out of range, or its identity is taken or was never
    /// handed out.
    Dropped,
}

impl Task {
    /// The task's identity: its name if it has one, else its sequence number.
    pub open spec fn id_spec(self) -> TaskId {
        match self.name {
            Some(name) => TaskId::Name(name),
            None => TaskId::Index(self.index),
        }
    }

    /// Whether `selector` addresses the task. A position addresses the task
    /// with that sequence number due at that point, named or not.
    pub open spec fn answers(self, selector: Selector) -> bool {
        match selector {
            Selector::Position { due_point, index } => self.due_point == due_point && self.index
                == index,
            Selector::Name(name) => self.name == Some(name),
        }
    }

    /// Whether the task stands at or before the key `(due_point, priority)`
    /// in the registry's order.
    pub open spec fn not_after(self, due_point: u32, priority: u8) -> bool {
        self.due_point < due_point || (self.due_point == due_point && self.priority <= priority)
    }

    /// The task's pending form after it has fired at `point`: a periodic task
    /// with repeats left comes due again one interval later, with one repeat
    /// fewer; any other task has none.
    pub open spec fn next_occurrence(self, point: u32) -> Option<Task> {
        match self.period {
            Some((interval, remaining)) => if remaining >= 2 && interval >= 1 && point + interval
                <= u32::MAX {
                Some(
                    Task {
                        due_point: (point + interval) as u32,
                        period: Some((interval, (remaining - 1) as u32)),
                        ..self
                    },
                )
            } else {
                None
            },
            None => None,
        }
    }

    /// The task's identity.
    pub fn id(&self) -> (id: TaskId)
        ensures
            id == self.id_spec(),
    {
        match self.name {
            Some(name) => TaskId::Name(name),
            None => TaskId::Index(self.index),
        }
    }

    /// Whether `selector` addresses the task.
    pub fn is_addressed_by(&self, selector: &Selector) -> (hit: bool)
        ensures
            hit == self.answers(*selector),
    {
        match selector {
            Selector::Position { due_point, index } => self.due_point == *due_point && self.index
                == *index,
            Selector::Name(name) => match &self.name {
                Some(own) => same_bytes(&own.bytes, &name.bytes),
                None => false,
            },
        }
    }

    /// Whether the task repeats.
    pub fn is_periodic(&self) -> (periodic: bool)
        ensures
            periodic == (self.period is Some),
    {
        self.period.is_some()
    }
}

} // verus!
