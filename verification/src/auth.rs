//! The authorization resolver: to whom the dispatch of a task is attributed.

use crate::error::SchedulerError;
use crate::task::{AccountId, Origin};
use vstd::prelude::*;

verus! {

/// The execution context in which a request is made.
#[derive(Clone, Copy, Debug, PartialEq, Eq)]
pub struct CallContext {
    /// The address of the contract that makes the request.
    pub address: AccountId,
    /// The external caller of that contract, if the call has one.
    pub caller: Option<AccountId>,
}

/// The identity that `origin` stands for in `context`: the contract's own
/// address, or its caller, which must exist.
pub open spec fn attribution(origin: Origin, context: CallContext) -> Result<
    AccountId,
    SchedulerError,
> {
    match origin {
        Origin::Address => Ok(context.address),
        Origin::Caller => match context.caller {
            Some(caller) => Ok(caller),
            None => Err(SchedulerError::OriginCannotBeCaller),
        },
    }
}

/// Resolves the declared origin of a request.
pub fn resolve_origin(origin: Origin, context: &CallContext) -> (resolved: Result<
    AccountId,
    SchedulerError,
>)
    ensures
        resolved == attribution(origin, *context),
{
    match origin {
        Origin::Address => Ok(context.address),
        Origin::Caller => match context.caller {
            Some(caller) => Ok(caller),
            None => Err(SchedulerError::OriginCannotBeCaller),
        },
    }
}

/// The contract's own address is always accepted as origin.
pub proof fn own_address_always_resolves(context: CallContext)
    ensures
        attribution(Origin::Address, context) == Ok::<AccountId, SchedulerError>(context.address),
{
}

} // verus!
