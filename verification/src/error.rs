//! The closed error taxonomy of the scheduler and its numeric status codes.

use vstd::prelude::*;

verus! {

/// Failure reported by a scheduling operation.
#[derive(PartialEq, Eq, Copy, Clone, Debug, Structural)]
pub enum SchedulerError {
    /// Admission was rejected for a reason that has no kind of its own.
    FailedToSchedule,
    /// The addressed task is not pending.
    NotFound,
    /// The requested execution point is not in the future.
    TargetBlockNumberInPast,
    /// A reschedule named the point at which the task is already due.
    RescheduleNoChange,
    /// A named task was addressed through the positional path, or a name is
    /// already taken.
    Named,
    /// Dispatch was to be attributed to a caller that does not exist.
    OriginCannotBeCaller,
    /// Unclassified failure of the underlying platform.
    RuntimeError,
    /// The status code is none of the known ones.
    UnknownStatusCode,
    /// The response bytes do not decode.
    InvalidScaleEncoding,
}

/// The outcome that a status code stands for: `0` is success, every known
/// non-zero code is its error kind, and any other code is
/// `UnknownStatusCode`.
pub open spec fn status_outcome(status_code: u32) -> Result<(), SchedulerError> {
    match status_code {
        0 => Ok(()),
        1 => Err(SchedulerError::FailedToSchedule),
        2 => Err(SchedulerError::NotFound),
        3 => Err(SchedulerError::TargetBlockNumberInPast),
        4 => Err(SchedulerError::RescheduleNoChange),
        5 => Err(SchedulerError::Named),
        98 => Err(SchedulerError::OriginCannotBeCaller),
        99 => Err(SchedulerError::RuntimeError),
        _ => Err(SchedulerError::UnknownStatusCode),
    }
}

/// The status code under which an outcome travels. The two fallback kinds
/// have no code of their own.
pub open spec fn outcome_status(outcome: Result<(), SchedulerError>) -> Option<u32> {
    match outcome {
        Ok(()) => Some(0u32),
        Err(SchedulerError::FailedToSchedule) => Some(1u32),
        Err(SchedulerError::NotFound) => Some(2u32),
        Err(SchedulerError::TargetBlockNumberInPast) => Some(3u32),
        Err(SchedulerError::RescheduleNoChange) => Some(4u32),
        Err(SchedulerError::Named) => Some(5u32),
        Err(SchedulerError::OriginCannotBeCaller) => Some(98u32),
        Err(SchedulerError::RuntimeError) => Some(99u32),
        Err(SchedulerError::UnknownStatusCode) => None,
        Err(SchedulerError::InvalidScaleEncoding) => None,
    }
}

impl SchedulerError {
    /// Decodes a status code.
    pub fn from_status_code(status_code: u32) -> (outcome: Result<(), SchedulerError>)
        ensures
            outcome == status_outcome(status_code),
    {
        match status_code {
            0 => Ok(()),
            1 => Err(SchedulerError::FailedToSchedule),
            2 => Err(SchedulerError::NotFound),
            3 => Err(SchedulerError::TargetBlockNumberInPast),
            4 => Err(SchedulerError::RescheduleNoChange),
            5 => Err(SchedulerError::Named),
            98 => Err(SchedulerError::OriginCannotBeCaller),
            99 => Err(SchedulerError::RuntimeError),
            _ => Err(SchedulerError::UnknownStatusCode),
        }
    }

    /// The fixed status code of this kind, if it has one.
    pub fn status_code(&self) -> (code: Option<u32>)
        ensures
            code == outcome_status(Err(*self)),
    {
        match self {
            SchedulerError::FailedToSchedule => Some(1),
            SchedulerError::NotFound => Some(2),
            SchedulerError::TargetBlockNumberInPast => Some(3),
            SchedulerError::RescheduleNoChange => Some(4),
            SchedulerError::Named => Some(5),
            SchedulerError::OriginCannotBeCaller => Some(98),
            SchedulerError::RuntimeError => Some(99),
            SchedulerError::UnknownStatusCode => None,
            SchedulerError::InvalidScaleEncoding => None,
        }
    }
}

/// The status code of an outcome that has one decodes to that outcome.
pub proof fn status_code_round_trip(outcome: Result<(), SchedulerError>)
    requires
        outcome_status(outcome) is Some,
    ensures
        status_outcome(outcome_status(outcome)->Some_0) == outcome,
{
    match outcome {
        Ok(u) => {
            assert(u == ());
        },
        Err(_) => {},
    }
}

/// Decoding a status code and encoding the outcome gives the code back,
/// exactly for the known codes.
pub proof fn status_outcome_known(status_code: u32)
    ensures
        outcome_status(status_outcome(status_code)) == (if status_outcome(status_code)
            != Err::<(), SchedulerError>(SchedulerError::UnknownStatusCode) {
            Some(status_code)
        } else {
            None
        }),
{
}

/// The codec's decoding failure; nothing of it is read.
#[verifier::external_type_specification]
#[verifier::external_body]
pub struct ExCodecError(parity_scale_codec::Error);

impl From<parity_scale_codec::Error> for SchedulerError {
    fn from(_e: parity_scale_codec::Error) -> (ret: Self) {
        SchedulerError::InvalidScaleEncoding
    }
}

impl vstd::std_specs::convert::FromSpecImpl<parity_scale_codec::Error> for SchedulerError {
    open spec fn obeys_from_spec() -> bool {
        true
    }

    open spec fn from_spec(_e: parity_scale_codec::Error) -> Self {
        SchedulerError::InvalidScaleEncoding
    }
}

} // verus!
