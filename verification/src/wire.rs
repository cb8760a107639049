//! The protocol boundary: how a request is written as bytes for the
//! extension call, and how the response is read.

use crate::error::{status_outcome, SchedulerError};
use crate::task::{ContractCallInput, Origin, TaskName};
use vstd::prelude::*;

verus! {

/// The method identifier of `schedule`.
pub const SCHEDULE: u32 = 0x30001;

/// The method identifier of `cancel`.
pub const CANCEL: u32 = 0x30002;

/// The method identifier of `schedule_named`.
pub const SCHEDULE_NAMED: u32 = 0x30003;

/// The method identifier of `cancel_named`.
pub const CANCEL_NAMED: u32 = 0x30004;

/// A request of the scheduler, as it crosses the boundary.
#[derive(Debug, Clone, PartialEq, Eq)]
pub enum Request {
    Schedule {
        origin: Origin,
        when: u32,
        maybe_periodic: Option<(u32, u32)>,
        priority: u8,
        call_input: ContractCallInput,
    },
    Cancel { origin: Origin, when: u32, index: u64 },
    ScheduleNamed {
        name: TaskName,
        origin: Origin,
        when: u32,
        maybe_periodic: Option<(u32, u32)>,
        priority: u8,
        call_input: ContractCallInput,
    },
    CancelNamed { origin: Origin, name: TaskName },
}

/// The `width` low bytes of `x`, lowest first.
pub open spec fn le_bytes(x: nat, width: nat) -> Seq<u8>
    decreases width,
{
    if width == 0 {
        Seq::empty()
    } else {
        seq![(x % 256) as u8] + le_bytes(x / 256, (width - 1) as nat)
    }
}

/// The number of bytes that it takes to write `x`.
pub open spec fn byte_width(x: nat) -> nat
    decreases x,
{
    if x == 0 {
        0
    } else {
        1 + byte_width(x / 256)
    }
}

/// The codec's compact form of a number below 2^64. Below 2^6, 2^14 and
/// 2^30 it is the number times four plus the mode 0, 1 or 2, in one, two or
/// four bytes; from 2^30 on it is a byte that holds the mode 3 and, times
/// four, how many bytes beyond four the number takes, and then those bytes.
pub open spec fn compact(x: nat) -> Seq<u8> {
    if x < 0x40 {
        le_bytes(4 * x, 1)
    } else if x < 0x4000 {
        le_bytes(4 * x + 1, 2)
    } else if x < 0x4000_0000 {
        le_bytes(4 * x + 2, 4)
    } else {
        seq![(4 * (byte_width(x) - 4) + 3) as u8] + le_bytes(x, byte_width(x))
    }
}

/// An origin is written as the position of its variant.
pub open spec fn origin_bytes(origin: Origin) -> Seq<u8> {
    match origin {
        Origin::Caller => seq![0u8],
        Origin::Address => seq![1u8],
    }
}

/// An optional period is written as a byte that says whether it is there,
/// and then interval and repeats in four bytes each.
pub open spec fn period_bytes(period: Option<(u32, u32)>) -> Seq<u8> {
    match period {
        None => seq![0u8],
        Some((interval, repeats)) => seq![1u8] + le_bytes(interval as nat, 4) + le_bytes(
            repeats as nat,
            4,
        ),
    }
}

/// An optional deposit limit is written as a byte that says whether it is
/// there, and then the limit in sixteen bytes.
pub open spec fn limit_bytes(limit: Option<u128>) -> Seq<u8> {
    match limit {
        None => seq![0u8],
        Some(amount) => seq![1u8] + le_bytes(amount as nat, 16),
    }
}

/// A call is written field by field: the destination's 32 bytes; the data
/// behind the compact form of its length; the two parts of the execution
/// budget in compact form; the deposit limit; the value in sixteen bytes;
/// the overall budget in eight.
pub open spec fn call_bytes(call: ContractCallInput) -> Seq<u8> {
    call.dest.bytes@ + (compact(call.data@.len()) + call.data@) + (compact(
        call.gas_limit.ref_time as nat,
    ) + compact(call.gas_limit.proof_size as nat)) + limit_bytes(call.storage_deposit_limit)
        + le_bytes(call.value as nat, 16) + le_bytes(call.max_weight as nat, 8)
}

/// The fields of a scheduling request, in order.
pub open spec fn schedule_bytes(
    origin: Origin,
    when: u32,
    maybe_periodic: Option<(u32, u32)>,
    priority: u8,
    call_input: ContractCallInput,
) -> Seq<u8> {
    origin_bytes(origin) + le_bytes(when as nat, 4) + period_bytes(maybe_periodic) + seq![priority]
        + call_bytes(call_input)
}

impl Request {
    /// The method identifier under which the request travels.
    pub open spec fn method_spec(self) -> u32 {
        match self {
            Request::Schedule { .. } => SCHEDULE,
            Request::Cancel { .. } => CANCEL,
            Request::ScheduleNamed { .. } => SCHEDULE_NAMED,
            Request::CancelNamed { .. } => CANCEL_NAMED,
        }
    }

    /// The bytes of the request: its fields in order, a named request with
    /// the 32 bytes of the name in front of what the unnamed one holds.
    pub open spec fn bytes(self) -> Seq<u8> {
        match self {
            Request::Schedule { origin, when, maybe_periodic, priority, call_input } => schedule_bytes(
                origin,
                when,
                maybe_periodic,
                priority,
                call_input,
            ),
            Request::Cancel { origin, when, index } => origin_bytes(origin) + le_bytes(
                when as nat,
                4,
            ) + le_bytes(index as nat, 8),
            Request::ScheduleNamed {
                name,
                origin,
                when,
                maybe_periodic,
                priority,
                call_input,
            } => name.bytes@ + schedule_bytes(origin, when, maybe_periodic, priority, call_input),
            Request::CancelNamed { origin, name } => origin_bytes(origin) + name.bytes@,
        }
    }

    /// The length of the data that the request carries, if it carries a
    /// call.
    pub open spec fn data_len(self) -> nat {
        match self {
            Request::Schedule { call_input, .. } => call_input.data@.len(),
            Request::ScheduleNamed { call_input, .. } => call_input.data@.len(),
            _ => 0,
        }
    }

    /// The method identifier under which the request travels.
    pub fn method(&self) -> (id: u32)
        ensures
            id == self.method_spec(),
    {
        match self {
            Request::Schedule { .. } => SCHEDULE,
            Request::Cancel { .. } => CANCEL,
            Request::ScheduleNamed { .. } => SCHEDULE_NAMED,
            Request::CancelNamed { .. } => CANCEL_NAMED,
        }
    }

    /// Writes the request as bytes. The codec writes no length above
    /// `u32::MAX`.
    pub fn encode(&self) -> (out: Vec<u8>)
        requires
            self.data_len() <= u32::MAX,
        ensures
            out@ == self.bytes(),
    {
        let mut out: Vec<u8> = Vec::new();
        match self {
            Request::Schedule { origin, when, maybe_periodic, priority, call_input } => {
                push_schedule(&mut out, *origin, *when, *maybe_periodic, *priority, call_input);
            },
            Request::Cancel { origin, when, index } => {
                push_origin(&mut out, *origin);
                push_le(&mut out, *when as u128, 4);
                push_le(&mut out, *index as u128, 8);
            },
            Request::ScheduleNamed {
                name,
                origin,
                when,
                maybe_periodic,
                priority,
                call_input,
            } => {
                push_array(&mut out, &name.bytes);
                push_schedule(&mut out, *origin, *when, *maybe_periodic, *priority, call_input);
            },
            Request::CancelNamed { origin, name } => {
                push_origin(&mut out, *origin);
                push_array(&mut out, &name.bytes);
            },
        }
        out
    }
}

/// Appends the `width` low bytes of `value`, lowest first.
pub fn push_le(out: &mut Vec<u8>, value: u128, width: usize)
    ensures
        final(out)@ == old(out)@ + le_bytes(value as nat, width as nat),
{
    let mut rest: u128 = value;
    let mut left: usize = width;
    while left > 0
        invariant
            out@ + le_bytes(rest as nat, left as nat) == old(out)@ + le_bytes(
                value as nat,
                width as nat,
            ),
        decreases left,
    {
        let ghost before = out@;
        let byte: u8 = (rest % 256) as u8;
        out.push(byte);
        proof {
            assert(before.push(byte) + le_bytes((rest / 256) as nat, (left - 1) as nat) =~= before
                + le_bytes(rest as nat, left as nat));
        }
        rest = rest / 256;
        left = left - 1;
    }
    proof {
        assert(out@ + le_bytes(rest as nat, 0) =~= out@);
    }
}

/// Appends the 32 bytes of an address or a name.
pub fn push_array(out: &mut Vec<u8>, bytes: &[u8; 32])
    ensures
        final(out)@ == old(out)@ + bytes@,
{
    let mut i: usize = 0;
    while i < 32
        invariant
            i <= 32,
            out@ == old(out)@ + bytes@.take(i as int),
        decreases 32 - i,
    {
        let ghost before = out@;
        out.push(bytes[i]);
        proof {
            assert(before.push(bytes@[i as int]) =~= old(out)@ + bytes@.take(i + 1));
        }
        i = i + 1;
    }
    proof {
        assert(bytes@.take(32) =~= bytes@);
    }
}

/// Appends an origin.
pub fn push_origin(out: &mut Vec<u8>, origin: Origin)
    ensures
        final(out)@ == old(out)@ + origin_bytes(origin),
{
    let ghost before = out@;
    match origin {
        Origin::Caller => out.push(0),
        Origin::Address => out.push(1),
    }
    proof {
        assert(out@ =~= before + origin_bytes(origin));
    }
}

/// Appends an optional period.
pub fn push_period(out: &mut Vec<u8>, period: Option<(u32, u32)>)
    ensures
        final(out)@ == old(out)@ + period_bytes(period),
{
    let ghost before = out@;
    match period {
        None => {
            out.push(0);
            proof {
                assert(out@ =~= before + period_bytes(period));
            }
        },
        Some((interval, repeats)) => {
            out.push(1);
            push_le(out, interval as u128, 4);
            push_le(out, repeats as u128, 4);
            proof {
                assert(out@ =~= before + period_bytes(period));
            }
        },
    }
}

/// Appends an optional deposit limit.
pub fn push_limit(out: &mut Vec<u8>, limit: Option<u128>)
    ensures
        final(out)@ == old(out)@ + limit_bytes(limit),
{
    let ghost before = out@;
    match limit {
        None => {
            out.push(0);
            proof {
                assert(out@ =~= before + limit_bytes(limit));
            }
        },
        Some(amount) => {
            out.push(1);
            push_le(out, amount, 16);
            proof {
                assert(out@ =~= before + limit_bytes(limit));
            }
        },
    }
}

/// Appends a call.
pub fn push_call(out: &mut Vec<u8>, call: &ContractCallInput)
    requires
        call.data@.len() <= u32::MAX,
    ensures
        final(out)@ == old(out)@ + call_bytes(*call),
{
    let ghost before = out@;
    push_array(out, &call.dest.bytes);
    let mut data = codec_bytes(&call.data);
    out.append(&mut data);
    let mut budget = codec_weight(call.gas_limit.ref_time, call.gas_limit.proof_size);
    out.append(&mut budget);
    push_limit(out, call.storage_deposit_limit);
    push_le(out, call.value, 16);
    push_le(out, call.max_weight as u128, 8);
    proof {
        assert(out@ =~= before + call_bytes(*call));
    }
}

/// Appends the fields of a scheduling request.
pub fn push_schedule(
    out: &mut Vec<u8>,
    origin: Origin,
    when: u32,
    maybe_periodic: Option<(u32, u32)>,
    priority: u8,
    call_input: &ContractCallInput,
)
    requires
        call_input.data@.len() <= u32::MAX,
    ensures
        final(out)@ == old(out)@ + schedule_bytes(
            origin,
            when,
            maybe_periodic,
            priority,
            *call_input,
        ),
{
    let ghost before = out@;
    push_origin(out, origin);
    push_le(out, when as u128, 4);
    push_period(out, maybe_periodic);
    out.push(priority);
    push_call(out, call_input);
    proof {
        assert(out@ =~= before + schedule_bytes(
            origin,
            when,
            maybe_periodic,
            priority,
            *call_input,
        ));
    }
}

/// `parity_scale_codec::Encode::encode` on a byte vector: the compact form
/// of the length, then the bytes. It panics on a length above `u32::MAX`,
/// which is left out.
#[verifier::external_body]
fn codec_bytes(data: &Vec<u8>) -> (out: Vec<u8>)
    requires
        data@.len() <= u32::MAX,
    ensures
        out@ == compact(data@.len()) + data@,
{
    parity_scale_codec::Encode::encode(data)
}

/// `parity_scale_codec::Encode::encode` on an `sp_weights::Weight` made by
/// `Weight::from_parts`: both parts in compact form, reference time first.
#[verifier::external_body]
fn codec_weight(ref_time: u64, proof_size: u64) -> (out: Vec<u8>)
    ensures
        out@ == compact(ref_time as nat) + compact(proof_size as nat),
{
    parity_scale_codec::Encode::encode(&sp_weights::Weight::from_parts(ref_time, proof_size))
}

/// The error kind that a byte stands for where the codec writes one: the
/// status code of a kind that has one, and the position among the kinds of
/// one that has none.
pub open spec fn kind_of(byte: u8) -> Option<SchedulerError> {
    match byte {
        1 => Some(SchedulerError::FailedToSchedule),
        2 => Some(SchedulerError::NotFound),
        3 => Some(SchedulerError::TargetBlockNumberInPast),
        4 => Some(SchedulerError::RescheduleNoChange),
        5 => Some(SchedulerError::Named),
        98 => Some(SchedulerError::OriginCannotBeCaller),
        99 => Some(SchedulerError::RuntimeError),
        7 => Some(SchedulerError::UnknownStatusCode),
        8 => Some(SchedulerError::InvalidScaleEncoding),
        _ => None,
    }
}

/// The byte that the codec writes for an error kind.
pub open spec fn byte_of(kind: SchedulerError) -> u8 {
    match kind {
        SchedulerError::FailedToSchedule => 1,
        SchedulerError::NotFound => 2,
        SchedulerError::TargetBlockNumberInPast => 3,
        SchedulerError::RescheduleNoChange => 4,
        SchedulerError::Named => 5,
        SchedulerError::OriginCannotBeCaller => 98,
        SchedulerError::RuntimeError => 99,
        SchedulerError::UnknownStatusCode => 7,
        SchedulerError::InvalidScaleEncoding => 8,
    }
}

/// Every error kind is read back from its byte.
pub proof fn kind_byte_round_trip(kind: SchedulerError)
    ensures
        kind_of(byte_of(kind)) == Some(kind),
{
}

/// The origin that a byte stands for.
pub open spec fn origin_of(byte: u8) -> Option<Origin> {
    match byte {
        0 => Some(Origin::Caller),
        1 => Some(Origin::Address),
        _ => None,
    }
}

/// Every origin is read back from the byte that it is written as.
pub proof fn origin_byte_round_trip(origin: Origin)
    ensures
        origin_bytes(origin).len() == 1,
        origin_of(origin_bytes(origin)[0]) == Some(origin),
{
}

/// What a response says. The status code alone decides: `0` is success
/// and any other code is its error. The output of a successful call holds
/// the unit value, which takes no bytes, so no output changes the outcome.
pub open spec fn response_outcome(status: u32, output: Seq<u8>) -> Result<(), SchedulerError> {
    status_outcome(status)
}

/// Reads the byte that stands for an error kind.
pub fn kind_from_byte(byte: u8) -> (kind: Option<SchedulerError>)
    ensures
        kind == kind_of(byte),
{
    match byte {
        1 => Some(SchedulerError::FailedToSchedule),
        2 => Some(SchedulerError::NotFound),
        3 => Some(SchedulerError::TargetBlockNumberInPast),
        4 => Some(SchedulerError::RescheduleNoChange),
        5 => Some(SchedulerError::Named),
        98 => Some(SchedulerError::OriginCannotBeCaller),
        99 => Some(SchedulerError::RuntimeError),
        7 => Some(SchedulerError::UnknownStatusCode),
        8 => Some(SchedulerError::InvalidScaleEncoding),
        _ => None,
    }
}

/// The byte that stands for an error kind.
pub fn kind_byte(kind: SchedulerError) -> (byte: u8)
    ensures
        byte == byte_of(kind),
{
    match kind {
        SchedulerError::FailedToSchedule => 1,
        SchedulerError::NotFound => 2,
        SchedulerError::TargetBlockNumberInPast => 3,
        SchedulerError::RescheduleNoChange => 4,
        SchedulerError::Named => 5,
        SchedulerError::OriginCannotBeCaller => 98,
        SchedulerError::RuntimeError => 99,
        SchedulerError::UnknownStatusCode => 7,
        SchedulerError::InvalidScaleEncoding => 8,
    }
}

/// Reads the byte that stands for an origin.
pub fn origin_from_byte(byte: u8) -> (origin: Option<Origin>)
    ensures
        origin == origin_of(byte),
{
    match byte {
        0 => Some(Origin::Caller),
        1 => Some(Origin::Address),
        _ => None,
    }
}

/// Reads a response: the status code decides, whatever the output holds.
pub fn decode_response(status: u32, output: &Vec<u8>) -> (outcome: Result<(), SchedulerError>)
    ensures
        outcome == response_outcome(status, output@),
{
    SchedulerError::from_status_code(status)
}

} // verus!
