//! The attestation loop's decisions: what to do after each attempt to
//! build a report and register the staged key.  The loop body that sleeps,
//! talks to the chain, and retries lives outside the library; every
//! decision it takes is fixed here.

use vstd::prelude::*;
use crate::words::{U256, Address};
use crate::registry::Registration;

verus! {

/// What happened in one attestation attempt.
pub enum LoopEvent {
    /// Building the attestation report failed.
    ReportFailed,
    /// The registry rejected or the transaction failed.
    RegisterFailed,
    /// The registry acknowledged: the registration, and the address of
    /// the staged key that was submitted.
    Registered { registration: Registration, staged_address: Address },
}

/// What the loop does next.
#[derive(Clone, Copy, Debug, PartialEq, Eq)]
pub enum LoopAction {
    /// Sleep and try again with a fresh rotation; the staged key is
    /// dropped and the active identity is untouched.
    Retry { sleep_secs: u64 },
    /// Commit the staged key under this id, then sleep until the renewal
    /// time.
    Commit { instance_id: U256, next_wakeup: u64 },
    /// The registry acknowledged a different address than the staged key:
    /// a chain-side compromise; the process must stop.
    Halt,
}

/// The retry delay after a failed attempt.
pub open spec fn retry_secs() -> u64 {
    5u64
}

/// Decide the next step of the attestation loop.  Failures retry after
/// five seconds and never advance the identity.  An acknowledgment whose
/// address is not the staged key halts the process.  A matching
/// acknowledgment commits, and the loop wakes `pre_expire_secs` before
/// the registration's validity ends (immediately, if that is already
/// past).
pub fn next_attestation_action(event: &LoopEvent, pre_expire_secs: u64) -> (r: LoopAction)
    ensures
        match *event {
            LoopEvent::ReportFailed => r == (LoopAction::Retry { sleep_secs: retry_secs() }),
            LoopEvent::RegisterFailed => r == (LoopAction::Retry { sleep_secs: retry_secs() }),
            LoopEvent::Registered { registration, staged_address } => {
                if registration.address@ != staged_address@ {
                    r == LoopAction::Halt
                } else {
                    r == (LoopAction::Commit {
                        instance_id: registration.instance_id,
                        next_wakeup: if registration.valid_until >= pre_expire_secs {
                            (registration.valid_until - pre_expire_secs) as u64
                        } else {
                            0u64
                        },
                    })
                }
            },
        },
{
    match event {
        LoopEvent::ReportFailed => LoopAction::Retry { sleep_secs: 5 },
        LoopEvent::RegisterFailed => LoopAction::Retry { sleep_secs: 5 },
        LoopEvent::Registered { registration, staged_address } => {
            if !registration.address.eq_bytes(staged_address) {
                LoopAction::Halt
            } else {
                let next_wakeup: u64 = if registration.valid_until >= pre_expire_secs {
                    registration.valid_until - pre_expire_secs
                } else {
                    0
                };
                LoopAction::Commit { instance_id: registration.instance_id, next_wakeup }
            }
        },
    }
}

/// How long to sleep to reach a wakeup time: zero when it has passed.
pub fn sleep_duration(now_unix_secs: u64, wakeup_unix_secs: u64) -> (r: u64)
    ensures
        wakeup_unix_secs >= now_unix_secs ==> r == wakeup_unix_secs - now_unix_secs,
        wakeup_unix_secs < now_unix_secs ==> r == 0,
{
    if wakeup_unix_secs >= now_unix_secs {
        wakeup_unix_secs - now_unix_secs
    } else {
        0
    }
}

} // verus!
