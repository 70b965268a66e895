//! The native system-call interface: which call a request names, whether its buffer
//! arguments are acceptable, and what it returns.
use vstd::prelude::*;
use crate::ai::{confidence_of, description_of, intent_rule, IntentEngine};
use crate::text::{lower_spec, trim_spec};

verus! {

pub const SYS_EXIT: u64 = 0;
pub const SYS_PRINT: u64 = 1;
pub const SYS_READ: u64 = 2;
pub const SYS_WRITE: u64 = 3;
pub const SYS_YIELD: u64 = 4;
pub const SYS_GET_TICK: u64 = 5;
pub const SYS_ALLOC: u64 = 6;
pub const SYS_INTENT: u64 = 7;

/// What the kernel does for a system call. `Print` and `Intent` carry the length of the
/// user buffer to read when the buffer is acceptable (`None` when it is not).
#[derive(Clone, Copy, PartialEq, Eq, Structural, Debug)]
pub enum SyscallAction {
    Exit,
    Print(Option<usize>),
    GetTick,
    Yield,
    Intent(Option<usize>),
    Unknown,
}

/// The action for call `nr` with buffer address `arg1` and length `arg2`: a buffer is read
/// only when its address is not null and its length is positive and below the call's limit
/// (4096 bytes to print, 512 for an intent).
pub open spec fn syscall_action(nr: u64, arg1: u64, arg2: u64) -> SyscallAction {
    if nr == SYS_EXIT {
        SyscallAction::Exit
    } else if nr == SYS_PRINT {
        SyscallAction::Print(
            if arg1 != 0 && 0 < arg2 < 4096 {
                Some(arg2 as usize)
            } else {
                None
            },
        )
    } else if nr == SYS_GET_TICK {
        SyscallAction::GetTick
    } else if nr == SYS_YIELD {
        SyscallAction::Yield
    } else if nr == SYS_INTENT {
        SyscallAction::Intent(
            if arg1 != 0 && 0 < arg2 < 512 {
                Some(arg2 as usize)
            } else {
                None
            },
        )
    } else {
        SyscallAction::Unknown
    }
}

/// Decides what system call `nr` asks for.
pub fn classify_syscall(nr: u64, arg1: u64, arg2: u64) -> (a: SyscallAction)
    ensures
        a == syscall_action(nr, arg1, arg2),
{
    if nr == SYS_EXIT {
        SyscallAction::Exit
    } else if nr == SYS_PRINT {
        SyscallAction::Print(
            if arg1 != 0 && 0 < arg2 && arg2 < 4096 {
                Some(arg2 as usize)
            } else {
                None
            },
        )
    } else if nr == SYS_GET_TICK {
        SyscallAction::GetTick
    } else if nr == SYS_YIELD {
        SyscallAction::Yield
    } else if nr == SYS_INTENT {
        SyscallAction::Intent(
            if arg1 != 0 && 0 < arg2 && arg2 < 512 {
                Some(arg2 as usize)
            } else {
                None
            },
        )
    } else {
        SyscallAction::Unknown
    }
}

/// The value returned to user space for calls that need no further work: 0 for exit and
/// yield, the requested length for print, and `u64::MAX` for an unknown call. Tick and
/// intent calls get their values from `tick` and `syscall_intent`.
pub fn syscall_return(action: SyscallAction, arg2: u64, tick: u64) -> (r: u64)
    ensures
        r == match action {
            SyscallAction::Exit => 0,
            SyscallAction::Yield => 0,
            SyscallAction::Print(_) => arg2 as usize as u64,
            SyscallAction::GetTick => tick,
            SyscallAction::Intent(_) => 0,
            SyscallAction::Unknown => u64::MAX,
        },
{
    match action {
        SyscallAction::Exit => 0,
        SyscallAction::Yield => 0,
        SyscallAction::Print(_) => arg2 as usize as u64,
        SyscallAction::GetTick => tick,
        SyscallAction::Intent(_) => 0,
        SyscallAction::Unknown => u64::MAX,
    }
}

/// Runs the intent call on a prompt read from user space: the engine parses it, and the
/// call returns the intent's confidence together with the description to log.
pub fn syscall_intent(ai: &mut IntentEngine, prompt: &str) -> (r: (u64, String))
    ensures
        ({
            let t = trim_spec(prompt@);
            let k = intent_rule(lower_spec(t));
            &&& r.0 == confidence_of(k)
            &&& k < 8 ==> r.1@ == description_of(k)
            &&& k == 8 ==> r.1@ == "Atulya AI: Processing intent '"@ + t + "' across kernel subsystems."@
        }),
        final(ai).memory_nodes@ == old(ai).memory_nodes@,
        final(ai).query_history@ == old(ai).query_history@.push(final(ai).query_history@.last()),
        final(ai).query_history@.last()@ == trim_spec(prompt@),
{
    let res = ai.parse_intent(prompt);
    assert(ai.query_history@ =~= old(ai).query_history@.push(ai.query_history@.last()));
    let c = res.confidence as u64;
    (c, res.description)
}

} // verus!
