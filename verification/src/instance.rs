//! One manager at a time: the one that runs holds a lock, and another that is started asks it
//! to show its window.
use vstd::prelude::*;
use crate::number::{push_decimal, push_large};
#[allow(unused_imports)]
use crate::number::decimal;

verus! {

/// The file that the running manager holds.
pub const LOCK_FILE: &'static str = "instance.lock";

/// The file by which the running manager is asked to show its window.
pub const ACTIVATION_FILE: &'static str = "show-window.request";

/// What an attempt to take the lock came to.
#[derive(Clone, Copy, Debug, PartialEq, Eq, Structural)]
pub enum LockAttempt {
    Taken,
    /// Another manager holds it.
    Held,
    Failed,
}

/// What a manager that is being started does.
#[derive(Clone, Copy, Debug, PartialEq, Eq, Structural)]
pub enum Startup {
    /// It runs.
    Run,
    /// It leaves the field to the one that runs.
    Yield,
    /// It gives up.
    Fail,
}

/// What a manager that is being started does, by what came of its attempt to take the lock.
pub fn startup(attempt: LockAttempt) -> (decision: Startup)
    ensures
        decision == Startup::Run <==> attempt == LockAttempt::Taken,
        decision == Startup::Yield <==> attempt == LockAttempt::Held,
{
    match attempt {
        LockAttempt::Taken => Startup::Run,
        LockAttempt::Held => Startup::Yield,
        LockAttempt::Failed => Startup::Fail,
    }
}

/// What the manager with the process `pid` writes in the file that it holds.
pub fn lock_text(pid: u32) -> (text: String)
    ensures
        text@ == decimal(pid as nat).push('\n'),
{
    let mut text = String::new();
    push_decimal(&mut text, pid as u64);
    text.push('\n');
    assert(text@ =~= decimal(pid as nat).push('\n'));
    text
}

/// What the manager with the process `pid` writes to ask for the window, at a time in
/// nanoseconds that tells its requests apart.
pub fn activation_text(pid: u32, nonce: u128) -> (text: String)
    ensures
        text@ == decimal(pid as nat).push(' ') + decimal(nonce as nat).push('\n'),
{
    let mut text = String::new();
    push_decimal(&mut text, pid as u64);
    text.push(' ');
    push_large(&mut text, nonce);
    text.push('\n');
    assert(text@ =~= decimal(pid as nat).push(' ') + decimal(nonce as nat).push('\n'));
    text
}

} // verus!
