//! Waiting for a file to appear: an operation on a path is tried again and
//! again while it reports that the path is not there, one millisecond of the
//! wait being spent on each try.

use std::path::Path;
use std::time::Duration;
use vstd::prelude::*;

verus! {

/// The error of `std::io`, of which nothing is seen here.
#[verifier::external_type_specification]
#[verifier::external_body]
pub struct ExIoError(std::io::Error);

/// What a wait costs per try, in nanoseconds: one millisecond.
pub const MILLISECOND: u128 = 1_000_000;

/// The length of a duration in nanoseconds.
pub uninterp spec fn nanos_of(wait: Duration) -> nat;

/// Whether the kind of an error is `ErrorKind::NotFound`.
pub uninterp spec fn reports_missing(error: std::io::Error) -> bool;

/// `Duration::as_nanos`: the whole length of the duration, in nanoseconds.
#[verifier::external_body]
fn as_nanos(wait: Duration) -> (nanos: u128)
    ensures
        nanos == nanos_of(wait),
{
    wait.as_nanos()
}

/// `std::io::Error::kind`, held against `ErrorKind::NotFound`.
#[verifier::external_body]
fn is_not_found(error: &std::io::Error) -> (yes: bool)
    ensures
        yes == reports_missing(*error),
{
    error.kind() == std::io::ErrorKind::NotFound
}

/// `to_string` of an error of `std::io`: the text that it shows. Nothing is
/// claimed of the text.
#[verifier::external_body]
fn describe(error: &std::io::Error) -> (text: String) {
    error.to_string()
}

/// How one try ended.
#[derive(Clone, Debug, PartialEq, Eq)]
pub enum Attempt<T> {
    /// The operation gave a result.
    Found(T),
    /// The path was not there.
    Missing,
    /// The operation failed otherwise; the text of the error.
    Failed(String),
}

/// What a wait comes to after a try.
#[derive(Debug, PartialEq, Eq)]
pub enum Waiting<T> {
    /// Another try, with this many nanoseconds left.
    Again(u128),
    /// The end of the wait.
    Finished(Result<T, String>),
}

/// The text of the error with which a wait ends when its time is spent.
pub open spec fn out_of_time() -> Seq<char> {
    "File was not created on time"@
}

/// What a wait with `left` nanoseconds comes to after a try that ended as
/// `attempt` says: a result ends it, as does a failure, with its text; a
/// path that was not there costs a millisecond.
pub open spec fn waiting_after<T>(left: u128, attempt: Attempt<T>) -> Waiting<T> {
    match attempt {
        Attempt::Found(value) => Waiting::Finished(Ok(value)),
        Attempt::Missing => Waiting::Again((left - MILLISECOND) as u128),
        Attempt::Failed(text) => Waiting::Finished(Err(text)),
    }
}

/// Whatever `op` returns for `path`, it is a result.
pub open spec fn always_finds<P, T, F: Fn(P) -> std::io::Result<T>>(op: F, path: P) -> bool {
    forall|outcome: std::io::Result<T>| call_ensures(op, (path,), outcome) ==> outcome is Ok
}

/// Whatever `op` returns for `path`, it is the error that the path is not
/// there.
pub open spec fn never_finds<P, T, F: Fn(P) -> std::io::Result<T>>(op: F, path: P) -> bool {
    forall|outcome: std::io::Result<T>|
        call_ensures(op, (path,), outcome) ==> (outcome matches Err(error) && reports_missing(
            error,
        ))
}

/// Decides how a wait with `left` nanoseconds goes on after a try.
pub fn after_attempt<T>(left: u128, attempt: Attempt<T>) -> (next: Waiting<T>)
    requires
        attempt is Missing ==> left >= MILLISECOND,
    ensures
        next == waiting_after(left, attempt),
{
    match attempt {
        Attempt::Found(value) => Waiting::Finished(Ok(value)),
        Attempt::Missing => Waiting::Again(left - MILLISECOND),
        Attempt::Failed(text) => Waiting::Finished(Err(text)),
    }
}

/// The error with which a wait ends when its time is spent.
pub fn timed_out<T>() -> (result: Result<T, String>)
    ensures
        result matches Err(text) && text@ == out_of_time(),
{
    Err("File was not created on time".to_owned())
}

/// Waits for `path` to exist, for at most `pending_wait`, by trying `op` on
/// it, and returns what `op` gave.
///
/// Every try that finds the path missing costs a millisecond of the wait, so
/// the wait is to be a whole number of milliseconds. A wait of no length ends
/// out of time at once, and `op` is not tried. Any other failure of `op` ends
/// the wait with the text of its error.
pub fn wait_for_file<P: AsRef<Path> + Copy, T, F: Fn(P) -> std::io::Result<T>>(
    path: P,
    pending_wait: Duration,
    op: F,
) -> (result: Result<T, String>)
    requires
        call_requires(op, (path,)),
        nanos_of(pending_wait) % (MILLISECOND as nat) == 0,
    ensures
        match result {
            Ok(value) => nanos_of(pending_wait) > 0 && call_ensures(
                op,
                (path,),
                Ok::<T, std::io::Error>(value),
            ),
            Err(text) => text@ == out_of_time() || (nanos_of(pending_wait) > 0 && exists|
                error: std::io::Error,
            |
                call_ensures(op, (path,), Err::<T, std::io::Error>(error)) && !reports_missing(
                    error,
                )),
        },
        nanos_of(pending_wait) == 0 ==> (result matches Err(text) && text@ == out_of_time()),
        nanos_of(pending_wait) > 0 && always_finds(op, path) ==> result is Ok,
        never_finds(op, path) ==> (result matches Err(text) && text@ == out_of_time()),
{
    let mut left: u128 = as_nanos(pending_wait);
    while left > 0
        invariant
            call_requires(op, (path,)),
            left % MILLISECOND == 0,
            left <= nanos_of(pending_wait),
            left < nanos_of(pending_wait) ==> !always_finds(op, path),
        decreases left,
    {
        let attempt = match op(path) {
            Ok(value) => Attempt::Found(value),
            Err(error) => {
                if is_not_found(&error) {
                    Attempt::Missing
                } else {
                    Attempt::Failed(describe(&error))
                }
            },
        };
        match after_attempt(left, attempt) {
            Waiting::Again(rest) => {
                left = rest;
            },
            Waiting::Finished(result) => {
                return result;
            },
        }
    }
    timed_out()
}

/// Waits as `wait_for_file` does where `pending_wait` is a whole number of
/// milliseconds, and does nothing and returns `None` where it is not.
pub fn wait_for_file_in_millis<P: AsRef<Path> + Copy, T, F: Fn(P) -> std::io::Result<T>>(
    path: P,
    pending_wait: Duration,
    op: F,
) -> (result: Option<Result<T, String>>)
    requires
        call_requires(op, (path,)),
    ensures
        result is Some <==> nanos_of(pending_wait) % (MILLISECOND as nat) == 0,
        result matches Some(Ok(value)) ==> nanos_of(pending_wait) > 0 && call_ensures(
            op,
            (path,),
            Ok::<T, std::io::Error>(value),
        ),
        result matches Some(Err(text)) ==> text@ == out_of_time() || (nanos_of(pending_wait) > 0
            && exists|error: std::io::Error|
            call_ensures(op, (path,), Err::<T, std::io::Error>(error)) && !reports_missing(error)),
        nanos_of(pending_wait) == 0 ==> (result matches Some(Err(text)) && text@ == out_of_time()),
        nanos_of(pending_wait) > 0 && always_finds(op, path) ==> !(result matches Some(Err(_))),
        never_finds(op, path) ==> !(result matches Some(Ok(_))),
{
    if as_nanos(pending_wait) % MILLISECOND == 0 {
        Some(wait_for_file(path, pending_wait, op))
    } else {
        None
    }
}

} // verus!
