//! The validation of one candidate socket: its name, then what `stat` says of
//! it, then whether it takes a connection. Each check is made only when the
//! one before has passed, and the first that fails gives the reason.

use crate::names::{is_socket_name, socket_name};
use vstd::prelude::*;
use vstd::string::StringSliceAdditionalSpecFns;

verus! {

/// Why `stat` gave nothing.
#[derive(Clone, Copy, Debug, PartialEq, Eq, Structural)]
pub enum StatError {
    /// The path is not there, or not there any more.
    Vanished,
    /// Any other failure.
    Other,
}

/// Why a candidate is not an agent socket.
#[derive(Clone, Copy, Debug, PartialEq, Eq, Structural)]
pub enum RejectReason {
    /// The name follows neither naming convention.
    NameMismatch,
    /// `stat` failed.
    StatFailed(StatError),
    /// The file type is not that of a socket.
    NotASocket,
    /// Nothing took the connection; the operating system's error number.
    ConnectFailed(i32),
}

/// What the validation of a candidate comes to next.
#[derive(Clone, Copy, Debug, PartialEq, Eq, Structural)]
pub enum Step {
    /// Call `stat` on the candidate.
    Stat,
    /// Connect to the candidate.
    Connect,
    /// The candidate is a live agent socket: keep the connection.
    Accept,
    /// The candidate is given up.
    Reject(RejectReason),
}

/// What the operating system says of a candidate when asked.
pub struct Facts {
    /// The file mode that `stat` reports.
    pub stat: Result<u32, StatError>,
    /// How a connection attempt ends.
    pub connect: Result<(), i32>,
}

/// The bits of a mode that hold the file type, `S_IFMT`.
pub open spec fn type_mask() -> u32 {
    0o170000u32
}

/// The file type bits of a socket, `S_IFSOCK`.
pub open spec fn socket_bits() -> u32 {
    0o140000u32
}

/// The file type bits of the mode are those of a socket.
pub open spec fn socket_mode(mode: u32) -> bool {
    mode & type_mask() == socket_bits()
}

/// The whole validation of the candidate called `name`, of which the
/// operating system would say `facts`.
pub open spec fn verdict(name: Seq<u8>, facts: Facts) -> Result<(), RejectReason> {
    if !socket_name(name) {
        Err(RejectReason::NameMismatch)
    } else {
        match facts.stat {
            Err(e) => Err(RejectReason::StatFailed(e)),
            Ok(mode) => if !socket_mode(mode) {
                Err(RejectReason::NotASocket)
            } else {
                match facts.connect {
                    Err(errno) => Err(RejectReason::ConnectFailed(errno)),
                    Ok(()) => Ok(()),
                }
            },
        }
    }
}

/// The first step for `name`.
pub open spec fn first_step(name: Seq<u8>) -> Step {
    if socket_name(name) {
        Step::Stat
    } else {
        Step::Reject(RejectReason::NameMismatch)
    }
}

/// The step that follows the answer `stat`.
pub open spec fn step_after_stat(stat: Result<u32, StatError>) -> Step {
    match stat {
        Err(e) => Step::Reject(RejectReason::StatFailed(e)),
        Ok(mode) => if socket_mode(mode) {
            Step::Connect
        } else {
            Step::Reject(RejectReason::NotASocket)
        },
    }
}

/// The step that follows the end `connect` of a connection attempt.
pub open spec fn step_after_connect(connect: Result<(), i32>) -> Step {
    match connect {
        Err(errno) => Step::Reject(RejectReason::ConnectFailed(errno)),
        Ok(()) => Step::Accept,
    }
}

/// `S_IFMT` of `libc`: on Linux and the other systems that `libc` groups with
/// it the constant is `0o170000`.
#[verifier::external_body]
fn file_type_mask() -> (mask: u32)
    ensures
        mask == type_mask(),
{
    libc::S_IFMT as u32
}

/// `S_IFSOCK` of `libc`: on Linux and the other systems that `libc` groups
/// with it the constant is `0o140000`.
#[verifier::external_body]
fn socket_type_bits() -> (bits: u32)
    ensures
        bits == socket_bits(),
{
    libc::S_IFSOCK as u32
}

/// Tells whether `mode`, as `stat` reports it, is the mode of a socket.
pub fn is_socket_mode(mode: u32) -> (yes: bool)
    ensures
        yes == socket_mode(mode),
{
    (mode & file_type_mask()) == socket_type_bits()
}

/// Starts the validation of the candidate called `name`. The name alone
/// decides: one that follows neither convention is rejected here, before
/// anything is asked of the file system.
pub fn begin(name: &str) -> (step: Step)
    ensures
        step == first_step(name.spec_bytes()),
        !socket_name(name.spec_bytes()) <==> step == Step::Reject(RejectReason::NameMismatch),
        socket_name(name.spec_bytes()) <==> step == Step::Stat,
{
    if is_socket_name(name) {
        Step::Stat
    } else {
        Step::Reject(RejectReason::NameMismatch)
    }
}

/// Goes on with the answer of `stat`: the mode, or why there is none.
pub fn after_stat(stat: Result<u32, StatError>) -> (step: Step)
    ensures
        step == step_after_stat(stat),
{
    match stat {
        Err(e) => Step::Reject(RejectReason::StatFailed(e)),
        Ok(mode) => {
            if is_socket_mode(mode) {
                Step::Connect
            } else {
                Step::Reject(RejectReason::NotASocket)
            }
        },
    }
}

/// Ends the validation with the end of the connection attempt: done, or the
/// error number.
pub fn after_connect(connect: Result<(), i32>) -> (step: Step)
    ensures
        step == step_after_connect(connect),
{
    match connect {
        Err(errno) => Step::Reject(RejectReason::ConnectFailed(errno)),
        Ok(()) => Step::Accept,
    }
}

/// Taking the steps one after the other, each with the answer that `facts`
/// holds, ends as the verdict says: with the reason of the first step that
/// rejects, and accepted where none does.
pub proof fn lemma_steps_reach_verdict(name: Seq<u8>, facts: Facts)
    ensures
        verdict(name, facts) == (match first_step(name) {
            Step::Reject(reason) => Err::<(), RejectReason>(reason),
            _ => match step_after_stat(facts.stat) {
                Step::Reject(reason) => Err(reason),
                _ => match step_after_connect(facts.connect) {
                    Step::Reject(reason) => Err(reason),
                    _ => Ok(()),
                },
            },
        }),
{
}

/// A name that follows neither convention is rejected for its name whatever
/// the file system holds: no answer of it is looked at.
pub proof fn lemma_name_mismatch_needs_no_stat(name: Seq<u8>, facts: Facts)
    requires
        !socket_name(name),
    ensures
        first_step(name) == Step::Reject(RejectReason::NameMismatch),
        verdict(name, facts) == Err::<(), RejectReason>(RejectReason::NameMismatch),
{
}

} // verus!
