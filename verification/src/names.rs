//! The naming conventions by which agent sockets and session directories are
//! recognised. Names are compared as the bytes of their UTF-8 encoding.

use vstd::prelude::*;
use vstd::string::StringSliceAdditionalSpecFns;

verus! {

/// The bytes of `agent.`, which starts the name of a socket made by OpenSSH
/// before 10.1.
pub open spec fn legacy_prefix() -> Seq<u8> {
    seq![0x61u8, 0x67u8, 0x65u8, 0x6eu8, 0x74u8, 0x2eu8]
}

/// The bytes of `.sshd.`, which the name of a socket made by OpenSSH 10.1 or
/// later holds.
pub open spec fn modern_infix() -> Seq<u8> {
    seq![0x2eu8, 0x73u8, 0x73u8, 0x68u8, 0x64u8, 0x2eu8]
}

/// The bytes of `ssh-`, which starts the name of a session directory.
pub open spec fn session_prefix() -> Seq<u8> {
    seq![0x73u8, 0x73u8, 0x68u8, 0x2du8]
}

/// `pattern` stands in `text` at offset `at`.
pub open spec fn occurs_at(text: Seq<u8>, pattern: Seq<u8>, at: int) -> bool {
    &&& 0 <= at
    &&& at + pattern.len() <= text.len()
    &&& forall|k: int| 0 <= k < pattern.len() ==> text[at + k] == #[trigger] pattern[k]
}

/// `text` begins with `pattern`.
pub open spec fn begins_with(text: Seq<u8>, pattern: Seq<u8>) -> bool {
    occurs_at(text, pattern, 0)
}

/// `pattern` stands somewhere in `text`.
pub open spec fn holds(text: Seq<u8>, pattern: Seq<u8>) -> bool {
    exists|at: int| occurs_at(text, pattern, at)
}

/// A name under which an agent socket may be found: it begins with `agent.`
/// or holds `.sshd.`.
pub open spec fn socket_name(name: Seq<u8>) -> bool {
    begins_with(name, legacy_prefix()) || holds(name, modern_infix())
}

/// A name that a session directory may have: it begins with `ssh-`.
pub open spec fn session_dir_name(name: Seq<u8>) -> bool {
    begins_with(name, session_prefix())
}

/// Tells whether `pattern` stands in `text` at offset `at`.
pub fn matches_at(text: &[u8], pattern: &[u8], at: usize) -> (found: bool)
    ensures
        found == occurs_at(text@, pattern@, at as int),
{
    if at > text.len() || pattern.len() > text.len() - at {
        return false;
    }
    let mut k: usize = 0;
    while k < pattern.len()
        invariant
            k <= pattern.len(),
            at + pattern.len() <= text.len(),
            forall|j: int| 0 <= j < k ==> text@[at + j] == #[trigger] pattern@[j],
        decreases pattern.len() - k,
    {
        if text[at + k] != pattern[k] {
            return false;
        }
        k += 1;
    }
    true
}

/// Tells whether `pattern` stands somewhere in `text`.
pub fn finds(text: &[u8], pattern: &[u8]) -> (found: bool)
    ensures
        found == holds(text@, pattern@),
{
    if pattern.len() > text.len() {
        return false;
    }
    let last: usize = text.len() - pattern.len();
    let mut at: usize = 0;
    while at <= last
        invariant
            last == text.len() - pattern.len(),
            at <= last + 1,
            forall|j: int| 0 <= j < at ==> !occurs_at(text@, pattern@, j),
        decreases last + 1 - at,
    {
        if matches_at(text, pattern, at) {
            return true;
        }
        at += 1;
    }
    false
}

/// Tells whether `name` is one under which an agent socket may be found.
pub fn is_socket_name(name: &str) -> (ok: bool)
    ensures
        ok == socket_name(name.spec_bytes()),
{
    let legacy: [u8; 6] = [0x61u8, 0x67u8, 0x65u8, 0x6eu8, 0x74u8, 0x2eu8];
    let modern: [u8; 6] = [0x2eu8, 0x73u8, 0x73u8, 0x68u8, 0x64u8, 0x2eu8];
    assert(legacy@ =~= legacy_prefix());
    assert(modern@ =~= modern_infix());
    let bytes = name.as_bytes();
    matches_at(bytes, legacy.as_slice(), 0) || finds(bytes, modern.as_slice())
}

/// Tells whether `name` is one that a session directory may have.
pub fn is_session_dir_name(name: &str) -> (ok: bool)
    ensures
        ok == session_dir_name(name.spec_bytes()),
{
    let prefix: [u8; 4] = [0x73u8, 0x73u8, 0x68u8, 0x2du8];
    assert(prefix@ =~= session_prefix());
    matches_at(name.as_bytes(), prefix.as_slice(), 0)
}

} // verus!
