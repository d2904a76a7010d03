//! Names of locks, exit codes and timeouts.

use vstd::prelude::*;

use crate::text::{
    chars_of, concat, is_ascii_alphabetic, is_ascii_digit, joined, texts,
};

verus! {

/// The exit code of an application that was stopped.
pub const PATCH_ABORT_EXIT_CODE: u32 = 0xC0DE;

// ---------------------------------------------------------------------------
// Locks

pub open spec fn is_lock_char(c: char) -> bool {
    is_ascii_alphabetic(c) || is_ascii_digit(c) || c == '.' || c == '_' || c == '-'
}

/// A name that can stand in the name of a lock.
pub open spec fn is_lock_identifier(value: Seq<char>) -> bool {
    value.len() > 0 && forall|i: int| 0 <= i < value.len() ==> is_lock_char(#[trigger] value[i])
}

pub fn is_valid_lock_identifier(value: &str) -> (yes: bool)
    ensures
        yes == is_lock_identifier(value@),
{
    let chars = chars_of(value);
    let mut i: usize = 0;
    while i < chars.len()
        invariant
            chars@ == value@,
            i <= chars@.len(),
            forall|j: int| 0 <= j < i ==> is_lock_char(#[trigger] value@[j]),
        decreases chars.len() - i,
    {
        let c = chars[i];
        if !(('a' <= c && c <= 'z') || ('A' <= c && c <= 'Z') || ('0' <= c && c <= '9') || c == '.'
            || c == '_' || c == '-') {
            assert(!is_lock_char(value@[i as int]));
            return false;
        }
        i += 1;
    }
    chars.len() > 0
}

/// The name of the lock that a launcher holds, none for a name that cannot stand in it.
pub fn launcher_lock_name(identifier: &str) -> (name: Option<String>)
    ensures
        match name {
            Some(name) => is_lock_identifier(identifier@) && name@ == joined(
                seq!["codex-fast.launch."@, identifier@],
            ),
            None => !is_lock_identifier(identifier@),
        },
{
    if is_valid_lock_identifier(identifier) {
        let parts: [&str; 2] = ["codex-fast.launch.", identifier];
        assert(texts(parts@) =~= seq!["codex-fast.launch."@, identifier@]);
        Some(concat(&parts))
    } else {
        None
    }
}

// ---------------------------------------------------------------------------
// Processes

/// The exit code that is reported: the code, where there is one that is not negative, else the
/// signal above 128.
pub open spec fn reported_code(code: Option<i32>, signal: Option<i32>) -> u32 {
    match (code, signal) {
        (Some(code), _) if code >= 0 => code as u32,
        (_, Some(signal)) => (128 + signal) as u32,
        (_, None) => PATCH_ABORT_EXIT_CODE,
    }
}

pub fn exit_code(code: Option<i32>, signal: Option<i32>) -> (reported: u32)
    requires
        signal matches Some(signal) ==> signal >= 0,
    ensures
        reported == reported_code(code, signal),
{
    if let Some(code) = code {
        if code >= 0 {
            return code as u32;
        }
    }
    match signal {
        Some(signal) => 128 + signal as u32,
        None => PATCH_ABORT_EXIT_CODE,
    }
}

/// A time to poll, in milliseconds: at least one where any time is left.
pub open spec fn poll_millis(nanos: u128) -> i32 {
    if nanos == 0 {
        0
    } else if nanos < 1_000_000 {
        1
    } else if nanos / 1_000_000 <= i32::MAX {
        (nanos / 1_000_000) as i32
    } else {
        i32::MAX
    }
}

pub fn poll_timeout(nanos: u128) -> (millis: i32)
    ensures
        millis == poll_millis(nanos),
{
    if nanos == 0 {
        0
    } else {
        let millis = nanos / 1_000_000;
        if millis < 1 {
            1
        } else if millis > 0x7fff_ffff {
            0x7fff_ffff
        } else {
            millis as i32
        }
    }
}

} // verus!
