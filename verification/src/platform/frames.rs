//! Messages on the debugging pipe.

use vstd::prelude::*;
use vstd::slice::{slice_subrange, slice_to_vec};
use vstd::utf8::*;

use crate::text::text_of_bytes;

verus! {

/// How long an application may take to exit, in milliseconds.
pub const APP_SHUTDOWN_GRACE: u64 = 5_000;

/// How long a poll for an exit or for bytes sleeps between two looks, in milliseconds.
pub const POLL_INTERVAL: u64 = 25;

/// First zero from `i` on, the end without one.
pub open spec fn nul_at(bytes: Seq<u8>, i: int) -> int
    decreases bytes.len() - i,
{
    if 0 <= i < bytes.len() && bytes[i] != 0 {
        nul_at(bytes, i + 1)
    } else {
        i
    }
}

/// The place of the first zero is known by what stands before it.
pub proof fn lemma_nul_at(bytes: Seq<u8>, i: int, end: int)
    requires
        0 <= i <= end <= bytes.len(),
        forall|j: int| i <= j < end ==> #[trigger] bytes[j] != 0,
        end < bytes.len() ==> bytes[end] == 0,
    ensures
        nul_at(bytes, i) == end,
    decreases end - i,
{
    if i < end {
        lemma_nul_at(bytes, i + 1, end);
    }
}

/// The bytes before a place hold no zero.
pub open spec fn searched(pending: Seq<u8>, search_start: int) -> bool {
    &&& 0 <= search_start <= pending.len()
    &&& forall|j: int| 0 <= j < search_start ==> #[trigger] pending[j] != 0
}

/// A message that is not text.
#[derive(Debug, PartialEq, Eq)]
pub struct InvalidFrame {
    pub bytes: Vec<u8>,
}

/// Takes the first message out of the bytes that arrived: those before the first zero. The
/// bytes before `search_start` are known to hold none.
pub fn take_pending_message(pending: &mut Vec<u8>, search_start: &mut usize) -> (message: Result<
    Option<String>,
    InvalidFrame,
>)
    requires
        searched(old(pending)@, *old(search_start) as int),
    ensures
        searched(final(pending)@, *final(search_start) as int),
        ({
            let end = nul_at(old(pending)@, 0);
            if end < old(pending)@.len() {
                let frame = old(pending)@.take(end);
                &&& final(pending)@ == old(pending)@.skip(end + 1)
                &&& *final(search_start) == 0
                &&& match message {
                    Ok(Some(text)) => encode_utf8(text@) == frame,
                    Err(invalid) => !valid_utf8(frame) && invalid.bytes@ == frame,
                    Ok(None) => false,
                }
            } else {
                &&& final(pending)@ == old(pending)@
                &&& *final(search_start) == old(pending)@.len()
                &&& message == Ok::<Option<String>, InvalidFrame>(None)
            }
        }),
{
    let ghost bytes = pending@;
    let mut i: usize = *search_start;
    while i < pending.len() && pending[i] != 0
        invariant
            pending@ == bytes,
            i <= bytes.len(),
            forall|j: int| 0 <= j < i ==> #[trigger] bytes[j] != 0,
        decreases bytes.len() - i,
    {
        i += 1;
    }
    proof {
        lemma_nul_at(bytes, 0, i as int);
    }
    if i == pending.len() {
        *search_start = i;
        return Ok(None);
    }
    let frame = slice_to_vec(slice_subrange(pending.as_slice(), 0, i));
    let copy = slice_to_vec(slice_subrange(pending.as_slice(), 0, i));
    let rest = slice_to_vec(slice_subrange(pending.as_slice(), i + 1, pending.len()));
    proof {
        assert(frame@ =~= bytes.take(i as int));
        assert(copy@ =~= bytes.take(i as int));
        assert(rest@ =~= bytes.skip(i + 1));
    }
    *pending = rest;
    *search_start = 0;
    match text_of_bytes(frame) {
        Some(text) => Ok(Some(text)),
        None => Err(InvalidFrame { bytes: copy }),
    }
}

/// Bytes that arrived and are not yet taken as messages.
pub struct Inbox {
    pending: Vec<u8>,
    search_start: usize,
}

impl View for Inbox {
    type V = Seq<u8>;

    closed spec fn view(&self) -> Seq<u8> {
        self.pending@
    }
}

impl Inbox {
    pub closed spec fn well_formed(&self) -> bool {
        searched(self.pending@, self.search_start as int)
    }

    pub fn new() -> (inbox: Inbox)
        ensures
            inbox.well_formed(),
            inbox@ == Seq::<u8>::empty(),
    {
        Inbox { pending: Vec::new(), search_start: 0 }
    }

    /// Adds bytes that arrived.
    pub fn add_bytes(&mut self, bytes: &[u8])
        requires
            old(self).well_formed(),
        ensures
            final(self).well_formed(),
            final(self)@ == old(self)@ + bytes@,
    {
        let ghost before = self.pending@;
        self.pending.extend_from_slice(bytes);
        proof {
            assert(self.pending@ =~= before + bytes@);
            assert forall|j: int| 0 <= j < self.search_start implies #[trigger] self.pending@[j]
                != 0 by {
                assert(before[j] != 0);
            }
        }
    }

    /// Takes the first message that has arrived.
    pub fn take_message(&mut self) -> (message: Result<Option<String>, InvalidFrame>)
        requires
            old(self).well_formed(),
        ensures
            final(self).well_formed(),
            ({
                let end = nul_at(old(self)@, 0);
                if end < old(self)@.len() {
                    let frame = old(self)@.take(end);
                    &&& final(self)@ == old(self)@.skip(end + 1)
                    &&& match message {
                        Ok(Some(text)) => encode_utf8(text@) == frame,
                        Err(invalid) => !valid_utf8(frame) && invalid.bytes@ == frame,
                        Ok(None) => false,
                    }
                } else {
                    &&& final(self)@ == old(self)@
                    &&& message == Ok::<Option<String>, InvalidFrame>(None)
                }
            }),
    {
        let mut pending: Vec<u8> = Vec::new();
        std::mem::swap(&mut pending, &mut self.pending);
        let mut search_start: usize = self.search_start;
        let message = take_pending_message(&mut pending, &mut search_start);
        self.pending = pending;
        self.search_start = search_start;
        message
    }
}

/// How long to sleep before the next look, none once the deadline has passed.
pub open spec fn poll_delay(now: u64, deadline: u64) -> Option<u64> {
    if deadline <= now {
        None
    } else if deadline - now <= POLL_INTERVAL {
        Some((deadline - now) as u64)
    } else {
        Some(POLL_INTERVAL)
    }
}

pub fn poll_wait(now: u64, deadline: u64) -> (wait: Option<u64>)
    ensures
        wait == poll_delay(now, deadline),
{
    if now >= deadline {
        None
    } else if deadline - now <= POLL_INTERVAL {
        Some(deadline - now)
    } else {
        Some(POLL_INTERVAL)
    }
}

/// How far the writing of a frame has come.
#[derive(Debug, PartialEq, Eq, Structural)]
pub enum WriteStep {
    /// Everything is written.
    Done,
    /// The bytes from this place on are still to be written.
    Rest(usize),
    /// Nothing was written.
    Stalled,
}

/// Goes on after some bytes of a frame of `length` bytes were written from `offset` on.
pub fn after_write(offset: usize, length: usize, written: usize) -> (step: WriteStep)
    ensures
        step == (if offset >= length {
            WriteStep::Done
        } else if written == 0 {
            WriteStep::Stalled
        } else if offset + written >= length {
            WriteStep::Done
        } else {
            WriteStep::Rest((offset + written) as usize)
        }),
{
    if offset >= length {
        WriteStep::Done
    } else if written == 0 {
        WriteStep::Stalled
    } else if written >= length - offset {
        WriteStep::Done
    } else {
        WriteStep::Rest(offset + written)
    }
}

// ---------------------------------------------------------------------------
// Laws

/// The bytes before the first zero hold none.
proof fn lemma_before_nul(bytes: Seq<u8>, i: int)
    requires
        0 <= i <= bytes.len(),
    ensures
        i <= nul_at(bytes, i) <= bytes.len(),
        forall|j: int| i <= j < nul_at(bytes, i) ==> #[trigger] bytes[j] != 0,
        nul_at(bytes, i) < bytes.len() ==> bytes[nul_at(bytes, i)] == 0,
    decreases bytes.len() - i,
{
    if i < bytes.len() && bytes[i] != 0 {
        lemma_before_nul(bytes, i + 1);
    }
}

/// A frame that was written is read back as its message, and what follows it stays, however
/// the bytes arrive.
pub proof fn lemma_frame_is_read_back(message: Seq<char>, rest: Seq<u8>)
    requires
        crate::json::without_nul(message),
    ensures
        ({
            let bytes = crate::cdp::frame_of(message) + rest;
            let end = nul_at(bytes, 0);
            &&& end < bytes.len()
            &&& bytes.take(end) == encode_utf8(message)
            &&& bytes.skip(end + 1) == rest
        }),
{
    let body = encode_utf8(message);
    let bytes = crate::cdp::frame_of(message) + rest;
    crate::cdp::lemma_bytes_without_nul(message);
    assert forall|j: int| 0 <= j < body.len() implies #[trigger] bytes[j] != 0 by {
        assert(bytes[j] == body[j]);
    }
    lemma_nul_at(bytes, 0, body.len() as int);
    assert(bytes.take(body.len() as int) =~= body);
    assert(bytes.skip(body.len() as int + 1) =~= rest);
}

/// A message that has not arrived whole is not taken: more bytes may follow.
pub proof fn lemma_partial_frame_is_kept(bytes: Seq<u8>, more: Seq<u8>)
    requires
        nul_at(bytes, 0) >= bytes.len(),
    ensures
        nul_at(bytes + more, 0) == bytes.len() + nul_at(more, 0),
{
    lemma_before_nul(bytes, 0);
    lemma_before_nul(more, 0);
    let all = bytes + more;
    let end = bytes.len() + nul_at(more, 0);
    assert forall|j: int| 0 <= j < end implies #[trigger] all[j] != 0 by {
        if j < bytes.len() {
            assert(all[j] == bytes[j]);
        } else {
            assert(all[j] == more[j - bytes.len()]);
        }
    }
    lemma_nul_at(all, 0, end);
}

} // verus!
