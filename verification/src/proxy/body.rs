//! Forwarding a message body while capturing it.
//!
//! The caller moves the bytes; a `BodyForwarder` says how much to read next, what
//! an empty read means, and keeps the captured copy and the count of bytes sent.

use crate::capture::model::{capture_step, CapturedBody, CapturedBodyView};
use crate::text;
use vstd::prelude::*;

verus! {

/// The largest read the forwarder asks for.
pub const BODY_READ_CHUNK: usize = 16384;

/// Which body is forwarded; it decides the message when the sender stops early.
#[derive(Debug, Clone, Copy, PartialEq, Eq, Structural)]
pub enum BodyDirection {
    Request,
    Response,
}

/// The message when the sender closes before the announced length.
pub open spec fn closed_early_message(d: BodyDirection) -> Seq<char> {
    match d {
        BodyDirection::Request => "connection closed before full request body was sent"@,
        BodyDirection::Response => "upstream closed before full response body was sent"@,
    }
}

/// A body on its way through: what was captured, how many bytes were sent, and,
/// for a body of known length, how many are still to come.
#[derive(Debug)]
pub struct BodyForwarder {
    pub captured: CapturedBody,
    pub written: u64,
    pub length: Option<u64>,
    pub remaining: Option<u64>,
    pub max_body_size: usize,
    pub direction: BodyDirection,
}

/// What the caller does with the bytes it read.
#[derive(Debug, PartialEq, Eq, Structural)]
pub enum BodyStep {
    /// Write the bytes on; they have been captured.
    Write,
    /// The body is complete.
    Finished,
    /// The sender stopped before the announced length: fail with this message.
    ClosedEarly,
}

impl BodyForwarder {
    /// A body of known length has sent exactly what it no longer waits for; a body
    /// of unknown length waits for the end of the stream.
    pub open spec fn wf(&self) -> bool {
        match self.length {
            Some(l) => self.written <= l && self.remaining == Some((l - self.written) as u64),
            None => self.remaining is None,
        }
    }

    /// How many of the early bytes are part of the body.
    pub open spec fn initial_part(initial_len: nat, length: Option<u64>) -> nat {
        match length {
            Some(l) => if initial_len < l { initial_len } else { l as nat },
            None => initial_len,
        }
    }

    /// Starts a body whose first bytes `initial` arrived with the head; the first
    /// `r.1` of them are the caller's to write (all of them when the length is
    /// unknown, at most the length otherwise), and they are captured already.
    pub fn start(
        initial: &[u8],
        length: Option<u64>,
        max_body_size: usize,
        content_type: Option<String>,
        content_encoding: Option<String>,
        transfer_encoding: Option<String>,
        direction: BodyDirection,
    ) -> (r: (Self, usize))
        ensures
            r.0.wf(),
            r.1 == Self::initial_part(initial@.len(), length),
            r.0.captured@ == capture_step(
                CapturedBodyView {
                    content_type: crate::capture::model::opt_view(content_type),
                    content_encoding: crate::capture::model::opt_view(content_encoding),
                    transfer_encoding: crate::capture::model::opt_view(transfer_encoding),
                    ..CapturedBody::empty_view()
                },
                initial@.take(r.1 as int),
                max_body_size as nat,
            ),
            r.0.written == r.1,
            r.0.length == length,
            r.0.max_body_size == max_body_size,
            r.0.direction == direction,
    {
        let mut captured = CapturedBody::empty();
        captured.content_type = content_type;
        captured.content_encoding = content_encoding;
        captured.transfer_encoding = transfer_encoding;
        let n: usize = match length {
            Some(l) => if (initial.len() as u64) < l {
                initial.len()
            } else {
                l as usize
            },
            None => initial.len(),
        };
        let part = slice_prefix(initial, n);
        captured.push_capture(part.as_slice(), max_body_size);
        let written = n as u64;
        let remaining = match length {
            Some(l) => Some(l - written),
            None => None,
        };
        (BodyForwarder { captured, written, length, remaining, max_body_size, direction }, n)
    }

    /// How many bytes to read next: `None` once a body of known length is complete;
    /// otherwise at most `BODY_READ_CHUNK`, and no more than what remains.
    pub fn next_read_size(&self) -> (r: Option<usize>)
        ensures
            match self.remaining {
                None => r == Some(BODY_READ_CHUNK),
                Some(0) => r is None,
                Some(rem) => r == Some(if rem < BODY_READ_CHUNK { rem as usize } else { BODY_READ_CHUNK }),
            },
    {
        match self.remaining {
            None => Some(BODY_READ_CHUNK),
            Some(rem) => if rem == 0 {
                None
            } else if rem < BODY_READ_CHUNK as u64 {
                Some(rem as usize)
            } else {
                Some(BODY_READ_CHUNK)
            },
        }
    }

    /// Takes the bytes of one read. An empty read ends a body of unknown length and
    /// fails one of known length; other bytes are captured and counted, and the
    /// caller writes them on.
    pub fn on_read(&mut self, chunk: &[u8]) -> (r: BodyStep)
        requires
            old(self).wf(),
            old(self).remaining matches Some(rem) ==> chunk@.len() <= rem,
            old(self).written + chunk@.len() <= u64::MAX,
        ensures
            final(self).wf(),
            chunk@.len() == 0 ==> *final(self) == *old(self) && r == (if old(self).length is None {
                BodyStep::Finished
            } else {
                BodyStep::ClosedEarly
            }),
            chunk@.len() > 0 ==> r == BodyStep::Write && final(self).captured@ == capture_step(
                old(self).captured@,
                chunk@,
                old(self).max_body_size as nat,
            ) && final(self).written == old(self).written + chunk@.len() && final(self).length == old(self).length
                && final(self).max_body_size == old(self).max_body_size && final(self).direction == old(
                self,
            ).direction,
    {
        if chunk.len() == 0 {
            return match self.length {
                None => BodyStep::Finished,
                Some(_) => BodyStep::ClosedEarly,
            };
        }
        let n = chunk.len() as u64;
        self.captured.push_capture(chunk, self.max_body_size);
        self.written = self.written + n;
        self.remaining = match self.remaining {
            Some(rem) => Some(rem - n),
            None => None,
        };
        BodyStep::Write
    }

    /// The message for a sender that stopped early.
    pub fn closed_early_text(&self) -> (r: String)
        ensures
            r@ == closed_early_message(self.direction),
    {
        match self.direction {
            BodyDirection::Request => text::to_owned("connection closed before full request body was sent"),
            BodyDirection::Response => text::to_owned("upstream closed before full response body was sent"),
        }
    }

    /// The captured body and the count of bytes sent.
    pub fn finish(self) -> (r: (CapturedBody, u64))
        ensures
            r.0@ == self.captured@,
            r.1 == self.written,
    {
        (self.captured, self.written)
    }
}

/// A known-length body that is complete has sent exactly its length, and one that
/// is not complete asks for no more than what remains.
pub proof fn lemma_known_length_body_sends_its_length(f: BodyForwarder)
    requires
        f.wf(),
        f.length is Some,
    ensures
        f.remaining == Some(0u64) ==> f.written == f.length.unwrap(),
        f.remaining matches Some(rem) ==> f.written + rem == f.length.unwrap(),
{
}

fn slice_prefix(s: &[u8], n: usize) -> (r: Vec<u8>)
    requires
        n <= s@.len(),
    ensures
        r@ == s@.take(n as int),
{
    let mut r: Vec<u8> = Vec::new();
    let mut i: usize = 0;
    while i < n
        invariant
            0 <= i <= n <= s@.len(),
            r@ == s@.take(i as int),
        decreases n - i,
    {
        r.push(s[i]);
        proof {
            assert(s@.take(i + 1) =~= s@.take(i as int).push(s@[i as int]));
        }
        i = i + 1;
    }
    r
}

} // verus!
