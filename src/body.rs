//! The body reader: a bounded reader of the request body out of the shared
//! buffer. Reading from the connection is left to the caller: where the
//! buffer runs dry before the body is done, an operation answers `None` and
//! the caller appends what the connection delivers, then asks again.
use bytes::BytesMut;
use vstd::prelude::*;

use crate::buffer::{advance_by, copy_out, pending, pending_bytes, pending_len};

verus! {

/// How far a body reader has got: it may take `limit` bytes, and took `total`.
pub struct ReaderState {
    pub limit: nat,
    pub total: nat,
}

impl ReaderState {
    pub open spec fn remaining(self) -> nat {
        (self.limit - self.total) as nat
    }

    pub open spec fn advanced(self, n: nat) -> ReaderState {
        ReaderState { limit: self.limit, total: self.total + n }
    }
}

pub open spec fn min(a: nat, b: nat) -> nat {
    if a <= b {
        a
    } else {
        b
    }
}

/// What `read` answers, and the state and unread bytes it leaves, for a
/// destination of `want` bytes.
pub open spec fn read_step(s: ReaderState, pend: Seq<u8>, want: nat) -> (
    Option<nat>,
    ReaderState,
    Seq<u8>,
) {
    if s.total >= s.limit {
        (Some(0), s, pend)
    } else if pend.len() == 0 {
        (None, s, pend)
    } else {
        let n = min(want, min(s.remaining(), pend.len()));
        (Some(n), s.advanced(n), pend.skip(n as int))
    }
}

/// What `fill_buf` shows: the unread body bytes that lie in the buffer;
/// `None` where the buffer holds none and the body is not done.
pub open spec fn fill_view(s: ReaderState, pend: Seq<u8>) -> Option<Seq<u8>> {
    if s.remaining() > 0 && pend.len() == 0 {
        None
    } else {
        Some(pend.take(min(s.remaining(), pend.len()) as int))
    }
}

/// What `drain_buffered` answers, and the state and unread bytes it leaves.
pub open spec fn drain_step(s: ReaderState, pend: Seq<u8>) -> (bool, ReaderState, Seq<u8>) {
    let n = min(s.remaining(), pend.len());
    (s.total + n >= s.limit, s.advanced(n), pend.skip(n as int))
}

/// Once a reader has taken its whole body (at once, where the body is empty),
/// `read` answers 0 and changes nothing, `fill_buf` shows no byte, and
/// draining takes no byte.
pub proof fn lemma_body_done(s: ReaderState, pend: Seq<u8>, want: nat)
    requires
        s.total == s.limit,
    ensures
        read_step(s, pend, want) == (Some(0nat), s, pend),
        fill_view(s, pend) == Some(Seq::<u8>::empty()),
        drain_step(s, pend) == (true, s, pend),
{
    assert(pend.take(0) =~= Seq::<u8>::empty());
    assert(pend.skip(0) =~= pend);
    assert(s.advanced(0) == s);
}

/// The caller's drain loop over the chunks that the connection delivers:
/// drop what is buffered; while the body is not done and the connection
/// delivers a non-empty chunk, append it and drop again. The result is the
/// reader's state, the unread bytes in the buffer, and how many chunks were
/// taken from the connection.
pub open spec fn drain_run(s: ReaderState, pend: Seq<u8>, chunks: Seq<Seq<u8>>) -> (
    ReaderState,
    Seq<u8>,
    nat,
)
    decreases chunks.len(),
{
    let (done, s2, p2) = drain_step(s, pend);
    if done || chunks.len() == 0 || chunks[0].len() == 0 {
        (s2, p2, 0)
    } else {
        let (s3, p3, k) = drain_run(s2, p2 + chunks[0], chunks.drop_first());
        (s3, p3, k + 1)
    }
}

/// Draining a reader whose connection still delivers at least the rest of
/// the body takes exactly the rest of the body: the whole body ends up taken,
/// and what stays unread, in the buffer and then on the connection, is
/// everything after the body's last byte.
pub proof fn lemma_drain_takes_rest(s: ReaderState, pend: Seq<u8>, chunks: Seq<Seq<u8>>)
    requires
        s.total <= s.limit,
        forall|i: int| 0 <= i < chunks.len() ==> (#[trigger] chunks[i]).len() > 0,
        pend.len() + chunks.flatten().len() >= s.remaining(),
    ensures
        ({
            let (s2, p2, k) = drain_run(s, pend, chunks);
            &&& s2.limit == s.limit
            &&& s2.total == s.limit
            &&& k <= chunks.len()
            &&& p2 + chunks.skip(k as int).flatten() == (pend + chunks.flatten()).skip(
                s.remaining() as int,
            )
        }),
    decreases chunks.len(),
{
    let r = s.remaining();
    if pend.len() >= r {
        assert(chunks.skip(0) =~= chunks);
        assert(pend.skip(r as int) + chunks.flatten() =~= (pend + chunks.flatten()).skip(r as int));
    } else {
        assert(chunks.len() > 0) by {
            if chunks.len() == 0 {
                assert(chunks.flatten() =~= Seq::<u8>::empty());
            }
        }
        let rest = chunks.drop_first();
        let s2 = s.advanced(pend.len());
        let p2 = pend.skip(pend.len() as int) + chunks[0];
        assert(p2 =~= chunks[0]);
        assert(chunks.flatten() == chunks[0] + rest.flatten());
        assert forall|i: int| 0 <= i < rest.len() implies (#[trigger] rest[i]).len() > 0 by {
            assert(rest[i] == chunks[i + 1]);
        }
        lemma_drain_takes_rest(s2, p2, rest);
        let (s3, p3, k) = drain_run(s2, p2, rest);
        assert(chunks.skip(k + 1 as int) =~= rest.skip(k as int));
        assert((pend + chunks.flatten()).skip(r as int) =~= chunks.flatten().skip(
            r - pend.len(),
        ));
        assert((chunks[0] + rest.flatten()) =~= chunks.flatten());
    }
}

/// A reader of at most `limit` body bytes, of which `total` were taken.
#[derive(Debug)]
pub struct BodyReader {
    body_limit: usize,
    total_read: usize,
}

impl View for BodyReader {
    type V = ReaderState;

    closed spec fn view(&self) -> ReaderState {
        ReaderState { limit: self.body_limit as nat, total: self.total_read as nat }
    }
}

impl BodyReader {
    #[verifier::type_invariant]
    closed spec fn inv(&self) -> bool {
        self.total_read <= self.body_limit
    }

    pub(crate) fn new(body_limit: usize) -> (r: BodyReader)
        ensures
            r@ == (ReaderState { limit: body_limit as nat, total: 0 }),
    {
        BodyReader { body_limit, total_read: 0 }
    }

    /// Copies body bytes that lie in the buffer into `dst`: as many as fit,
    /// are left of the body and are there. `Some(0)` once the body is done;
    /// `None` where the buffer holds no byte and the body is not done.
    pub fn read(&mut self, req_buf: &mut BytesMut, dst: &mut [u8]) -> (r: Option<usize>)
        ensures
            final(self)@.total <= final(self)@.limit,
            ({
                let (res, s, pend) = read_step(old(self)@, pending(*old(req_buf)), old(dst)@.len());
                &&& r is Some <==> res is Some
                &&& r matches Some(n) ==> res == Some(n as nat)
                &&& final(self)@ == s
                &&& pending(*final(req_buf)) == pend
                &&& final(dst)@ == pending(*old(req_buf)).take(r.unwrap_or(0) as int) + old(
                    dst,
                )@.skip(r.unwrap_or(0) as int)
            }),
    {
        proof {
            use_type_invariant(&*self);
        }
        if self.total_read >= self.body_limit {
            return Some(0);
        }
        let avail = pending_len(req_buf);
        if avail == 0 {
            return None;
        }
        let mut n = dst.len();
        if self.body_limit - self.total_read < n {
            n = self.body_limit - self.total_read;
        }
        if avail < n {
            n = avail;
        }
        copy_out(req_buf, dst, n);
        self.total_read = self.total_read + n;
        Some(n)
    }

    /// The unread body bytes that lie in the buffer, without taking them.
    pub fn fill_buf<'a>(&self, req_buf: &'a BytesMut) -> (r: Option<&'a [u8]>)
        ensures
            self@.total <= self@.limit,
            r is Some <==> fill_view(self@, pending(*req_buf)) is Some,
            r matches Some(v) ==> fill_view(self@, pending(*req_buf)) == Some(v@),
    {
        proof {
            use_type_invariant(self);
        }
        let remain = self.body_limit - self.total_read;
        let bytes = pending_bytes(req_buf);
        if remain > 0 && bytes.len() == 0 {
            return None;
        }
        let n = if remain < bytes.len() { remain } else { bytes.len() };
        let v = vstd::slice::slice_subrange(bytes, 0, n);
        assert(v@ =~= pending(*req_buf).take(n as int));
        Some(v)
    }

    /// Takes `amt` body bytes out of the buffer. Taking more than is left of
    /// the body, or more than the buffer holds, is a fault of the caller.
    pub fn consume(&mut self, req_buf: &mut BytesMut, amt: usize)
        requires
            amt <= old(self)@.remaining(),
            amt <= pending(*old(req_buf)).len(),
        ensures
            final(self)@ == old(self)@.advanced(amt as nat),
            final(self)@.total <= final(self)@.limit,
            pending(*final(req_buf)) == pending(*old(req_buf)).skip(amt as int),
    {
        proof {
            use_type_invariant(&*self);
        }
        self.total_read = self.total_read + amt;
        advance_by(req_buf, amt);
    }

    /// Drops the unread body bytes that lie in the buffer, and answers whether
    /// the whole body is now taken. Where it is not, the caller appends what
    /// the connection delivers and asks again, until the connection ends.
    pub fn drain_buffered(&mut self, req_buf: &mut BytesMut) -> (done: bool)
        ensures
            final(self)@.total <= final(self)@.limit,
            drain_step(old(self)@, pending(*old(req_buf))) == (
            done,
            final(self)@,
            pending(*final(req_buf)),
            ),
    {
        proof {
            use_type_invariant(&*self);
        }
        let remain = self.body_limit - self.total_read;
        let avail = pending_len(req_buf);
        let n = if remain < avail { remain } else { avail };
        self.consume(req_buf, n);
        self.total_read >= self.body_limit
    }
}

} // verus!
