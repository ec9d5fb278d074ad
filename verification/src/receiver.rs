//! The receiving side of a transfer: a state machine over the incoming bytes.
//!
//! ```text
//! AwaitMeta -> AwaitPayload(remaining) -> AwaitTrailer(remaining of 32)
//!           -> Verify -> Done | Fail
//! ```
//!
//! Payload and digest share one byte stream, so the receiver has to cut each
//! chunk where the announced payload size says. What it does with a chunk
//! depends only on the bytes it has consumed so far: every contract here is
//! stated over that stream, and so holds however the stream was cut into
//! chunks.

use crate::digest::{absorbed, digests_equal, hasher_finalize, hasher_new, hasher_update, sha256};
use crate::digest::{mismatch_report, mismatch_text};
use crate::digest::Hasher;
use crate::error::TransferError;
use crate::frame::{decode_header, header_need, lemma_header_prefix, FileMetadata, Header};
use crate::frame::{has_header, header_end, header_fault, name_end, next_boundary, parse_header};
use crate::wire::be64_at;
use vstd::prelude::*;

verus! {

/// Largest number of bytes asked of the stream in one read.
pub const CHUNK_SIZE: usize = 65536;

/// Where the receiver stands in the frame.
#[derive(Clone, Copy, Debug, PartialEq, Eq, Structural)]
#[allow(inconsistent_fields)]
pub enum ReceiveState {
    /// The metadata header is not complete yet.
    AwaitMeta,
    /// `remaining` payload bytes are still to come; never 0.
    AwaitPayload { remaining: u64 },
    /// `remaining` bytes of the 32-byte digest are still to come; never 0.
    AwaitTrailer { remaining: usize },
    /// The whole frame is there and waits for the digests to be compared.
    Verify,
    /// The payload was received and its digest matched.
    Done,
    /// The transfer failed.
    Fail,
}

/// What the receiver wants read from the stream next.
#[derive(Clone, Copy, Debug, PartialEq, Eq, Structural)]
pub enum ReadRequest {
    /// Exactly this many bytes.
    Exactly(usize),
    /// Whatever is there, up to this many bytes.
    UpTo(usize),
    /// Nothing: the frame is complete or the transfer is over.
    Nothing,
}

/// Index just behind the payload; defined once the header is there.
pub open spec fn payload_end(s: Seq<u8>) -> int {
    header_end(s) + be64_at(s, name_end(s))
}

/// Index just behind the digest: the end of the frame.
pub open spec fn frame_end(s: Seq<u8>) -> int {
    payload_end(s) + 32
}

/// What is wrong with a stream as far as it goes: a fault of its header, or
/// bytes behind the end of the frame.
pub open spec fn stream_fault(s: Seq<u8>) -> Option<TransferError> {
    if header_fault(s) is Some {
        header_fault(s)
    } else if has_header(s) && s.len() > frame_end(s) {
        Some(TransferError::TrailingData)
    } else {
        None
    }
}

/// The payload bytes that the stream holds so far.
pub open spec fn payload_seen(s: Seq<u8>) -> Seq<u8> {
    if !has_header(s) {
        Seq::empty()
    } else if s.len() < payload_end(s) {
        s.subrange(header_end(s), s.len() as int)
    } else {
        s.subrange(header_end(s), payload_end(s))
    }
}

/// The digest bytes that the stream holds so far.
pub open spec fn trailer_seen(s: Seq<u8>) -> Seq<u8> {
    if !has_header(s) || s.len() <= payload_end(s) {
        Seq::empty()
    } else if s.len() < frame_end(s) {
        s.subrange(payload_end(s), s.len() as int)
    } else {
        s.subrange(payload_end(s), frame_end(s))
    }
}

/// The state of a receiver that has consumed `s`.
pub open spec fn state_of(s: Seq<u8>) -> ReceiveState {
    if stream_fault(s) is Some {
        ReceiveState::Fail
    } else if !has_header(s) {
        ReceiveState::AwaitMeta
    } else if s.len() < payload_end(s) {
        ReceiveState::AwaitPayload { remaining: (payload_end(s) - s.len()) as u64 }
    } else if s.len() < frame_end(s) {
        ReceiveState::AwaitTrailer { remaining: (frame_end(s) - s.len()) as usize }
    } else {
        ReceiveState::Verify
    }
}

/// How a transfer ends when the stream ends after `s`: with the metadata of
/// the file received, or with the reason for which it failed.
pub open spec fn outcome_of(s: Seq<u8>) -> Result<Header, TransferError> {
    if stream_fault(s) is Some {
        Err(stream_fault(s)->0)
    } else if !has_header(s) {
        Err(TransferError::TruncatedHeader)
    } else if s.len() < payload_end(s) {
        Err(TransferError::TruncatedPayload)
    } else if s.len() < frame_end(s) {
        Err(TransferError::TruncatedTrailer)
    } else if trailer_seen(s) == sha256(payload_seen(s))@ {
        Ok(parse_header(s)->0)
    } else {
        Err(TransferError::DigestMismatch)
    }
}

/// A stream that grows to the next field boundary at most, and then holds a
/// whole header, ends with that header.
proof fn lemma_header_completed(before: Seq<u8>, after: Seq<u8>)
    requires
        before.len() <= after.len(),
        after.subrange(0, before.len() as int) == before,
        !has_header(before),
        after.len() <= next_boundary(before),
        has_header(after),
    ensures
        after.len() == header_end(after),
{
    lemma_header_prefix(before, after);
}

/// Bytes that reach behind the end of a sound frame are a fault.
proof fn lemma_trailing_data(s: Seq<u8>, rest: Seq<u8>)
    requires
        has_header(s),
        header_fault(s) is None,
        s.len() + rest.len() > frame_end(s),
    ensures
        stream_fault(s + rest) == Some(TransferError::TrailingData),
{
    assert((s + rest).subrange(0, s.len() as int) =~= s);
    lemma_header_prefix(s, s + rest);
}

/// A fault that a stream shows is the fault that every longer stream shows.
pub proof fn lemma_fault_persists(s: Seq<u8>, t: Seq<u8>)
    requires
        s.len() <= t.len(),
        t.subrange(0, s.len() as int) == s,
        stream_fault(s) is Some,
    ensures
        stream_fault(t) == stream_fault(s),
{
    lemma_header_prefix(s, t);
}

/// The payload that a stream holds is the start of the payload that every
/// longer stream holds.
pub proof fn lemma_payload_grows(s: Seq<u8>, t: Seq<u8>)
    requires
        s.len() <= t.len(),
        t.subrange(0, s.len() as int) == s,
    ensures
        payload_seen(s).len() <= payload_seen(t).len(),
        payload_seen(t).subrange(0, payload_seen(s).len() as int) == payload_seen(s),
{
    lemma_header_prefix(s, t);
    if has_header(s) {
        assert forall|i: int| 0 <= i < s.len() implies s[i] == t[i] by {
            assert(t.subrange(0, s.len() as int)[i] == t[i]);
        }
        assert(payload_seen(t).subrange(0, payload_seen(s).len() as int) =~= payload_seen(s));
    } else {
        assert(payload_seen(t).subrange(0, 0) =~= payload_seen(s));
    }
}

/// The bytes are a whole, sound header and nothing more, and the metadata
/// is what they say.
#[verifier::opaque]
spec fn header_kept(head: Seq<u8>, meta: Option<FileMetadata>) -> bool {
    &&& has_header(head)
    &&& head.len() == header_end(head)
    &&& header_fault(head) is None
    &&& meta matches Some(m) && parse_header(head) == Some(m@)
}

/// The bytes are the start of a header that shows no fault so far.
#[verifier::opaque]
spec fn header_pending(head: Seq<u8>) -> bool {
    !has_header(head) && header_fault(head) is None
}

/// The receiver of one frame.
pub struct Receiver {
    state: ReceiveState,
    head: Vec<u8>,
    meta: Option<FileMetadata>,
    hasher: Option<Hasher>,
    trailer: Vec<u8>,
    fault: Option<TransferError>,
    computed: Option<[u8; 32]>,
}

fn duplicate(meta: &FileMetadata) -> (copy: FileMetadata)
    ensures
        copy == *meta,
{
    FileMetadata {
        sender_id: meta.sender_id.clone(),
        filename: meta.filename.clone(),
        payload_size: meta.payload_size,
    }
}

impl Receiver {
    /// The payload bytes hashed so far.
    spec fn payload(&self) -> Seq<u8> {
        match self.hasher {
            Some(h) => absorbed(h),
            None => Seq::empty(),
        }
    }

    /// The header is complete and sound, and the metadata is what it says.
    spec fn framed(&self) -> bool {
        &&& self.hasher is Some
        &&& self.fault is None
        &&& header_kept(self.head@, self.meta)
    }

    /// The fields agree with each other and with the state.
    pub closed spec fn wf(&self) -> bool {
        match self.state {
            ReceiveState::Fail => {
                &&& self.fault is Some
                &&& self.fault == Some(TransferError::DigestMismatch) ==> self.computed is Some
            },
            ReceiveState::Done => self.meta is Some && self.fault is None,
            ReceiveState::AwaitMeta => {
                &&& self.hasher is Some
                &&& self.fault is None
                &&& self.meta is None
                &&& self.payload().len() == 0
                &&& self.trailer@.len() == 0
                &&& header_pending(self.head@)
            },
            ReceiveState::AwaitPayload { remaining } => {
                &&& self.framed()
                &&& remaining > 0
                &&& self.payload().len() + remaining == self.meta->0.payload_size
                &&& self.trailer@.len() == 0
            },
            ReceiveState::AwaitTrailer { remaining } => {
                &&& self.framed()
                &&& remaining > 0
                &&& self.payload().len() == self.meta->0.payload_size
                &&& self.trailer@.len() + remaining == 32
            },
            ReceiveState::Verify => {
                &&& self.framed()
                &&& self.payload().len() == self.meta->0.payload_size
                &&& self.trailer@.len() == 32
            },
        }
    }

    /// Every byte consumed so far, in order. Meaningful while the receiver
    /// is active.
    #[verifier::opaque]
    pub closed spec fn consumed(&self) -> Seq<u8> {
        self.head@ + self.payload() + self.trailer@
    }

    /// The state the receiver is in.
    pub closed spec fn spec_state(&self) -> ReceiveState {
        self.state
    }

    /// The reason for which the receiver failed, if it did.
    pub closed spec fn spec_fault(&self) -> Option<TransferError> {
        self.fault
    }

    /// The metadata, once the header is complete.
    pub closed spec fn spec_metadata(&self) -> Option<Header> {
        match self.meta {
            Some(m) => Some(m@),
            None => None,
        }
    }

    /// What to tell the user about a digest that did not match: set once the
    /// receiver has failed for that reason.
    pub closed spec fn spec_report(&self) -> Option<Seq<char>> {
        if self.fault == Some(TransferError::DigestMismatch) && self.computed is Some {
            Some(mismatch_text(self.computed->0@, self.trailer@))
        } else {
            None
        }
    }

    /// The receiver still takes bytes or waits for the end of the stream.
    pub open spec fn active(&self) -> bool {
        !(self.spec_state() is Done) && !(self.spec_state() is Fail)
    }

    /// While a receiver is active, its state, its metadata and what it has
    /// passed on are those of the stream it has consumed.
    pub proof fn lemma_follows_stream(&self)
        requires
            self.wf(),
            self.active(),
        ensures
            stream_fault(self.consumed()) is None,
            self.spec_state() == state_of(self.consumed()),
            self.spec_metadata() == parse_header(self.consumed()),
            self.spec_fault() is None,
    {
        self.lemma_parts();
    }

    proof fn lemma_parts(&self)
        requires
            self.wf(),
            !(self.state is Done),
            !(self.state is Fail),
        ensures
            stream_fault(self.consumed()) is None,
            self.state == state_of(self.consumed()),
            self.spec_metadata() == parse_header(self.consumed()),
            payload_seen(self.consumed()) == self.payload(),
            trailer_seen(self.consumed()) == self.trailer@,
            self.fault is None,
            self.hasher is Some,
            self.state is AwaitMeta ==> self.consumed() == self.head@,
            !(self.state is AwaitMeta) ==> {
                &&& has_header(self.consumed())
                &&& header_end(self.consumed()) == self.head@.len()
                &&& payload_end(self.consumed()) == self.head@.len() + self.meta->0.payload_size
            },
    {
        reveal(Receiver::consumed);
        reveal(header_kept);
        reveal(header_pending);
        let s = self.consumed();
        if self.state is AwaitMeta {
            assert(s =~= self.head@);
        } else {
            assert(s.subrange(0, self.head@.len() as int) =~= self.head@);
            lemma_header_prefix(self.head@, s);
            assert(be64_at(s, name_end(s)) == be64_at(self.head@, name_end(self.head@)));
            assert(payload_seen(s) =~= self.payload());
            assert(trailer_seen(s) =~= self.trailer@);
        }
    }

    /// More bytes than payload and digest still lack run behind the frame.
    proof fn lemma_overrun(&self, rest: Seq<u8>)
        requires
            self.wf(),
            self.state is AwaitPayload || self.state is AwaitTrailer || self.state is Verify,
            self.payload().len() + self.trailer@.len() + rest.len() > self.meta->0.payload_size
                + 32,
        ensures
            stream_fault(self.consumed() + rest) == Some(TransferError::TrailingData),
    {
        self.lemma_parts();
        reveal(Receiver::consumed);
        lemma_trailing_data(self.consumed(), rest);
    }

    /// A receiver at the start of a stream.
    pub fn new() -> (receiver: Receiver)
        ensures
            receiver.wf(),
            receiver.consumed() == Seq::<u8>::empty(),
            receiver.spec_state() == ReceiveState::AwaitMeta,
    {
        let receiver = Receiver {
            state: ReceiveState::AwaitMeta,
            head: Vec::new(),
            meta: None,
            hasher: Some(hasher_new()),
            trailer: Vec::new(),
            fault: None,
            computed: None,
        };
        assert(receiver.consumed() =~= Seq::<u8>::empty()) by {
            reveal(Receiver::consumed);
        }
        assert(header_pending(receiver.head@)) by {
            reveal(header_pending);
        }
        receiver
    }

    /// The state the receiver is in.
    pub fn state(&self) -> (state: ReceiveState)
        ensures
            state == self.spec_state(),
    {
        self.state
    }

    /// The reason for which the receiver failed, if it did.
    pub fn fault(&self) -> (fault: Option<TransferError>)
        ensures
            fault == self.spec_fault(),
    {
        self.fault
    }

    /// The metadata of the file, once the header is complete.
    pub fn metadata(&self) -> (meta: Option<FileMetadata>)
        ensures
            match meta {
                Some(m) => self.spec_metadata() == Some(m@),
                None => self.spec_metadata() is None,
            },
    {
        match &self.meta {
            Some(m) => Some(duplicate(m)),
            None => None,
        }
    }

    /// The message for a digest that did not match, with both digests in
    /// hexadecimal.
    pub fn mismatch_report(&self) -> (text: Option<String>)
        requires
            self.wf(),
        ensures
            match text {
                Some(t) => self.spec_report() == Some(t@),
                None => self.spec_report() is None,
            },
    {
        match (self.fault, &self.computed) {
            (Some(TransferError::DigestMismatch), Some(digest)) => Some(
                mismatch_report(digest, self.trailer.as_slice()),
            ),
            _ => None,
        }
    }

    /// What to read from the stream next: the header field by field, the
    /// payload in chunks, then exactly what the digest still lacks.
    pub fn next_read(&self) -> (request: ReadRequest)
        requires
            self.wf(),
        ensures
            request == match self.spec_state() {
                ReceiveState::AwaitMeta => ReadRequest::Exactly(
                    (next_boundary(self.consumed()) - self.consumed().len()) as usize,
                ),
                ReceiveState::AwaitPayload { remaining } => ReadRequest::UpTo(CHUNK_SIZE),
                ReceiveState::AwaitTrailer { remaining } => ReadRequest::Exactly(remaining),
                _ => ReadRequest::Nothing,
            },
            self.spec_state() is AwaitMeta ==> request != ReadRequest::Exactly(0),
    {
        match self.state {
            ReceiveState::AwaitMeta => {
                proof {
                    self.lemma_parts();
                }
                ReadRequest::Exactly(header_need(self.head.as_slice()))
            },
            ReceiveState::AwaitPayload { remaining } => ReadRequest::UpTo(CHUNK_SIZE),
            ReceiveState::AwaitTrailer { remaining } => ReadRequest::Exactly(remaining),
            _ => ReadRequest::Nothing,
        }
    }

    fn fail(&mut self, fault: TransferError)
        requires
            fault == TransferError::DigestMismatch ==> old(self).computed is Some,
        ensures
            final(self).wf(),
            final(self).state is Fail,
            final(self).fault == Some(fault),
            final(self).computed == old(self).computed,
            final(self).trailer == old(self).trailer,
    {
        self.state = ReceiveState::Fail;
        self.fault = Some(fault);
    }

    /// Takes `bytes`, which reach to the next field boundary of the header
    /// at most, and judges the header as far as it is there.
    fn header_step(&mut self, bytes: &[u8]) -> (out: Result<(), TransferError>)
        requires
            old(self).wf(),
            old(self).state is AwaitMeta,
            old(self).head@.len() + bytes@.len() <= next_boundary(old(self).head@),
        ensures
            final(self).wf(),
            match out {
                Ok(()) => {
                    &&& !(final(self).state is Done) && !(final(self).state is Fail)
                    &&& final(self).head@ == old(self).head@ + bytes@
                    &&& final(self).hasher == old(self).hasher
                    &&& final(self).trailer@ == old(self).trailer@
                },
                Err(e) => {
                    &&& header_fault(old(self).head@ + bytes@) == Some(e)
                    &&& final(self).state is Fail
                    &&& final(self).fault == Some(e)
                },
            },
    {
        proof {
            reveal(header_kept);
            reveal(header_pending);
        }
        self.head.extend_from_slice(bytes);
        assert(self.head@ =~= old(self).head@ + bytes@);
        match decode_header(self.head.as_slice()) {
            Err(e) => {
                self.fail(e);
                Err(e)
            },
            Ok(Some(meta)) => {
                proof {
                    assert(self.head@.subrange(0, old(self).head@.len() as int) =~= old(self).head@);
                    lemma_header_completed(old(self).head@, self.head@);
                }
                let size: u64 = meta.payload_size;
                self.meta = Some(meta);
                if size == 0 {
                    self.state = ReceiveState::AwaitTrailer { remaining: 32 };
                } else {
                    self.state = ReceiveState::AwaitPayload { remaining: size };
                }
                Ok(())
            },
            Ok(None) => Ok(()),
        }
    }

    /// Takes header bytes from the front of `chunk` until the header is
    /// complete or the chunk is used up; returns how many it took.
    fn feed_header(&mut self, chunk: &[u8]) -> (out: Result<usize, TransferError>)
        requires
            old(self).wf(),
            old(self).state is AwaitMeta,
        ensures
            final(self).wf(),
            match out {
                Ok(used) => {
                    &&& used <= chunk@.len()
                    &&& !(final(self).state is Done) && !(final(self).state is Fail)
                    &&& final(self).consumed() == old(self).consumed() + chunk@.subrange(
                        0,
                        used as int,
                    )
                    &&& final(self).payload() == old(self).payload()
                    &&& used < chunk@.len() ==> !(final(self).state is AwaitMeta)
                },
                Err(e) => {
                    &&& stream_fault(old(self).consumed() + chunk@) == Some(e)
                    &&& final(self).state is Fail
                    &&& final(self).fault == Some(e)
                },
            },
    {
        let mut used: usize = 0;
        assert(self.head@ =~= old(self).head@ + chunk@.subrange(0, 0));
        while used < chunk.len() && matches!(self.state, ReceiveState::AwaitMeta)
            invariant
                used <= chunk@.len(),
                self.wf(),
                !(self.state is Done) && !(self.state is Fail),
                self.head@ == old(self).head@ + chunk@.subrange(0, used as int),
                self.hasher == old(self).hasher,
                self.trailer@ == old(self).trailer@,
            decreases chunk@.len() - used,
        {
            proof {
                reveal(header_pending);
            }
            let need: usize = header_need(self.head.as_slice());
            let avail: usize = chunk.len() - used;
            let take: usize = if need < avail {
                need
            } else {
                avail
            };
            let ghost head_before = self.head@;
            let step = self.header_step(&chunk[used..used + take]);
            proof {
                assert(head_before + chunk@.subrange(used as int, used + take) =~= old(self).head@
                    + chunk@.subrange(0, used + take));
            }
            match step {
                Ok(()) => {
                    used = used + take;
                },
                Err(e) => {
                    proof {
                        let part = old(self).head@ + chunk@.subrange(0, used + take);
                        let whole = old(self).head@ + chunk@;
                        assert(whole.subrange(0, part.len() as int) =~= part);
                        lemma_header_prefix(part, whole);
                        assert(old(self).consumed() =~= old(self).head@) by {
                            reveal(Receiver::consumed);
                        }
                    }
                    return Err(e);
                },
            }
        }
        proof {
            reveal(Receiver::consumed);
            assert(old(self).consumed() =~= old(self).head@);
            assert(self.consumed() =~= self.head@);
        }
        Ok(used)
    }

    /// Takes `rest`, which lies behind the header: payload bytes go to the
    /// hasher and to `sink`, digest bytes to the trailer.
    fn feed_body(&mut self, rest: &[u8], sink: &mut Vec<u8>) -> (out: Result<(), TransferError>)
        requires
            old(self).wf(),
            !(old(self).state is Done) && !(old(self).state is Fail) && !(old(
                self,
            ).state is AwaitMeta),
            rest@.len() > 0,
        ensures
            final(self).wf(),
            match out {
                Ok(()) => {
                    &&& !(final(self).state is Done) && !(final(self).state is Fail)
                    &&& final(self).consumed() == old(self).consumed() + rest@
                    &&& final(sink)@ == old(sink)@ + final(self).payload().skip(
                        old(self).payload().len() as int,
                    )
                },
                Err(e) => {
                    &&& stream_fault(old(self).consumed() + rest@) == Some(e)
                    &&& final(self).state is Fail
                    &&& final(self).fault == Some(e)
                    &&& final(sink)@ == old(sink)@
                },
            },
    {
        let mut want_payload: u64 = 0;
        let mut want_trailer: usize = 0;
        match self.state {
            ReceiveState::AwaitPayload { remaining } => {
                want_payload = remaining;
                want_trailer = 32;
            },
            ReceiveState::AwaitTrailer { remaining } => {
                want_trailer = remaining;
            },
            _ => {},
        }
        let len: usize = rest.len();
        if len as u64 > want_payload && len as u64 - want_payload > want_trailer as u64 {
            proof {
                self.lemma_overrun(rest@);
            }
            self.fail(TransferError::TrailingData);
            return Err(TransferError::TrailingData);
        }
        let split: usize = if (len as u64) < want_payload {
            len
        } else {
            want_payload as usize
        };
        if split > 0 {
            let part = &rest[0..split];
            let mut hasher = self.hasher.take().unwrap();
            hasher_update(&mut hasher, part);
            self.hasher = Some(hasher);
            sink.extend_from_slice(part);
            let left: u64 = want_payload - split as u64;
            if left == 0 {
                self.state = ReceiveState::AwaitTrailer { remaining: 32 };
            } else {
                self.state = ReceiveState::AwaitPayload { remaining: left };
            }
            assert(self.payload() =~= old(self).payload() + rest@.subrange(0, split as int));
        }
        if split < len {
            let part = &rest[split..len];
            self.trailer.extend_from_slice(part);
            let left: usize = want_trailer - (len - split);
            if left == 0 {
                self.state = ReceiveState::Verify;
            } else {
                self.state = ReceiveState::AwaitTrailer { remaining: left };
            }
            assert(self.trailer@ =~= old(self).trailer@ + rest@.subrange(split as int, len as int));
        }
        assert(self.consumed() =~= old(self).consumed() + rest@) by {
            reveal(Receiver::consumed);
        }
        assert(sink@ =~= old(sink)@ + self.payload().skip(old(self).payload().len() as int));
        Ok(())
    }

    /// Consumes the next chunk of the stream, of any length. The payload
    /// bytes in it are appended to `sink`, in order; header and digest bytes
    /// are kept by the receiver.
    ///
    /// The chunk is refused, and the receiver fails, exactly when the stream
    /// with this chunk shows a fault: a text that is not UTF-8, an unsafe
    /// file name, or bytes behind the digest. Nothing is written to `sink`
    /// then. A receiver that is done or has failed refuses every chunk.
    pub fn feed(&mut self, chunk: &[u8], sink: &mut Vec<u8>) -> (out: Result<(), TransferError>)
        requires
            old(self).wf(),
        ensures
            final(self).wf(),
            old(self).active() ==> match out {
                Ok(()) => {
                    &&& final(self).active()
                    &&& final(self).consumed() == old(self).consumed() + chunk@
                    &&& stream_fault(final(self).consumed()) is None
                    &&& final(self).spec_state() == state_of(final(self).consumed())
                    &&& final(sink)@ == old(sink)@ + payload_seen(final(self).consumed()).skip(
                        payload_seen(old(self).consumed()).len() as int,
                    )
                },
                Err(e) => {
                    &&& stream_fault(old(self).consumed() + chunk@) == Some(e)
                    &&& final(self).spec_state() is Fail
                    &&& final(self).spec_fault() == Some(e)
                    &&& final(sink)@ == old(sink)@
                },
            },
            !old(self).active() ==> {
                &&& *final(self) == *old(self)
                &&& final(sink)@ == old(sink)@
                &&& out == Err::<(), TransferError>(
                    if old(self).spec_state() is Fail {
                        old(self).spec_fault()->0
                    } else {
                        TransferError::TrailingData
                    },
                )
            },
    {
        match self.state {
            ReceiveState::Done => {
                return Err(TransferError::TrailingData);
            },
            ReceiveState::Fail => {
                return Err(self.fault.unwrap());
            },
            _ => {},
        }
        let ghost before = self.consumed();
        let ghost before_payload = self.payload();
        proof {
            self.lemma_parts();
        }
        let mut used: usize = 0;
        if matches!(self.state, ReceiveState::AwaitMeta) {
            match self.feed_header(chunk) {
                Ok(n) => {
                    used = n;
                },
                Err(e) => {
                    return Err(e);
                },
            }
        } else {
            assert(before =~= before + chunk@.subrange(0, 0));
        }
        if used == chunk.len() {
            proof {
                self.lemma_parts();
                assert(chunk@.subrange(0, used as int) =~= chunk@);
                assert(before_payload.skip(before_payload.len() as int) =~= Seq::<u8>::empty());
                assert(sink@ =~= sink@ + Seq::<u8>::empty());
            }
            return Ok(());
        }
        let rest = &chunk[used..chunk.len()];
        assert(before + chunk@.subrange(0, used as int) + rest@ =~= before + chunk@);
        match self.feed_body(rest, sink) {
            Ok(()) => {
                proof {
                    self.lemma_parts();
                }
                Ok(())
            },
            Err(e) => Err(e),
        }
    }

    /// Ends the transfer at the end of the stream. With the whole frame
    /// consumed the digests are compared, in constant time; anything less is
    /// a truncated stream. The receiver is done or has failed afterwards, and
    /// says the same again when asked again.
    pub fn finish(&mut self) -> (out: Result<FileMetadata, TransferError>)
        requires
            old(self).wf(),
        ensures
            final(self).wf(),
            !final(self).active(),
            old(self).active() ==> match outcome_of(old(self).consumed()) {
                Ok(header) => {
                    &&& out matches Ok(meta) && meta@ == header
                    &&& final(self).spec_state() is Done
                    &&& final(self).spec_metadata() == Some(header)
                },
                Err(e) => {
                    &&& out matches Err(f) && f == e
                    &&& final(self).spec_state() is Fail
                    &&& final(self).spec_fault() == Some(e)
                    &&& final(self).spec_report() == if e == TransferError::DigestMismatch {
                        Some(
                            mismatch_text(
                                sha256(payload_seen(old(self).consumed()))@,
                                trailer_seen(old(self).consumed()),
                            ),
                        )
                    } else {
                        None
                    }
                },
            },
            old(self).spec_state() is Done ==> {
                &&& out matches Ok(meta) && Some(meta@) == old(self).spec_metadata()
                &&& final(self).spec_state() is Done
                &&& final(self).spec_metadata() == old(self).spec_metadata()
            },
            old(self).spec_state() is Fail ==> {
                &&& out matches Err(f) && Some(f) == old(self).spec_fault()
                &&& final(self).spec_state() is Fail
                &&& final(self).spec_fault() == old(self).spec_fault()
            },
    {
        proof {
            if self.active() {
                self.lemma_parts();
            }
        }
        match self.state {
            ReceiveState::Done => match &self.meta {
                Some(m) => Ok(duplicate(m)),
                None => Err(TransferError::TruncatedHeader),
            },
            ReceiveState::Fail => Err(self.fault.unwrap()),
            ReceiveState::AwaitMeta => {
                self.fail(TransferError::TruncatedHeader);
                Err(TransferError::TruncatedHeader)
            },
            ReceiveState::AwaitPayload { remaining } => {
                self.fail(TransferError::TruncatedPayload);
                Err(TransferError::TruncatedPayload)
            },
            ReceiveState::AwaitTrailer { remaining } => {
                self.fail(TransferError::TruncatedTrailer);
                Err(TransferError::TruncatedTrailer)
            },
            ReceiveState::Verify => {
                let hasher = self.hasher.take().unwrap();
                let digest = hasher_finalize(hasher);
                self.computed = Some(digest);
                if digests_equal(&digest, self.trailer.as_slice()) {
                    self.state = ReceiveState::Done;
                    match &self.meta {
                        Some(m) => Ok(duplicate(m)),
                        None => Err(TransferError::TruncatedHeader),
                    }
                } else {
                    self.fail(TransferError::DigestMismatch);
                    Err(TransferError::DigestMismatch)
                }
            },
        }
    }
}

} // verus!
