//! Framing of datagrams on an L2CAP stream.
//!
//! A stream starts with the sender's key, 32 bytes without a header. Every
//! datagram then follows as a frame: its length in two bytes, least
//! significant first, and its bytes.

use vstd::prelude::*;
use vstd::slice::slice_subrange;
use vstd::string::StringExecFns;

use crate::bytes::{le16, le16_value, two_bytes_are_read_back, u16_bytes, u16_of};
use crate::error::{IoError, IoErrorView};
use crate::peer::ErrorKind;
use crate::text::{append_decimal, decimal};

verus! {

/// The longest datagram that is sent, in bytes.
pub const MAX_DATAGRAM_SIZE: usize = 1472;

/// How many bytes a frame has besides its datagram.
pub const FRAME_OVERHEAD: usize = 2;

/// The frame of a datagram.
pub open spec fn frame(payload: Seq<u8>) -> Seq<u8> {
    le16(payload.len() as u16) + payload
}

/// What is at the front of a stream that has ended.
#[verifier::ext_equal]
pub enum FrontView {
    /// Nothing: the stream ended between two frames.
    End,
    /// A datagram, and what follows its frame.
    Datagram { payload: Seq<u8>, rest: Seq<u8> },
    /// A frame that is too long or cut off.
    Broken(IoErrorView),
}

pub open spec fn cut_off() -> FrontView {
    FrontView::Broken(IoErrorView { kind: ErrorKind::UnexpectedEof, message: "early eof"@ })
}

pub open spec fn too_long(len: nat) -> IoErrorView {
    IoErrorView {
        kind: ErrorKind::InvalidData,
        message: "frame length "@ + decimal(len) + " exceeds MAX_DATAGRAM_SIZE"@,
    }
}

/// What is at the front of a stream that has ended.
pub open spec fn front(stream: Seq<u8>) -> FrontView {
    if stream.len() == 0 {
        FrontView::End
    } else if stream.len() == 1 {
        cut_off()
    } else {
        let len = le16_value(stream.take(2)) as int;
        if len > MAX_DATAGRAM_SIZE {
            FrontView::Broken(too_long(len as nat))
        } else if stream.len() < 2 + len {
            cut_off()
        } else {
            FrontView::Datagram {
                payload: stream.subrange(2, 2 + len),
                rest: stream.skip(2 + len),
            }
        }
    }
}

/// The bytes to write for a datagram.
pub fn write_framed_datagram(payload: &[u8]) -> (r: Result<Vec<u8>, IoError>)
    ensures
        match r {
            Ok(bytes) => payload@.len() <= MAX_DATAGRAM_SIZE && bytes@ == frame(payload@),
            Err(e) => payload@.len() > MAX_DATAGRAM_SIZE && e@ == (IoErrorView {
                kind: ErrorKind::InvalidInput,
                message: "datagram exceeds MAX_DATAGRAM_SIZE"@,
            }),
        },
{
    if payload.len() > MAX_DATAGRAM_SIZE {
        return Err(IoError::new(ErrorKind::InvalidInput, "datagram exceeds MAX_DATAGRAM_SIZE"));
    }
    let mut bytes = u16_bytes(payload.len() as u16);
    let ghost head = bytes@;
    bytes.extend_from_slice(payload);
    assert(bytes@ =~= head + payload@);
    Ok(bytes)
}

/// The length that a frame header announces.
pub fn frame_length(header: &[u8]) -> (r: Result<usize, IoError>)
    requires
        header@.len() == 2,
    ensures
        match r {
            Ok(len) => len == le16_value(header@) && len <= MAX_DATAGRAM_SIZE,
            Err(e) => le16_value(header@) > MAX_DATAGRAM_SIZE && e@ == too_long(
                le16_value(header@) as nat,
            ),
        },
{
    let len = u16_of(header) as usize;
    if len > MAX_DATAGRAM_SIZE {
        let mut message = "frame length ".to_owned();
        append_decimal(&mut message, len as u64);
        message.append(" exceeds MAX_DATAGRAM_SIZE");
        return Err(IoError { kind: ErrorKind::InvalidData, message });
    }
    Ok(len)
}

/// What is at the front of a stream of which more may come.
#[verifier::ext_equal]
pub enum ArrivedView {
    /// No whole frame yet.
    Waiting,
    /// A datagram, and what follows its frame.
    Datagram { payload: Seq<u8>, rest: Seq<u8> },
    /// A frame that is too long.
    Broken(IoErrorView),
}

/// What is at the front of a stream of which more may come.
pub open spec fn arrived(stream: Seq<u8>) -> ArrivedView {
    if stream.len() < 2 {
        ArrivedView::Waiting
    } else {
        let len = le16_value(stream.take(2)) as int;
        if len > MAX_DATAGRAM_SIZE {
            ArrivedView::Broken(too_long(len as nat))
        } else if stream.len() < 2 + len {
            ArrivedView::Waiting
        } else {
            ArrivedView::Datagram {
                payload: stream.subrange(2, 2 + len),
                rest: stream.skip(2 + len),
            }
        }
    }
}

/// The datagram at the front of what has arrived and how many bytes its frame
/// took, or nothing if the frame is not all there.
fn first_frame(stream: &[u8]) -> (r: Result<Option<(Vec<u8>, usize)>, IoError>)
    ensures
        match r {
            Ok(None) => arrived(stream@) is Waiting,
            Ok(Some((payload, used))) => used == 2 + payload@.len() && used <= stream@.len()
                && arrived(stream@) == (ArrivedView::Datagram {
                payload: payload@,
                rest: stream@.skip(used as int),
            }),
            Err(e) => arrived(stream@) == ArrivedView::Broken(e@),
        },
{
    if stream.len() < 2 {
        return Ok(None);
    }
    let header = slice_subrange(stream, 0, 2);
    assert(header@ =~= stream@.take(2));
    match frame_length(header) {
        Err(e) => Err(e),
        Ok(len) => {
            if stream.len() - 2 < len {
                return Ok(None);
            }
            let body = slice_subrange(stream, 2, 2 + len);
            let mut payload: Vec<u8> = Vec::new();
            payload.extend_from_slice(body);
            assert(payload@ =~= body@);
            Ok(Some((payload, 2 + len)))
        },
    }
}

/// Takes the datagram off the front of a stream that has ended: the datagram
/// and how many bytes its frame took, or nothing if no frame follows.
pub fn read_framed_datagram(stream: &[u8]) -> (r: Result<Option<(Vec<u8>, usize)>, IoError>)
    ensures
        match r {
            Ok(None) => front(stream@) is End,
            Ok(Some((payload, used))) => used == 2 + payload@.len() && used <= stream@.len()
                && front(stream@) == (FrontView::Datagram {
                payload: payload@,
                rest: stream@.skip(used as int),
            }),
            Err(e) => front(stream@) == FrontView::Broken(e@),
        },
{
    match first_frame(stream) {
        Ok(None) => {
            if stream.len() == 0 {
                Ok(None)
            } else {
                Err(IoError::new(ErrorKind::UnexpectedEof, "early eof"))
            }
        },
        found => found,
    }
}

/// Reads datagrams off a stream, piece by piece as the stream comes in. Its view
/// is what has come in and has not been read.
#[derive(Debug)]
pub struct FrameReader {
    unread: Vec<u8>,
}

impl View for FrameReader {
    type V = Seq<u8>;

    closed spec fn view(&self) -> Seq<u8> {
        self.unread@
    }
}

impl FrameReader {
    pub fn new() -> (r: Self)
        ensures
            r@ == Seq::<u8>::empty(),
    {
        FrameReader { unread: Vec::new() }
    }

    /// Takes in the next piece of the stream.
    pub fn push(&mut self, bytes: &[u8])
        ensures
            final(self)@ == old(self)@ + bytes@,
    {
        self.unread.extend_from_slice(bytes);
        assert(self@ =~= old(self)@ + bytes@);
    }

    /// Takes the next datagram off the front, if it is all there. After an error
    /// there is nothing more to read.
    pub fn next_datagram(&mut self) -> (r: Result<Option<Vec<u8>>, IoError>)
        ensures
            match r {
                Ok(Some(payload)) => arrived(old(self)@) == (ArrivedView::Datagram {
                    payload: payload@,
                    rest: final(self)@,
                }) && payload@.len() <= MAX_DATAGRAM_SIZE,
                Ok(None) => arrived(old(self)@) is Waiting && final(self)@ == old(self)@,
                Err(e) => arrived(old(self)@) == ArrivedView::Broken(e@) && final(self)@ == old(
                    self,
                )@,
            },
    {
        match first_frame(self.unread.as_slice()) {
            Err(e) => Err(e),
            Ok(None) => Ok(None),
            Ok(Some((payload, used))) => {
                let mut rest: Vec<u8> = Vec::new();
                rest.extend_from_slice(
                    slice_subrange(self.unread.as_slice(), used, self.unread.len()),
                );
                assert(rest@ =~= self.unread@.skip(used as int));
                self.unread = rest;
                Ok(Some(payload))
            },
        }
    }

    /// The stream has ended: it does so properly between two frames only.
    pub fn end(&self) -> (r: Result<(), IoError>)
        ensures
            match r {
                Ok(()) => self@.len() == 0,
                Err(e) => self@.len() > 0 && FrontView::Broken(e@) == cut_off(),
            },
    {
        if self.unread.len() == 0 {
            Ok(())
        } else {
            Err(IoError::new(ErrorKind::UnexpectedEof, "early eof"))
        }
    }
}

/// What is read while a stream comes in is what is at its front once it has
/// ended; a frame that is still awaited is then cut off.
pub proof fn arrivals_are_at_the_front(stream: Seq<u8>)
    ensures
        front(stream) == match arrived(stream) {
            ArrivedView::Datagram { payload, rest } => FrontView::Datagram { payload, rest },
            ArrivedView::Broken(e) => FrontView::Broken(e),
            ArrivedView::Waiting => if stream.len() == 0 {
                FrontView::End
            } else {
                cut_off()
            },
        },
{
}

/// What has been read once stays so, whatever comes in later.
pub proof fn arrivals_are_final(stream: Seq<u8>, more: Seq<u8>)
    ensures
        match arrived(stream) {
            ArrivedView::Datagram { payload, rest } => arrived(stream + more) == (
            ArrivedView::Datagram { payload, rest: rest + more }),
            ArrivedView::Broken(e) => arrived(stream + more) == ArrivedView::Broken(e),
            ArrivedView::Waiting => true,
        },
{
    if stream.len() >= 2 {
        assert((stream + more).take(2) =~= stream.take(2));
        let len = le16_value(stream.take(2)) as int;
        if len <= MAX_DATAGRAM_SIZE && stream.len() >= 2 + len {
            assert((stream + more).subrange(2, 2 + len) =~= stream.subrange(2, 2 + len));
            assert((stream + more).skip(2 + len) =~= stream.skip(2 + len) + more);
        }
    }
}

/// What is left of a stream once every datagram that is all there has been read.
pub open spec fn left_unread(stream: Seq<u8>) -> Seq<u8>
    decreases stream.len(),
{
    match arrived(stream) {
        ArrivedView::Datagram { rest, .. } => if rest.len() < stream.len() {
            left_unread(rest)
        } else {
            stream
        },
        _ => stream,
    }
}

/// It does not matter in which pieces a stream comes in: the datagrams read
/// from a first piece, and those read once more has come in, are those of the
/// whole.
pub proof fn pieces_do_not_matter(first: Seq<u8>, more: Seq<u8>)
    ensures
        datagrams(first) + datagrams(left_unread(first) + more) == datagrams(first + more),
        left_unread(left_unread(first) + more) == left_unread(first + more),
    decreases first.len(),
{
    arrivals_are_at_the_front(first);
    arrivals_are_at_the_front(first + more);
    arrivals_are_final(first, more);
    match arrived(first) {
        ArrivedView::Datagram { payload, rest } => {
            pieces_do_not_matter(rest, more);
            assert(seq![payload] + datagrams(rest) + datagrams(left_unread(rest) + more)
                =~= seq![payload] + (datagrams(rest) + datagrams(left_unread(rest) + more)));
        },
        _ => {
            assert(datagrams(first) + datagrams(first + more) =~= datagrams(first + more));
        },
    }
}

/// A framed datagram is read back as it was, whatever follows it.
pub proof fn datagrams_survive_framing(payload: Seq<u8>, rest: Seq<u8>)
    requires
        payload.len() <= MAX_DATAGRAM_SIZE,
    ensures
        front(frame(payload) + rest) == (FrontView::Datagram { payload, rest }),
{
    two_bytes_are_read_back(payload.len() as u16, Seq::empty());
    let head = le16(payload.len() as u16);
    let stream = frame(payload) + rest;
    assert(stream.take(2) =~= head);
    assert(stream.subrange(2, 2 + payload.len() as int) =~= payload);
    assert(stream.skip(2 + payload.len() as int) =~= rest);
}

/// Datagrams framed one after the other.
pub open spec fn frames(payloads: Seq<Seq<u8>>) -> Seq<u8>
    decreases payloads.len(),
{
    if payloads.len() == 0 {
        Seq::empty()
    } else {
        frame(payloads[0]) + frames(payloads.skip(1))
    }
}

/// The datagrams at the front of a stream, up to its end or the first broken
/// frame.
pub open spec fn datagrams(stream: Seq<u8>) -> Seq<Seq<u8>>
    decreases stream.len(),
{
    match front(stream) {
        FrontView::Datagram { payload, rest } => if rest.len() < stream.len() {
            seq![payload] + datagrams(rest)
        } else {
            Seq::empty()
        },
        _ => Seq::empty(),
    }
}

/// Datagrams written back to back are read back in order, none lost, none cut.
pub proof fn back_to_back_datagrams_are_read_in_order(payloads: Seq<Seq<u8>>)
    requires
        forall|i: int| 0 <= i < payloads.len() ==> (#[trigger] payloads[i]).len() <= MAX_DATAGRAM_SIZE,
    ensures
        datagrams(frames(payloads)) == payloads,
    decreases payloads.len(),
{
    if payloads.len() > 0 {
        let rest = payloads.skip(1);
        assert forall|i: int| 0 <= i < rest.len() implies (#[trigger] rest[i]).len()
            <= MAX_DATAGRAM_SIZE by {
            assert(rest[i] == payloads[i + 1]);
        }
        back_to_back_datagrams_are_read_in_order(rest);
        datagrams_survive_framing(payloads[0], frames(rest));
        assert(seq![payloads[0]] + rest =~= payloads);
    }
}

/// A frame that is cut off anywhere yields no datagram.
pub proof fn cut_off_frames_yield_nothing(payload: Seq<u8>, n: int)
    requires
        payload.len() <= MAX_DATAGRAM_SIZE,
        0 < n < frame(payload).len(),
    ensures
        front(frame(payload).take(n)) == cut_off(),
{
    two_bytes_are_read_back(payload.len() as u16, Seq::empty());
    let head = le16(payload.len() as u16);
    if n >= 2 {
        assert(frame(payload).take(n).take(2) =~= head);
    }
}

/// The key at the front of a stream, of which `stream` arrived before it ended
/// or the wait for it did.
pub fn read_identity(stream: &[u8], timed_out: bool) -> (r: Result<[u8; 32], IoError>)
    ensures
        match r {
            Ok(id) => stream@.len() >= 32 && id@ == stream@.take(32),
            Err(e) => stream@.len() < 32 && e@ == if timed_out {
                IoErrorView {
                    kind: ErrorKind::TimedOut,
                    message: "timed out waiting for identity"@,
                }
            } else {
                IoErrorView { kind: ErrorKind::UnexpectedEof, message: "early eof"@ }
            },
        },
{
    if stream.len() < 32 {
        if timed_out {
            return Err(IoError::new(ErrorKind::TimedOut, "timed out waiting for identity"));
        }
        return Err(IoError::new(ErrorKind::UnexpectedEof, "early eof"));
    }
    let mut id: [u8; 32] = [0; 32];
    let mut i: usize = 0;
    while i < 32
        invariant
            i <= 32,
            stream@.len() >= 32,
            forall|j: int| 0 <= j < i ==> id@[j] == stream@[j],
        decreases 32 - i,
    {
        id[i] = stream[i];
        i = i + 1;
    }
    assert(id@ =~= stream@.take(32));
    Ok(id)
}

/// The bytes with which a node introduces itself.
pub fn write_identity(id: &[u8; 32]) -> (bytes: Vec<u8>)
    ensures
        bytes@ == id@,
{
    let mut bytes: Vec<u8> = Vec::new();
    bytes.extend_from_slice(id.as_slice());
    assert(bytes@ =~= id@);
    bytes
}

/// A frame is the length of its datagram in two bytes, the lower one first, and
/// the datagram. The same two bytes are what a reader goes by: more than 1472
/// are refused, fewer are waited for, and what follows is left for the next
/// frame.
pub proof fn frames_start_with_their_length(payload: Seq<u8>, stream: Seq<u8>)
    requires
        payload.len() <= 1472,
    ensures
        frame(payload).len() == payload.len() + 2,
        frame(payload)[0] + 256 * frame(payload)[1] == payload.len(),
        frame(payload).skip(2) == payload,
        ({
            let len = stream[0] + 256 * stream[1];
            if stream.len() < 2 {
                arrived(stream) is Waiting
            } else if len > 1472 {
                arrived(stream) matches ArrivedView::Broken(e) && e.kind is InvalidData && e.message
                    == "frame length "@ + decimal(len as nat) + " exceeds MAX_DATAGRAM_SIZE"@
            } else if stream.len() - 2 < len {
                arrived(stream) is Waiting
            } else {
                arrived(stream) matches ArrivedView::Datagram { payload: p, rest } && p.len() == len
                    && stream.skip(2) == p + rest
            }
        }),
{
    two_bytes_are_read_back(payload.len() as u16, Seq::empty());
    assert(frame(payload).skip(2) =~= payload);
    if stream.len() >= 2 {
        let len = stream[0] + 256 * stream[1];
        assert(stream.take(2)[0] == stream[0] && stream.take(2)[1] == stream[1]);
        if stream.len() >= 2 + len {
            assert(stream.skip(2) =~= stream.subrange(2, 2 + len) + stream.skip(2 + len));
        }
    }
}

/// What is at the front of a stream that has ended: what would be there if more
/// could come, except that nothing is the end, and a frame that is not all there
/// is cut off for good.
pub proof fn ended_streams_hold_no_more(stream: Seq<u8>)
    ensures
        front(stream) == match arrived(stream) {
            ArrivedView::Waiting => if stream.len() == 0 {
                FrontView::End
            } else {
                FrontView::Broken(
                    IoErrorView { kind: ErrorKind::UnexpectedEof, message: "early eof"@ },
                )
            },
            ArrivedView::Datagram { payload, rest } => FrontView::Datagram { payload, rest },
            ArrivedView::Broken(e) => FrontView::Broken(e),
        },
{
}

} // verus!
