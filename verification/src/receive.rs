//! Handing received datagrams to the user.

use vstd::prelude::*;

use crate::driver::IncomingPacket;
use crate::error::{IoError, IoErrorView};
use crate::peer::ErrorKind;
use crate::routing::{token_addr, token_custom_addr, token_of, CustomAddr};

verus! {

/// What the channel of received datagrams gave.
#[derive(Clone, Copy, PartialEq, Eq, Structural, Debug)]
pub enum ChannelPoll {
    /// Nothing yet.
    Pending,
    /// Nothing any more.
    Closed,
    /// A datagram of this length.
    Datagram { len: usize },
}

/// What to do after the channel was asked.
#[derive(Debug)]
pub enum RecvStep {
    /// The datagram is dropped; ask again.
    Drop { empty: bool },
    /// Put the datagram into this buffer; ask again if there is another one.
    Deliver { slot: usize },
    /// Tell the user.
    Return(Result<usize, IoError>),
    /// Wait until the channel has something.
    Park,
}

#[verifier::ext_equal]
pub enum RecvStepView {
    Drop { empty: bool },
    Deliver { slot: nat },
    Return(Result<nat, IoErrorView>),
    Park,
}

impl View for RecvStep {
    type V = RecvStepView;

    open spec fn view(&self) -> RecvStepView {
        match *self {
            RecvStep::Drop { empty } => RecvStepView::Drop { empty },
            RecvStep::Deliver { slot } => RecvStepView::Deliver { slot: slot as nat },
            RecvStep::Return(Ok(n)) => RecvStepView::Return(Ok(n as nat)),
            RecvStep::Return(Err(e)) => RecvStepView::Return(Err(e@)),
            RecvStep::Park => RecvStepView::Park,
        }
    }
}

/// One call of the user: how many buffers there are and how many are filled.
#[derive(Clone, Copy, PartialEq, Eq, Structural, Debug)]
pub struct RecvBatch {
    pub capacity: usize,
    pub filled: usize,
}

impl RecvBatch {
    /// What the answer of the channel does. `buf_len` is the room in the next
    /// buffer. With `drop_empty`, datagrams of length zero are dropped.
    pub open spec fn next(self, poll: ChannelPoll, buf_len: usize, drop_empty: bool) -> (
        RecvBatch,
        RecvStepView,
    ) {
        match poll {
            ChannelPoll::Pending => (
                self,
                if self.filled == 0 {
                    RecvStepView::Park
                } else {
                    RecvStepView::Return(Ok(self.filled as nat))
                },
            ),
            ChannelPoll::Closed => (
                self,
                RecvStepView::Return(
                    Err(
                        IoErrorView {
                            kind: ErrorKind::Other,
                            message: "BLE transport channel closed"@,
                        },
                    ),
                ),
            ),
            ChannelPoll::Datagram { len } => if drop_empty && len == 0 {
                (self, RecvStepView::Drop { empty: true })
            } else if buf_len < len {
                (self, RecvStepView::Drop { empty: false })
            } else {
                (
                    RecvBatch { filled: (self.filled + 1) as usize, ..self },
                    RecvStepView::Deliver { slot: self.filled as nat },
                )
            },
        }
    }

    /// Starts a call with so many buffers, length fields and address fields.
    pub fn begin(bufs: usize, metas: usize, addrs: usize) -> (b: Self)
        ensures
            b.filled == 0,
            b.capacity <= bufs,
            b.capacity <= metas,
            b.capacity <= addrs,
            b.capacity == bufs || b.capacity == metas || b.capacity == addrs,
    {
        let mut capacity: usize = bufs;
        if metas < capacity {
            capacity = metas;
        }
        if addrs < capacity {
            capacity = addrs;
        }
        RecvBatch { capacity, filled: 0 }
    }

    /// Whether every buffer is filled. The user is told how many there are.
    pub fn is_full(&self) -> (r: bool)
        ensures
            r == (self.filled >= self.capacity),
    {
        self.filled >= self.capacity
    }

    /// What to do after the channel was asked.
    pub fn on_poll(&mut self, poll: ChannelPoll, buf_len: usize, drop_empty: bool) -> (step: RecvStep)
        requires
            old(self).filled < old(self).capacity,
        ensures
            (*final(self), step@) == old(self).next(poll, buf_len, drop_empty),
            final(self).filled <= final(self).capacity,
    {
        match poll {
            ChannelPoll::Pending => {
                if self.filled == 0 {
                    RecvStep::Park
                } else {
                    RecvStep::Return(Ok(self.filled))
                }
            },
            ChannelPoll::Closed => RecvStep::Return(
                Err(IoError::new(ErrorKind::Other, "BLE transport channel closed")),
            ),
            ChannelPoll::Datagram { len } => {
                if drop_empty && len == 0 {
                    RecvStep::Drop { empty: true }
                } else if buf_len < len {
                    RecvStep::Drop { empty: false }
                } else {
                    let slot: usize = self.filled;
                    self.filled = self.filled + 1;
                    RecvStep::Deliver { slot }
                }
            },
        }
    }
}

/// What the transport has counted of received datagrams. Counts wrap around.
#[derive(Clone, Copy, PartialEq, Eq, Structural, Debug)]
pub struct BleEndpoint {
    pub rx_bytes: u64,
    pub empty_frames: u64,
}

/// What becomes of a received datagram.
#[derive(Debug)]
pub enum Received {
    /// It goes into this buffer, with this source address.
    Delivered { slot: usize, source: CustomAddr },
    /// It is dropped.
    Dropped,
}

impl BleEndpoint {
    pub fn new() -> (e: Self)
        ensures
            e == (BleEndpoint { rx_bytes: 0, empty_frames: 0 }),
    {
        BleEndpoint { rx_bytes: 0, empty_frames: 0 }
    }

    /// Takes a received datagram. It is delivered under the address of the pipe
    /// that it came over, so that an answer goes out over the same pipe. An
    /// empty one is dropped and counted; one that does not fit is dropped.
    pub fn receive(
        &mut self,
        batch: &mut RecvBatch,
        packet: &IncomingPacket,
        buf_len: usize,
    ) -> (r: Received)
        requires
            old(batch).filled < old(batch).capacity,
        ensures
            ({
                let len = packet.data@.len();
                let fits = len > 0 && len <= buf_len;
                &&& match r {
                    Received::Delivered { slot, source } => fits && slot == old(batch).filled
                        && source@ == token_addr(packet.stable_conn_id.raw),
                    Received::Dropped => !fits,
                }
                &&& r matches Received::Delivered { source, .. } ==> token_of(source@) == Ok::<
                    u64,
                    IoErrorView,
                >(packet.stable_conn_id.raw)
                &&& *final(batch) == if fits {
                    RecvBatch { filled: (old(batch).filled + 1) as usize, ..*old(batch) }
                } else {
                    *old(batch)
                }
                &&& final(self).rx_bytes == if fits {
                    ((old(self).rx_bytes + len) % 0x1_0000_0000_0000_0000) as u64
                } else {
                    old(self).rx_bytes
                }
                &&& final(self).empty_frames == if len == 0 {
                    ((old(self).empty_frames + 1) % 0x1_0000_0000_0000_0000) as u64
                } else {
                    old(self).empty_frames
                }
            }),
    {
        let len: usize = packet.data.len();
        match batch.on_poll(ChannelPoll::Datagram { len }, buf_len, true) {
            RecvStep::Deliver { slot } => {
                self.rx_bytes = self.rx_bytes.wrapping_add(len as u64);
                proof {
                    answers_go_back_over_the_same_pipe(*packet);
                }
                Received::Delivered {
                    slot,
                    source: token_custom_addr(packet.stable_conn_id.as_u64()),
                }
            },
            RecvStep::Drop { empty } => {
                if empty {
                    self.empty_frames = self.empty_frames.wrapping_add(1);
                }
                Received::Dropped
            },
            _ => Received::Dropped,
        }
    }
}

/// The source address of a datagram carries the id of the pipe that it came
/// over.
pub proof fn answers_go_back_over_the_same_pipe(packet: IncomingPacket)
    ensures
        token_of(token_addr(packet.stable_conn_id.raw)) is Ok,
        token_of(token_addr(packet.stable_conn_id.raw))->Ok_0 == packet.stable_conn_id.raw,
{
    crate::routing::tokens_survive_their_address(packet.stable_conn_id.raw);
}

/// What becomes of a datagram and of the call. A datagram goes into the next
/// buffer if it fits and, where empty ones are dropped, is not empty; otherwise
/// it is dropped, and it is said whether it was empty. Where nothing has come,
/// the call returns what is filled, or waits if that is nothing. A channel that
/// is closed is an error. The call has as many buffers as before.
pub proof fn datagrams_fill_the_buffers_in_order(
    b: RecvBatch,
    poll: ChannelPoll,
    buf_len: usize,
    drop_empty: bool,
)
    requires
        b.filled < b.capacity,
    ensures
        ({
            let (after, step) = b.next(poll, buf_len, drop_empty);
            &&& after.capacity == b.capacity
            &&& step is Deliver <==> after.filled == b.filled + 1
            &&& step !is Deliver <==> after.filled == b.filled
            &&& poll matches ChannelPoll::Datagram { len } ==> {
                let unwanted = drop_empty && len == 0;
                &&& step is Deliver <==> len <= buf_len && !unwanted
                &&& step matches RecvStepView::Deliver { slot } ==> slot == b.filled
                &&& step !is Deliver ==> step == (RecvStepView::Drop { empty: unwanted })
            }
            &&& poll is Pending && b.filled == 0 ==> step is Park
            &&& poll is Pending && b.filled > 0 ==> step == RecvStepView::Return(Ok(b.filled as nat))
            &&& poll is Closed ==> step == RecvStepView::Return(
                Err(
                    IoErrorView {
                        kind: ErrorKind::Other,
                        message: "BLE transport channel closed"@,
                    },
                ),
            )
        }),
{
}

} // verus!
