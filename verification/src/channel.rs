//! The channel ends through which the registry feeds a data pipe.

use tokio::sync::mpsc::error::TrySendError;
use tokio::sync::mpsc::Sender;

use vstd::prelude::*;

use crate::peer::{CommandView, PeerCommand, PendingSend, PendingSendView, SwapSender};

verus! {

#[verifier::external_type_specification]
#[verifier::external_body]
#[verifier::reject_recursive_types(T)]
pub struct ExSender<T>(tokio::sync::mpsc::Sender<T>);

/// The sends that the channel has taken through this end, in order.
pub uninterp spec fn outbound_accepted(tx: Sender<PendingSend>) -> Seq<PendingSendView>;

/// The sends that were offered to the channel through this end, in order, each
/// with the answer that it got.
pub uninterp spec fn outbound_offered(tx: Sender<PendingSend>) -> Seq<(PendingSendView, TrySend)>;

/// The fragments that the channel has taken through this end, in order.
pub uninterp spec fn inbound_accepted(tx: Sender<Vec<u8>>) -> Seq<Seq<u8>>;

/// Why a send was handed back.
#[derive(Debug)]
pub enum SendRefused {
    /// The channel holds as many items as it can.
    Full(PendingSend),
    /// The receiving end is gone.
    Closed(PendingSend),
}

/// The answer behind a result.
pub open spec fn answer_of(r: Result<(), SendRefused>) -> TrySend {
    match r {
        Ok(()) => TrySend::Accepted,
        Err(SendRefused::Full(_)) => TrySend::Full,
        Err(SendRefused::Closed(_)) => TrySend::Closed,
    }
}

/// Hands a send to `tokio::sync::mpsc::Sender::try_send`, which either takes it,
/// as the next item after those it took before, or hands it back unchanged and
/// says whether the channel is full or closed. Which of the three happens rests
/// on the receiving task and is left open; the offer and its answer are the next
/// entry of [`outbound_offered`].
#[verifier::external_body]
pub(crate) fn try_send_outbound(tx: &mut Sender<PendingSend>, send: PendingSend) -> (r: Result<
    (),
    SendRefused,
>)
    ensures
        match r {
            Ok(()) => outbound_accepted(*final(tx)) == outbound_accepted(*old(tx)).push(send@),
            Err(SendRefused::Full(back)) => back@ == send@ && outbound_accepted(*final(tx))
                == outbound_accepted(*old(tx)),
            Err(SendRefused::Closed(back)) => back@ == send@ && outbound_accepted(*final(tx))
                == outbound_accepted(*old(tx)),
        },
        outbound_offered(*final(tx)) == outbound_offered(*old(tx)).push((send@, answer_of(r))),
{
    match tx.try_send(send) {
        Ok(()) => Ok(()),
        Err(TrySendError::Full(back)) => Err(SendRefused::Full(back)),
        Err(TrySendError::Closed(back)) => Err(SendRefused::Closed(back)),
    }
}

/// The fragments that were offered to the channel through this end, in order,
/// each with whether it was taken.
pub uninterp spec fn inbound_offered(tx: Sender<Vec<u8>>) -> Seq<(Seq<u8>, bool)>;

/// Hands a fragment to `tokio::sync::mpsc::Sender::try_send` and says whether
/// the channel took it. A fragment that was not taken is dropped. Which of the
/// two happens rests on the receiving task and is left open; the offer and its
/// answer are the next entry of [`inbound_offered`].
#[verifier::external_body]
pub(crate) fn try_send_inbound(tx: &mut Sender<Vec<u8>>, fragment: Vec<u8>) -> (taken: bool)
    ensures
        taken ==> inbound_accepted(*final(tx)) == inbound_accepted(*old(tx)).push(fragment@),
        !taken ==> inbound_accepted(*final(tx)) == inbound_accepted(*old(tx)),
        inbound_offered(*final(tx)) == inbound_offered(*old(tx)).push((fragment@, taken)),
{
    tx.try_send(fragment).is_ok()
}

/// The commands that the registry's inbox has taken through this end, in order.
pub uninterp spec fn inbox_accepted(tx: Sender<PeerCommand>) -> Seq<CommandView>;

/// The commands that were offered to the registry's inbox through this end, in
/// order, each with the answer that it got.
pub uninterp spec fn inbox_offered(tx: Sender<PeerCommand>) -> Seq<(CommandView, TrySend)>;

/// Why a command was handed back.
#[derive(Debug)]
pub enum CommandRefused {
    /// The inbox holds as many commands as it can.
    Full(PeerCommand),
    /// The registry is gone.
    Closed(PeerCommand),
}

/// The answer behind a result.
pub open spec fn inbox_answer(r: Result<(), CommandRefused>) -> TrySend {
    match r {
        Ok(()) => TrySend::Accepted,
        Err(CommandRefused::Full(_)) => TrySend::Full,
        Err(CommandRefused::Closed(_)) => TrySend::Closed,
    }
}

/// Hands a command to `tokio::sync::mpsc::Sender::try_send`, which either takes
/// it, as the next item after those it took before, or hands it back unchanged
/// and says whether the inbox is full or closed. Which of the three happens
/// rests on the registry's task and is left open; the offer and its answer are
/// the next entry of [`inbox_offered`].
#[verifier::external_body]
pub(crate) fn try_send_command(tx: &mut Sender<PeerCommand>, command: PeerCommand) -> (r: Result<
    (),
    CommandRefused,
>)
    ensures
        match r {
            Ok(()) => inbox_accepted(*final(tx)) == inbox_accepted(*old(tx)).push(command@),
            Err(CommandRefused::Full(back)) => back@ == command@ && inbox_accepted(*final(tx))
                == inbox_accepted(*old(tx)),
            Err(CommandRefused::Closed(back)) => back@ == command@ && inbox_accepted(*final(tx))
                == inbox_accepted(*old(tx)),
        },
        inbox_offered(*final(tx)) == inbox_offered(*old(tx)).push((command@, inbox_answer(r))),
{
    match tx.try_send(command) {
        Ok(()) => Ok(()),
        Err(TrySendError::Full(back)) => Err(CommandRefused::Full(back)),
        Err(TrySendError::Closed(back)) => Err(CommandRefused::Closed(back)),
    }
}

/// The registry's ends of a running data pipe.
#[derive(Debug)]
pub struct PipeHandles {
    pub outbound_tx: Sender<PendingSend>,
    pub inbound_tx: Sender<Vec<u8>>,
    pub swap_tx: SwapSender,
}

/// What has gone into a pipe so far, and what was offered to it.
#[verifier::ext_equal]
pub struct PipeView {
    pub outbound: Seq<PendingSendView>,
    pub outbound_offered: Seq<(PendingSendView, TrySend)>,
    pub inbound: Seq<Seq<u8>>,
    pub inbound_offered: Seq<(Seq<u8>, bool)>,
    pub swap_tx: SwapSender,
}

impl View for PipeHandles {
    type V = PipeView;

    open spec fn view(&self) -> PipeView {
        PipeView {
            outbound: outbound_accepted(self.outbound_tx),
            outbound_offered: outbound_offered(self.outbound_tx),
            inbound: inbound_accepted(self.inbound_tx),
            inbound_offered: inbound_offered(self.inbound_tx),
            swap_tx: self.swap_tx,
        }
    }
}

/// How a channel answered one attempt to send.
#[derive(Clone, Copy, PartialEq, Eq, Structural, Debug)]
pub enum TrySend {
    Accepted,
    Full,
    Closed,
}

/// What a channel answered is what its result says: it took the item, was full,
/// or was closed.
pub proof fn answers_are_what_the_result_says(
    r: Result<(), SendRefused>,
    s: Result<(), CommandRefused>,
)
    ensures
        answer_of(r) is Accepted <==> r is Ok,
        answer_of(r) is Full <==> (r matches Err(e) && e is Full),
        answer_of(r) is Closed <==> (r matches Err(e) && e is Closed),
        inbox_answer(s) is Accepted <==> s is Ok,
        inbox_answer(s) is Full <==> (s matches Err(e) && e is Full),
        inbox_answer(s) is Closed <==> (s matches Err(e) && e is Closed),
{
}

} // verus!
