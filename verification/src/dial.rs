//! How a transport without a registry dials a device: the steps of one attempt,
//! and when there is another one.

use vstd::prelude::*;

use crate::error::{BleError, BleErrorView, IoError, IoErrorView, StackError};
use crate::gatt::{parse_psm_value, psm_of, PROTOCOL_VERSION};
use crate::peer::{ConnectPath, ErrorKind};
use crate::time::Duration;

verus! {

/// How often a device is dialled for one datagram.
pub const CONNECT_RETRY_COUNT: u32 = 3;

/// How long to wait before the second attempt, in milliseconds. The wait
/// doubles from one attempt to the next.
pub const CONNECT_RETRY_BACKOFF_MILLIS: u64 = 200;

/// A step of an attempt.
#[derive(Clone, Copy, PartialEq, Eq, Structural, Debug)]
pub enum DialStage {
    /// Connect to the device.
    Connect,
    /// Discover its services.
    Discover,
    /// Read the protocol version.
    ReadVersion,
    /// Read the PSM of its L2CAP listener.
    ReadPsm,
    /// Open an L2CAP channel.
    OpenL2cap { psm: u16 },
    /// Write this node's key into the channel.
    Introduce,
    /// Subscribe to notifications.
    Subscribe,
    /// Data flows this way.
    Ready { path: ConnectPath },
}

/// How a step went.
#[derive(Debug)]
pub enum DialEvent {
    Done,
    /// This was read.
    Value(Vec<u8>),
    Failed(StackError),
}

#[verifier::ext_equal]
pub enum DialEventView {
    Done,
    Value(Seq<u8>),
    Failed(BleErrorView),
}

impl View for DialEvent {
    type V = DialEventView;

    open spec fn view(&self) -> DialEventView {
        match *self {
            DialEvent::Done => DialEventView::Done,
            DialEvent::Value(v) => DialEventView::Value(v@),
            DialEvent::Failed(e) => DialEventView::Failed(e.mapped()),
        }
    }
}

/// What was read, if anything was.
pub open spec fn read_value(event: DialEventView) -> Seq<u8> {
    match event {
        DialEventView::Value(v) => v,
        _ => Seq::empty(),
    }
}

impl DialStage {
    /// What the outcome of a step leads to. Without L2CAP, data flows over
    /// GATT.
    pub open spec fn next(self, event: DialEventView) -> Result<DialStage, BleErrorView> {
        match self {
            DialStage::Connect => match event {
                DialEventView::Failed(e) => Err(e),
                _ => Ok(DialStage::Discover),
            },
            DialStage::Discover => match event {
                DialEventView::Failed(e) => Err(e),
                _ => Ok(DialStage::ReadVersion),
            },
            DialStage::ReadVersion => match event {
                DialEventView::Failed(e) => Err(e),
                _ => if read_value(event).len() == 0 {
                    Err(BleErrorView::GattError("empty version characteristic"@))
                } else if read_value(event)[0] != PROTOCOL_VERSION {
                    Err(
                        BleErrorView::ProtocolVersionMismatch {
                            local: PROTOCOL_VERSION,
                            remote: read_value(event)[0],
                        },
                    )
                } else {
                    Ok(DialStage::ReadPsm)
                },
            },
            DialStage::ReadPsm => match psm_of(read_value(event)) {
                Some(psm) => Ok(DialStage::OpenL2cap { psm }),
                None => Ok(DialStage::Subscribe),
            },
            DialStage::OpenL2cap { .. } => match event {
                DialEventView::Failed(_) => Ok(DialStage::Subscribe),
                _ => Ok(DialStage::Introduce),
            },
            DialStage::Introduce => match event {
                DialEventView::Failed(_) => Ok(DialStage::Subscribe),
                _ => Ok(DialStage::Ready { path: ConnectPath::L2cap }),
            },
            DialStage::Subscribe => match event {
                DialEventView::Failed(e) => Err(e),
                _ => Ok(DialStage::Ready { path: ConnectPath::Gatt }),
            },
            DialStage::Ready { .. } => Ok(self),
        }
    }

    /// How many steps lie behind.
    pub open spec fn rank(self) -> int {
        match self {
            DialStage::Connect => 0,
            DialStage::Discover => 1,
            DialStage::ReadVersion => 2,
            DialStage::ReadPsm => 3,
            DialStage::OpenL2cap { .. } => 4,
            DialStage::Introduce => 5,
            DialStage::Subscribe => 6,
            DialStage::Ready { .. } => 7,
        }
    }

    /// What the outcome of a step leads to.
    pub fn on_event(self, event: DialEvent) -> (r: Result<DialStage, BleError>)
        ensures
            match r {
                Ok(stage) => self.next(event@) == Ok::<DialStage, BleErrorView>(stage),
                Err(e) => self.next(event@) == Err::<DialStage, BleErrorView>(e@),
            },
    {
        match self {
            DialStage::Connect => match event {
                DialEvent::Failed(e) => Err(BleError::from_stack(e)),
                _ => Ok(DialStage::Discover),
            },
            DialStage::Discover => match event {
                DialEvent::Failed(e) => Err(BleError::from_stack(e)),
                _ => Ok(DialStage::ReadVersion),
            },
            DialStage::ReadVersion => match event {
                DialEvent::Failed(e) => Err(BleError::from_stack(e)),
                DialEvent::Done => Err(
                    BleError::GattError("empty version characteristic".to_owned()),
                ),
                DialEvent::Value(v) => {
                    if v.len() == 0 {
                        Err(BleError::GattError("empty version characteristic".to_owned()))
                    } else if v[0] != PROTOCOL_VERSION {
                        Err(
                            BleError::ProtocolVersionMismatch {
                                local: PROTOCOL_VERSION,
                                remote: v[0],
                            },
                        )
                    } else {
                        Ok(DialStage::ReadPsm)
                    }
                },
            },
            DialStage::ReadPsm => {
                if let DialEvent::Value(v) = event {
                    if let Some(psm) = parse_psm_value(v.as_slice()) {
                        return Ok(DialStage::OpenL2cap { psm });
                    }
                }
                Ok(DialStage::Subscribe)
            },
            DialStage::OpenL2cap { .. } => match event {
                DialEvent::Failed(_) => Ok(DialStage::Subscribe),
                _ => Ok(DialStage::Introduce),
            },
            DialStage::Introduce => match event {
                DialEvent::Failed(_) => Ok(DialStage::Subscribe),
                _ => Ok(DialStage::Ready { path: ConnectPath::L2cap }),
            },
            DialStage::Subscribe => match event {
                DialEvent::Failed(e) => Err(BleError::from_stack(e)),
                _ => Ok(DialStage::Ready { path: ConnectPath::Gatt }),
            },
            DialStage::Ready { .. } => Ok(self),
        }
    }
}

/// No step is taken back or repeated: each outcome leads further or ends the
/// attempt.
pub proof fn dialling_moves_on(stage: DialStage, event: DialEventView)
    requires
        stage !is Ready,
    ensures
        stage.next(event) matches Ok(next) ==> stage.rank() < next.rank(),
{
}

/// Trouble with L2CAP never fails an attempt: it goes on over GATT.
pub proof fn l2cap_trouble_leads_to_gatt(stage: DialStage, error: BleErrorView)
    requires
        stage is ReadPsm || stage is OpenL2cap || stage is Introduce,
    ensures
        stage.next(DialEventView::Failed(error)) == Ok::<DialStage, BleErrorView>(
            DialStage::Subscribe,
        ),
{
}

/// No data flows to a device that speaks another version of the protocol.
pub proof fn other_versions_are_refused(event: DialEventView)
    requires
        read_value(event).len() == 0 || read_value(event)[0] != PROTOCOL_VERSION,
    ensures
        DialStage::ReadVersion.next(event) is Err,
{
}

impl BleErrorView {
    /// The same attempt may succeed a moment later.
    pub open spec fn is_transient(self) -> bool {
        self is GattBusy || self is Timeout || self is GattError
    }
}

/// Attempts to dial a device for one datagram.
#[derive(Clone, Copy, PartialEq, Eq, Structural, Debug)]
pub struct ConnectRetry {
    /// How many attempts have failed.
    pub failed: u32,
}

/// How long to wait after so many failed attempts, in milliseconds.
pub open spec fn retry_backoff(failed: int) -> int
    decreases failed,
{
    if failed <= 1 {
        CONNECT_RETRY_BACKOFF_MILLIS as int
    } else {
        2 * retry_backoff(failed - 1)
    }
}

impl ConnectRetry {
    pub open spec fn wf(self) -> bool {
        self.failed < CONNECT_RETRY_COUNT
    }

    /// Before the first attempt.
    pub fn begin() -> (r: Self)
        ensures
            r.failed == 0,
            r.wf(),
    {
        ConnectRetry { failed: 0 }
    }

    /// An attempt failed: how long to wait before the next one, or what to
    /// tell the sender if there is none. There is one after a transient error,
    /// up to the limit.
    pub fn after_failure(&mut self, error: BleError) -> (r: Result<Duration, IoError>)
        requires
            old(self).wf(),
        ensures
            final(self).wf(),
            match r {
                Ok(wait) => {
                    &&& error@.is_transient()
                    &&& old(self).failed + 1 < CONNECT_RETRY_COUNT
                    &&& final(self).failed == old(self).failed + 1
                    &&& wait.nanos == retry_backoff(final(self).failed as int) * 1_000_000
                    &&& old(self).failed == 0 ==> wait.nanos == 200_000_000
                    &&& old(self).failed == 1 ==> wait.nanos == 400_000_000
                },
                Err(e) => {
                    &&& !error@.is_transient() || old(self).failed + 1 == CONNECT_RETRY_COUNT
                    &&& *final(self) == *old(self)
                    &&& e@ == (IoErrorView { kind: ErrorKind::Other, message: error@.text() })
                },
            },
    {
        let transient = matches!(
            error,
            BleError::GattBusy(_) | BleError::Timeout | BleError::GattError(_)
        );
        if !transient || self.failed + 1 >= CONNECT_RETRY_COUNT {
            return Err(IoError { kind: ErrorKind::Other, message: error.message() });
        }
        self.failed = self.failed + 1;
        proof {
            attempts_are_few_and_spaced(*self, error@);
        }
        let mut millis: u64 = CONNECT_RETRY_BACKOFF_MILLIS;
        let mut k: u32 = 1;
        while k < self.failed
            invariant
                1 <= k <= self.failed < CONNECT_RETRY_COUNT,
                millis == retry_backoff(k as int),
                millis <= 200 * k,
            decreases self.failed - k,
        {
            millis = 2 * millis;
            k = k + 1;
        }
        Ok(Duration::from_millis(millis))
    }
}

/// Where an attempt stands after these outcomes, one for each of its steps.
pub open spec fn dialled(events: Seq<DialEventView>) -> Result<DialStage, BleErrorView>
    decreases events.len(),
{
    if events.len() == 0 {
        Ok(DialStage::Connect)
    } else {
        match dialled(events.drop_last()) {
            Ok(stage) => stage.next(events.last()),
            Err(e) => Err(e),
        }
    }
}

proof fn lemma_dialled(events: Seq<DialEventView>, event: DialEventView)
    ensures
        dialled(events.push(event)) == match dialled(events) {
            Ok(stage) => stage.next(event),
            Err(e) => Err(e),
        },
{
    assert(events.push(event).drop_last() =~= events);
}

/// The PSM that was read: two bytes that are not both zero, the lower one
/// first.
pub open spec fn offered_psm(event: DialEventView) -> Option<u16> {
    match event {
        DialEventView::Value(v) => if v.len() >= 2 && (v[0] > 0 || v[1] > 0) {
            Some((v[0] + 256 * v[1]) as u16)
        } else {
            None
        },
        _ => None,
    }
}

/// An attempt connects, discovers the services, and reads the version and the
/// PSM, in this order. Where a PSM was read it opens a channel to that PSM,
/// introduces itself on it and is ready over L2CAP. It subscribes, and is ready
/// over GATT, where no PSM was read or one of the two steps over L2CAP failed.
/// What fails before that, or while it subscribes, ends the attempt with that
/// error, as a version other than ours does.
pub proof fn attempts_go_over_l2cap_where_it_is_offered(
    connected: DialEventView,
    discovered: DialEventView,
    version: DialEventView,
    psm: DialEventView,
    opened: DialEventView,
    introduced: DialEventView,
    subscribed: DialEventView,
)
    requires
        connected !is Failed,
        discovered !is Failed,
        version matches DialEventView::Value(v) && v.len() > 0 && v[0] == 1,
    ensures
        dialled(seq![]) == Ok::<DialStage, BleErrorView>(DialStage::Connect),
        dialled(seq![connected]) == Ok::<DialStage, BleErrorView>(DialStage::Discover),
        dialled(seq![connected, discovered]) == Ok::<DialStage, BleErrorView>(
            DialStage::ReadVersion,
        ),
        dialled(seq![connected, discovered, version]) == Ok::<DialStage, BleErrorView>(
            DialStage::ReadPsm,
        ),
        ({
            let read = seq![connected, discovered, version, psm];
            let ready = |path: ConnectPath|
                Ok::<DialStage, BleErrorView>(DialStage::Ready { path });
            let subscribing = Ok::<DialStage, BleErrorView>(DialStage::Subscribe);
            let done = |events: Seq<DialEventView>|
                dialled(events) == subscribing && dialled(events.push(subscribed))
                    == match subscribed {
                    DialEventView::Failed(e) => Err(e),
                    _ => ready(ConnectPath::Gatt),
                };
            match offered_psm(psm) {
                Some(psm) => {
                    &&& dialled(read) == Ok::<DialStage, BleErrorView>(DialStage::OpenL2cap { psm })
                    &&& if opened is Failed {
                        done(read.push(opened))
                    } else {
                        &&& dialled(read.push(opened)) == Ok::<DialStage, BleErrorView>(
                            DialStage::Introduce,
                        )
                        &&& if introduced is Failed {
                            done(read.push(opened).push(introduced))
                        } else {
                            dialled(read.push(opened).push(introduced)) == ready(ConnectPath::L2cap)
                        }
                    }
                },
                None => done(read),
            }
        }),
{
    let e0: Seq<DialEventView> = seq![];
    let e1 = e0.push(connected);
    let e2 = e1.push(discovered);
    let e3 = e2.push(version);
    let e4 = e3.push(psm);
    assert(e0 =~= seq![]);
    assert(e1 =~= seq![connected]);
    assert(e2 =~= seq![connected, discovered]);
    assert(e3 =~= seq![connected, discovered, version]);
    assert(e4 =~= seq![connected, discovered, version, psm]);
    lemma_dialled(e0, connected);
    lemma_dialled(e1, discovered);
    lemma_dialled(e2, version);
    lemma_dialled(e3, psm);
    lemma_dialled(e4, opened);
    lemma_dialled(e4.push(opened), introduced);
    lemma_dialled(e4, subscribed);
    lemma_dialled(e4.push(opened), subscribed);
    lemma_dialled(e4.push(opened).push(introduced), subscribed);
    if let DialEventView::Value(v) = psm {
        if v.len() >= 2 {
            assert(v.take(2)[0] == v[0] && v.take(2)[1] == v[1]);
        }
    }
}

/// What ends an attempt, and with which error: a failed step other than those
/// over L2CAP, and a version that is missing or not ours.
pub proof fn attempts_end_with_the_error(stage: DialStage, event: DialEventView)
    ensures
        stage.next(event) is Err <==> {
            ||| (stage is Connect || stage is Discover || stage is ReadVersion || stage
                is Subscribe) && event is Failed
            ||| stage is ReadVersion && !(event matches DialEventView::Value(v) && v.len() > 0
                && v[0] == 1)
        },
        stage.next(event) matches Err(e) ==> match event {
            DialEventView::Failed(error) => e == error,
            DialEventView::Value(v) => if v.len() == 0 {
                e == BleErrorView::GattError("empty version characteristic"@)
            } else {
                e == (BleErrorView::ProtocolVersionMismatch { local: 1, remote: v[0] })
            },
            DialEventView::Done => e == BleErrorView::GattError("empty version characteristic"@),
        },
{
}

/// An attempt that is ready stays as it is.
pub proof fn ready_attempts_stay_ready(path: ConnectPath, event: DialEventView)
    ensures
        (DialStage::Ready { path }).next(event) == Ok::<DialStage, BleErrorView>(
            DialStage::Ready { path },
        ),
{
}

/// There are at most three attempts, two tenths of a second after the first and
/// four after the second; only a busy GATT layer, a failed GATT operation or a
/// timeout lead to another one.
pub proof fn attempts_are_few_and_spaced(r: ConnectRetry, error: BleErrorView)
    ensures
        r.wf() <==> r.failed <= 2,
        retry_backoff(1) == 200,
        retry_backoff(2) == 400,
        error.is_transient() <==> match error {
            BleErrorView::GattBusy(_) => true,
            BleErrorView::GattError(_) => true,
            BleErrorView::Timeout => true,
            _ => false,
        },
{
    reveal_with_fuel(retry_backoff, 3);
}

} // verus!
