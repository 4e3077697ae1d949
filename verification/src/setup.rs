//! How a transport comes up.
//!
//! Both kinds of transport come up in steps: the caller performs the step that
//! it is told, reports how it went, and is told the next one.

use vstd::prelude::*;

use crate::address::{ble_custom_addr, device_addr};
use crate::error::{BleError, BleErrorView, IoError, IoErrorView, StackError};
use crate::peer::ErrorKind;
use crate::routing::{token_addr, token_custom_addr, CustomAddr};
use crate::transport::L2capPolicy;

verus! {

/// Seconds for which the adapter may take to be ready.
pub const READY_TIMEOUT_SECS: u64 = 5;

/// Seconds for which the adapter may take to power on.
pub const POWER_TIMEOUT_SECS: u64 = 15;

/// How many commands the registry's inbox holds.
pub const INBOX_CAPACITY: usize = 256;

/// How many received datagrams wait for the user.
pub const INCOMING_CAPACITY: usize = 256;

/// A step of coming up.
#[derive(Clone, Copy, PartialEq, Eq, Structural, Debug)]
pub enum SetupStage {
    /// Wait until the central role is ready.
    AwaitCentral,
    /// Wait until the peripheral role is ready.
    AwaitPeripheral,
    /// Publish the service with this index.
    AddService { index: usize },
    /// Advertise.
    Advertise,
    /// Scan.
    Scan,
    /// Listen for L2CAP channels.
    Listen,
    /// Run.
    Run,
}

/// How a step went.
#[derive(Debug)]
pub enum SetupEvent {
    Done,
    /// The listener got this PSM.
    Listening { psm: u16 },
    Failed(StackError),
}

/// Why a transport did not come up.
#[derive(Debug)]
pub enum SetupError {
    /// A wait took too long.
    Timeout { stage: &'static str },
    Ble(BleError),
}

#[verifier::ext_equal]
pub enum SetupErrorView {
    Timeout { stage: Seq<char> },
    Ble(BleErrorView),
}

impl View for SetupError {
    type V = SetupErrorView;

    open spec fn view(&self) -> SetupErrorView {
        match *self {
            SetupError::Timeout { stage } => SetupErrorView::Timeout { stage: stage@ },
            SetupError::Ble(e) => SetupErrorView::Ble(e@),
        }
    }
}

/// A transport with a registry, on its way up.
#[derive(Clone, Copy, PartialEq, Eq, Structural, Debug)]
pub struct Setup {
    pub stage: SetupStage,
    /// How many services there are to publish.
    pub services: usize,
    pub l2cap_policy: L2capPolicy,
    /// Whether scanning works.
    pub scanning: bool,
    /// The PSM of the listener, if there is one.
    pub psm: Option<u16>,
}

impl Setup {
    pub open spec fn at(self, stage: SetupStage) -> Setup {
        Setup { stage, ..self }
    }

    /// The step after so many services are published.
    pub open spec fn after_services(self, published: int) -> SetupStage {
        if published < self.services {
            SetupStage::AddService { index: published as usize }
        } else {
            SetupStage::Advertise
        }
    }

    pub open spec fn after_scan(self) -> SetupStage {
        if self.l2cap_policy is PreferL2cap {
            SetupStage::Listen
        } else {
            SetupStage::Run
        }
    }

    /// What the outcome of the current step leads to. Scanning may be
    /// unsupported and the listener may fail; any other failure ends it.
    pub open spec fn next(self, event: SetupEvent) -> Result<Setup, SetupErrorView> {
        match self.stage {
            SetupStage::AwaitCentral => match event {
                SetupEvent::Failed(_) => Err(SetupErrorView::Timeout { stage: "wait_ready"@ }),
                _ => Ok(self.at(SetupStage::AwaitPeripheral)),
            },
            SetupStage::AwaitPeripheral => match event {
                SetupEvent::Failed(_) => Err(SetupErrorView::Timeout { stage: "wait_ready"@ }),
                _ => Ok(self.at(self.after_services(0))),
            },
            SetupStage::AddService { index } => match event {
                SetupEvent::Failed(e) => Err(SetupErrorView::Ble(e.mapped())),
                _ => Ok(self.at(self.after_services(index + 1))),
            },
            SetupStage::Advertise => match event {
                SetupEvent::Failed(e) => Err(SetupErrorView::Ble(e.mapped())),
                _ => Ok(self.at(SetupStage::Scan)),
            },
            SetupStage::Scan => match event {
                SetupEvent::Failed(StackError::NotSupported) => Ok(self.at(self.after_scan())),
                SetupEvent::Failed(e) => Err(SetupErrorView::Ble(e.mapped())),
                _ => Ok(Setup { scanning: true, ..self.at(self.after_scan()) }),
            },
            SetupStage::Listen => match event {
                SetupEvent::Listening { psm } => Ok(
                    Setup { psm: Some(psm), ..self.at(SetupStage::Run) },
                ),
                _ => Ok(self.at(SetupStage::Run)),
            },
            SetupStage::Run => Ok(self),
        }
    }

    /// A step to publish a service is about one that there is.
    pub open spec fn wf(self) -> bool {
        self.stage matches SetupStage::AddService { index } ==> index < self.services
    }

    /// Starts to come up.
    pub fn begin(services: usize, l2cap_policy: L2capPolicy) -> (s: Self)
        ensures
            s.wf(),
            s == (Setup {
                stage: SetupStage::AwaitCentral,
                services,
                l2cap_policy,
                scanning: false,
                psm: None,
            }),
    {
        Setup {
            stage: SetupStage::AwaitCentral,
            services,
            l2cap_policy,
            scanning: false,
            psm: None,
        }
    }

    /// What the outcome of the current step leads to.
    pub fn on_event(self, event: SetupEvent) -> (r: Result<Setup, SetupError>)
        requires
            self.wf(),
        ensures
            match r {
                Ok(s) => s.wf() && self.next(event) == Ok::<Setup, SetupErrorView>(s),
                Err(e) => self.next(event) == Err::<Setup, SetupErrorView>(e@),
            },
    {
        let mut next = self;
        match self.stage {
            SetupStage::AwaitCentral => {
                if let SetupEvent::Failed(_) = event {
                    return Err(SetupError::Timeout { stage: "wait_ready" });
                }
                next.stage = SetupStage::AwaitPeripheral;
            },
            SetupStage::AwaitPeripheral => {
                if let SetupEvent::Failed(_) = event {
                    return Err(SetupError::Timeout { stage: "wait_ready" });
                }
                next.stage = if self.services > 0 {
                    SetupStage::AddService { index: 0 }
                } else {
                    SetupStage::Advertise
                };
            },
            SetupStage::AddService { index } => {
                if let SetupEvent::Failed(e) = event {
                    return Err(SetupError::Ble(BleError::from_stack(e)));
                }
                next.stage = if index + 1 < self.services {
                    SetupStage::AddService { index: index + 1 }
                } else {
                    SetupStage::Advertise
                };
            },
            SetupStage::Advertise => {
                if let SetupEvent::Failed(e) = event {
                    return Err(SetupError::Ble(BleError::from_stack(e)));
                }
                next.stage = SetupStage::Scan;
            },
            SetupStage::Scan => {
                match event {
                    SetupEvent::Failed(StackError::NotSupported) => {},
                    SetupEvent::Failed(e) => {
                        return Err(SetupError::Ble(BleError::from_stack(e)));
                    },
                    _ => {
                        next.scanning = true;
                    },
                }
                next.stage = if matches!(self.l2cap_policy, L2capPolicy::PreferL2cap) {
                    SetupStage::Listen
                } else {
                    SetupStage::Run
                };
            },
            SetupStage::Listen => {
                if let SetupEvent::Listening { psm } = event {
                    next.psm = Some(psm);
                }
                next.stage = SetupStage::Run;
            },
            SetupStage::Run => {},
        }
        Ok(next)
    }
}

/// How far along a transport is: every step but the last leads further.
pub open spec fn progress(s: Setup) -> (int, int) {
    match s.stage {
        SetupStage::AwaitCentral => (0, 0),
        SetupStage::AwaitPeripheral => (1, 0),
        SetupStage::AddService { index } => (2, index as int),
        SetupStage::Advertise => (3, 0),
        SetupStage::Scan => (4, 0),
        SetupStage::Listen => (5, 0),
        SetupStage::Run => (6, 0),
    }
}

/// No step is taken back or repeated: each outcome leads further or ends it.
pub proof fn setup_moves_on(s: Setup, event: SetupEvent)
    requires
        s.wf(),
        s.stage !is Run,
    ensures
        s.next(event) matches Ok(t) ==> progress(s).0 < progress(t).0 || (progress(s).0 == progress(
            t,
        ).0 && progress(s).1 < progress(t).1),
{
}

/// L2CAP is never a reason for not coming up.
pub proof fn l2cap_is_optional(s: Setup, event: SetupEvent)
    requires
        s.stage is Listen,
    ensures
        s.next(event) matches Ok(t) && t.stage is Run,
{
}

/// A step of a transport without a registry.
#[derive(Clone, Copy, PartialEq, Eq, Structural, Debug)]
pub enum DirectStage {
    /// Ask whether the adapter is powered.
    CheckPower,
    /// Wait until it is.
    AwaitPower,
    /// Listen for L2CAP channels.
    Listen,
    /// Publish the service with this index.
    AddService { index: usize },
    /// Advertise.
    Advertise,
    /// Scan.
    Scan,
    /// Run.
    Run,
}

/// How a step went.
#[derive(Debug)]
pub enum DirectEvent {
    Done,
    /// Whether the adapter is powered.
    Powered(bool),
    /// The adapter's events have ended.
    EventsEnded,
    TimedOut,
    /// The listener got this PSM.
    Listening { psm: u16 },
    Failed(StackError),
}

/// A transport without a registry, on its way up.
#[derive(Clone, Copy, PartialEq, Eq, Structural, Debug)]
pub struct DirectSetup {
    pub stage: DirectStage,
    pub services: usize,
    pub psm: Option<u16>,
}

impl DirectSetup {
    pub open spec fn at(self, stage: DirectStage) -> DirectSetup {
        DirectSetup { stage, ..self }
    }

    pub open spec fn after_services(self, published: int) -> DirectStage {
        if published < self.services {
            DirectStage::AddService { index: published as usize }
        } else {
            DirectStage::Advertise
        }
    }

    /// What the outcome of the current step leads to. The listener may fail;
    /// an adapter that is off may take its time.
    pub open spec fn next(self, event: DirectEvent) -> Result<DirectSetup, BleErrorView> {
        match (self.stage, event) {
            (DirectStage::CheckPower, DirectEvent::Powered(true)) => Ok(self.at(DirectStage::Listen)),
            (DirectStage::CheckPower, DirectEvent::Failed(e)) => Err(e.mapped()),
            (DirectStage::CheckPower, _) => Ok(self.at(DirectStage::AwaitPower)),
            (DirectStage::AwaitPower, DirectEvent::Powered(true)) => Ok(self.at(DirectStage::Listen)),
            (DirectStage::AwaitPower, DirectEvent::EventsEnded) => Err(
                BleErrorView::PeripheralError("event stream closed during init"@),
            ),
            (DirectStage::AwaitPower, DirectEvent::TimedOut) => Err(
                BleErrorView::PeripheralError(
                    "timed out waiting for Bluetooth to power on (is BT enabled and authorised?)"@,
                ),
            ),
            (DirectStage::AwaitPower, _) => Ok(self),
            (DirectStage::Listen, DirectEvent::Listening { psm }) => Ok(
                DirectSetup { psm: Some(psm), ..self.at(self.after_services(0)) },
            ),
            (DirectStage::Listen, _) => Ok(self.at(self.after_services(0))),
            (DirectStage::AddService { .. }, DirectEvent::Failed(e)) => Err(e.mapped()),
            (DirectStage::AddService { index }, _) => Ok(self.at(self.after_services(index + 1))),
            (DirectStage::Advertise, DirectEvent::Failed(e)) => Err(e.mapped()),
            (DirectStage::Advertise, _) => Ok(self.at(DirectStage::Scan)),
            (DirectStage::Scan, DirectEvent::Failed(e)) => Err(e.mapped()),
            (DirectStage::Scan, _) => Ok(self.at(DirectStage::Run)),
            (DirectStage::Run, _) => Ok(self),
        }
    }

    /// A step to publish a service is about one that there is.
    pub open spec fn wf(self) -> bool {
        self.stage matches DirectStage::AddService { index } ==> index < self.services
    }

    /// Starts to come up.
    pub fn begin(services: usize) -> (s: Self)
        ensures
            s.wf(),
            s == (DirectSetup { stage: DirectStage::CheckPower, services, psm: None }),
    {
        DirectSetup { stage: DirectStage::CheckPower, services, psm: None }
    }

    fn publish_from(self, published: usize) -> (s: DirectSetup)
        ensures
            s.wf(),
            s == self.at(self.after_services(published as int)),
    {
        let stage = if published < self.services {
            DirectStage::AddService { index: published }
        } else {
            DirectStage::Advertise
        };
        DirectSetup { stage, services: self.services, psm: self.psm }
    }

    fn step_to(self, stage: DirectStage) -> (s: DirectSetup)
        ensures
            s == self.at(stage),
    {
        DirectSetup { stage, services: self.services, psm: self.psm }
    }

    /// What the outcome of the current step leads to.
    pub fn on_event(self, event: DirectEvent) -> (r: Result<DirectSetup, BleError>)
        requires
            self.wf(),
        ensures
            match r {
                Ok(s) => s.wf() && self.next(event) == Ok::<DirectSetup, BleErrorView>(s),
                Err(e) => self.next(event) == Err::<DirectSetup, BleErrorView>(e@),
            },
    {
        match self.stage {
            DirectStage::CheckPower => match event {
                DirectEvent::Powered(true) => Ok(self.step_to(DirectStage::Listen)),
                DirectEvent::Failed(e) => Err(BleError::from_stack(e)),
                _ => Ok(self.step_to(DirectStage::AwaitPower)),
            },
            DirectStage::AwaitPower => match event {
                DirectEvent::Powered(true) => Ok(self.step_to(DirectStage::Listen)),
                DirectEvent::EventsEnded => Err(
                    BleError::PeripheralError("event stream closed during init".to_owned()),
                ),
                DirectEvent::TimedOut => Err(
                    BleError::PeripheralError(
                        "timed out waiting for Bluetooth to power on (is BT enabled and authorised?)".to_owned(),
                    ),
                ),
                _ => Ok(self),
            },
            DirectStage::Listen => match event {
                DirectEvent::Listening { psm } => {
                    let with_psm = DirectSetup {
                        stage: self.stage,
                        services: self.services,
                        psm: Some(psm),
                    };
                    Ok(with_psm.publish_from(0))
                },
                _ => Ok(self.publish_from(0)),
            },
            DirectStage::AddService { index } => match event {
                DirectEvent::Failed(e) => Err(BleError::from_stack(e)),
                _ => Ok(self.publish_from(index + 1)),
            },
            DirectStage::Advertise => match event {
                DirectEvent::Failed(e) => Err(BleError::from_stack(e)),
                _ => Ok(self.step_to(DirectStage::Scan)),
            },
            DirectStage::Scan => match event {
                DirectEvent::Failed(e) => Err(BleError::from_stack(e)),
                _ => Ok(self.step_to(DirectStage::Run)),
            },
            DirectStage::Run => Ok(self),
        }
    }
}


/// Whether a transport has been bound. It can be once.
#[derive(Clone, Copy, PartialEq, Eq, Structural, Debug)]
pub struct Binding {
    pub bound: bool,
}

impl Binding {
    pub fn new() -> (b: Self)
        ensures
            !b.bound,
    {
        Binding { bound: false }
    }

    /// Binds a transport with a registry, and returns its own address. `in_use`
    /// says that somebody else is binding it.
    pub fn bind(&mut self, in_use: bool) -> (r: Result<CustomAddr, IoError>)
        ensures
            match r {
                Ok(addr) => !in_use && !old(self).bound && final(self).bound && addr@ == token_addr(0),
                Err(e) => (in_use || old(self).bound) && *final(self) == *old(self) && e@ == (
                IoErrorView {
                    kind: ErrorKind::Other,
                    message: if in_use {
                        "BleTransport bind() contention"@
                    } else {
                        "BleTransport bind() already called"@
                    },
                }),
            },
    {
        if in_use {
            return Err(IoError::new(ErrorKind::Other, "BleTransport bind() contention"));
        }
        if self.bound {
            return Err(IoError::new(ErrorKind::Other, "BleTransport bind() already called"));
        }
        self.bound = true;
        Ok(token_custom_addr(0))
    }

    /// Binds a transport without a registry, and returns its own address.
    pub fn bind_direct(&mut self, in_use: bool) -> (r: Result<CustomAddr, IoError>)
        ensures
            match r {
                Ok(addr) => !in_use && !old(self).bound && final(self).bound && addr@ == device_addr(
                    "local"@,
                ),
                Err(e) => (in_use || old(self).bound) && *final(self) == *old(self) && e@ == (
                IoErrorView {
                    kind: ErrorKind::Other,
                    message: if in_use {
                        "BLE transport bind() contention"@
                    } else {
                        "BLE transport bind() already called"@
                    },
                }),
            },
    {
        if in_use {
            return Err(IoError::new(ErrorKind::Other, "BLE transport bind() contention"));
        }
        if self.bound {
            return Err(IoError::new(ErrorKind::Other, "BLE transport bind() already called"));
        }
        self.bound = true;
        Ok(ble_custom_addr("local"))
    }
}

/// Where a transport stands after these outcomes, one for each of its steps.
pub open spec fn came_up(
    services: usize,
    l2cap_policy: L2capPolicy,
    events: Seq<SetupEvent>,
) -> Result<Setup, SetupErrorView>
    decreases events.len(),
{
    if events.len() == 0 {
        Ok(
            Setup {
                stage: SetupStage::AwaitCentral,
                services,
                l2cap_policy,
                scanning: false,
                psm: None,
            },
        )
    } else {
        match came_up(services, l2cap_policy, events.drop_last()) {
            Ok(s) => s.next(events.last()),
            Err(e) => Err(e),
        }
    }
}

/// A transport whose steps all succeed waits for both roles, publishes every
/// service once and in order, advertises, scans, listens exactly where L2CAP is
/// preferred, and runs. It scans then, and its PSM is the one that the listener
/// got.
pub proof fn transports_come_up_in_order(
    services: usize,
    l2cap_policy: L2capPolicy,
    events: Seq<SetupEvent>,
)
    requires
        forall|i: int| 0 <= i < events.len() ==> (#[trigger] events[i]) !is Failed,
    ensures
        came_up(services, l2cap_policy, events) matches Ok(s) && {
            let done = events.len() as int;
            let listens = l2cap_policy is PreferL2cap;
            &&& s.services == services
            &&& s.l2cap_policy == l2cap_policy
            &&& done == 0 ==> s.stage is AwaitCentral
            &&& done == 1 ==> s.stage is AwaitPeripheral
            &&& 2 <= done < 2 + services ==> (s.stage matches SetupStage::AddService { index }
                && index == done - 2)
            &&& done == 2 + services ==> s.stage is Advertise
            &&& done == 3 + services ==> s.stage is Scan
            &&& done == 4 + services && listens ==> s.stage is Listen
            &&& done > 4 + services || (done == 4 + services && !listens) ==> s.stage is Run
            &&& s.scanning <==> done >= 4 + services
            &&& s.psm == if listens && done >= 5 + services {
                match events[4 + services] {
                    SetupEvent::Listening { psm } => Some(psm),
                    _ => None,
                }
            } else {
                None
            }
        },
    decreases events.len(),
{
    if events.len() > 0 {
        transports_come_up_in_order(services, l2cap_policy, events.drop_last());
        assert(events.last() !is Failed);
    }
}

/// What a failed step leads to. Waiting in vain is a timeout; a service or an
/// advertisement that fails ends it with that error, and so does scanning unless
/// it is not supported at all: the transport then comes up without. Without a
/// listener it comes up without a PSM.
pub proof fn failed_steps_end_the_setup(s: Setup, error: StackError)
    ensures
        ({
            let next = s.next(SetupEvent::Failed(error));
            let ended = next == Err::<Setup, SetupErrorView>(SetupErrorView::Ble(error.mapped()));
            match s.stage {
                SetupStage::AwaitCentral | SetupStage::AwaitPeripheral => next == Err::<
                    Setup,
                    SetupErrorView,
                >(SetupErrorView::Timeout { stage: "wait_ready"@ }),
                SetupStage::AddService { .. } | SetupStage::Advertise => ended,
                SetupStage::Scan => if error is NotSupported {
                    next matches Ok(t) && t.scanning == s.scanning && t.psm == s.psm && t.services
                        == s.services && t.l2cap_policy == s.l2cap_policy && (t.stage is Listen
                        <==> s.l2cap_policy is PreferL2cap) && (t.stage is Run <==> !(s.l2cap_policy
                        is PreferL2cap))
                } else {
                    ended
                },
                SetupStage::Listen => next == Ok::<Setup, SetupErrorView>(
                    Setup { stage: SetupStage::Run, ..s },
                ),
                SetupStage::Run => next == Ok::<Setup, SetupErrorView>(s),
            }
        }),
{
}

/// Where a transport without a registry stands after these outcomes, once the
/// adapter is powered.
pub open spec fn came_up_direct(services: usize, events: Seq<DirectEvent>) -> Result<
    DirectSetup,
    BleErrorView,
>
    decreases events.len(),
{
    if events.len() == 0 {
        Ok(DirectSetup { stage: DirectStage::Listen, services, psm: None })
    } else {
        match came_up_direct(services, events.drop_last()) {
            Ok(s) => s.next(events.last()),
            Err(e) => Err(e),
        }
    }
}

/// A transport without a registry listens, publishes every service once and in
/// order, advertises, scans and runs; its PSM is the one that the listener got.
/// Only the listener may fail.
pub proof fn direct_transports_come_up_in_order(services: usize, events: Seq<DirectEvent>)
    requires
        forall|i: int| 1 <= i < events.len() ==> (#[trigger] events[i]) !is Failed,
    ensures
        came_up_direct(services, events) matches Ok(s) && {
            let done = events.len() as int;
            &&& s.services == services
            &&& done == 0 ==> s.stage is Listen
            &&& 1 <= done < 1 + services ==> (s.stage matches DirectStage::AddService { index }
                && index == done - 1)
            &&& done == 1 + services ==> s.stage is Advertise
            &&& done == 2 + services ==> s.stage is Scan
            &&& done > 2 + services ==> s.stage is Run
            &&& s.psm == if done > 0 {
                match events[0] {
                    DirectEvent::Listening { psm } => Some(psm),
                    _ => None,
                }
            } else {
                None
            }
        },
    decreases events.len(),
{
    if events.len() > 0 {
        direct_transports_come_up_in_order(services, events.drop_last());
    }
}

/// An adapter that is powered is listened on at once. One that is not is waited
/// for until it is, until its events end, or until that has taken too long; what
/// else happens meanwhile is of no account.
pub proof fn the_adapter_is_waited_for(services: usize, event: DirectEvent)
    ensures
        ({
            let at = |stage: DirectStage| DirectSetup { stage, services, psm: None };
            let asked = at(DirectStage::CheckPower).next(event);
            let waited = at(DirectStage::AwaitPower).next(event);
            let failed = |text: Seq<char>|
                Err::<DirectSetup, BleErrorView>(BleErrorView::PeripheralError(text));
            match event {
                DirectEvent::Powered(on) => {
                    let then_at = if on {
                        DirectStage::Listen
                    } else {
                        DirectStage::AwaitPower
                    };
                    &&& asked == Ok::<DirectSetup, BleErrorView>(at(then_at))
                    &&& waited == Ok::<DirectSetup, BleErrorView>(at(then_at))
                },
                DirectEvent::Failed(e) => {
                    &&& asked == Err::<DirectSetup, BleErrorView>(e.mapped())
                    &&& waited == Ok::<DirectSetup, BleErrorView>(at(DirectStage::AwaitPower))
                },
                DirectEvent::EventsEnded => waited == failed("event stream closed during init"@),
                DirectEvent::TimedOut => waited == failed(
                    "timed out waiting for Bluetooth to power on (is BT enabled and authorised?)"@,
                ),
                _ => waited == Ok::<DirectSetup, BleErrorView>(at(DirectStage::AwaitPower)),
            }
        }),
{
}

/// A service, an advertisement or a scan that fails ends it with that error; a
/// transport that runs stays as it is.
pub proof fn failed_steps_end_the_direct_setup(s: DirectSetup, error: StackError, event: DirectEvent)
    ensures
        s.stage is AddService || s.stage is Advertise || s.stage is Scan ==> s.next(
            DirectEvent::Failed(error),
        ) == Err::<DirectSetup, BleErrorView>(error.mapped()),
        s.stage is Run ==> s.next(event) == Ok::<DirectSetup, BleErrorView>(s),
{
}

} // verus!
