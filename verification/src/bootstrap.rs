//! Server bootstrap decisions: one listener plan per usable address, in
//! enumeration order, and the startup verdict.  The policy for a running
//! process is supervise-all, abort on the first listener that terminates:
//! a terminated listener is fatal for the whole process.
use crate::address::CandidateAddress;
use crate::address::HostIp;
use crate::url::{connection_url, url_bytes};
use vstd::prelude::*;

verus! {

/// The lifecycle of one listener, per address: discovery, then the fixed
/// plaintext-or-TLS choice, then listening, then termination.
#[derive(Clone, Copy, PartialEq, Eq, Structural, Debug)]
pub enum ListenerPhase {
    Discovered,
    TlsProvisioned,
    PlaintextSelected,
    Listening,
    Terminated,
}

#[derive(Clone, Copy, PartialEq, Eq, Structural, Debug)]
pub enum ListenerEvent {
    ProvisionTls,
    SelectPlaintext,
    StartListening,
    Terminate,
}

/// The only phase transitions a listener may take; anything else is
/// refused.  The plaintext/TLS choice is fixed once made: no transition
/// leads back out of it.
pub fn advance_phase(phase: ListenerPhase, event: ListenerEvent) -> (r: Option<ListenerPhase>)
    ensures
        r == (match (phase, event) {
            (ListenerPhase::Discovered, ListenerEvent::ProvisionTls) => Some(
                ListenerPhase::TlsProvisioned,
            ),
            (ListenerPhase::Discovered, ListenerEvent::SelectPlaintext) => Some(
                ListenerPhase::PlaintextSelected,
            ),
            (ListenerPhase::TlsProvisioned, ListenerEvent::StartListening) => Some(
                ListenerPhase::Listening,
            ),
            (ListenerPhase::PlaintextSelected, ListenerEvent::StartListening) => Some(
                ListenerPhase::Listening,
            ),
            (ListenerPhase::Listening, ListenerEvent::Terminate) => Some(
                ListenerPhase::Terminated,
            ),
            _ => None::<ListenerPhase>,
        }),
{
    match (phase, event) {
        (ListenerPhase::Discovered, ListenerEvent::ProvisionTls) => Some(
            ListenerPhase::TlsProvisioned,
        ),
        (ListenerPhase::Discovered, ListenerEvent::SelectPlaintext) => Some(
            ListenerPhase::PlaintextSelected,
        ),
        (ListenerPhase::TlsProvisioned, ListenerEvent::StartListening) => Some(
            ListenerPhase::Listening,
        ),
        (ListenerPhase::PlaintextSelected, ListenerEvent::StartListening) => Some(
            ListenerPhase::Listening,
        ),
        (ListenerPhase::Listening, ListenerEvent::Terminate) => Some(ListenerPhase::Terminated),
        _ => None,
    }
}

/// Everything fixed about one listener before it starts: its address, the
/// plaintext/TLS choice, the shared port, and the connection URL to
/// render for the operator.
pub struct ListenerPlan {
    pub addr: CandidateAddress,
    pub use_tls: bool,
    pub port: u16,
    pub url: Vec<u8>,
}

impl ListenerPlan {
    pub open spec fn wf(self, insecure: bool, port: u16) -> bool {
        &&& self.use_tls == !insecure
        &&& self.port == port
        &&& match self.addr.ip {
            HostIp::V4(a, b, c, d) => self.url@ == url_bytes(insecure, a, b, c, d, port),
            HostIp::V6 => false,
        }
    }
}

/// One plan per usable address, in enumeration order, every plan carrying
/// the same port and the same plaintext/TLS choice.
pub fn plan_listeners(addrs: &Vec<CandidateAddress>, insecure: bool, port: u16) -> (r: Vec<
    ListenerPlan,
>)
    requires
        forall|k: int| 0 <= k < addrs@.len() ==> (#[trigger] addrs@[k]).ip is V4,
    ensures
        r@.len() == addrs@.len(),
        forall|k: int|
            0 <= k < r@.len() ==> {
                &&& (#[trigger] r@[k]).addr == addrs@[k]
                &&& r@[k].wf(insecure, port)
            },
{
    let mut r: Vec<ListenerPlan> = Vec::new();
    let mut i: usize = 0;
    while i < addrs.len()
        invariant
            forall|k: int| 0 <= k < addrs@.len() ==> (#[trigger] addrs@[k]).ip is V4,
            i <= addrs@.len(),
            r@.len() == i,
            forall|k: int|
                0 <= k < r@.len() ==> {
                    &&& (#[trigger] r@[k]).addr == addrs@[k]
                    &&& r@[k].wf(insecure, port)
                },
        decreases addrs@.len() - i,
    {
        let addr = addrs[i];
        let url = connection_url(&addr, insecure, port);
        r.push(ListenerPlan { addr, use_tls: !insecure, port, url });
        i = i + 1;
    }
    r
}

/// The startup outcome: the fatal case of zero usable addresses, with
/// nothing started, or else the count of running listeners.
#[derive(Clone, Copy, PartialEq, Eq, Structural, Debug)]
pub enum StartupReport {
    NoUsableAddress,
    Started { listeners: usize },
}

/// Zero planned listeners is exactly the fatal no-usable-address
/// condition; otherwise every planned listener is started.
pub fn assess_startup(planned: usize) -> (r: StartupReport)
    ensures
        (planned == 0 <==> r is NoUsableAddress),
        r matches StartupReport::Started { listeners } ==> listeners == planned,
{
    if planned == 0 {
        StartupReport::NoUsableAddress
    } else {
        StartupReport::Started { listeners: planned }
    }
}

/// Supervision: the process must exit as soon as any supervised listener
/// has terminated.
pub fn should_abort(phases: &Vec<ListenerPhase>) -> (r: bool)
    ensures
        r == exists|k: int| 0 <= k < phases@.len() && phases@[k] is Terminated,
{
    let mut i: usize = 0;
    while i < phases.len()
        invariant
            i <= phases@.len(),
            forall|k: int| 0 <= k < i ==> !((#[trigger] phases@[k]) is Terminated),
        decreases phases@.len() - i,
    {
        match phases[i] {
            ListenerPhase::Terminated => {
                assert(phases@[i as int] is Terminated);
                return true;
            },
            _ => {},
        }
        i = i + 1;
    }
    false
}

} // verus!
