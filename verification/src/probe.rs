//! The probe state machines: each family maps one observed network event
//! to the four-valued port classification. The sockets themselves live
//! with the caller; these functions are the classification rules.

use vstd::prelude::*;

use crate::cli::ScanType;
use crate::results::PortStatus;

verus! {

/// What a full-connect probe observed.
#[derive(Clone, Copy, Debug, PartialEq, Eq, Structural)]
pub enum TcpConnectEvent {
    /// The handshake completed.
    Connected,
    /// The peer answered with RST, or the system reported refusal.
    Refused,
    /// The probe budget elapsed with no response.
    TimedOut,
    /// Any other socket-layer error: no route, unreachable.
    OtherError,
}

/// What a raw-socket TCP probe (SYN, FIN, XMAS, NULL) observed.
#[derive(Clone, Copy, Debug, PartialEq, Eq, Structural)]
pub enum RawTcpEvent {
    /// SYN/ACK came back.
    SynAck,
    /// RST or RST/ACK came back.
    Rst,
    /// ICMP type 3 with the given code came back.
    IcmpUnreachable(u8),
    /// The probe budget elapsed with no reply.
    NoReply,
    /// The segment could not be sent: privilege denied, no interface.
    SendFailure,
}

/// What a UDP probe observed.
#[derive(Clone, Copy, Debug, PartialEq, Eq, Structural)]
pub enum UdpEvent {
    /// Any UDP datagram came back.
    Reply,
    /// ICMP type 3 with the given code came back.
    IcmpUnreachable(u8),
    /// The probe budget elapsed with no reply.
    NoReply,
    /// The datagram could not be sent.
    SendFailure,
}

/// One observation, tagged with the probe family that made it.
#[derive(Clone, Copy, Debug, PartialEq, Eq, Structural)]
pub enum ProbeObservation {
    TcpConnect(TcpConnectEvent),
    RawTcp(RawTcpEvent),
    Udp(UdpEvent),
}

/// The full-connect rule: handshake means open, refusal means closed,
/// silence means filtered, anything else is an error.
pub open spec fn spec_classify_connect(e: TcpConnectEvent) -> PortStatus {
    match e {
        TcpConnectEvent::Connected => PortStatus::Open,
        TcpConnectEvent::Refused => PortStatus::Closed,
        TcpConnectEvent::TimedOut => PortStatus::Filtered,
        TcpConnectEvent::OtherError => PortStatus::Error,
    }
}

/// The half-open rule: SYN/ACK means open, RST means closed, ICMP
/// unreachable or silence means filtered, a send failure is an error.
pub open spec fn spec_classify_syn(e: RawTcpEvent) -> PortStatus {
    match e {
        RawTcpEvent::SynAck => PortStatus::Open,
        RawTcpEvent::Rst => PortStatus::Closed,
        RawTcpEvent::IcmpUnreachable(_) => PortStatus::Filtered,
        RawTcpEvent::NoReply => PortStatus::Filtered,
        RawTcpEvent::SendFailure => PortStatus::Error,
    }
}

/// The FIN/NULL/XMAS rule: silence is open-or-filtered, collapsed to open
/// so the service layer can disambiguate; RST means closed; ICMP
/// unreachable means filtered; a send failure is an error. A SYN/ACK,
/// should a peer send one, is a reply from a listener: open.
pub open spec fn spec_classify_flag(e: RawTcpEvent) -> PortStatus {
    match e {
        RawTcpEvent::SynAck => PortStatus::Open,
        RawTcpEvent::Rst => PortStatus::Closed,
        RawTcpEvent::IcmpUnreachable(_) => PortStatus::Filtered,
        RawTcpEvent::NoReply => PortStatus::Open,
        RawTcpEvent::SendFailure => PortStatus::Error,
    }
}

/// The UDP rule: any datagram back means open, ICMP port-unreachable
/// (code 3) means closed, other unreachable codes mean filtered, and
/// silence defaults to filtered.
pub open spec fn spec_classify_udp(e: UdpEvent) -> PortStatus {
    match e {
        UdpEvent::Reply => PortStatus::Open,
        UdpEvent::IcmpUnreachable(code) => if code == 3 {
            PortStatus::Closed
        } else {
            PortStatus::Filtered
        },
        UdpEvent::NoReply => PortStatus::Filtered,
        UdpEvent::SendFailure => PortStatus::Error,
    }
}

/// The classification an observation earns under a scan kind. An
/// observation from the wrong probe family is a harness fault, recorded
/// as an error.
pub open spec fn spec_classify(kind: ScanType, obs: ProbeObservation) -> PortStatus {
    match (kind, obs) {
        (ScanType::Connect, ProbeObservation::TcpConnect(e)) => spec_classify_connect(e),
        (ScanType::Syn, ProbeObservation::RawTcp(e)) => spec_classify_syn(e),
        (ScanType::Fin, ProbeObservation::RawTcp(e)) => spec_classify_flag(e),
        (ScanType::Xmas, ProbeObservation::RawTcp(e)) => spec_classify_flag(e),
        (ScanType::Null, ProbeObservation::RawTcp(e)) => spec_classify_flag(e),
        (ScanType::Udp, ProbeObservation::Udp(e)) => spec_classify_udp(e),
        _ => PortStatus::Error,
    }
}

/// Classify a full-connect observation.
pub fn classify_connect(e: TcpConnectEvent) -> (r: PortStatus)
    ensures
        r == spec_classify_connect(e),
{
    match e {
        TcpConnectEvent::Connected => PortStatus::Open,
        TcpConnectEvent::Refused => PortStatus::Closed,
        TcpConnectEvent::TimedOut => PortStatus::Filtered,
        TcpConnectEvent::OtherError => PortStatus::Error,
    }
}

/// Classify a half-open observation.
pub fn classify_syn(e: RawTcpEvent) -> (r: PortStatus)
    ensures
        r == spec_classify_syn(e),
{
    match e {
        RawTcpEvent::SynAck => PortStatus::Open,
        RawTcpEvent::Rst => PortStatus::Closed,
        RawTcpEvent::IcmpUnreachable(_) => PortStatus::Filtered,
        RawTcpEvent::NoReply => PortStatus::Filtered,
        RawTcpEvent::SendFailure => PortStatus::Error,
    }
}

/// Classify a FIN, NULL or XMAS observation.
pub fn classify_flag(e: RawTcpEvent) -> (r: PortStatus)
    ensures
        r == spec_classify_flag(e),
{
    match e {
        RawTcpEvent::SynAck => PortStatus::Open,
        RawTcpEvent::Rst => PortStatus::Closed,
        RawTcpEvent::IcmpUnreachable(_) => PortStatus::Filtered,
        RawTcpEvent::NoReply => PortStatus::Open,
        RawTcpEvent::SendFailure => PortStatus::Error,
    }
}

/// Classify a UDP observation.
pub fn classify_udp(e: UdpEvent) -> (r: PortStatus)
    ensures
        r == spec_classify_udp(e),
{
    match e {
        UdpEvent::Reply => PortStatus::Open,
        UdpEvent::IcmpUnreachable(code) => {
            if code == 3 {
                PortStatus::Closed
            } else {
                PortStatus::Filtered
            }
        },
        UdpEvent::NoReply => PortStatus::Filtered,
        UdpEvent::SendFailure => PortStatus::Error,
    }
}

/// Classify one observation under the scan kind that produced it.
pub fn classify_observation(kind: ScanType, obs: ProbeObservation) -> (r: PortStatus)
    ensures
        r == spec_classify(kind, obs),
{
    match (kind, obs) {
        (ScanType::Connect, ProbeObservation::TcpConnect(e)) => classify_connect(e),
        (ScanType::Syn, ProbeObservation::RawTcp(e)) => classify_syn(e),
        (ScanType::Fin, ProbeObservation::RawTcp(e)) => classify_flag(e),
        (ScanType::Xmas, ProbeObservation::RawTcp(e)) => classify_flag(e),
        (ScanType::Null, ProbeObservation::RawTcp(e)) => classify_flag(e),
        (ScanType::Udp, ProbeObservation::Udp(e)) => classify_udp(e),
        _ => PortStatus::Error,
    }
}

/// The fast-connect timeout floor for private and loopback targets: the
/// round trip is negligible there, so the budget is capped at 250 ms.
pub fn fast_connect_timeout(timeout_ms: u64) -> (r: u64)
    ensures
        r == if timeout_ms < 250 { timeout_ms as int } else { 250int },
{
    if timeout_ms < 250 {
        timeout_ms
    } else {
        250
    }
}

/// The probe budget actually applied: the fast-connect floor for a
/// full-connect probe of a private or local address, the configured
/// timeout otherwise.
pub fn effective_probe_timeout(kind: ScanType, target_is_private: bool, timeout_ms: u64) -> (r:
    u64)
    ensures
        kind == ScanType::Connect && target_is_private ==> r == if timeout_ms < 250 {
            timeout_ms as int
        } else {
            250int
        },
        !(kind == ScanType::Connect && target_is_private) ==> r == timeout_ms,
{
    if matches!(kind, ScanType::Connect) && target_is_private {
        fast_connect_timeout(timeout_ms)
    } else {
        timeout_ms
    }
}

} // verus!
