//! The result model: the four-valued port classification, per-port and
//! per-host scan records, and the multi-host aggregate, each with its
//! well-formedness invariant.

use vstd::prelude::*;

use crate::cli::ScanType;
use crate::net::Address;

verus! {

/// The four-valued classification of one (address, port) probe.
#[derive(Clone, Copy, Debug, PartialEq, Eq, Structural)]
pub enum PortStatus {
    Open,
    Closed,
    Filtered,
    Error,
}

impl PortStatus {
    /// The lowercase rendering used by wire formats.
    pub fn as_lowercase(&self) -> (r: &'static str)
        ensures
            *self == PortStatus::Open ==> r@ == "open"@,
            *self == PortStatus::Closed ==> r@ == "closed"@,
            *self == PortStatus::Filtered ==> r@ == "filtered"@,
            *self == PortStatus::Error ==> r@ == "error"@,
    {
        match self {
            PortStatus::Open => "open",
            PortStatus::Closed => "closed",
            PortStatus::Filtered => "filtered",
            PortStatus::Error => "error",
        }
    }
}

/// A service record attached to an open port: a protocol label, an
/// optional version and banner, a confidence in whole percent, and
/// free-form extra details.
pub struct ServiceInfo {
    pub name: String,
    pub version: Option<String>,
    pub banner: Option<String>,
    /// Confidence in 0..=100 percent.
    pub confidence_percent: u8,
    pub additional_info: Vec<(String, String)>,
}

impl ServiceInfo {
    /// A service record never claims more than full confidence.
    pub open spec fn wf(&self) -> bool {
        self.confidence_percent <= 100
    }
}

/// One port's outcome within a host scan.
pub struct PortResult {
    pub port: u16,
    pub status: PortStatus,
    pub is_filtered: bool,
    pub response_time_ms: Option<u64>,
    pub service_detected: Option<ServiceInfo>,
}

impl PortResult {
    /// A service record is attached only to an open port, and the
    /// filtered flag mirrors the status.
    pub open spec fn wf(&self) -> bool {
        &&& (self.service_detected is Some ==> self.status == PortStatus::Open)
        &&& (self.is_filtered <==> self.status == PortStatus::Filtered)
        &&& (self.service_detected is Some ==> self.service_detected->0.wf())
    }

    /// Record one probe outcome, before any service identification.
    pub fn new(port: u16, status: PortStatus, response_time_ms: Option<u64>) -> (r: PortResult)
        ensures
            r.wf(),
            r.port == port,
            r.status == status,
            r.response_time_ms == response_time_ms,
            r.service_detected is None,
    {
        PortResult {
            port,
            status,
            is_filtered: matches!(status, PortStatus::Filtered),
            response_time_ms,
            service_detected: None,
        }
    }

    /// Attach a service record; only an open port may carry one.
    pub fn attach_service(&mut self, service: ServiceInfo)
        requires
            old(self).wf(),
            old(self).status == PortStatus::Open,
            service.wf(),
        ensures
            final(self).wf(),
            final(self).port == old(self).port,
            final(self).status == old(self).status,
            final(self).response_time_ms == old(self).response_time_ms,
            final(self).service_detected == Some(service),
    {
        self.service_detected = Some(service);
    }
}

/// The ports of a host result are strictly ascending by port number.
pub open spec fn ports_sorted(ports: Seq<PortResult>) -> bool {
    forall|i: int, j: int| 0 <= i < j < ports.len() ==> ports[i].port < ports[j].port
}

/// Every port record of a host result is well-formed.
pub open spec fn ports_wf(ports: Seq<PortResult>) -> bool {
    forall|i: int| 0 <= i < ports.len() ==> (#[trigger] ports[i]).wf()
}

/// One host's scan outcome.
pub struct ScanResult {
    /// The display form: the original hostname, or the address text.
    pub target: String,
    pub target_ip: Address,
    pub scan_type: ScanType,
    /// Start of the host scan, in milliseconds since the epoch.
    pub start_time_ms: u64,
    /// End of the host scan, in milliseconds since the epoch.
    pub end_time_ms: u64,
    pub ports: Vec<PortResult>,
}

impl ScanResult {
    /// Ports are strictly ascending, each record well-formed.
    pub open spec fn wf(&self) -> bool {
        &&& ports_sorted(self.ports@)
        &&& ports_wf(self.ports@)
    }
}

/// The outcome of one multi-host scan.
pub struct MultiHostScanResult {
    pub target_spec: String,
    pub scan_type: ScanType,
    pub start_time_ms: u64,
    pub end_time_ms: u64,
    pub total_hosts: usize,
    pub total_ports: usize,
    pub hosts: Vec<ScanResult>,
}

impl MultiHostScanResult {
    /// The host count is the length of the host list; every host result
    /// is well-formed and carries the scan's kind; every host holds one
    /// outcome per scanned port.
    pub open spec fn wf(&self) -> bool {
        &&& self.total_hosts == self.hosts@.len()
        &&& forall|i: int| 0 <= i < self.hosts@.len() ==> (#[trigger] self.hosts@[i]).wf()
        &&& forall|i: int|
            0 <= i < self.hosts@.len() ==> (#[trigger] self.hosts@[i]).scan_type == self.scan_type
        &&& forall|i: int|
            0 <= i < self.hosts@.len() ==> (#[trigger] self.hosts@[i]).ports@.len()
                == self.total_ports
    }
}

/// A service record is attached only where the port was classified open:
/// immediate from well-formedness, stated on its own because consumers
/// dispatch on it.
pub proof fn lemma_service_only_on_open(r: ScanResult, i: int)
    requires
        r.wf(),
        0 <= i < r.ports@.len(),
        r.ports@[i].service_detected is Some,
    ensures
        r.ports@[i].status == PortStatus::Open,
{
}

/// Within a host result the port rows are strictly ascending by port
/// number, so each port appears once.
pub proof fn lemma_ports_strictly_ascending(r: ScanResult, i: int, j: int)
    requires
        r.wf(),
        0 <= i < j < r.ports@.len(),
    ensures
        r.ports@[i].port < r.ports@[j].port,
{
}

} // verus!
