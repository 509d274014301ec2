//! The error taxonomy. A probe-level fault never fails a scan: it is
//! recorded as a port outcome. The variants here are the faults that
//! propagate out of expansion, privilege checks, or the scan call itself.

use vstd::prelude::*;

verus! {

/// A fault that propagates out of the scan pipeline.
#[derive(Debug)]
pub enum ScanError {
    /// Malformed target or port specification; fatal.
    Spec(String),
    /// A hostname token did not resolve; the token is skipped.
    Resolve(String),
    /// A raw-socket scan was requested without privilege; fatal.
    Privilege(String),
    /// The file-descriptor budget would be exceeded; fatal.
    Resource(String),
    /// A transient probe failure, recorded as a port outcome.
    Probe(String),
    /// The scan was cancelled; the partial result is discarded.
    Cancelled,
}

impl ScanError {
    /// An operator-readable rendering of the fault.
    pub fn message(&self) -> (r: String)
        ensures
            self is Spec ==> r@ == "invalid specification: "@ + self->Spec_0@,
            self is Resolve ==> r@ == "hostname did not resolve: "@ + self->Resolve_0@,
            self is Privilege ==> r@ == "privilege denied: "@ + self->Privilege_0@,
            self is Resource ==> r@ == "resource limit exceeded: "@ + self->Resource_0@,
            self is Probe ==> r@ == "probe failure: "@ + self->Probe_0@,
            self is Cancelled ==> r@ == "scan cancelled"@,
    {
        match self {
            ScanError::Spec(s) => {
                let mut m = String::from_str("invalid specification: ");
                m.append(s.as_str());
                m
            },
            ScanError::Resolve(s) => {
                let mut m = String::from_str("hostname did not resolve: ");
                m.append(s.as_str());
                m
            },
            ScanError::Privilege(s) => {
                let mut m = String::from_str("privilege denied: ");
                m.append(s.as_str());
                m
            },
            ScanError::Resource(s) => {
                let mut m = String::from_str("resource limit exceeded: ");
                m.append(s.as_str());
                m
            },
            ScanError::Probe(s) => {
                let mut m = String::from_str("probe failure: ");
                m.append(s.as_str());
                m
            },
            ScanError::Cancelled => String::from_str("scan cancelled"),
        }
    }

    /// Whether the fault aborts the whole invocation (exit code 1 or 2),
    /// as opposed to being confined to one token or one probe.
    pub fn is_fatal(&self) -> (r: bool)
        ensures
            r == (self is Spec || self is Privilege || self is Resource),
    {
        match self {
            ScanError::Spec(_) => true,
            ScanError::Privilege(_) => true,
            ScanError::Resource(_) => true,
            _ => false,
        }
    }
}

} // verus!
