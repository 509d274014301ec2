//! The invocation surface: the option record handed in by the front end,
//! the scan-kind tag and the output-format tag.

use vstd::prelude::*;

verus! {

/// The probe family to run against each (address, port) pair.
#[derive(Clone, Copy, Debug, PartialEq, Eq, Structural)]
pub enum ScanType {
    Syn,
    Connect,
    Udp,
    Fin,
    Xmas,
    Null,
}

impl ScanType {
    /// The uppercase tag used when a scan kind is shown to an operator.
    pub fn display_name(&self) -> (r: &'static str)
        ensures
            *self == ScanType::Syn ==> r@ == "SYN"@,
            *self == ScanType::Connect ==> r@ == "CONNECT"@,
            *self == ScanType::Udp ==> r@ == "UDP"@,
            *self == ScanType::Fin ==> r@ == "FIN"@,
            *self == ScanType::Xmas ==> r@ == "XMAS"@,
            *self == ScanType::Null ==> r@ == "NULL"@,
    {
        match self {
            ScanType::Syn => "SYN",
            ScanType::Connect => "CONNECT",
            ScanType::Udp => "UDP",
            ScanType::Fin => "FIN",
            ScanType::Xmas => "XMAS",
            ScanType::Null => "NULL",
        }
    }

    /// Whether this probe family needs a raw socket, and with it elevated
    /// privilege; the full-connect and UDP paths use ordinary sockets.
    pub fn needs_raw_socket(&self) -> (r: bool)
        ensures
            r == !(*self == ScanType::Connect || *self == ScanType::Udp),
    {
        match self {
            ScanType::Connect => false,
            ScanType::Udp => false,
            _ => true,
        }
    }
}

/// The report rendering chosen by the operator.
#[derive(Clone, Copy, Debug, PartialEq, Eq, Structural)]
pub enum OutputFormat {
    Human,
    Json,
    Xml,
    Csv,
}

/// Everything the operator hands the scanner: targets, ports, the scan
/// kind, pacing and timeout bounds, parallelism, and output switches.
/// The front end fills this in; the library only reads it.
pub struct Cli {
    pub target: Vec<String>,
    pub ports: Vec<String>,
    pub scan_type: ScanType,
    pub rate_limit: u64,
    pub timeout: u64,
    pub parallel_hosts: usize,
    pub output_format: OutputFormat,
    pub output_file: Option<String>,
    pub no_color: bool,
    pub verbose: bool,
    pub skip_ping: bool,
}

} // verus!
