//! The built-in plugin catalogue: the scanner, output and
//! service-detection plugins the pipeline registers by default, with
//! their metadata, configuration record and error taxonomy. The async
//! driver around each plugin lives with the caller; what each plugin
//! declares about itself is verified here.

use vstd::prelude::*;

use crate::cli::ScanType;

verus! {

/// The built-in full-connect scanner plugin.
pub struct TcpConnectPlugin {
    pub name: String,
    pub version: String,
}

impl TcpConnectPlugin {
    pub fn new() -> (r: TcpConnectPlugin)
        ensures
            r.name@ == "tcp_connect"@,
            r.version@ == "1.0.0"@,
    {
        TcpConnectPlugin {
            name: String::from_str("tcp_connect"),
            version: String::from_str("1.0.0"),
        }
    }

    pub fn name(&self) -> (r: &str)
        ensures
            r@ == self.name@,
    {
        self.name.as_str()
    }

    pub fn version(&self) -> (r: &str)
        ensures
            r@ == self.version@,
    {
        self.version.as_str()
    }

    pub fn description(&self) -> (r: &'static str)
        ensures
            r@ == "TCP Connect scan using standard socket connections"@,
    {
        "TCP Connect scan using standard socket connections"
    }

    /// The scan kinds this plugin can run.
    pub fn supported_scan_types(&self) -> (r: Vec<ScanType>)
        ensures
            r@ == seq![ScanType::Connect],
    {
        let mut v: Vec<ScanType> = Vec::new();
        v.push(ScanType::Connect);
        proof {
            assert(v@ =~= seq![ScanType::Connect]);
        }
        v
    }

    /// Whether this plugin can run the given scan kind.
    pub fn supports_scan_type(&self, scan_type: ScanType) -> (r: bool)
        ensures
            r == (scan_type == ScanType::Connect),
    {
        matches!(scan_type, ScanType::Connect)
    }
}

/// The built-in operator-readable output plugin.
pub struct HumanOutputPlugin {
    pub name: String,
}

impl HumanOutputPlugin {
    pub fn new() -> (r: HumanOutputPlugin)
        ensures
            r.name@ == "human_output"@,
    {
        HumanOutputPlugin { name: String::from_str("human_output") }
    }

    pub fn name(&self) -> (r: &str)
        ensures
            r@ == self.name@,
    {
        self.name.as_str()
    }

    pub fn file_extension(&self) -> (r: &'static str)
        ensures
            r@ == "txt"@,
    {
        "txt"
    }

    pub fn content_type(&self) -> (r: &'static str)
        ensures
            r@ == "text/plain"@,
    {
        "text/plain"
    }
}

/// The built-in JSON output plugin.
pub struct JsonOutputPlugin {
    pub name: String,
}

impl JsonOutputPlugin {
    pub fn new() -> (r: JsonOutputPlugin)
        ensures
            r.name@ == "json_output"@,
    {
        JsonOutputPlugin { name: String::from_str("json_output") }
    }

    pub fn name(&self) -> (r: &str)
        ensures
            r@ == self.name@,
    {
        self.name.as_str()
    }

    pub fn file_extension(&self) -> (r: &'static str)
        ensures
            r@ == "json"@,
    {
        "json"
    }

    pub fn content_type(&self) -> (r: &'static str)
        ensures
            r@ == "application/json"@,
    {
        "application/json"
    }
}

/// The built-in HTTP service-detection plugin.
pub struct HttpServicePlugin {
    pub name: String,
}

impl HttpServicePlugin {
    pub fn new() -> (r: HttpServicePlugin)
        ensures
            r.name@ == "http_service"@,
    {
        HttpServicePlugin { name: String::from_str("http_service") }
    }

    pub fn name(&self) -> (r: &str)
        ensures
            r@ == self.name@,
    {
        self.name.as_str()
    }

    /// The ports this plugin probes.
    pub fn supported_ports(&self) -> (r: Vec<u16>)
        ensures
            r@ == seq![80u16, 8080, 8000, 8443, 9000, 3000],
    {
        let mut v: Vec<u16> = Vec::new();
        v.push(80);
        v.push(8080);
        v.push(8000);
        v.push(8443);
        v.push(9000);
        v.push(3000);
        proof {
            assert(v@ =~= seq![80u16, 8080, 8000, 8443, 9000, 3000]);
        }
        v
    }
}

/// The built-in SSH service-detection plugin.
pub struct SshServicePlugin {
    pub name: String,
}

impl SshServicePlugin {
    pub fn new() -> (r: SshServicePlugin)
        ensures
            r.name@ == "ssh_service"@,
    {
        SshServicePlugin { name: String::from_str("ssh_service") }
    }

    pub fn name(&self) -> (r: &str)
        ensures
            r@ == self.name@,
    {
        self.name.as_str()
    }

    /// The ports this plugin probes.
    pub fn supported_ports(&self) -> (r: Vec<u16>)
        ensures
            r@ == seq![22u16, 2222],
    {
        let mut v: Vec<u16> = Vec::new();
        v.push(22);
        v.push(2222);
        proof {
            assert(v@ =~= seq![22u16, 2222]);
        }
        v
    }
}

/// A plugin's configuration: free-form settings, an enable switch, and a
/// scheduling priority.
pub struct PluginConfig {
    pub settings: Vec<(String, String)>,
    pub enabled: bool,
    pub priority: u32,
}

impl Default for PluginConfig {
    /// Enabled, priority 100, no settings.
    fn default() -> (r: PluginConfig)
        ensures
            r.settings@.len() == 0,
            r.enabled == true,
            r.priority == 100,
    {
        PluginConfig { settings: Vec::new(), enabled: true, priority: 100 }
    }
}

/// What a plugin declares about itself.
pub struct PluginMetadata {
    pub name: String,
    pub version: String,
    pub description: String,
    pub author: String,
    pub plugin_type: PluginType,
    pub dependencies: Vec<String>,
}

/// The kind of work a plugin does.
pub enum PluginType {
    Scanner,
    Output,
    ServiceDetection,
    Custom(String),
}

/// A fault in loading or driving a plugin.
pub enum PluginError {
    NotFound(String),
    InitializationFailed(String),
    UnsupportedType(String),
    VersionMismatch { expected: String, actual: String },
    MissingDependency(String),
}

impl PluginError {
    /// An operator-readable rendering of the fault.
    pub fn message(&self) -> (r: String)
        ensures
            self is NotFound ==> r@ == "Plugin not found: "@ + self->NotFound_0@,
            self is InitializationFailed ==> r@ == "Plugin initialization failed: "@
                + self->InitializationFailed_0@,
            self is UnsupportedType ==> r@ == "Unsupported plugin type: "@
                + self->UnsupportedType_0@,
            self is VersionMismatch ==> r@ == "Plugin version mismatch: expected "@
                + self->VersionMismatch_expected@ + ", got "@ + self->VersionMismatch_actual@,
            self is MissingDependency ==> r@ == "Plugin dependency missing: "@
                + self->MissingDependency_0@,
    {
        match self {
            PluginError::NotFound(s) => {
                let mut m = String::from_str("Plugin not found: ");
                m.append(s.as_str());
                m
            },
            PluginError::InitializationFailed(s) => {
                let mut m = String::from_str("Plugin initialization failed: ");
                m.append(s.as_str());
                m
            },
            PluginError::UnsupportedType(s) => {
                let mut m = String::from_str("Unsupported plugin type: ");
                m.append(s.as_str());
                m
            },
            PluginError::VersionMismatch { expected, actual } => {
                let mut m = String::from_str("Plugin version mismatch: expected ");
                m.append(expected.as_str());
                m.append(", got ");
                m.append(actual.as_str());
                m
            },
            PluginError::MissingDependency(s) => {
                let mut m = String::from_str("Plugin dependency missing: ");
                m.append(s.as_str());
                m
            },
        }
    }
}

} // verus!
