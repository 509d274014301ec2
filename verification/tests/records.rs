//! The result records, configuration rules, plugin catalogue and error
//! taxonomy.

use portscan::cli::{OutputFormat, ScanType};
use portscan::config::Config;
use portscan::error::ScanError;
use portscan::plugins::{
    HttpServicePlugin, HumanOutputPlugin, JsonOutputPlugin, PluginError, SshServicePlugin,
    TcpConnectPlugin,
};
use portscan::results::{PortResult, PortStatus, ServiceInfo};

#[test]
fn test_default_config_is_valid() {
    let config = Config::default();
    assert!(config.validate().is_ok());
}

#[test]
fn test_effective_values() {
    let config = Config::default();

    // with adaptive learning enabled
    assert_eq!(config.get_effective_timeout(Some(500)), 500);
    assert_eq!(config.get_effective_timeout(None), config.scanning.default_timeout);

    // with adaptive learning disabled
    let mut config_disabled = Config::default();
    config_disabled.adaptive.enabled = false;
    assert_eq!(
        config_disabled.get_effective_timeout(Some(500)),
        config.scanning.default_timeout
    );
}

#[test]
fn test_config_validation_rejects_bad_values() {
    let mut c = Config::default();
    c.scanning.default_timeout = 0;
    assert!(c.validate().is_err());
    let mut c = Config::default();
    c.scanning.default_parallelism = 0;
    assert!(c.validate().is_err());
    let mut c = Config::default();
    c.adaptive.learning_rate_permille = 1000;
    assert!(c.validate().is_err());
    let mut c = Config::default();
    c.output.default_format = "yaml".to_string();
    assert!(c.validate().is_err());
    let mut c = Config::default();
    c.output.default_format = "csv".to_string();
    assert!(c.validate().is_ok());
}

#[test]
fn test_tcp_connect_plugin_creation() {
    let plugin = TcpConnectPlugin::new();
    assert_eq!(plugin.name(), "tcp_connect");
    assert_eq!(plugin.version(), "1.0.0");
    assert!(plugin.supports_scan_type(ScanType::Connect));
    assert!(!plugin.supports_scan_type(ScanType::Syn));
}

#[test]
fn test_output_plugins() {
    let human_plugin = HumanOutputPlugin::new();
    assert_eq!(human_plugin.name(), "human_output");
    assert_eq!(human_plugin.file_extension(), "txt");
    assert_eq!(human_plugin.content_type(), "text/plain");

    let json_plugin = JsonOutputPlugin::new();
    assert_eq!(json_plugin.name(), "json_output");
    assert_eq!(json_plugin.file_extension(), "json");
    assert_eq!(json_plugin.content_type(), "application/json");
}

#[test]
fn test_service_detection_plugins() {
    let http_plugin = HttpServicePlugin::new();
    assert_eq!(http_plugin.name(), "http_service");
    assert!(http_plugin.supported_ports().contains(&80));
    assert!(http_plugin.supported_ports().contains(&8080));

    let ssh_plugin = SshServicePlugin::new();
    assert_eq!(ssh_plugin.name(), "ssh_service");
    assert!(ssh_plugin.supported_ports().contains(&22));
}

#[test]
fn test_service_info_creation() {
    let service = ServiceInfo {
        name: "HTTP".to_string(),
        version: Some("1.1".to_string()),
        banner: Some("nginx/1.18.0".to_string()),
        confidence_percent: 95,
        additional_info: Vec::new(),
    };

    assert_eq!(service.name, "HTTP");
    assert!(service.confidence_percent > 90);
}

#[test]
fn test_port_result_service_attachment() {
    let mut open_port = PortResult::new(80, PortStatus::Open, Some(12));
    assert!(open_port.service_detected.is_none());
    assert!(!open_port.is_filtered);
    open_port.attach_service(ServiceInfo {
        name: "HTTP".to_string(),
        version: None,
        banner: None,
        confidence_percent: 90,
        additional_info: Vec::new(),
    });
    assert_eq!(open_port.service_detected.as_ref().unwrap().name, "HTTP");

    let filtered = PortResult::new(23, PortStatus::Filtered, None);
    assert!(filtered.is_filtered);
    assert!(filtered.service_detected.is_none());
}

#[test]
fn test_status_rendering() {
    assert_eq!(PortStatus::Open.as_lowercase(), "open");
    assert_eq!(PortStatus::Closed.as_lowercase(), "closed");
    assert_eq!(PortStatus::Filtered.as_lowercase(), "filtered");
    assert_eq!(PortStatus::Error.as_lowercase(), "error");
}

#[test]
fn test_scan_type_labels() {
    assert_eq!(ScanType::Syn.display_name(), "SYN");
    assert_eq!(ScanType::Connect.display_name(), "CONNECT");
    assert!(ScanType::Syn.needs_raw_socket());
    assert!(!ScanType::Connect.needs_raw_socket());
    assert!(!ScanType::Udp.needs_raw_socket());
    assert_eq!(OutputFormat::Json, OutputFormat::Json);
}

#[test]
fn test_error_messages() {
    let e = ScanError::Spec("bad port".to_string());
    assert_eq!(e.message(), "invalid specification: bad port");
    assert!(e.is_fatal());
    let e = ScanError::Resolve("nohost".to_string());
    assert_eq!(e.message(), "hostname did not resolve: nohost");
    assert!(!e.is_fatal());
    assert_eq!(ScanError::Cancelled.message(), "scan cancelled");

    let pe = PluginError::NotFound("x".to_string());
    assert_eq!(pe.message(), "Plugin not found: x");
    let pe = PluginError::VersionMismatch {
        expected: "1".to_string(),
        actual: "2".to_string(),
    };
    assert_eq!(pe.message(), "Plugin version mismatch: expected 1, got 2");
}
