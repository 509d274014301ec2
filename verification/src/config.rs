//! Central configuration: scan defaults, adaptive-controller settings,
//! output and storage preferences, and the rules that validate them and
//! merge in the controller's suggestions. Reading and writing the
//! configuration file is the caller's concern.

use vstd::prelude::*;

use crate::error::ScanError;
use crate::ports::range_eq;

verus! {

/// Scan defaults.
pub struct ScanConfig {
    pub default_timeout: u64,
    pub default_rate_limit: u64,
    pub default_parallelism: usize,
    pub max_retries: u32,
    pub enable_service_detection: bool,
}

/// Adaptive-controller settings; the learning rate is held per-mille.
pub struct AdaptiveConfig {
    pub enabled: bool,
    pub learning_rate_permille: u32,
    pub min_scans_for_optimization: u32,
    pub max_port_intelligence_entries: usize,
    pub max_host_intelligence_entries: usize,
    pub data_retention_days: u32,
}

/// Output preferences.
pub struct OutputConfig {
    pub default_format: String,
    pub color_enabled: bool,
    pub verbose_output: bool,
    pub show_closed_ports: bool,
}

/// Where persistent data lives.
pub struct StorageConfig {
    pub backend: StorageBackend,
    pub data_dir: Option<String>,
    pub enable_compression: bool,
    pub backup_enabled: bool,
    pub max_file_size_mb: u32,
}

/// The persistence backend.
pub enum StorageBackend {
    Json,
    Sqlite,
    Memory,
}

/// Resource ceilings.
pub struct PerformanceConfig {
    pub enable_connection_pooling: bool,
    pub max_memory_usage_mb: usize,
    pub enable_scan_caching: bool,
    pub cache_ttl_seconds: u64,
}

/// The whole configuration.
pub struct Config {
    pub scanning: ScanConfig,
    pub adaptive: AdaptiveConfig,
    pub output: OutputConfig,
    pub storage: StorageConfig,
    pub performance: PerformanceConfig,
}

/// Whether a format name is one the renderers know.
pub open spec fn valid_format(f: Seq<char>) -> bool {
    f == "human"@ || f == "json"@ || f == "xml"@ || f == "csv"@
}

/// What a valid configuration satisfies.
pub open spec fn spec_config_valid(c: Config) -> bool {
    &&& c.scanning.default_timeout > 0
    &&& c.scanning.default_parallelism > 0
    &&& 0 < c.adaptive.learning_rate_permille < 1000
    &&& valid_format(c.output.default_format@)
}

impl Default for Config {
    /// The stock configuration: one-second timeouts, 50-way per-host
    /// parallelism, a 0.1 learning rate warmed over five scans, human
    /// output, JSON storage.
    fn default() -> (r: Config)
        ensures
            r.scanning.default_timeout == 1000,
            r.scanning.default_rate_limit == 50,
            r.scanning.default_parallelism == 50,
            r.scanning.max_retries == 3,
            r.scanning.enable_service_detection == false,
            r.adaptive.enabled == true,
            r.adaptive.learning_rate_permille == 100,
            r.adaptive.min_scans_for_optimization == 5,
            r.adaptive.max_port_intelligence_entries == 10000,
            r.adaptive.max_host_intelligence_entries == 5000,
            r.adaptive.data_retention_days == 90,
            r.output.default_format@ == "human"@,
            r.output.color_enabled == true,
            r.output.verbose_output == false,
            r.output.show_closed_ports == false,
            r.storage.backend is Json,
            r.storage.data_dir is None,
            r.storage.enable_compression == false,
            r.storage.backup_enabled == true,
            r.storage.max_file_size_mb == 100,
            r.performance.enable_connection_pooling == false,
            r.performance.max_memory_usage_mb == 512,
            r.performance.enable_scan_caching == false,
            r.performance.cache_ttl_seconds == 300,
            spec_config_valid(r),
    {
        let c = Config {
            scanning: ScanConfig {
                default_timeout: 1000,
                default_rate_limit: 50,
                default_parallelism: 50,
                max_retries: 3,
                enable_service_detection: false,
            },
            adaptive: AdaptiveConfig {
                enabled: true,
                learning_rate_permille: 100,
                min_scans_for_optimization: 5,
                max_port_intelligence_entries: 10000,
                max_host_intelligence_entries: 5000,
                data_retention_days: 90,
            },
            output: OutputConfig {
                default_format: String::from_str("human"),
                color_enabled: true,
                verbose_output: false,
                show_closed_ports: false,
            },
            storage: StorageConfig {
                backend: StorageBackend::Json,
                data_dir: None,
                enable_compression: false,
                backup_enabled: true,
                max_file_size_mb: 100,
            },
            performance: PerformanceConfig {
                enable_connection_pooling: false,
                max_memory_usage_mb: 512,
                enable_scan_caching: false,
                cache_ttl_seconds: 300,
            },
        };
        c
    }
}

impl Config {
    /// Validate the configuration: positive timeout and parallelism, a
    /// proper learning-rate fraction, a known output format.
    pub fn validate(&self) -> (r: Result<(), ScanError>)
        ensures
            r is Ok <==> spec_config_valid(*self),
            r is Err ==> r->Err_0 is Spec,
    {
        if self.scanning.default_timeout == 0 {
            return Err(
                ScanError::Spec(String::from_str("default_timeout must be greater than 0")),
            );
        }
        if self.scanning.default_parallelism == 0 {
            return Err(
                ScanError::Spec(String::from_str("default_parallelism must be greater than 0")),
            );
        }
        if self.adaptive.learning_rate_permille == 0 || self.adaptive.learning_rate_permille
            >= 1000 {
            return Err(ScanError::Spec(String::from_str("learning_rate must be between 0 and 1")));
        }
        let f = self.output.default_format.as_str();
        let n = f.unicode_len();
        let human = range_eq(f, 0, n, "human");
        let json = range_eq(f, 0, n, "json");
        let xml = range_eq(f, 0, n, "xml");
        let csv = range_eq(f, 0, n, "csv");
        proof {
            assert(f@.subrange(0, n as int) =~= f@);
        }
        if !(human || json || xml || csv) {
            return Err(
                ScanError::Spec(
                    String::from_str("default_format must be one of: human, json, xml, csv"),
                ),
            );
        }
        Ok(())
    }

    /// The timeout a scan runs with: the controller's suggestion when
    /// adaptive tuning is on and a suggestion exists, the default
    /// otherwise.
    pub fn get_effective_timeout(&self, adaptive_timeout: Option<u64>) -> (r: u64)
        ensures
            self.adaptive.enabled && adaptive_timeout is Some ==> r == adaptive_timeout->0,
            self.adaptive.enabled && adaptive_timeout is None ==> r
                == self.scanning.default_timeout,
            !self.adaptive.enabled ==> r == self.scanning.default_timeout,
    {
        if self.adaptive.enabled {
            match adaptive_timeout {
                Some(t) => t,
                None => self.scanning.default_timeout,
            }
        } else {
            self.scanning.default_timeout
        }
    }

    /// The pacing a scan runs with, chosen like the timeout.
    pub fn get_effective_rate_limit(&self, adaptive_rate_limit: Option<u64>) -> (r: u64)
        ensures
            self.adaptive.enabled && adaptive_rate_limit is Some ==> r == adaptive_rate_limit->0,
            self.adaptive.enabled && adaptive_rate_limit is None ==> r
                == self.scanning.default_rate_limit,
            !self.adaptive.enabled ==> r == self.scanning.default_rate_limit,
    {
        if self.adaptive.enabled {
            match adaptive_rate_limit {
                Some(t) => t,
                None => self.scanning.default_rate_limit,
            }
        } else {
            self.scanning.default_rate_limit
        }
    }

    /// The parallelism a scan runs with, chosen like the timeout.
    pub fn get_effective_parallelism(&self, adaptive_parallelism: Option<usize>) -> (r: usize)
        ensures
            self.adaptive.enabled && adaptive_parallelism is Some ==> r == adaptive_parallelism->0,
            self.adaptive.enabled && adaptive_parallelism is None ==> r
                == self.scanning.default_parallelism,
            !self.adaptive.enabled ==> r == self.scanning.default_parallelism,
    {
        if self.adaptive.enabled {
            match adaptive_parallelism {
                Some(t) => t,
                None => self.scanning.default_parallelism,
            }
        } else {
            self.scanning.default_parallelism
        }
    }
}

} // verus!
