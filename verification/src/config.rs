//! Configuration of the proxy. All shared state is passed in at
//! construction; these are plain values the application fills from its
//! own sources.

use vstd::prelude::*;
use vstd::string::StringExecFns;

verus! {

/// DNS-side settings.
pub struct DNSConfig {
    pub host: String,
    pub port: u16,
    pub upstream_servers: Vec<String>,
    pub cache_size: usize,
    pub cache_ttl: u64,
    pub enable_ai_features: bool,
}

/// Web/admin-side settings.
pub struct WebConfig {
    pub host: String,
    pub port: u16,
    pub cors_origins: Vec<String>,
    pub static_dir: String,
}

/// Durable-store settings.
pub struct DatabaseConfig {
    pub uri: String,
    pub database_name: String,
    pub max_pool_size: u32,
}

/// Classifier and corrector toggles.
pub struct AIConfig {
    pub threat_detection: bool,
    pub typo_correction: bool,
    pub domain_analysis: bool,
    pub ml_model_path: Option<String>,
}

/// Telemetry rollup settings.
pub struct AnalyticsConfig {
    pub enabled: bool,
    pub retention_days: u32,
    pub metrics_port: u16,
}

/// Authentication settings of the admin surface.
pub struct AuthConfig {
    pub jwt_secret: String,
    pub token_expiry: u64,
    pub enable_registration: bool,
}

/// The whole configuration.
pub struct Config {
    pub dns: DNSConfig,
    pub web: WebConfig,
    pub database: DatabaseConfig,
    pub ai: AIConfig,
    pub analytics: AnalyticsConfig,
    pub auth: AuthConfig,
}

impl Default for Config {
    /// The built-in defaults: serve DNS on 5353 with two public
    /// upstreams, a ten-thousand-entry cache, and every classifier
    /// feature on.
    fn default() -> (r: Config)
        ensures
            r.dns.host@ == "0.0.0.0"@,
            r.dns.port == 5353,
            r.dns.upstream_servers@.len() == 2,
            r.dns.cache_size == 10000,
            r.dns.cache_ttl == 300,
            r.dns.enable_ai_features,
            r.web.port == 8080,
            r.database.max_pool_size == 100,
            r.ai.threat_detection,
            r.ai.typo_correction,
            r.ai.domain_analysis,
            r.ai.ml_model_path is None,
            r.analytics.enabled,
            r.analytics.retention_days == 30,
            r.analytics.metrics_port == 9090,
            r.auth.token_expiry == 3600,
            r.auth.enable_registration,
    {
        let mut upstreams: Vec<String> = Vec::new();
        upstreams.push(String::from_str("8.8.8.8:53"));
        upstreams.push(String::from_str("1.1.1.1:53"));
        let mut cors: Vec<String> = Vec::new();
        cors.push(String::from_str("*"));
        Config {
            dns: DNSConfig {
                host: String::from_str("0.0.0.0"),
                port: 5353,
                upstream_servers: upstreams,
                cache_size: 10000,
                cache_ttl: 300,
                enable_ai_features: true,
            },
            web: WebConfig {
                host: String::from_str("0.0.0.0"),
                port: 8080,
                cors_origins: cors,
                static_dir: String::from_str("./frontend/dist"),
            },
            database: DatabaseConfig {
                uri: String::from_str("mongodb://localhost:27017"),
                database_name: String::from_str("bhai_dns"),
                max_pool_size: 100,
            },
            ai: AIConfig {
                threat_detection: true,
                typo_correction: true,
                domain_analysis: true,
                ml_model_path: None,
            },
            analytics: AnalyticsConfig { enabled: true, retention_days: 30, metrics_port: 9090 },
            auth: AuthConfig {
                jwt_secret: String::from_str("SECRET-REDACTED"),
                token_expiry: 3600,
                enable_registration: true,
            },
        }
    }
}

/// Per-user display preferences stored with an account.
pub struct UserPreferences {
    pub enable_notifications: bool,
    pub dashboard_layout: String,
    pub theme: String,
    pub timezone: String,
}

} // verus!
