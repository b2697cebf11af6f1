//! Proxy configuration, the command-line values it comes from, and the CA
//! certificate policy.
use vstd::prelude::*;

verus! {

/// The three switches of the proxy.
#[derive(Clone, Copy, Debug, PartialEq, Eq, Structural)]
pub struct ProxyConfig {
    pub intercept_tls: bool,
    pub block_ads: bool,
    pub cache_enabled: bool,
}

/// Logging verbosity.
#[derive(Clone, Copy, Debug, PartialEq, Eq, Structural)]
pub enum LogLevel {
    Trace,
    Debug,
    Info,
    Warn,
    Error,
}

/// Log line layout.
#[derive(Clone, Copy, Debug, PartialEq, Eq, Structural)]
pub enum LogFormat {
    /// Human-readable format with colors.
    Pretty,
    /// JSON format for machine parsing.
    Json,
    /// Compact single-line format.
    Compact,
}

/// Output format of scan results.
#[derive(Clone, Copy, Debug, PartialEq, Eq, Structural)]
pub enum OutputFormat {
    Txt,
    Json,
    Csv,
    Yaml,
}

impl OutputFormat {
    /// The format's name in capitals.
    pub fn to_string(&self) -> (r: &'static str)
        ensures
            *self == OutputFormat::Txt ==> r@ == "TXT"@,
            *self == OutputFormat::Json ==> r@ == "JSON"@,
            *self == OutputFormat::Csv ==> r@ == "CSV"@,
            *self == OutputFormat::Yaml ==> r@ == "YAML"@,
    {
        match self {
            OutputFormat::Txt => "TXT",
            OutputFormat::Json => "JSON",
            OutputFormat::Csv => "CSV",
            OutputFormat::Yaml => "YAML",
        }
    }
}

/// Where and how logs are written.
pub struct LogConfig {
    pub level: LogLevel,
    pub format: LogFormat,
    pub file_path: Option<String>,
    pub max_log_files: Option<usize>,
}

/// The options of the `proxy` command.
pub struct ProxyCommand {
    pub host: String,
    pub port: u16,
    pub ipv6: bool,
    pub log_level: LogLevel,
    pub log_file: Option<String>,
    pub log_format: LogFormat,
    pub log_max_files: Option<usize>,
    pub admin_port: u16,
    pub intercept_tls: bool,
    pub block_ads: bool,
    pub cache_enabled: bool,
}

/// The options of the `sniff` command.
pub struct SniffCommand {
    pub iface: String,
    pub duration: Option<u64>,
    pub count: Option<u32>,
    pub output_file: Option<String>,
}

impl ProxyConfig {
    /// The configuration that the command line asks for.
    pub fn from_cli(cli: &ProxyCommand) -> (r: ProxyConfig)
        ensures
            r.intercept_tls == cli.intercept_tls,
            r.block_ads == cli.block_ads,
            r.cache_enabled == cli.cache_enabled,
    {
        ProxyConfig {
            intercept_tls: cli.intercept_tls,
            block_ads: cli.block_ads,
            cache_enabled: cli.cache_enabled,
        }
    }
}

/// The proxy and admin ports clash: equal, and one of them is zero.
pub fn ports_conflict(cli: &ProxyCommand) -> (r: bool)
    ensures
        r == ((cli.admin_port == 0 || cli.port == 0) && cli.admin_port == cli.port),
{
    (cli.admin_port == 0 || cli.port == 0) && cli.admin_port == cli.port
}

/// Seconds in the warning window before a CA certificate expires (30 days).
pub const EXPIRY_WARNING_SECS: i64 = 2592000;

/// Days that a freshly generated CA certificate is valid.
pub const CERT_DAYS_VALID: u64 = 365;

/// Why the CA material cannot be used.
#[derive(Clone, Copy, Debug, PartialEq, Eq, Structural)]
pub enum CaError {
    /// The CA certificate's `notAfter` has passed.
    Expired,
    /// A regenerated CA is byte-identical to the one it replaces.
    Identical,
}

/// How much validity a CA certificate has left.
#[derive(Clone, Copy, Debug, PartialEq, Eq, Structural)]
pub enum CaStatus {
    Valid,
    /// Fewer than 30 days remain.
    ExpiringSoon,
}

/// The expiry policy: a certificate whose `notAfter` (seconds since the epoch)
/// is before `now` is expired, and TLS interception is switched off; one that
/// expires within 30 days is flagged.
pub fn check_ca_expiry(config: &mut ProxyConfig, not_after: i64, now: i64) -> (r: Result<
    CaStatus,
    CaError,
>)
    ensures
        not_after < now ==> r == Err::<CaStatus, CaError>(CaError::Expired) && *final(config)
            == (ProxyConfig { intercept_tls: false, ..*old(config) }),
        now <= not_after < now + EXPIRY_WARNING_SECS ==> r == Ok::<CaStatus, CaError>(
            CaStatus::ExpiringSoon,
        ) && *final(config) == *old(config),
        now + EXPIRY_WARNING_SECS <= not_after ==> r == Ok::<CaStatus, CaError>(CaStatus::Valid)
            && *final(config) == *old(config),
{
    if not_after < now {
        config.intercept_tls = false;
        return Err(CaError::Expired);
    }
    if (not_after as i128) < (now as i128) + (EXPIRY_WARNING_SECS as i128) {
        Ok(CaStatus::ExpiringSoon)
    } else {
        Ok(CaStatus::Valid)
    }
}

/// A regenerated CA is accepted only if its certificate and its key both differ
/// from the files they replace (a missing old file counts as different).
pub fn check_ca_rotation(
    new_cert: &[u8],
    old_cert: Option<&[u8]>,
    new_key: &[u8],
    old_key: Option<&[u8]>,
) -> (r: Result<(), CaError>)
    ensures
        r is Ok <==> (match old_cert {
            Some(c) => c@ != new_cert@,
            None => true,
        }) && (match old_key {
            Some(k) => k@ != new_key@,
            None => true,
        }),
        r is Err ==> r == Err::<(), CaError>(CaError::Identical),
{
    let cert_ok = match old_cert {
        Some(c) => !crate::text::bytes_equal(c, new_cert),
        None => true,
    };
    let key_ok = match old_key {
        Some(k) => !crate::text::bytes_equal(k, new_key),
        None => true,
    };
    if cert_ok && key_ok {
        Ok(())
    } else {
        Err(CaError::Identical)
    }
}

} // verus!
