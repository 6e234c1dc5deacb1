//! Configuration: defaults, overrides, and validation at startup.

use vstd::prelude::*;

verus! {

/// Default maximum queue length when no override is present.
pub const DEFAULT_MAX_QUEUE_LENGTH: i32 = 100;

/// Default port for the health endpoint when no override is present.
pub const DEFAULT_SERVER_PORT: u16 = 8080;

/// The immutable configuration, loaded once at process start.
#[derive(Clone, Copy, Debug, PartialEq, Eq, Structural)]
pub struct Settings {
    /// Threshold base for the admission rule.
    pub max_queue_length: i32,
    /// Port the health endpoint listens on (not used by the decision logic).
    pub server_port: u16,
}

/// Why the configuration was rejected at startup.
#[derive(Clone, Copy, Debug, PartialEq, Eq, Structural)]
pub enum ConfigurationError {
    /// A negative maximum queue length was supplied.
    NegativeMaxQueueLength,
}

/// Resolves the configuration from optional overrides (e.g. environment
/// variables read by the surrounding program), applying the defaults where no
/// override is present.  A negative maximum queue length is rejected here, at
/// load time, so the evaluator never sees one.
pub fn load_settings(
    max_queue_length: Option<i32>,
    server_port: Option<u16>,
) -> (result: Result<Settings, ConfigurationError>)
    ensures
        match result {
            Ok(settings) => {
                &&& match max_queue_length {
                    Some(m) => m >= 0 && settings.max_queue_length == m,
                    None => settings.max_queue_length == DEFAULT_MAX_QUEUE_LENGTH,
                }
                &&& settings.server_port == match server_port {
                    Some(p) => p,
                    None => DEFAULT_SERVER_PORT,
                }
            },
            Err(e) => {
                &&& e == ConfigurationError::NegativeMaxQueueLength
                &&& match max_queue_length {
                    Some(m) => m < 0,
                    None => false,
                }
            },
        },
{
    let max = match max_queue_length {
        Some(m) => m,
        None => DEFAULT_MAX_QUEUE_LENGTH,
    };
    if max < 0 {
        return Err(ConfigurationError::NegativeMaxQueueLength);
    }
    let port = match server_port {
        Some(p) => p,
        None => DEFAULT_SERVER_PORT,
    };
    Ok(Settings { max_queue_length: max, server_port: port })
}

} // verus!
