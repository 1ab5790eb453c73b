//! Operator-wide settings.

use vstd::prelude::*;

verus! {

/// How much the operator logs.
#[derive(Debug, Clone, Copy, PartialEq, Eq, Structural)]
pub enum LogLevel {
    Off,
    Error,
    Warn,
    Info,
    Debug,
    Trace,
}

/// Settings of the operator: the default Gateway, whether generated routes
/// are linked to their Ingress, whether TCPRoutes are generated, the log
/// level, and whether Ingresses without the translate annotation are skipped.
#[derive(Debug, Clone, PartialEq, Eq)]
pub struct I2GArgs {
    pub default_gateway_name: String,
    pub default_gateway_namespace: String,
    pub link_to_ingress: bool,
    pub experimental: bool,
    pub log_level: LogLevel,
    pub skip_by_default: bool,
}

} // verus!
