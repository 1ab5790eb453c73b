//! Annotation keys and fixed settings of the operator.

use vstd::prelude::*;

verus! {

/// Splits the routes of a host into one HTTPRoute per rule (an HTTPRoute
/// holds at most 16 rules).
pub const SPLIT_ROUTES: &'static str = "i2g-operator/split-paths";

/// Marks an Ingress to be translated (`true`) or left alone (anything else).
pub const TRANSLATE_INGRESS: &'static str = "i2g-operator/translate";

/// Overrides the Gateway name.
pub const GATEWAY_NAME: &'static str = "i2g-operator/gateway-name";

/// Overrides the Gateway namespace.
pub const GATEWAY_NAMESPACE: &'static str = "i2g-operator/gateway-namespace";

/// The listener section that generated routes attach to.
pub const DESIRED_SECTION: &'static str = "i2g-operator/section-name";

/// Prefix of header match annotations; the key ends in `/<weight>`.
pub const HEADER_FILTERS_PREFIX: &'static str = "i2g-operator/header-filters/";

/// Prefix of query-parameter match annotations; the key ends in `/<weight>`.
pub const QUERY_FILTERS_PREFIX: &'static str = "i2g-operator/query-filters/";

/// The one field manager under which every route is applied.
pub const FIELD_MANAGER: &'static str = "ingress-to-gateway-controller";

/// Seconds until the next pass when this replica is not the leader.
pub const NOT_LEADER_REQUEUE_SECS: u64 = 20;

/// Seconds until the next pass for an Ingress that is not translated.
pub const SKIP_REQUEUE_SECS: u64 = 60;

/// Seconds until the next pass after a completed pass.
pub const DONE_REQUEUE_SECS: u64 = 10;

/// Seconds until the next pass after a failed pass.
pub const ERROR_REQUEUE_SECS: u64 = 30;

/// Name of the lease that leader election holds.
pub const LEASE_NAME: &'static str = "i2g-operator-lock";

/// Seconds that a lease stays valid without renewal.
pub const LEASE_TTL_SECS: u64 = 15;

/// Seconds between two attempts to acquire or renew the lease.
pub const LEASE_POLL_SECS: u64 = 5;

} // verus!
