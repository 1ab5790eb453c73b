//! Translation of Ingress resources into Gateway API routes: annotation-driven
//! match rules, route drafts with deterministic names, the per-object
//! reconcile decisions and the leadership state they depend on.

pub mod args;
pub mod consts;
pub mod err;
pub mod hostname;
pub mod ingress;
pub mod leader;
pub mod product;
pub mod reconcile;
pub mod routes;
pub mod strings;
pub mod value_filters;
