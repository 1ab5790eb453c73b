//! The parts of an Ingress and of its Services that translation reads.

use vstd::prelude::*;

verus! {

/// A backend port, by number or by name.
#[derive(Debug, Clone, PartialEq, Eq)]
pub struct BackendPort {
    pub name: Option<String>,
    pub number: Option<i32>,
}

/// A service that a path or the default backend forwards to.
#[derive(Debug, Clone, PartialEq, Eq)]
pub struct ServiceBackend {
    pub name: String,
    pub port: Option<BackendPort>,
}

/// One HTTP path of an Ingress rule.
#[derive(Debug, Clone, PartialEq, Eq)]
pub struct IngressPath {
    pub path: Option<String>,
    pub path_type: String,
    pub service: Option<ServiceBackend>,
}

/// One host rule; `http` holds its paths when the rule has an HTTP block.
#[derive(Debug, Clone, PartialEq, Eq)]
pub struct IngressRule {
    pub host: Option<String>,
    pub http: Option<Vec<IngressPath>>,
}

/// The default backend of an Ingress.
#[derive(Debug, Clone, PartialEq, Eq)]
pub struct DefaultBackend {
    pub service: Option<ServiceBackend>,
}

#[derive(Debug, Clone, PartialEq, Eq)]
pub struct IngressSpec {
    pub rules: Option<Vec<IngressRule>>,
    pub default_backend: Option<DefaultBackend>,
}

/// An Ingress: its name, namespace, uid, annotations and spec. The
/// annotations are the entries of the Ingress's annotation map, keys
/// strictly ascending (`annotations_ordered` in `value_filters`).
#[derive(Debug, Clone, PartialEq, Eq)]
pub struct Ingress {
    pub name: String,
    pub namespace: Option<String>,
    pub uid: Option<String>,
    pub annotations: Option<Vec<(String, String)>>,
    pub spec: Option<IngressSpec>,
}

/// A port that a Service exposes.
#[derive(Debug, Clone, PartialEq, Eq)]
pub struct ServicePort {
    pub name: Option<String>,
    pub port: i32,
}

/// A Service as read from the cluster.
#[derive(Debug, Clone, PartialEq, Eq)]
pub struct Service {
    pub name: String,
    pub ports: Vec<ServicePort>,
}

} // verus!
