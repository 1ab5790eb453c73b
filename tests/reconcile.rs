use i2g_operator::args::{I2GArgs, LogLevel};
use i2g_operator::consts::{
    DONE_REQUEUE_SECS, HEADER_FILTERS_PREFIX, NOT_LEADER_REQUEUE_SECS, SKIP_REQUEUE_SECS, SPLIT_ROUTES, TRANSLATE_INGRESS,
};
use i2g_operator::err::{I2GError, ValidationError};
use i2g_operator::ingress::{BackendPort, DefaultBackend, Ingress, IngressPath, IngressRule, IngressSpec, ServiceBackend};
use i2g_operator::reconcile::{decide, is_true, reconcile, services_to_read, Decision, RouteWrite};
use i2g_operator::routes::OwnerRef;

fn args() -> I2GArgs {
    I2GArgs {
        default_gateway_name: "gw".to_string(),
        default_gateway_namespace: "default".to_string(),
        link_to_ingress: true,
        experimental: false,
        log_level: LogLevel::Info,
        skip_by_default: false,
    }
}

fn backend(name: &str, port: i32) -> Option<ServiceBackend> {
    Some(ServiceBackend { name: name.to_string(), port: Some(BackendPort { name: None, number: Some(port) }) })
}

fn http_rule(host: Option<&str>, paths: Vec<(&str, &str)>) -> IngressRule {
    IngressRule {
        host: host.map(|h| h.to_string()),
        http: Some(
            paths
                .into_iter()
                .map(|(p, t)| IngressPath { path: Some(p.to_string()), path_type: t.to_string(), service: backend("app", 80) })
                .collect(),
        ),
    }
}

fn ingress(annotations: Vec<(&str, &str)>, rules: Vec<IngressRule>) -> Ingress {
    let mut anns: Vec<(String, String)> = annotations.into_iter().map(|(k, v)| (k.to_string(), v.to_string())).collect();
    anns.sort();
    Ingress {
        name: "web".to_string(),
        namespace: Some("apps".to_string()),
        uid: Some("uid-1".to_string()),
        annotations: Some(anns),
        spec: Some(IngressSpec { rules: Some(rules), default_backend: None }),
    }
}

#[test]
fn non_leader_writes_nothing() {
    let ing = ingress(vec![], vec![http_rule(Some("a.com"), vec![("/", "Prefix")])]);
    let plan = reconcile(false, &ing, &args(), &vec![]).unwrap();
    assert!(plan.writes.is_empty());
    assert_eq!(plan.requeue_secs, NOT_LEADER_REQUEUE_SECS);
    assert_eq!(plan.requeue_secs, 20);
    let broken = Ingress { name: "x".to_string(), namespace: None, uid: None, annotations: None, spec: None };
    let plan = reconcile(false, &broken, &args(), &vec![]).unwrap();
    assert!(plan.writes.is_empty());
    assert_eq!(decide(false, &broken, &args()), Decision::NotLeader);
}

#[test]
fn translate_annotation_decides() {
    let rules = vec![http_rule(Some("a.com"), vec![("/", "Prefix")])];
    let off = ingress(vec![(TRANSLATE_INGRESS, "no")], rules.clone());
    let plan = reconcile(true, &off, &args(), &vec![]).unwrap();
    assert!(plan.writes.is_empty());
    assert_eq!(plan.requeue_secs, SKIP_REQUEUE_SECS);
    assert_eq!(plan.requeue_secs, 60);
    let on = ingress(vec![(TRANSLATE_INGRESS, "TrUe")], rules.clone());
    let mut a = args();
    a.skip_by_default = true;
    assert_eq!(decide(true, &on, &a), Decision::Translate);
    let plain = ingress(vec![], rules);
    assert_eq!(decide(true, &plain, &a), Decision::Skip);
    assert_eq!(decide(true, &plain, &args()), Decision::Translate);
}

#[test]
fn true_text_ignores_case() {
    assert!(is_true("true"));
    assert!(is_true("TRUE"));
    assert!(!is_true("yes"));
    assert!(!is_true("true "));
}

#[test]
fn validation_errors() {
    let mut ing = ingress(vec![], vec![]);
    ing.spec = None;
    assert_eq!(reconcile(true, &ing, &args(), &vec![]), Err(I2GError::Validation(ValidationError::MissingSpec)));
    ing.spec = Some(IngressSpec { rules: None, default_backend: None });
    assert_eq!(reconcile(true, &ing, &args(), &vec![]), Err(I2GError::Validation(ValidationError::MissingRules)));
    let ing = ingress(vec![], vec![]);
    assert_eq!(reconcile(true, &ing, &args(), &vec![]), Err(I2GError::Validation(ValidationError::MissingRules)));
    let mut ing = ingress(vec![], vec![http_rule(Some("a.com"), vec![("/", "Prefix")])]);
    ing.namespace = None;
    assert_eq!(reconcile(true, &ing, &args(), &vec![]), Err(I2GError::Validation(ValidationError::MissingNamespace)));
}

#[test]
fn translates_hosts_and_links_owner() {
    let header_key = format!("{}1", HEADER_FILTERS_PREFIX);
    let ing = ingress(
        vec![(header_key.as_str(), "x-env=prod"), ("i2g-operator/gateway-name", "public")],
        vec![
            http_rule(Some("a.com"), vec![("/", "Exact")]),
            http_rule(None, vec![("/", "Exact")]),
            http_rule(Some("b.com"), vec![("/", "Weird")]),
            http_rule(Some("c.com"), vec![("/", "Prefix")]),
        ],
    );
    let plan = reconcile(true, &ing, &args(), &vec![]).unwrap();
    assert_eq!(plan.requeue_secs, DONE_REQUEUE_SECS);
    assert_eq!(plan.requeue_secs, 10);
    assert_eq!(plan.writes.len(), 2);
    match &plan.writes[0] {
        RouteWrite::Http(r) => {
            assert_eq!(r.name, "web-a-com-http");
            assert_eq!(r.gateway.name, "public");
            assert_eq!(r.gateway.namespace, "default");
            assert_eq!(r.owners, vec![OwnerRef { name: "web".to_string(), uid: "uid-1".to_string() }]);
            let h = r.rules[0].header_match.as_ref().unwrap();
            assert_eq!(h.0 .0[0].key, "x-env");
        }
        other => panic!("unexpected {:?}", other),
    }
    match &plan.writes[1] {
        RouteWrite::Http(r) => assert_eq!(r.name, "web-c-com-http"),
        other => panic!("unexpected {:?}", other),
    }
}

#[test]
fn split_annotation_splits_routes() {
    let ing = ingress(vec![(SPLIT_ROUTES, "true")], vec![http_rule(Some("a.com"), vec![("/a", "Prefix"), ("/b", "Prefix")])]);
    let plan = reconcile(true, &ing, &args(), &vec![]).unwrap();
    assert_eq!(plan.writes.len(), 2);
    for w in &plan.writes {
        match w {
            RouteWrite::Http(r) => assert_eq!(r.rules.len(), 1),
            other => panic!("unexpected {:?}", other),
        }
    }
}

#[test]
fn reconciling_twice_gives_same_writes() {
    let ing = ingress(vec![(SPLIT_ROUTES, "true")], vec![http_rule(Some("a.com"), vec![("/a", "Prefix"), ("/b", "Exact")])]);
    let first = reconcile(true, &ing, &args(), &vec![]).unwrap();
    let second = reconcile(true, &ing, &args(), &vec![]).unwrap();
    assert_eq!(first, second);
}

#[test]
fn tcp_route_needs_experimental_and_default_backend() {
    let mut ing = ingress(vec![], vec![IngressRule { host: Some("db.com".to_string()), http: None }]);
    assert!(reconcile(true, &ing, &args(), &vec![]).unwrap().writes.is_empty());
    let mut a = args();
    a.experimental = true;
    assert!(reconcile(true, &ing, &a, &vec![]).unwrap().writes.is_empty());
    ing.spec.as_mut().unwrap().default_backend = Some(DefaultBackend { service: backend("db", 5432) });
    let plan = reconcile(true, &ing, &a, &vec![]).unwrap();
    assert_eq!(plan.writes.len(), 1);
    match &plan.writes[0] {
        RouteWrite::Tcp(t) => {
            assert_eq!(t.name, "web-db-com-tcp");
            assert_eq!(t.backend.port, 5432);
            assert_eq!(t.owners.len(), 1);
        }
        other => panic!("unexpected {:?}", other),
    }
}

#[test]
fn services_read_are_those_with_named_ports() {
    let mut ing = ingress(vec![], vec![http_rule(Some("a.com"), vec![("/", "Prefix")])]);
    let named = Some(ServiceBackend { name: "api".to_string(), port: Some(BackendPort { name: Some("http".to_string()), number: None }) });
    ing.spec.as_mut().unwrap().rules.as_mut().unwrap()[0].http.as_mut().unwrap().push(IngressPath {
        path: None,
        path_type: "Prefix".to_string(),
        service: named.clone(),
    });
    ing.spec.as_mut().unwrap().default_backend = Some(DefaultBackend {
        service: Some(ServiceBackend { name: "db".to_string(), port: Some(BackendPort { name: Some("pg".to_string()), number: None }) }),
    });
    assert_eq!(services_to_read(&ing), vec!["api".to_string(), "db".to_string()]);
}

#[test]
fn missing_uid_links_no_owner() {
    let mut ing = ingress(vec![], vec![http_rule(Some("a.com"), vec![("/", "Prefix")])]);
    ing.uid = None;
    let plan = reconcile(true, &ing, &args(), &vec![]).unwrap();
    assert_eq!(plan.writes.len(), 1);
    match &plan.writes[0] {
        RouteWrite::Http(r) => assert!(r.owners.is_empty()),
        other => panic!("unexpected {:?}", other),
    }
}
