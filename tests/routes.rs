use i2g_operator::err::I2GError;
use i2g_operator::ingress::{BackendPort, IngressPath, Service, ServiceBackend, ServicePort};
use i2g_operator::routes::{
    add_owner, create_http_routes, create_match_rulesets, create_tcp_routes, get_svc_port_number, path_match_type,
    OwnerRef, PathMatchType, RouteInputInfo,
};
use i2g_operator::value_filters::{HeadersMatchersList, MatchRule, MatchType, MatcherList, QueryMatchersList};

fn rule(key: &str, value: &str) -> MatchRule {
    MatchRule { key: key.to_string(), value: value.to_string(), match_type: MatchType::Equal }
}

fn info(split: bool) -> RouteInputInfo {
    RouteInputInfo {
        ingress_name: "web".to_string(),
        gw_name: "gw".to_string(),
        gw_namespace: "infra".to_string(),
        section_name: None,
        hostname: "example.com".to_string(),
        split_routes: split,
        header_matchers: None,
        query_matchers: None,
    }
}

fn path(p: &str, path_type: &str, svc: &str, port: i32) -> IngressPath {
    IngressPath {
        path: Some(p.to_string()),
        path_type: path_type.to_string(),
        service: Some(ServiceBackend {
            name: svc.to_string(),
            port: Some(BackendPort { name: None, number: Some(port) }),
        }),
    }
}

fn named_port_path(p: &str, svc: &str, port_name: &str) -> IngressPath {
    IngressPath {
        path: Some(p.to_string()),
        path_type: "Prefix".to_string(),
        service: Some(ServiceBackend {
            name: svc.to_string(),
            port: Some(BackendPort { name: Some(port_name.to_string()), number: None }),
        }),
    }
}

fn services() -> Vec<Service> {
    vec![Service {
        name: "api".to_string(),
        ports: vec![
            ServicePort { name: None, port: 1 },
            ServicePort { name: Some("http".to_string()), port: 8080 },
            ServicePort { name: Some("http".to_string()), port: 9090 },
        ],
    }]
}

#[test]
fn one_exact_root_path_gives_one_route() {
    let routes = create_http_routes(&info(false), &vec![path("/", "Exact", "app", 80)], &vec![]).unwrap();
    assert_eq!(routes.len(), 1);
    let r = &routes[0];
    assert_eq!(r.name, "web-example-com-http");
    assert_eq!(r.hostname, "example.com");
    assert_eq!(r.gateway.name, "gw");
    assert_eq!(r.gateway.namespace, "infra");
    assert_eq!(r.rules.len(), 1);
    let rule = &r.rules[0];
    assert_eq!(rule.path_type, PathMatchType::Exact);
    assert_eq!(rule.path_value, Some("/".to_string()));
    assert_eq!(rule.backend.service_name, "app");
    assert_eq!(rule.backend.port, 80);
    assert!(rule.header_match.is_none());
    assert!(rule.query_match.is_none());
    assert!(r.owners.is_empty());
}

#[test]
fn split_routes_give_one_route_per_path() {
    let paths = vec![path("/api/v1", "Prefix", "app", 80), path("/web", "ImplementationSpecific", "app", 81)];
    let routes = create_http_routes(&info(true), &paths, &vec![]).unwrap();
    assert_eq!(routes.len(), 2);
    assert_eq!(routes[0].rules.len(), 1);
    assert_eq!(routes[1].rules.len(), 1);
    assert_eq!(routes[0].name, "web-example-com-api-v1");
    assert_eq!(routes[1].name, "web-example-com-web");
    assert_eq!(routes[0].rules[0].path_type, PathMatchType::PathPrefix);
    assert_eq!(routes[1].rules[0].path_type, PathMatchType::PathPrefix);
    assert_eq!(routes[1].rules[0].backend.port, 81);
}

#[test]
fn split_route_without_path_is_root() {
    let mut p = path("", "Prefix", "app", 80);
    let mut q = path("", "Prefix", "app", 80);
    q.path = None;
    p.path = Some(String::new());
    let routes = create_http_routes(&info(true), &vec![p, q], &vec![]).unwrap();
    assert_eq!(routes[0].name, "web-example-com-root");
    assert_eq!(routes[1].name, "web-example-com-root");
}

#[test]
fn unknown_path_type_fails_host() {
    let paths = vec![path("/", "Prefix", "app", 80), path("/x", "Weird", "app", 80)];
    match create_http_routes(&info(false), &paths, &vec![]) {
        Err(I2GError::UnknownPathType(t)) => assert_eq!(t, "Weird"),
        other => panic!("unexpected {:?}", other),
    }
}

#[test]
fn host_without_valid_paths_fails() {
    let mut p = path("/", "Prefix", "app", 80);
    p.service = None;
    let q = named_port_path("/q", "missing", "http");
    assert_eq!(create_http_routes(&info(false), &vec![p, q], &services()), Err(I2GError::NoValidPaths));
}

#[test]
fn unresolvable_path_is_skipped_before_its_type() {
    let mut bad = named_port_path("/q", "missing", "http");
    bad.path_type = "Weird".to_string();
    let routes = create_http_routes(&info(false), &vec![bad, path("/", "Prefix", "app", 80)], &vec![]).unwrap();
    assert_eq!(routes[0].rules.len(), 1);
}

#[test]
fn named_port_resolves_to_first_match() {
    let port = BackendPort { name: Some("http".to_string()), number: None };
    assert_eq!(get_svc_port_number(&services(), "api", &port), Some(8080));
    assert_eq!(get_svc_port_number(&services(), "other", &port), None);
    let missing = BackendPort { name: Some("grpc".to_string()), number: None };
    assert_eq!(get_svc_port_number(&services(), "api", &missing), None);
    let numbered = BackendPort { name: Some("grpc".to_string()), number: Some(5) };
    assert_eq!(get_svc_port_number(&vec![], "api", &numbered), Some(5));
    let neither = BackendPort { name: None, number: None };
    assert_eq!(get_svc_port_number(&services(), "api", &neither), None);
}

#[test]
fn named_port_path_uses_service_port() {
    let routes = create_http_routes(&info(false), &vec![named_port_path("/", "api", "http")], &services()).unwrap();
    assert_eq!(routes[0].rules[0].backend.port, 8080);
}

#[test]
fn path_types_map() {
    assert_eq!(path_match_type("Prefix"), Some(PathMatchType::PathPrefix));
    assert_eq!(path_match_type("Exact"), Some(PathMatchType::Exact));
    assert_eq!(path_match_type("ImplementationSpecific"), Some(PathMatchType::PathPrefix));
    assert_eq!(path_match_type("prefix"), None);
}

#[test]
fn rulesets_without_matchers_are_unconditional() {
    let r = create_match_rulesets(&info(false));
    assert_eq!(r, vec![(None, None)]);
    let mut i = info(false);
    i.header_matchers = Some(HeadersMatchersList(MatcherList(vec![])));
    i.query_matchers = Some(QueryMatchersList(MatcherList(vec![])));
    assert_eq!(create_match_rulesets(&i), vec![(None, None)]);
}

#[test]
fn rulesets_with_one_side() {
    let mut i = info(false);
    i.header_matchers = Some(HeadersMatchersList(MatcherList(vec![rule("a", "1"), rule("a", "2")])));
    let r = create_match_rulesets(&i);
    assert_eq!(
        r,
        vec![
            (Some(HeadersMatchersList(MatcherList(vec![rule("a", "1")]))), None),
            (Some(HeadersMatchersList(MatcherList(vec![rule("a", "2")]))), None),
        ]
    );
    let mut j = info(false);
    j.query_matchers = Some(QueryMatchersList(MatcherList(vec![rule("q", "1")])));
    assert_eq!(create_match_rulesets(&j), vec![(None, Some(QueryMatchersList(MatcherList(vec![rule("q", "1")]))))]);
}

#[test]
fn rulesets_cross_headers_and_query() {
    let mut i = info(false);
    i.header_matchers = Some(HeadersMatchersList(MatcherList(vec![rule("a", "1"), rule("a", "2")])));
    i.query_matchers = Some(QueryMatchersList(MatcherList(vec![rule("q", "x"), rule("q", "y")])));
    let r = create_match_rulesets(&i);
    let pairs: Vec<(String, String)> = r
        .into_iter()
        .map(|(h, q)| (h.unwrap().0 .0[0].value.clone(), q.unwrap().0 .0[0].value.clone()))
        .collect();
    let expected: Vec<(String, String)> =
        [("1", "x"), ("1", "y"), ("2", "x"), ("2", "y")].iter().map(|(a, b)| (a.to_string(), b.to_string())).collect();
    assert_eq!(pairs, expected);
}

#[test]
fn rules_multiply_by_variants() {
    let mut i = info(false);
    i.header_matchers = Some(HeadersMatchersList(MatcherList(vec![rule("a", "1"), rule("a", "2")])));
    let routes = create_http_routes(&i, &vec![path("/", "Prefix", "app", 80), path("/b", "Prefix", "app", 80)], &vec![]).unwrap();
    assert_eq!(routes.len(), 1);
    assert_eq!(routes[0].rules.len(), 4);
    assert_eq!(routes[0].rules[1].path_value, Some("/".to_string()));
    assert_eq!(routes[0].rules[1].header_match, Some(HeadersMatchersList(MatcherList(vec![rule("a", "2")]))));
}

#[test]
fn tcp_route_for_default_backend() {
    let svc = ServiceBackend { name: "db".to_string(), port: Some(BackendPort { name: None, number: Some(5432) }) };
    let mut i = info(false);
    i.section_name = Some("tcp".to_string());
    let r = create_tcp_routes(&i, &svc, &vec![]).unwrap();
    assert_eq!(r.name, "web-example-com-tcp");
    assert_eq!(r.backend.service_name, "db");
    assert_eq!(r.backend.port, 5432);
    assert_eq!(r.gateway.section_name, Some("tcp".to_string()));
}

#[test]
fn tcp_route_without_port_fails() {
    let svc = ServiceBackend { name: "db".to_string(), port: None };
    assert_eq!(create_tcp_routes(&info(false), &svc, &vec![]), Err(I2GError::UnresolvableBackend("db".to_string())));
    let named = ServiceBackend { name: "db".to_string(), port: Some(BackendPort { name: Some("pg".to_string()), number: None }) };
    assert_eq!(create_tcp_routes(&info(false), &named, &vec![]), Err(I2GError::UnresolvableBackend("db".to_string())));
}

#[test]
fn owner_added_once() {
    let mut owners = vec![];
    let o = OwnerRef { name: "web".to_string(), uid: "u1".to_string() };
    add_owner(&mut owners, &o);
    add_owner(&mut owners, &o);
    add_owner(&mut owners, &OwnerRef { name: "renamed".to_string(), uid: "u1".to_string() });
    assert_eq!(owners, vec![o.clone()]);
    add_owner(&mut owners, &OwnerRef { name: "other".to_string(), uid: "u2".to_string() });
    assert_eq!(owners.len(), 2);
}
