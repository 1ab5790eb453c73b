//! Route drafts: what one Ingress host rule becomes in the Gateway API.

use vstd::prelude::*;
use vstd::string::*;

use crate::err::I2GError;
use crate::hostname::{sanitize_hostname, sanitized_hostname};
use crate::ingress::{BackendPort, IngressPath, Service, ServiceBackend, ServicePort};
use crate::product::{index_product, index_ranges, index_sets, lemma_index_product_valid, lemma_pick_product, pick, product, valid_pick};
use crate::strings::{opt_view, str_eq, to_owned_string};
use crate::value_filters::{HeadersMatchersList, MatchRuleView, MatcherList, QueryMatchersList, groups_view, rule_product};

verus! {

/// How a route rule matches the request path.
#[derive(Debug, Clone, Copy, PartialEq, Eq, Structural)]
pub enum PathMatchType {
    PathPrefix,
    Exact,
}

/// The service and port that a rule forwards to.
#[derive(Debug, Clone, PartialEq, Eq)]
pub struct BackendRef {
    pub service_name: String,
    pub port: i32,
}

/// One rule of a route: a path match, optional header and query conditions,
/// and the backend.
#[derive(Debug, Clone, PartialEq, Eq)]
pub struct RuleDraft {
    pub path_type: PathMatchType,
    pub path_value: Option<String>,
    pub backend: BackendRef,
    pub header_match: Option<HeadersMatchersList>,
    pub query_match: Option<QueryMatchersList>,
}

/// The Gateway a route attaches to.
#[derive(Debug, Clone, PartialEq, Eq)]
pub struct GatewayRef {
    pub name: String,
    pub namespace: String,
    pub section_name: Option<String>,
}

/// A link from a generated route to the Ingress it came from.
#[derive(Debug, Clone, PartialEq, Eq)]
pub struct OwnerRef {
    pub name: String,
    pub uid: String,
}

/// An HTTPRoute to apply.
#[derive(Debug, Clone, PartialEq, Eq)]
pub struct HttpRouteDraft {
    pub name: String,
    pub hostname: String,
    pub gateway: GatewayRef,
    pub rules: Vec<RuleDraft>,
    pub owners: Vec<OwnerRef>,
}

/// A TCPRoute to apply.
#[derive(Debug, Clone, PartialEq, Eq)]
pub struct TcpRouteDraft {
    pub name: String,
    pub gateway: GatewayRef,
    pub backend: BackendRef,
    pub owners: Vec<OwnerRef>,
}

/// What route generation needs to know of one Ingress host rule.
#[derive(Debug, Clone, PartialEq, Eq)]
pub struct RouteInputInfo {
    pub ingress_name: String,
    pub gw_name: String,
    pub gw_namespace: String,
    pub section_name: Option<String>,
    pub hostname: String,
    pub split_routes: bool,
    pub header_matchers: Option<HeadersMatchersList>,
    pub query_matchers: Option<QueryMatchersList>,
}

pub struct RouteInfoView {
    pub ingress_name: Seq<char>,
    pub gw_name: Seq<char>,
    pub gw_namespace: Seq<char>,
    pub section_name: Option<Seq<char>>,
    pub hostname: Seq<char>,
    pub split_routes: bool,
    pub header_matchers: Option<Seq<MatchRuleView>>,
    pub query_matchers: Option<Seq<MatchRuleView>>,
}

/// Header and query conditions of one route variant.
pub type MatchVariant = (Option<HeadersMatchersList>, Option<QueryMatchersList>);

pub type VariantView = (Option<Seq<MatchRuleView>>, Option<Seq<MatchRuleView>>);

pub struct RuleDraftView {
    pub path_type: PathMatchType,
    pub path_value: Option<Seq<char>>,
    pub service: Seq<char>,
    pub port: i32,
    pub headers: Option<Seq<MatchRuleView>>,
    pub query: Option<Seq<MatchRuleView>>,
}

pub struct GatewayRefView {
    pub name: Seq<char>,
    pub namespace: Seq<char>,
    pub section_name: Option<Seq<char>>,
}

pub struct OwnerRefView {
    pub name: Seq<char>,
    pub uid: Seq<char>,
}

pub struct HttpRouteView {
    pub name: Seq<char>,
    pub hostname: Seq<char>,
    pub gateway: GatewayRefView,
    pub rules: Seq<RuleDraftView>,
    pub owners: Seq<OwnerRefView>,
}

pub struct TcpRouteView {
    pub name: Seq<char>,
    pub gateway: GatewayRefView,
    pub service: Seq<char>,
    pub port: i32,
    pub owners: Seq<OwnerRefView>,
}

pub open spec fn headers_view(h: Option<HeadersMatchersList>) -> Option<Seq<MatchRuleView>> {
    match h {
        Some(l) => Some(l@),
        None => None,
    }
}

pub open spec fn query_view(q: Option<QueryMatchersList>) -> Option<Seq<MatchRuleView>> {
    match q {
        Some(l) => Some(l@),
        None => None,
    }
}

pub open spec fn variant_view(v: MatchVariant) -> VariantView {
    (headers_view(v.0), query_view(v.1))
}

pub open spec fn variants_view(v: Seq<MatchVariant>) -> Seq<VariantView> {
    v.map_values(|x: MatchVariant| variant_view(x))
}

impl View for RouteInputInfo {
    type V = RouteInfoView;

    open spec fn view(&self) -> RouteInfoView {
        RouteInfoView {
            ingress_name: self.ingress_name@,
            gw_name: self.gw_name@,
            gw_namespace: self.gw_namespace@,
            section_name: opt_view(self.section_name),
            hostname: self.hostname@,
            split_routes: self.split_routes,
            header_matchers: headers_view(self.header_matchers),
            query_matchers: query_view(self.query_matchers),
        }
    }
}

impl View for RuleDraft {
    type V = RuleDraftView;

    open spec fn view(&self) -> RuleDraftView {
        RuleDraftView {
            path_type: self.path_type,
            path_value: opt_view(self.path_value),
            service: self.backend.service_name@,
            port: self.backend.port,
            headers: headers_view(self.header_match),
            query: query_view(self.query_match),
        }
    }
}

impl View for GatewayRef {
    type V = GatewayRefView;

    open spec fn view(&self) -> GatewayRefView {
        GatewayRefView { name: self.name@, namespace: self.namespace@, section_name: opt_view(self.section_name) }
    }
}

impl View for OwnerRef {
    type V = OwnerRefView;

    open spec fn view(&self) -> OwnerRefView {
        OwnerRefView { name: self.name@, uid: self.uid@ }
    }
}

pub open spec fn owners_view(v: Seq<OwnerRef>) -> Seq<OwnerRefView> {
    v.map_values(|o: OwnerRef| o@)
}

pub open spec fn rule_drafts_view(v: Seq<RuleDraft>) -> Seq<RuleDraftView> {
    v.map_values(|r: RuleDraft| r@)
}

impl View for HttpRouteDraft {
    type V = HttpRouteView;

    open spec fn view(&self) -> HttpRouteView {
        HttpRouteView {
            name: self.name@,
            hostname: self.hostname@,
            gateway: self.gateway@,
            rules: rule_drafts_view(self.rules@),
            owners: owners_view(self.owners@),
        }
    }
}

impl View for TcpRouteDraft {
    type V = TcpRouteView;

    open spec fn view(&self) -> TcpRouteView {
        TcpRouteView {
            name: self.name@,
            gateway: self.gateway@,
            service: self.backend.service_name@,
            port: self.backend.port,
            owners: owners_view(self.owners@),
        }
    }
}

pub open spec fn http_routes_view(v: Seq<HttpRouteDraft>) -> Seq<HttpRouteView> {
    v.map_values(|r: HttpRouteDraft| r@)
}

/// The rule sets that a matcher list expands to; none for an absent list.
pub open spec fn expansions(m: Option<Seq<MatchRuleView>>) -> Seq<Seq<MatchRuleView>> {
    match m {
        Some(l) => rule_product(l),
        None => Seq::empty(),
    }
}

/// The route variants for header expansions `h` and query expansions `q`:
/// every pair when both have some, each one alone when only one side has
/// some, and a single unconditional variant when neither has.
pub open spec fn match_variants(h: Seq<Seq<MatchRuleView>>, q: Seq<Seq<MatchRuleView>>) -> Seq<VariantView> {
    if h.len() == 0 && q.len() == 0 {
        seq![(None, None)]
    } else if h.len() == 0 {
        q.map_values(|y: Seq<MatchRuleView>| (None, Some(y)))
    } else if q.len() == 0 {
        h.map_values(|x: Seq<MatchRuleView>| (Some(x), None))
    } else {
        product(seq![h, q]).map_values(|t: Seq<Seq<MatchRuleView>>| (Some(t[0]), Some(t[1])))
    }
}

/// The route variants of a host rule.
pub open spec fn info_variants(info: RouteInfoView) -> Seq<VariantView> {
    match_variants(expansions(info.header_matchers), expansions(info.query_matchers))
}

fn expand(m: &Option<MatcherList>) -> (r: Vec<Vec<crate::value_filters::MatchRule>>)
    ensures
        groups_view(r@) == expansions(match m {
            Some(l) => Some(l@),
            None => None,
        }),
{
    match m {
        Some(l) => l.catesian_product(),
        None => {
            let v: Vec<Vec<crate::value_filters::MatchRule>> = Vec::new();
            assert(groups_view(v@) =~= Seq::<Seq<MatchRuleView>>::empty());
            v
        },
    }
}

/// The header and query conditions that each rule of the host is emitted
/// with (see [`match_variants`]).
pub fn create_match_rulesets(route_info: &RouteInputInfo) -> (r: Vec<MatchVariant>)
    ensures
        variants_view(r@) == info_variants(route_info@),
{
    let hm: Option<MatcherList> = match &route_info.header_matchers {
        Some(h) => Some(h.0.duplicate()),
        None => None,
    };
    let qm: Option<MatcherList> = match &route_info.query_matchers {
        Some(q) => Some(q.0.duplicate()),
        None => None,
    };
    let headers = expand(&hm);
    let query = expand(&qm);
    let ghost hv = groups_view(headers@);
    let ghost qv = groups_view(query@);
    let mut res: Vec<MatchVariant> = Vec::new();
    if headers.len() == 0 && query.len() == 0 {
        res.push((None, None));
        assert(variants_view(res@) =~= seq![(None, None)]);
        return res;
    }
    if headers.len() == 0 {
        let mut i: usize = 0;
        while i < query.len()
            invariant
                i <= query@.len(),
                qv == groups_view(query@),
                variants_view(res@) =~= qv.subrange(0, i as int).map_values(|y: Seq<MatchRuleView>| (None, Some(y))),
            decreases query.len() - i,
        {
            let l = MatcherList::copy_of(&query[i]);
            let ghost before = res@;
            res.push((None, Some(QueryMatchersList(l))));
            assert(variants_view(res@) =~= variants_view(before).push((None, Some(qv[i as int]))));
            assert(qv.subrange(0, i + 1) =~= qv.subrange(0, i as int).push(qv[i as int]));
            i = i + 1;
        }
        assert(qv.subrange(0, query@.len() as int) =~= qv);
        return res;
    }
    if query.len() == 0 {
        let mut i: usize = 0;
        while i < headers.len()
            invariant
                i <= headers@.len(),
                hv == groups_view(headers@),
                variants_view(res@) =~= hv.subrange(0, i as int).map_values(|x: Seq<MatchRuleView>| (Some(x), None)),
            decreases headers.len() - i,
        {
            let l = MatcherList::copy_of(&headers[i]);
            let ghost before = res@;
            res.push((Some(HeadersMatchersList(l)), None));
            assert(variants_view(res@) =~= variants_view(before).push((Some(hv[i as int]), None)));
            assert(hv.subrange(0, i + 1) =~= hv.subrange(0, i as int).push(hv[i as int]));
            i = i + 1;
        }
        assert(hv.subrange(0, headers@.len() as int) =~= hv);
        return res;
    }
    let ghost gs = seq![hv, qv];
    let mut sizes: Vec<usize> = Vec::new();
    sizes.push(headers.len());
    sizes.push(query.len());
    let sets = index_ranges(&sizes);
    assert(sets@.map_values(|v: Vec<usize>| v@) =~= index_sets(gs));
    let idx = index_product(&sets);
    let ghost combos = product(index_sets(gs));
    proof {
        lemma_index_product_valid(gs);
        lemma_pick_product(gs);
    }
    let mut k: usize = 0;
    while k < idx.len()
        invariant
            k <= idx@.len(),
            hv == groups_view(headers@),
            qv == groups_view(query@),
            gs == seq![hv, qv],
            idx@.map_values(|t: Vec<usize>| t@) == combos,
            combos == product(index_sets(gs)),
            combos.map_values(|t: Seq<usize>| pick(gs, t)) == product(gs),
            forall|m: int| 0 <= m < combos.len() ==> valid_pick(gs, #[trigger] combos[m]),
            variants_view(res@) =~= product(gs).subrange(0, k as int).map_values(
                |t: Seq<Seq<MatchRuleView>>| (Some(t[0]), Some(t[1])),
            ),
        decreases idx.len() - k,
    {
        let t = &idx[k];
        assert(t@ == combos[k as int]);
        assert(valid_pick(gs, t@));
        let a = t[0];
        let b = t[1];
        assert(gs[0] == hv && gs[1] == qv);
        assert(hv.len() == headers@.len() && qv.len() == query@.len());
        let h = MatcherList::copy_of(&headers[a]);
        let q = MatcherList::copy_of(&query[b]);
        assert(pick(gs, t@) =~= seq![hv[a as int], qv[b as int]]);
        assert(product(gs)[k as int] == pick(gs, combos[k as int]));
        let ghost before = res@;
        res.push((Some(HeadersMatchersList(h)), Some(QueryMatchersList(q))));
        assert(variants_view(res@) =~= variants_view(before).push((Some(hv[a as int]), Some(qv[b as int]))));
        assert(product(gs).subrange(0, k + 1) =~= product(gs).subrange(0, k as int).push(product(gs)[k as int]));
        k = k + 1;
    }
    assert(product(gs).subrange(0, idx@.len() as int) =~= product(gs));
    res
}

/// The first service named `name`.
pub open spec fn find_service(services: Seq<Service>, name: Seq<char>) -> Option<Service>
    decreases services.len(),
{
    if services.len() == 0 {
        None
    } else if services[0].name@ == name {
        Some(services[0])
    } else {
        find_service(services.drop_first(), name)
    }
}

/// The number of the first port named `name`.
pub open spec fn find_named_port(ports: Seq<ServicePort>, name: Seq<char>) -> Option<i32>
    decreases ports.len(),
{
    if ports.len() == 0 {
        None
    } else if opt_view(ports[0].name) == Some(name) {
        Some(ports[0].port)
    } else {
        find_named_port(ports.drop_first(), name)
    }
}

/// The port number that a backend port of service `service` stands for: its
/// number when it has one, else the service's port of that name.
pub open spec fn resolved_port(port: BackendPort, service: Seq<char>, services: Seq<Service>) -> Option<i32> {
    match port.number {
        Some(n) => Some(n),
        None => match port.name {
            None => None,
            Some(pn) => match find_service(services, service) {
                None => None,
                Some(svc) => find_named_port(svc.ports@, pn@),
            },
        },
    }
}

/// Resolves a backend port against the services read from the cluster
/// (`services` holds those that were found).
pub fn get_svc_port_number(services: &Vec<Service>, svc_name: &str, port_def: &BackendPort) -> (r: Option<i32>)
    ensures
        r == resolved_port(*port_def, svc_name@, services@),
{
    if let Some(number) = port_def.number {
        return Some(number);
    }
    let port_name = match &port_def.name {
        Some(n) => n,
        None => return None,
    };
    let mut i: usize = 0;
    assert(services@.subrange(0, services@.len() as int) =~= services@);
    while i < services.len()
        invariant
            i <= services@.len(),
            port_def.number is None,
            port_def.name == Some(*port_name),
            find_service(services@, svc_name@) == find_service(services@.subrange(i as int, services@.len() as int), svc_name@),
        decreases services.len() - i,
    {
        let ghost rest = services@.subrange(i as int, services@.len() as int);
        assert(rest.drop_first() =~= services@.subrange(i + 1, services@.len() as int));
        if str_eq(services[i].name.as_str(), svc_name) {
            let ports = &services[i].ports;
            assert(find_service(services@, svc_name@) == Some(services@[i as int]));
            let mut j: usize = 0;
            assert(ports@.subrange(0, ports@.len() as int) =~= ports@);
            while j < ports.len()
                invariant
                    j <= ports@.len(),
                    port_def.number is None,
                    port_def.name == Some(*port_name),
                    find_service(services@, svc_name@) == Some(services@[i as int]),
                    *ports == services@[i as int].ports,
                    find_named_port(ports@, port_name@) == find_named_port(ports@.subrange(j as int, ports@.len() as int), port_name@),
                decreases ports.len() - j,
            {
                let ghost prest = ports@.subrange(j as int, ports@.len() as int);
                assert(prest.drop_first() =~= ports@.subrange(j + 1, ports@.len() as int));
                if let Some(n) = &ports[j].name {
                    if str_eq(n.as_str(), port_name.as_str()) {
                        return Some(ports[j].port);
                    }
                }
                j = j + 1;
            }
            return None;
        }
        i = i + 1;
    }
    None
}

/// The path match that an Ingress path type maps to; none for an unknown type.
pub open spec fn path_match_type_of(t: Seq<char>) -> Option<PathMatchType> {
    if t == "Prefix"@ {
        Some(PathMatchType::PathPrefix)
    } else if t == "Exact"@ {
        Some(PathMatchType::Exact)
    } else if t == "ImplementationSpecific"@ {
        Some(PathMatchType::PathPrefix)
    } else {
        None
    }
}

/// Maps an Ingress path type to a path match (see [`path_match_type_of`]).
pub fn path_match_type(t: &str) -> (r: Option<PathMatchType>)
    ensures
        r == path_match_type_of(t@),
{
    if str_eq(t, "Prefix") {
        Some(PathMatchType::PathPrefix)
    } else if str_eq(t, "Exact") {
        Some(PathMatchType::Exact)
    } else if str_eq(t, "ImplementationSpecific") {
        Some(PathMatchType::PathPrefix)
    } else {
        None
    }
}

/// The service and port that a path forwards to, when it names a service
/// whose port resolves.
pub open spec fn path_backend(p: IngressPath, services: Seq<Service>) -> Option<(Seq<char>, i32)> {
    match p.service {
        None => None,
        Some(svc) => match svc.port {
            None => None,
            Some(port) => match resolved_port(port, svc.name@, services) {
                None => None,
                Some(n) => Some((svc.name@, n)),
            },
        },
    }
}

pub open spec fn rule_view_of(
    t: PathMatchType,
    path: Option<Seq<char>>,
    service: Seq<char>,
    port: i32,
    v: VariantView,
) -> RuleDraftView {
    RuleDraftView { path_type: t, path_value: path, service, port, headers: v.0, query: v.1 }
}

/// The rules that a host's paths give, one per path and variant in that
/// order; paths whose backend does not resolve are left out, and the first
/// unknown path type among the others is the error.
pub open spec fn http_rules(paths: Seq<IngressPath>, services: Seq<Service>, variants: Seq<VariantView>) -> Result<Seq<RuleDraftView>, Seq<char>>
    decreases paths.len(),
{
    if paths.len() == 0 {
        Ok(Seq::empty())
    } else {
        match http_rules(paths.drop_last(), services, variants) {
            Err(e) => Err(e),
            Ok(prev) => {
                let p = paths.last();
                match path_backend(p, services) {
                    None => Ok(prev),
                    Some(b) => match path_match_type_of(p.path_type@) {
                        None => Err(p.path_type@),
                        Some(t) => Ok(prev + variants.map_values(|v: VariantView| rule_view_of(t, opt_view(p.path), b.0, b.1, v))),
                    },
                }
            },
        }
    }
}

/// `{ingress}-{sanitized host}-{suffix}`.
pub open spec fn route_name(ingress: Seq<char>, host: Seq<char>, suffix: Seq<char>) -> Seq<char> {
    ingress + seq!['-'] + sanitized_hostname(host) + seq!['-'] + suffix
}

/// The name suffix of a route that holds one rule: the sanitized path, or
/// `root` for an absent or empty path.
pub open spec fn split_suffix(path: Option<Seq<char>>) -> Seq<char> {
    match path {
        Some(p) => if p.len() > 0 {
            sanitized_hostname(p)
        } else {
            "root"@
        },
        None => "root"@,
    }
}

pub open spec fn gateway_of(info: RouteInfoView) -> GatewayRefView {
    GatewayRefView { name: info.gw_name, namespace: info.gw_namespace, section_name: info.section_name }
}

/// The HTTPRoutes for a host's rules: one per rule when routes are split,
/// else one holding them all.
pub open spec fn assemble_http(info: RouteInfoView, rules: Seq<RuleDraftView>) -> Seq<HttpRouteView> {
    if info.split_routes {
        rules.map_values(|r: RuleDraftView| HttpRouteView {
            name: route_name(info.ingress_name, info.hostname, split_suffix(r.path_value)),
            hostname: info.hostname,
            gateway: gateway_of(info),
            rules: seq![r],
            owners: Seq::empty(),
        })
    } else {
        seq![HttpRouteView {
            name: route_name(info.ingress_name, info.hostname, "http"@),
            hostname: info.hostname,
            gateway: gateway_of(info),
            rules,
            owners: Seq::empty(),
        }]
    }
}

/// The TCPRoute for a host without an HTTP block, when the backend's port
/// resolves.
pub open spec fn tcp_route_of(info: RouteInfoView, svc: ServiceBackend, services: Seq<Service>) -> Option<TcpRouteView> {
    match svc.port {
        None => None,
        Some(port) => match resolved_port(port, svc.name@, services) {
            None => None,
            Some(n) => Some(TcpRouteView {
                name: route_name(info.ingress_name, info.hostname, "tcp"@),
                gateway: gateway_of(info),
                service: svc.name@,
                port: n,
                owners: Seq::empty(),
            }),
        },
    }
}

fn copy_opt_string(o: &Option<String>) -> (r: Option<String>)
    ensures
        opt_view(r) == opt_view(*o),
{
    match o {
        Some(s) => Some(s.clone()),
        None => None,
    }
}

fn copy_variant(v: &MatchVariant) -> (r: MatchVariant)
    ensures
        variant_view(r) == variant_view(*v),
{
    let h = match &v.0 {
        Some(l) => Some(HeadersMatchersList(l.0.duplicate())),
        None => None,
    };
    let q = match &v.1 {
        Some(l) => Some(QueryMatchersList(l.0.duplicate())),
        None => None,
    };
    (h, q)
}

impl RuleDraft {
    /// A copy with the same contents.
    pub fn duplicate(&self) -> (r: RuleDraft)
        ensures
            r@ == self@,
    {
        let header_match = match &self.header_match {
            Some(l) => Some(HeadersMatchersList(l.0.duplicate())),
            None => None,
        };
        let query_match = match &self.query_match {
            Some(l) => Some(QueryMatchersList(l.0.duplicate())),
            None => None,
        };
        RuleDraft {
            path_type: self.path_type,
            path_value: copy_opt_string(&self.path_value),
            backend: BackendRef { service_name: self.backend.service_name.clone(), port: self.backend.port },
            header_match,
            query_match,
        }
    }
}

fn gateway_ref(info: &RouteInputInfo) -> (r: GatewayRef)
    ensures
        r@ == gateway_of(info@),
{
    GatewayRef {
        name: info.gw_name.clone(),
        namespace: info.gw_namespace.clone(),
        section_name: copy_opt_string(&info.section_name),
    }
}

/// `{ingress}-{safe_host}-{suffix}`.
fn join_name(ingress: &String, safe_host: &String, suffix: &str) -> (r: String)
    ensures
        r@ == ingress@ + seq!['-'] + safe_host@ + seq!['-'] + suffix@,
{
    let mut n = ingress.clone();
    n.append("-");
    n.append(safe_host.as_str());
    n.append("-");
    n.append(suffix);
    proof {
        reveal_strlit("-");
    }
    assert(n@ =~= ingress@ + seq!['-'] + safe_host@ + seq!['-'] + suffix@);
    n
}

proof fn lemma_http_rules_error_stays(paths: Seq<IngressPath>, k: int, services: Seq<Service>, variants: Seq<VariantView>)
    requires
        0 <= k <= paths.len(),
        http_rules(paths.subrange(0, k), services, variants) is Err,
    ensures
        http_rules(paths, services, variants) == http_rules(paths.subrange(0, k), services, variants),
    decreases paths.len() - k,
{
    if k == paths.len() {
        assert(paths.subrange(0, k) =~= paths);
    } else {
        assert(paths.drop_last().subrange(0, k) =~= paths.subrange(0, k));
        lemma_http_rules_error_stays(paths.drop_last(), k, services, variants);
    }
}

/// The HTTPRoutes for one host: one rule per resolvable path and route
/// variant, gathered in one route or split one rule per route (see
/// [`http_rules`] and [`assemble_http`]). An unknown path type fails the
/// host, and so does a host left without any rule.
pub fn create_http_routes(route_info: &RouteInputInfo, paths: &Vec<IngressPath>, services: &Vec<Service>) -> (r: Result<Vec<HttpRouteDraft>, I2GError>)
    ensures
        match (r, http_rules(paths@, services@, info_variants(route_info@))) {
            (Ok(routes), Ok(rules)) => rules.len() > 0 && http_routes_view(routes@) == assemble_http(route_info@, rules),
            (Err(I2GError::UnknownPathType(m)), Err(t)) => m@ == t,
            (Err(I2GError::NoValidPaths), Ok(rules)) => rules.len() == 0,
            _ => false,
        },
{
    let safe_hostname = sanitize_hostname(route_info.hostname.as_str());
    let variants = create_match_rulesets(route_info);
    let ghost vv = variants_view(variants@);
    let mut rules: Vec<RuleDraft> = Vec::new();
    let mut i: usize = 0;
    assert(paths@.subrange(0, 0) =~= Seq::<IngressPath>::empty());
    assert(rule_drafts_view(rules@) =~= Seq::<RuleDraftView>::empty());
    while i < paths.len()
        invariant
            i <= paths@.len(),
            vv == variants_view(variants@),
            vv == info_variants(route_info@),
            http_rules(paths@.subrange(0, i as int), services@, vv) == Ok::<Seq<RuleDraftView>, Seq<char>>(rule_drafts_view(rules@)),
        decreases paths.len() - i,
    {
        let p = &paths[i];
        let ghost prev = rule_drafts_view(rules@);
        assert(paths@.subrange(0, i + 1).drop_last() =~= paths@.subrange(0, i as int));
        assert(paths@.subrange(0, i + 1).last() == *p);
        if let Some(svc) = &p.service {
            if let Some(port) = &svc.port {
                if let Some(n) = get_svc_port_number(services, svc.name.as_str(), port) {
                    let t = match path_match_type(p.path_type.as_str()) {
                        Some(t) => t,
                        None => {
                            proof {
                                lemma_http_rules_error_stays(paths@, i + 1, services@, vv);
                            }
                            return Err(I2GError::UnknownPathType(p.path_type.clone()));
                        },
                    };
                    let ghost f = |v: VariantView| rule_view_of(t, opt_view(p.path), svc.name@, n, v);
                    let mut k: usize = 0;
                    while k < variants.len()
                        invariant
                            k <= variants@.len(),
                            vv == variants_view(variants@),
                            f == (|v: VariantView| rule_view_of(t, opt_view(p.path), svc.name@, n, v)),
                            rule_drafts_view(rules@) =~= prev + vv.subrange(0, k as int).map_values(f),
                        decreases variants.len() - k,
                    {
                        let v = copy_variant(&variants[k]);
                        let ghost before = rules@;
                        rules.push(RuleDraft {
                            path_type: t,
                            path_value: copy_opt_string(&p.path),
                            backend: BackendRef { service_name: svc.name.clone(), port: n },
                            header_match: v.0,
                            query_match: v.1,
                        });
                        assert(rule_drafts_view(rules@) =~= rule_drafts_view(before).push(f(vv[k as int])));
                        assert(vv.subrange(0, k + 1) =~= vv.subrange(0, k as int).push(vv[k as int]));
                        k = k + 1;
                    }
                    assert(vv.subrange(0, variants@.len() as int) =~= vv);
                }
            }
        }
        i = i + 1;
    }
    assert(paths@.subrange(0, paths@.len() as int) =~= paths@);
    let ghost rv = rule_drafts_view(rules@);
    if rules.len() == 0 {
        return Err(I2GError::NoValidPaths);
    }
    if route_info.split_routes {
        let mut routes: Vec<HttpRouteDraft> = Vec::new();
        let mut k: usize = 0;
        while k < rules.len()
            invariant
                k <= rules@.len(),
                rv == rule_drafts_view(rules@),
                route_info.split_routes,
                safe_hostname@ == sanitized_hostname(route_info.hostname@),
                routes@.len() == k,
                forall|m: int| 0 <= m < k ==> (#[trigger] routes@[m])@ == assemble_http(route_info@, rv)[m],
            decreases rules.len() - k,
        {
            let rule = rules[k].duplicate();
            let suffix = match &rule.path_value {
                Some(p) => if p.as_str().unicode_len() > 0 {
                    sanitize_hostname(p.as_str())
                } else {
                    to_owned_string("root")
                },
                None => to_owned_string("root"),
            };
            proof {
                reveal_strlit("root");
            }
            assert(suffix@ == split_suffix(rule@.path_value));
            let name = join_name(&route_info.ingress_name, &safe_hostname, suffix.as_str());
            let mut one: Vec<RuleDraft> = Vec::new();
            one.push(rule);
            assert(rule_drafts_view(one@) =~= seq![rv[k as int]]);
            routes.push(HttpRouteDraft {
                name,
                hostname: route_info.hostname.clone(),
                gateway: gateway_ref(route_info),
                rules: one,
                owners: Vec::new(),
            });
            assert(owners_view(routes@[k as int].owners@) =~= Seq::<OwnerRefView>::empty());
            k = k + 1;
        }
        assert(http_routes_view(routes@) =~= assemble_http(route_info@, rv));
        return Ok(routes);
    }
    let name = join_name(&route_info.ingress_name, &safe_hostname, "http");
    let route = HttpRouteDraft {
        name,
        hostname: route_info.hostname.clone(),
        gateway: gateway_ref(route_info),
        rules,
        owners: Vec::new(),
    };
    assert(owners_view(route.owners@) =~= Seq::<OwnerRefView>::empty());
    let mut routes: Vec<HttpRouteDraft> = Vec::new();
    routes.push(route);
    assert(http_routes_view(routes@) =~= assemble_http(route_info@, rv));
    Ok(routes)
}

/// The TCPRoute for a host without an HTTP block, forwarding to `svc` (see
/// [`tcp_route_of`]); fails when the backend's port does not resolve.
pub fn create_tcp_routes(route_info: &RouteInputInfo, svc: &ServiceBackend, services: &Vec<Service>) -> (r: Result<TcpRouteDraft, I2GError>)
    ensures
        match (r, tcp_route_of(route_info@, *svc, services@)) {
            (Ok(t), Some(v)) => t@ == v,
            (Err(I2GError::UnresolvableBackend(m)), None) => m@ == svc.name@,
            _ => false,
        },
{
    let safe_hostname = sanitize_hostname(route_info.hostname.as_str());
    let port = match &svc.port {
        Some(p) => p,
        None => return Err(I2GError::UnresolvableBackend(svc.name.clone())),
    };
    let n = match get_svc_port_number(services, svc.name.as_str(), port) {
        Some(n) => n,
        None => return Err(I2GError::UnresolvableBackend(svc.name.clone())),
    };
    let name = join_name(&route_info.ingress_name, &safe_hostname, "tcp");
    let route = TcpRouteDraft {
        name,
        gateway: gateway_ref(route_info),
        backend: BackendRef { service_name: svc.name.clone(), port: n },
        owners: Vec::new(),
    };
    assert(owners_view(route.owners@) =~= Seq::<OwnerRefView>::empty());
    Ok(route)
}

/// `owners` with `o` appended, unless an owner with the same uid is there.
pub open spec fn with_owner(owners: Seq<OwnerRefView>, o: OwnerRefView) -> Seq<OwnerRefView> {
    if exists|i: int| 0 <= i < owners.len() && (#[trigger] owners[i]).uid == o.uid {
        owners
    } else {
        owners.push(o)
    }
}

/// Adding an owner a second time changes nothing.
pub proof fn lemma_add_owner_idempotent(owners: Seq<OwnerRefView>, o: OwnerRefView)
    ensures
        with_owner(with_owner(owners, o), o) == with_owner(owners, o),
{
    let once = with_owner(owners, o);
    assert(exists|i: int| 0 <= i < once.len() && (#[trigger] once[i]).uid == o.uid) by {
        if !(exists|i: int| 0 <= i < owners.len() && (#[trigger] owners[i]).uid == o.uid) {
            assert(once[owners.len() as int] == o);
        }
    }
}

/// Appends `owner` to `owners` unless an owner with its uid is present.
pub fn add_owner(owners: &mut Vec<OwnerRef>, owner: &OwnerRef)
    ensures
        owners_view(final(owners)@) == with_owner(owners_view(old(owners)@), owner@),
{
    let ghost ov = owners_view(owners@);
    let mut i: usize = 0;
    while i < owners.len()
        invariant
            i <= owners@.len(),
            ov == owners_view(owners@),
            forall|k: int| 0 <= k < i ==> ov[k].uid != owner@.uid,
        decreases owners.len() - i,
    {
        if owners[i].uid == owner.uid {
            assert(ov[i as int].uid == owner@.uid);
            return;
        }
        i = i + 1;
    }
    owners.push(OwnerRef { name: owner.name.clone(), uid: owner.uid.clone() });
    assert(owners_view(owners@) =~= ov.push(owner@));
}

impl HttpRouteDraft {
    /// Links the route to `owner` (see [`with_owner`]).
    pub fn add_owner(&mut self, owner: &OwnerRef)
        ensures
            final(self)@ == (HttpRouteView { owners: with_owner(old(self)@.owners, owner@), ..old(self)@ }),
    {
        add_owner(&mut self.owners, owner);
    }
}

impl TcpRouteDraft {
    /// Links the route to `owner` (see [`with_owner`]).
    pub fn add_owner(&mut self, owner: &OwnerRef)
        ensures
            final(self)@ == (TcpRouteView { owners: with_owner(old(self)@.owners, owner@), ..old(self)@ }),
    {
        add_owner(&mut self.owners, owner);
    }
}

/// The path's service, given with a port number, and its path type are
/// both usable.
pub open spec fn numbered_path(p: IngressPath) -> bool {
    &&& p.service is Some
    &&& p.service->0.port is Some
    &&& p.service->0.port->0.number is Some
    &&& path_match_type_of(p.path_type@) is Some
}

/// The rule that a usable numbered path gives without match conditions.
pub open spec fn plain_rule(p: IngressPath) -> RuleDraftView {
    rule_view_of(
        path_match_type_of(p.path_type@)->0,
        opt_view(p.path),
        p.service->0.name@,
        p.service->0.port->0.number->0,
        (None, None),
    )
}

/// No header or query rules are declared.
pub open spec fn no_match_rules(info: RouteInfoView) -> bool {
    &&& (info.header_matchers is None || info.header_matchers == Some(Seq::<MatchRuleView>::empty()))
    &&& (info.query_matchers is None || info.query_matchers == Some(Seq::<MatchRuleView>::empty()))
}

proof fn lemma_no_match_rules_one_variant(info: RouteInfoView)
    requires
        no_match_rules(info),
    ensures
        info_variants(info) == seq![(None::<Seq<MatchRuleView>>, None::<Seq<MatchRuleView>>)],
{
    assert(crate::value_filters::groups_of(Seq::<MatchRuleView>::empty()) =~= Seq::<Seq<MatchRuleView>>::empty());
    assert(expansions(info.header_matchers).len() == 0);
    assert(expansions(info.query_matchers).len() == 0);
}

proof fn lemma_push_numbered_path(prev: Seq<IngressPath>, p: IngressPath, services: Seq<Service>, info: RouteInfoView)
    requires
        no_match_rules(info),
        numbered_path(p),
        http_rules(prev, services, info_variants(info)) is Ok,
    ensures
        http_rules(prev.push(p), services, info_variants(info)) == Ok::<Seq<RuleDraftView>, Seq<char>>(
            http_rules(prev, services, info_variants(info))->Ok_0.push(plain_rule(p)),
        ),
{
    lemma_no_match_rules_one_variant(info);
    let vv = info_variants(info);
    let s = prev.push(p);
    assert(s.drop_last() =~= prev);
    let t = path_match_type_of(p.path_type@)->0;
    let b = path_backend(p, services)->0;
    let f = |v: VariantView| rule_view_of(t, opt_view(p.path), b.0, b.1, v);
    assert(vv.map_values(f) =~= seq![plain_rule(p)]);
    let prior = http_rules(prev, services, vv)->Ok_0;
    assert(prior + vv.map_values(f) =~= prior.push(plain_rule(p)));
}

/// With no match rules and without splitting, a host with one usable
/// numbered path gives exactly one HTTPRoute holding exactly one rule: the
/// path's match and backend, with no header or query condition.
pub proof fn lemma_one_path_one_route(info: RouteInfoView, p: IngressPath, services: Seq<Service>)
    requires
        !info.split_routes,
        no_match_rules(info),
        numbered_path(p),
    ensures
        http_rules(seq![p], services, info_variants(info)) == Ok::<Seq<RuleDraftView>, Seq<char>>(seq![plain_rule(p)]),
        assemble_http(info, seq![plain_rule(p)]).len() == 1,
        assemble_http(info, seq![plain_rule(p)])[0].rules == seq![plain_rule(p)],
        plain_rule(p).headers is None && plain_rule(p).query is None,
{
    let e = Seq::<IngressPath>::empty();
    assert(http_rules(e, services, info_variants(info)) == Ok::<Seq<RuleDraftView>, Seq<char>>(Seq::empty()));
    lemma_push_numbered_path(e, p, services, info);
    assert(e.push(p) =~= seq![p]);
    assert(Seq::<RuleDraftView>::empty().push(plain_rule(p)) =~= seq![plain_rule(p)]);
}

/// With splitting on and no match rules, a host with two usable numbered
/// paths gives exactly two HTTPRoutes for that host, each with one rule.
pub proof fn lemma_split_two_paths(info: RouteInfoView, p: IngressPath, q: IngressPath, services: Seq<Service>)
    requires
        info.split_routes,
        no_match_rules(info),
        numbered_path(p),
        numbered_path(q),
    ensures
        http_rules(seq![p, q], services, info_variants(info)) == Ok::<Seq<RuleDraftView>, Seq<char>>(
            seq![plain_rule(p), plain_rule(q)],
        ),
        assemble_http(info, seq![plain_rule(p), plain_rule(q)]).len() == 2,
        assemble_http(info, seq![plain_rule(p), plain_rule(q)])[0].rules.len() == 1,
        assemble_http(info, seq![plain_rule(p), plain_rule(q)])[1].rules.len() == 1,
        assemble_http(info, seq![plain_rule(p), plain_rule(q)])[0].hostname == info.hostname,
        assemble_http(info, seq![plain_rule(p), plain_rule(q)])[1].hostname == info.hostname,
{
    let e = Seq::<IngressPath>::empty();
    assert(http_rules(e, services, info_variants(info)) == Ok::<Seq<RuleDraftView>, Seq<char>>(Seq::empty()));
    lemma_push_numbered_path(e, p, services, info);
    lemma_push_numbered_path(e.push(p), q, services, info);
    assert(e.push(p).push(q) =~= seq![p, q]);
    assert(Seq::<RuleDraftView>::empty().push(plain_rule(p)).push(plain_rule(q)) =~= seq![plain_rule(p), plain_rule(q)]);
}

} // verus!
