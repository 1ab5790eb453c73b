//! The per-Ingress reconcile decisions: whether to translate at all, what to
//! apply, and when to look again.

use vstd::prelude::*;

use crate::args::I2GArgs;
use crate::consts::{
    DESIRED_SECTION, DONE_REQUEUE_SECS, GATEWAY_NAME, GATEWAY_NAMESPACE, HEADER_FILTERS_PREFIX, NOT_LEADER_REQUEUE_SECS,
    QUERY_FILTERS_PREFIX, SKIP_REQUEUE_SECS, SPLIT_ROUTES, TRANSLATE_INGRESS,
};
use crate::err::{I2GError, ValidationError};
use crate::ingress::{Ingress, IngressRule, Service, ServiceBackend};
use crate::routes::{
    assemble_http, create_http_routes, create_tcp_routes, http_rules, info_variants, tcp_route_of, with_owner,
    HttpRouteDraft, HttpRouteView, OwnerRef, OwnerRefView, RouteInfoView, RouteInputInfo, TcpRouteDraft, TcpRouteView,
};
use crate::strings::str_eq;
use crate::value_filters::{annotation_rules, annotations_ordered, annotations_view, key_less, lemma_key_less_irreflexive, HeadersMatchersList, MatcherList, QueryMatchersList};

verus! {

/// The value of the first annotation with key `key`.
pub open spec fn first_value(anns: Seq<(Seq<char>, Seq<char>)>, key: Seq<char>) -> Option<Seq<char>>
    decreases anns.len(),
{
    if anns.len() == 0 {
        None
    } else if anns[0].0 == key {
        Some(anns[0].1)
    } else {
        first_value(anns.drop_first(), key)
    }
}

/// In annotations whose keys ascend (see [`annotations_ordered`]), each
/// key's lookup finds the value stored with it.
pub proof fn lemma_annotation_lookup(anns: Seq<(Seq<char>, Seq<char>)>, i: int)
    requires
        annotations_ordered(anns),
        0 <= i < anns.len(),
    ensures
        first_value(anns, anns[i].0) == Some(anns[i].1),
    decreases i,
{
    if i > 0 {
        lemma_key_less_irreflexive(anns[0].0);
        assert(key_less(anns[0].0, anns[i].0));
        assert(annotations_ordered(anns.drop_first())) by {
            assert forall|a: int, b: int| 0 <= a < b < anns.drop_first().len() implies key_less(
                anns.drop_first()[a].0,
                anns.drop_first()[b].0,
            ) by {
                assert(anns.drop_first()[a] == anns[a + 1] && anns.drop_first()[b] == anns[b + 1]);
            }
        }
        lemma_annotation_lookup(anns.drop_first(), i - 1);
    }
}

/// The value of annotation `key`, if the Ingress has it. Annotations come
/// with ascending, hence unique, keys (see [`annotations_ordered`]), so this
/// is the one value stored under `key`.
pub open spec fn annotation_of(anns: Option<Vec<(String, String)>>, key: Seq<char>) -> Option<Seq<char>> {
    match anns {
        Some(v) => first_value(annotations_view(v@), key),
        None => None,
    }
}

/// `true` in any mix of upper and lower case.
pub open spec fn is_true_text(s: Seq<char>) -> bool {
    &&& s.len() == 4
    &&& (s[0] == 't' || s[0] == 'T')
    &&& (s[1] == 'r' || s[1] == 'R')
    &&& (s[2] == 'u' || s[2] == 'U')
    &&& (s[3] == 'e' || s[3] == 'E')
}

/// Looks up the annotation `key` (see [`annotation_of`]).
pub fn get_annotation<'a>(anns: &'a Option<Vec<(String, String)>>, key: &str) -> (r: Option<&'a String>)
    ensures
        match r {
            Some(v) => annotation_of(*anns, key@) == Some(v@),
            None => annotation_of(*anns, key@) is None,
        },
{
    let v = match anns {
        Some(v) => v,
        None => return None,
    };
    let ghost s = annotations_view(v@);
    let mut i: usize = 0;
    assert(s.subrange(0, s.len() as int) =~= s);
    while i < v.len()
        invariant
            i <= v@.len(),
            s == annotations_view(v@),
            *anns == Some(*v),
            first_value(s, key@) == first_value(s.subrange(i as int, s.len() as int), key@),
        decreases v.len() - i,
    {
        assert(s.subrange(i as int, s.len() as int).drop_first() =~= s.subrange(i + 1, s.len() as int));
        assert(s[i as int] == (v@[i as int].0@, v@[i as int].1@));
        if str_eq(v[i].0.as_str(), key) {
            return Some(&v[i].1);
        }
        i = i + 1;
    }
    None
}

/// Whether `s` reads `true`, case aside.
pub fn is_true(s: &str) -> (r: bool)
    ensures
        r == is_true_text(s@),
{
    if s.unicode_len() != 4 {
        return false;
    }
    let a = s.get_char(0);
    let b = s.get_char(1);
    let c = s.get_char(2);
    let d = s.get_char(3);
    (a == 't' || a == 'T') && (b == 'r' || b == 'R') && (c == 'u' || c == 'U') && (d == 'e' || d == 'E')
}

/// What a reconcile pass does with an Ingress before reading it further.
#[derive(Debug, Clone, Copy, PartialEq, Eq, Structural)]
pub enum Decision {
    /// This replica does not lead: nothing is written.
    NotLeader,
    /// The Ingress is not to be translated: nothing is written.
    Skip,
    Translate,
}

/// Not leading comes first; then the translate annotation decides, `true`
/// (case aside) to translate and anything else to skip; without it the
/// operator-wide default decides.
pub open spec fn decision_of(is_leader: bool, ingress: Ingress, skip_by_default: bool) -> Decision {
    if !is_leader {
        Decision::NotLeader
    } else {
        let skip = match annotation_of(ingress.annotations, TRANSLATE_INGRESS@) {
            Some(v) => !is_true_text(v),
            None => skip_by_default,
        };
        if skip {
            Decision::Skip
        } else {
            Decision::Translate
        }
    }
}

/// Decides whether a pass translates the Ingress (see [`decision_of`]).
pub fn decide(is_leader: bool, ingress: &Ingress, args: &I2GArgs) -> (r: Decision)
    ensures
        r == decision_of(is_leader, *ingress, args.skip_by_default),
{
    if !is_leader {
        return Decision::NotLeader;
    }
    let skip = match get_annotation(&ingress.annotations, TRANSLATE_INGRESS) {
        Some(v) => !is_true(v.as_str()),
        None => args.skip_by_default,
    };
    if skip {
        Decision::Skip
    } else {
        Decision::Translate
    }
}

/// What an Ingress lacks for translation, checked in this order: a spec,
/// at least one rule, a namespace.
pub open spec fn validation_of(ingress: Ingress) -> Option<ValidationError> {
    match ingress.spec {
        None => Some(ValidationError::MissingSpec),
        Some(spec) => match spec.rules {
            None => Some(ValidationError::MissingRules),
            Some(rules) => if rules@.len() == 0 {
                Some(ValidationError::MissingRules)
            } else {
                match ingress.namespace {
                    None => Some(ValidationError::MissingNamespace),
                    Some(_) => None,
                }
            },
        },
    }
}

/// A route to apply.
#[derive(Debug, Clone, PartialEq, Eq)]
pub enum RouteWrite {
    Http(HttpRouteDraft),
    Tcp(TcpRouteDraft),
}

pub enum RouteWriteView {
    Http(HttpRouteView),
    Tcp(TcpRouteView),
}

impl View for RouteWrite {
    type V = RouteWriteView;

    open spec fn view(&self) -> RouteWriteView {
        match self {
            RouteWrite::Http(r) => RouteWriteView::Http(r@),
            RouteWrite::Tcp(r) => RouteWriteView::Tcp(r@),
        }
    }
}

pub open spec fn writes_view(v: Seq<RouteWrite>) -> Seq<RouteWriteView> {
    v.map_values(|w: RouteWrite| w@)
}

/// The outcome of a pass that did not fail: the routes to apply, in order,
/// and the seconds until the next pass.
#[derive(Debug, Clone, PartialEq, Eq)]
pub struct ReconcilePlan {
    pub writes: Vec<RouteWrite>,
    pub requeue_secs: u64,
}

/// The owner that generated routes are linked to, when linking is on.
pub open spec fn owner_of(ingress: Ingress, args: I2GArgs) -> Option<OwnerRefView> {
    if args.link_to_ingress {
        match ingress.uid {
            Some(uid) => Some(OwnerRefView { name: ingress.name@, uid: uid@ }),
            None => None,
        }
    } else {
        None
    }
}

pub open spec fn annotation_or(anns: Option<Vec<(String, String)>>, key: Seq<char>, default: Seq<char>) -> Seq<char> {
    match annotation_of(anns, key) {
        Some(v) => v,
        None => default,
    }
}

/// The match rules of the annotations under `prefix`; none without annotations.
pub open spec fn matchers_of(anns: Option<Vec<(String, String)>>, prefix: Seq<char>) -> Option<Seq<crate::value_filters::MatchRuleView>> {
    match anns {
        Some(v) => Some(annotation_rules(annotations_view(v@), prefix)),
        None => None,
    }
}

/// What route generation knows of host `host` of the Ingress: the Gateway
/// from the annotations, else from the operator's defaults, and the
/// Ingress-wide split flag and match rules.
pub open spec fn route_info_for(ingress: Ingress, args: I2GArgs, host: Seq<char>) -> RouteInfoView {
    let anns = ingress.annotations;
    RouteInfoView {
        ingress_name: ingress.name@,
        gw_name: annotation_or(anns, GATEWAY_NAME@, args.default_gateway_name@),
        gw_namespace: annotation_or(anns, GATEWAY_NAMESPACE@, args.default_gateway_namespace@),
        section_name: annotation_of(anns, DESIRED_SECTION@),
        hostname: host,
        split_routes: match annotation_of(anns, SPLIT_ROUTES@) {
            Some(v) => is_true_text(v),
            None => false,
        },
        header_matchers: matchers_of(anns, HEADER_FILTERS_PREFIX@),
        query_matchers: matchers_of(anns, QUERY_FILTERS_PREFIX@),
    }
}

pub open spec fn linked_http(r: HttpRouteView, owner: Option<OwnerRefView>) -> HttpRouteView {
    match owner {
        Some(o) => HttpRouteView { owners: with_owner(r.owners, o), ..r },
        None => r,
    }
}

pub open spec fn linked_tcp(r: TcpRouteView, owner: Option<OwnerRefView>) -> TcpRouteView {
    match owner {
        Some(o) => TcpRouteView { owners: with_owner(r.owners, o), ..r },
        None => r,
    }
}

/// The service of the Ingress's default backend, if any.
pub open spec fn default_service(ingress: Ingress) -> Option<ServiceBackend> {
    match ingress.spec {
        Some(spec) => match spec.default_backend {
            Some(b) => b.service,
            None => None,
        },
        None => None,
    }
}

/// The routes that one Ingress rule gives. A rule without a host gives none.
/// A rule with an HTTP block gives its HTTPRoutes, or none when they fail.
/// A rule without one gives a TCPRoute to the default backend when
/// experimental routes are on and that backend resolves.
pub open spec fn rule_writes(
    ingress: Ingress,
    args: I2GArgs,
    services: Seq<Service>,
    rule: IngressRule,
) -> Seq<RouteWriteView> {
    let owner = owner_of(ingress, args);
    match rule.host {
        None => Seq::empty(),
        Some(h) => {
            let info = route_info_for(ingress, args, h@);
            match rule.http {
                Some(paths) => match http_rules(paths@, services, info_variants(info)) {
                    Ok(rules) => if rules.len() > 0 {
                        assemble_http(info, rules).map_values(|r: HttpRouteView| RouteWriteView::Http(linked_http(r, owner)))
                    } else {
                        Seq::empty()
                    },
                    Err(_) => Seq::empty(),
                },
                None => if !args.experimental {
                    Seq::empty()
                } else {
                    match default_service(ingress) {
                        None => Seq::empty(),
                        Some(svc) => match tcp_route_of(info, svc, services) {
                            Some(t) => seq![RouteWriteView::Tcp(linked_tcp(t, owner))],
                            None => Seq::empty(),
                        },
                    }
                },
            }
        },
    }
}

/// The routes of `rules`, rule after rule.
pub open spec fn planned_writes(ingress: Ingress, args: I2GArgs, services: Seq<Service>, rules: Seq<IngressRule>) -> Seq<RouteWriteView>
    decreases rules.len(),
{
    if rules.len() == 0 {
        Seq::empty()
    } else {
        planned_writes(ingress, args, services, rules.drop_last()) + rule_writes(ingress, args, services, rules.last())
    }
}

/// The rules of a validated Ingress.
pub open spec fn ingress_rules(ingress: Ingress) -> Seq<IngressRule> {
    ingress.spec->0.rules->0@
}

pub open spec fn owner_view(o: Option<OwnerRef>) -> Option<OwnerRefView> {
    match o {
        Some(x) => Some(x@),
        None => None,
    }
}

/// `template` for host `host`.
fn info_with_host(template: &RouteInputInfo, host: &String) -> (r: RouteInputInfo)
    ensures
        r@ == (RouteInfoView { hostname: host@, ..template@ }),
{
    let h = match &template.header_matchers {
        Some(l) => Some(HeadersMatchersList(l.0.duplicate())),
        None => None,
    };
    let q = match &template.query_matchers {
        Some(l) => Some(QueryMatchersList(l.0.duplicate())),
        None => None,
    };
    let section_name = match &template.section_name {
        Some(s) => Some(s.clone()),
        None => None,
    };
    RouteInputInfo {
        ingress_name: template.ingress_name.clone(),
        gw_name: template.gw_name.clone(),
        gw_namespace: template.gw_namespace.clone(),
        section_name,
        hostname: host.clone(),
        split_routes: template.split_routes,
        header_matchers: h,
        query_matchers: q,
    }
}

fn wrap_http(routes: Vec<HttpRouteDraft>, owner: &Option<OwnerRef>) -> (r: Vec<RouteWrite>)
    ensures
        writes_view(r@) == crate::routes::http_routes_view(routes@).map_values(
            |x: HttpRouteView| RouteWriteView::Http(linked_http(x, owner_view(*owner))),
        ),
{
    let ghost all = crate::routes::http_routes_view(routes@);
    let ghost f = |x: HttpRouteView| RouteWriteView::Http(linked_http(x, owner_view(*owner)));
    let mut rest = routes;
    let mut out: Vec<RouteWrite> = Vec::new();
    while rest.len() > 0
        invariant
            f == (|x: HttpRouteView| RouteWriteView::Http(linked_http(x, owner_view(*owner)))),
            out@.len() + rest@.len() == all.len(),
            writes_view(out@) =~= all.subrange(0, out@.len() as int).map_values(f),
            crate::routes::http_routes_view(rest@) =~= all.subrange(out@.len() as int, all.len() as int),
        decreases rest.len(),
    {
        let ghost k = out@.len() as int;
        let ghost before = rest@;
        assert(crate::routes::http_routes_view(before)[0] == all.subrange(k, all.len() as int)[0]);
        let mut route = rest.remove(0);
        assert(route == before[0]);
        assert(route@ == all[k]);
        if let Some(o) = owner {
            route.add_owner(o);
        }
        let ghost before_out = out@;
        out.push(RouteWrite::Http(route));
        assert(writes_view(out@) =~= writes_view(before_out).push(f(all[k])));
        assert(all.subrange(0, k + 1) =~= all.subrange(0, k).push(all[k]));
        assert(crate::routes::http_routes_view(rest@) =~= crate::routes::http_routes_view(before).drop_first());
    }
    assert(all.subrange(0, all.len() as int) =~= all);
    out
}

/// The routes of one Ingress rule (see [`rule_writes`]).
fn rule_routes(
    ingress: &Ingress,
    args: &I2GArgs,
    services: &Vec<Service>,
    rule: &IngressRule,
    template: &RouteInputInfo,
    owner: &Option<OwnerRef>,
) -> (r: Vec<RouteWrite>)
    requires
        template@ == route_info_for(*ingress, *args, Seq::empty()),
        owner_view(*owner) == owner_of(*ingress, *args),
    ensures
        writes_view(r@) == rule_writes(*ingress, *args, services@, *rule),
{
    let empty: Vec<RouteWrite> = Vec::new();
    assert(writes_view(empty@) =~= Seq::<RouteWriteView>::empty());
    let host = match &rule.host {
        None => return empty,
        Some(h) => h,
    };
    let info = info_with_host(template, host);
    assert(info@ == route_info_for(*ingress, *args, host@));
    match &rule.http {
        Some(paths) => match create_http_routes(&info, paths, services) {
            Ok(routes) => wrap_http(routes, owner),
            Err(_) => empty,
        },
        None => {
            if !args.experimental {
                return empty;
            }
            let svc = match &ingress.spec {
                Some(spec) => match &spec.default_backend {
                    Some(b) => match &b.service {
                        Some(svc) => svc,
                        None => return empty,
                    },
                    None => return empty,
                },
                None => return empty,
            };
            match create_tcp_routes(&info, svc, services) {
                Ok(route) => {
                    let mut route = route;
                    if let Some(o) = owner {
                        route.add_owner(o);
                    }
                    let mut out: Vec<RouteWrite> = Vec::new();
                    out.push(RouteWrite::Tcp(route));
                    assert(writes_view(out@) =~= rule_writes(*ingress, *args, services@, *rule));
                    out
                },
                Err(_) => empty,
            }
        },
    }
}

/// One reconcile pass over an Ingress, given the Services read for it.
///
/// A replica that does not lead writes nothing and looks again in 20 s; an
/// Ingress that is not translated is left alone for 60 s. An Ingress without
/// a spec, without any rule or without a namespace fails the pass. Otherwise the pass yields the
/// routes of every rule in order (see [`planned_writes`]) and looks again in
/// 10 s; a rule whose routes fail adds none and does not stop the others.
pub fn reconcile(is_leader: bool, ingress: &Ingress, args: &I2GArgs, services: &Vec<Service>) -> (r: Result<ReconcilePlan, I2GError>)
    ensures
        !is_leader ==> (r matches Ok(p) && p.writes@.len() == 0 && p.requeue_secs == NOT_LEADER_REQUEUE_SECS),
        decision_of(is_leader, *ingress, args.skip_by_default) == Decision::Skip ==> (r matches Ok(p) && p.writes@.len() == 0
            && p.requeue_secs == SKIP_REQUEUE_SECS),
        decision_of(is_leader, *ingress, args.skip_by_default) == Decision::Translate ==> match validation_of(*ingress) {
            Some(e) => r == Err::<ReconcilePlan, I2GError>(I2GError::Validation(e)),
            None => r matches Ok(p) && p.requeue_secs == DONE_REQUEUE_SECS && writes_view(p.writes@) == planned_writes(
                *ingress,
                *args,
                services@,
                ingress_rules(*ingress),
            ),
        },
{
    match decide(is_leader, ingress, args) {
        Decision::NotLeader => {
            return Ok(ReconcilePlan { writes: Vec::new(), requeue_secs: NOT_LEADER_REQUEUE_SECS });
        },
        Decision::Skip => {
            return Ok(ReconcilePlan { writes: Vec::new(), requeue_secs: SKIP_REQUEUE_SECS });
        },
        Decision::Translate => {},
    }
    let spec = match &ingress.spec {
        Some(s) => s,
        None => return Err(I2GError::Validation(ValidationError::MissingSpec)),
    };
    let rules = match &spec.rules {
        Some(r) => r,
        None => return Err(I2GError::Validation(ValidationError::MissingRules)),
    };
    if rules.len() == 0 {
        return Err(I2GError::Validation(ValidationError::MissingRules));
    }
    if ingress.namespace.is_none() {
        return Err(I2GError::Validation(ValidationError::MissingNamespace));
    }
    let anns = &ingress.annotations;
    let gw_name = match get_annotation(anns, GATEWAY_NAME) {
        Some(v) => v.clone(),
        None => args.default_gateway_name.clone(),
    };
    let gw_namespace = match get_annotation(anns, GATEWAY_NAMESPACE) {
        Some(v) => v.clone(),
        None => args.default_gateway_namespace.clone(),
    };
    let section_name = match get_annotation(anns, DESIRED_SECTION) {
        Some(v) => Some(v.clone()),
        None => None,
    };
    let split_routes = match get_annotation(anns, SPLIT_ROUTES) {
        Some(v) => is_true(v.as_str()),
        None => false,
    };
    let (header_matchers, query_matchers) = match anns {
        Some(v) => (
            Some(HeadersMatchersList(MatcherList::from_annotations(v, HEADER_FILTERS_PREFIX))),
            Some(QueryMatchersList(MatcherList::from_annotations(v, QUERY_FILTERS_PREFIX))),
        ),
        None => (None, None),
    };
    let template = RouteInputInfo {
        ingress_name: ingress.name.clone(),
        gw_name,
        gw_namespace,
        section_name,
        hostname: String::new(),
        split_routes,
        header_matchers,
        query_matchers,
    };
    assert(template@ == route_info_for(*ingress, *args, Seq::empty()));
    let owner = if args.link_to_ingress {
        match &ingress.uid {
            Some(uid) => Some(OwnerRef { name: ingress.name.clone(), uid: uid.clone() }),
            None => None,
        }
    } else {
        None
    };
    let mut writes: Vec<RouteWrite> = Vec::new();
    let mut i: usize = 0;
    assert(writes_view(writes@) =~= Seq::<RouteWriteView>::empty());
    assert(rules@.subrange(0, 0) =~= Seq::<IngressRule>::empty());
    while i < rules.len()
        invariant
            i <= rules@.len(),
            template@ == route_info_for(*ingress, *args, Seq::empty()),
            owner_view(owner) == owner_of(*ingress, *args),
            writes_view(writes@) == planned_writes(*ingress, *args, services@, rules@.subrange(0, i as int)),
        decreases rules.len() - i,
    {
        let mut more = rule_routes(ingress, args, services, &rules[i], &template, &owner);
        let ghost before = writes@;
        let ghost added = more@;
        writes.append(&mut more);
        assert(rules@.subrange(0, i + 1).drop_last() =~= rules@.subrange(0, i as int));
        assert(writes_view(writes@) =~= writes_view(before) + writes_view(added));
        i = i + 1;
    }
    assert(rules@.subrange(0, rules@.len() as int) =~= rules@);
    Ok(ReconcilePlan { writes, requeue_secs: DONE_REQUEUE_SECS })
}

/// Where an applied route is stored: its kind (HTTP or not) and its name.
pub open spec fn write_key(w: RouteWriteView) -> (bool, Seq<char>) {
    match w {
        RouteWriteView::Http(r) => (true, r.name),
        RouteWriteView::Tcp(r) => (false, r.name),
    }
}

/// The stored routes after declarative apply of `ws` in order: each write
/// sets the object under its kind and name to its content.
pub open spec fn apply_all(
    store: Map<(bool, Seq<char>), RouteWriteView>,
    ws: Seq<RouteWriteView>,
) -> Map<(bool, Seq<char>), RouteWriteView>
    decreases ws.len(),
{
    if ws.len() == 0 {
        store
    } else {
        apply_all(store, ws.drop_last()).insert(write_key(ws.last()), ws.last())
    }
}

proof fn lemma_apply_all_overrides(store: Map<(bool, Seq<char>), RouteWriteView>, ws: Seq<RouteWriteView>)
    ensures
        apply_all(store, ws) == store.union_prefer_right(apply_all(Map::empty(), ws)),
    decreases ws.len(),
{
    if ws.len() == 0 {
        assert(store.union_prefer_right(Map::empty()) =~= store);
    } else {
        lemma_apply_all_overrides(store, ws.drop_last());
        lemma_apply_all_overrides(Map::empty(), ws.drop_last());
        assert(apply_all(store, ws) =~= store.union_prefer_right(apply_all(Map::empty(), ws)));
    }
}

/// Applying the same writes a second time leaves the stored routes as the
/// first application left them: no second object, no changed content.
pub proof fn lemma_apply_twice(store: Map<(bool, Seq<char>), RouteWriteView>, ws: Seq<RouteWriteView>)
    ensures
        apply_all(apply_all(store, ws), ws) == apply_all(store, ws),
{
    let once = apply_all(store, ws);
    let last = apply_all(Map::empty(), ws);
    lemma_apply_all_overrides(store, ws);
    lemma_apply_all_overrides(once, ws);
    assert(once.union_prefer_right(last) =~= once);
}

/// The service whose port must be read from the cluster: one given by name.
pub open spec fn lookup_name(svc: Option<ServiceBackend>) -> Option<Seq<char>> {
    match svc {
        Some(b) => match b.port {
            Some(p) => if p.number is None && p.name is Some {
                Some(b.name@)
            } else {
                None
            },
            None => None,
        },
        None => None,
    }
}

pub open spec fn lookup_seq(svc: Option<ServiceBackend>) -> Seq<Seq<char>> {
    match lookup_name(svc) {
        Some(n) => seq![n],
        None => Seq::empty(),
    }
}

pub open spec fn path_lookups(paths: Seq<crate::ingress::IngressPath>) -> Seq<Seq<char>>
    decreases paths.len(),
{
    if paths.len() == 0 {
        Seq::empty()
    } else {
        path_lookups(paths.drop_last()) + lookup_seq(paths.last().service)
    }
}

pub open spec fn rule_lookups(rules: Seq<IngressRule>) -> Seq<Seq<char>>
    decreases rules.len(),
{
    if rules.len() == 0 {
        Seq::empty()
    } else {
        rule_lookups(rules.drop_last()) + match rules.last().http {
            Some(paths) => path_lookups(paths@),
            None => Seq::empty(),
        }
    }
}

/// The services whose ports are given by name, in the order the Ingress
/// names them: those of the rules' paths, then the default backend's.
pub open spec fn lookups_of(ingress: Ingress) -> Seq<Seq<char>> {
    match ingress.spec {
        Some(spec) => {
            let from_rules = match spec.rules {
                Some(rules) => rule_lookups(rules@),
                None => Seq::empty(),
            };
            from_rules + lookup_seq(default_service(ingress))
        },
        None => Seq::empty(),
    }
}

pub open spec fn names_view(v: Seq<String>) -> Seq<Seq<char>> {
    v.map_values(|s: String| s@)
}

fn push_lookup(out: &mut Vec<String>, svc: &Option<ServiceBackend>)
    ensures
        names_view(final(out)@) == names_view(old(out)@) + lookup_seq(*svc),
{
    let ghost before = out@;
    if let Some(b) = svc {
        if let Some(p) = &b.port {
            if p.number.is_none() && p.name.is_some() {
                out.push(b.name.clone());
                assert(names_view(out@) =~= names_view(before) + lookup_seq(*svc));
                return;
            }
        }
    }
    assert(names_view(out@) =~= names_view(before) + lookup_seq(*svc));
}

/// The services that a pass over the Ingress has to read (see [`lookups_of`]).
pub fn services_to_read(ingress: &Ingress) -> (r: Vec<String>)
    ensures
        names_view(r@) == lookups_of(*ingress),
{
    let mut out: Vec<String> = Vec::new();
    let spec = match &ingress.spec {
        Some(s) => s,
        None => {
            assert(names_view(out@) =~= Seq::<Seq<char>>::empty());
            return out;
        },
    };
    assert(names_view(out@) =~= Seq::<Seq<char>>::empty());
    if let Some(rules) = &spec.rules {
        let mut i: usize = 0;
        assert(rules@.subrange(0, 0) =~= Seq::<IngressRule>::empty());
        while i < rules.len()
            invariant
                i <= rules@.len(),
                names_view(out@) == rule_lookups(rules@.subrange(0, i as int)),
            decreases rules.len() - i,
        {
            assert(rules@.subrange(0, i + 1).drop_last() =~= rules@.subrange(0, i as int));
            let ghost before = names_view(out@);
            if let Some(paths) = &rules[i].http {
                let mut j: usize = 0;
                assert(paths@.subrange(0, 0) =~= Seq::<crate::ingress::IngressPath>::empty());
                assert(before + path_lookups(paths@.subrange(0, 0)) =~= before);
                while j < paths.len()
                    invariant
                        j <= paths@.len(),
                        names_view(out@) == before + path_lookups(paths@.subrange(0, j as int)),
                    decreases paths.len() - j,
                {
                    assert(paths@.subrange(0, j + 1).drop_last() =~= paths@.subrange(0, j as int));
                    push_lookup(&mut out, &paths[j].service);
                    assert(before + path_lookups(paths@.subrange(0, j + 1)) =~= before + path_lookups(
                        paths@.subrange(0, j as int),
                    ) + lookup_seq(paths@[j as int].service));
                    j = j + 1;
                }
                assert(paths@.subrange(0, paths@.len() as int) =~= paths@);
            } else {
                assert(before + Seq::<Seq<char>>::empty() =~= before);
            }
            i = i + 1;
        }
        assert(rules@.subrange(0, rules@.len() as int) =~= rules@);
    }
    let ghost from_rules = names_view(out@);
    match &spec.default_backend {
        Some(b) => push_lookup(&mut out, &b.service),
        None => {
            assert(names_view(out@) =~= from_rules + Seq::<Seq<char>>::empty());
        },
    }
    out
}

} // verus!
