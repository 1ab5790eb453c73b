//! Match rules declared in annotations, and their expansion into the sets of
//! rules that one route variant carries.

use vstd::prelude::*;
use vstd::string::*;

use crate::err::I2GError;
use crate::product::{index_product, index_ranges, index_sets, lemma_index_product_valid, lemma_pick_product, pick, product, valid_pick};
use crate::strings::{after_last, find_char, first_index_of, has_prefix, i32_of, last_segment, parse_i32, starts_with, to_owned_string};

verus! {

/// How a rule's value is compared.
#[derive(Debug, Clone, Copy, PartialEq, Eq, Structural)]
pub enum MatchType {
    Equal,
    RegularExpression,
}

/// One header or query-parameter condition: `key=value` or `key~=value`.
#[derive(Debug, Clone, PartialEq, Eq)]
pub struct MatchRule {
    pub key: String,
    pub value: String,
    pub match_type: MatchType,
}

/// The mathematical value of a [`MatchRule`].
pub struct MatchRuleView {
    pub key: Seq<char>,
    pub value: Seq<char>,
    pub match_type: MatchType,
}

impl View for MatchRule {
    type V = MatchRuleView;

    open spec fn view(&self) -> MatchRuleView {
        MatchRuleView { key: self.key@, value: self.value@, match_type: self.match_type }
    }
}

/// An ordered list of rules; rules sharing a key are alternatives.
#[derive(Debug, Clone, PartialEq, Eq)]
pub struct MatcherList(pub Vec<MatchRule>);

/// Rules over request headers.
#[derive(Debug, Clone, PartialEq, Eq)]
pub struct HeadersMatchersList(pub MatcherList);

/// Rules over query parameters.
#[derive(Debug, Clone, PartialEq, Eq)]
pub struct QueryMatchersList(pub MatcherList);

pub open spec fn rules_view(v: Seq<MatchRule>) -> Seq<MatchRuleView> {
    v.map_values(|r: MatchRule| r@)
}

impl View for MatcherList {
    type V = Seq<MatchRuleView>;

    open spec fn view(&self) -> Seq<MatchRuleView> {
        rules_view(self.0@)
    }
}

impl View for HeadersMatchersList {
    type V = Seq<MatchRuleView>;

    open spec fn view(&self) -> Seq<MatchRuleView> {
        self.0@
    }
}

impl View for QueryMatchersList {
    type V = Seq<MatchRuleView>;

    open spec fn view(&self) -> Seq<MatchRuleView> {
        self.0@
    }
}

/// The rule that an annotation value states, if it is well formed: the text
/// before the first `=` is the key and the rest the value; a key ending in `~`
/// marks a regular expression and loses that `~`.
pub open spec fn rule_of(s: Seq<char>) -> Option<MatchRuleView> {
    match first_index_of(s, '=') {
        None => None,
        Some(i) => {
            let key = s.subrange(0, i);
            let value = s.subrange(i + 1, s.len() as int);
            if key.len() > 0 && key.last() == '~' {
                Some(MatchRuleView { key: key.drop_last(), value, match_type: MatchType::RegularExpression })
            } else {
                Some(MatchRuleView { key, value, match_type: MatchType::Equal })
            }
        }
    }
}

/// `a` comes strictly before `b` in the order of their characters' codes,
/// which is the order of `String` keys in a map that sorts them.
pub open spec fn key_less(a: Seq<char>, b: Seq<char>) -> bool
    decreases a.len(),
{
    if a.len() == 0 {
        b.len() > 0
    } else if b.len() == 0 {
        false
    } else if a[0] != b[0] {
        (a[0] as u32) < (b[0] as u32)
    } else {
        key_less(a.drop_first(), b.drop_first())
    }
}

pub proof fn lemma_key_less_irreflexive(a: Seq<char>)
    ensures
        !key_less(a, a),
    decreases a.len(),
{
    if a.len() > 0 {
        lemma_key_less_irreflexive(a.drop_first());
    }
}

/// Annotations as an Ingress holds them, a map handing them out in key
/// order: keys strictly ascending, hence each key at most once.
pub open spec fn annotations_ordered(anns: Seq<(Seq<char>, Seq<char>)>) -> bool {
    forall|i: int, j: int| 0 <= i < j < anns.len() ==> key_less(anns[i].0, anns[j].0)
}

/// Annotations as (key, value) pairs, in the order of their keys (see
/// [`annotations_ordered`]).
pub open spec fn annotations_view(v: Seq<(String, String)>) -> Seq<(Seq<char>, Seq<char>)> {
    v.map_values(|p: (String, String)| (p.0@, p.1@))
}

/// The weight that an annotation key carries after its last `/`.
pub open spec fn weight_of(key: Seq<char>) -> Option<i32> {
    i32_of(after_last(key, '/'))
}

/// The weighted rule that one annotation contributes under `prefix`, if any.
pub open spec fn entry_of(prefix: Seq<char>, a: (Seq<char>, Seq<char>)) -> Option<(i32, MatchRuleView)> {
    if has_prefix(a.0, prefix) {
        match (weight_of(a.0), rule_of(a.1)) {
            (Some(w), Some(r)) => Some((w, r)),
            _ => None,
        }
    } else {
        None
    }
}

/// The weighted rules of the annotations under `prefix`, in annotation order.
pub open spec fn weighted_rules(anns: Seq<(Seq<char>, Seq<char>)>, prefix: Seq<char>) -> Seq<(i32, MatchRuleView)>
    decreases anns.len(),
{
    if anns.len() == 0 {
        Seq::empty()
    } else {
        let rest = weighted_rules(anns.drop_last(), prefix);
        match entry_of(prefix, anns.last()) {
            Some(e) => rest.push(e),
            None => rest,
        }
    }
}

/// `s` with `e` placed after every element whose weight is not above its own,
/// counting from the end.
pub open spec fn insert_by_weight<R>(s: Seq<(i32, R)>, e: (i32, R)) -> Seq<(i32, R)>
    decreases s.len(),
{
    if s.len() == 0 || s.last().0 <= e.0 {
        s.push(e)
    } else {
        insert_by_weight(s.drop_last(), e).push(s.last())
    }
}

/// Stable sort of `s` by ascending weight.
pub open spec fn sort_by_weight<R>(s: Seq<(i32, R)>) -> Seq<(i32, R)>
    decreases s.len(),
{
    if s.len() == 0 {
        s
    } else {
        insert_by_weight(sort_by_weight(s.drop_last()), s.last())
    }
}

/// The rules that the annotations under `prefix` declare, by ascending weight.
pub open spec fn annotation_rules(anns: Seq<(Seq<char>, Seq<char>)>, prefix: Seq<char>) -> Seq<MatchRuleView> {
    sort_by_weight(weighted_rules(anns, prefix)).map_values(|e: (i32, MatchRuleView)| e.1)
}

pub open spec fn weighted_view(v: Seq<(i32, MatchRule)>) -> Seq<(i32, MatchRuleView)> {
    v.map_values(|e: (i32, MatchRule)| (e.0, e.1@))
}

/// The distinct keys of `s`, in order of first appearance.
pub open spec fn key_order(s: Seq<MatchRuleView>) -> Seq<Seq<char>>
    decreases s.len(),
{
    if s.len() == 0 {
        Seq::empty()
    } else {
        let ks = key_order(s.drop_last());
        if ks.contains(s.last().key) {
            ks
        } else {
            ks.push(s.last().key)
        }
    }
}

pub open spec fn with_key(k: Seq<char>) -> spec_fn(MatchRuleView) -> bool {
    |r: MatchRuleView| r.key == k
}

/// The rules of `s` grouped by key: one group per distinct key, groups in
/// order of first appearance, rules within a group in their order in `s`.
pub open spec fn groups_of(s: Seq<MatchRuleView>) -> Seq<Seq<MatchRuleView>> {
    key_order(s).map_values(|k: Seq<char>| s.filter(with_key(k)))
}

pub open spec fn groups_view(v: Seq<Vec<MatchRule>>) -> Seq<Seq<MatchRuleView>> {
    v.map_values(|g: Vec<MatchRule>| rules_view(g@))
}

/// Every way to pick one rule per distinct key, keys in order of first
/// appearance; nothing at all when there are no rules.
pub open spec fn rule_product(s: Seq<MatchRuleView>) -> Seq<Seq<MatchRuleView>> {
    if groups_of(s).len() == 0 {
        Seq::empty()
    } else {
        product(groups_of(s))
    }
}

proof fn lemma_key_order_distinct(s: Seq<MatchRuleView>)
    ensures
        key_order(s).no_duplicates(),
    decreases s.len(),
{
    if s.len() > 0 {
        lemma_key_order_distinct(s.drop_last());
    }
}

/// Each combination of the product holds exactly one rule per distinct key,
/// keys in order of first appearance: rules sharing a key are never combined.
pub proof fn lemma_product_one_rule_per_key(s: Seq<MatchRuleView>)
    requires
        s.len() <= usize::MAX,
    ensures
        key_order(s).no_duplicates(),
        forall|k: int| 0 <= k < rule_product(s).len() ==> (#[trigger] rule_product(s)[k]).len() == key_order(s).len(),
        forall|k: int, j: int|
            0 <= k < rule_product(s).len() && 0 <= j < key_order(s).len() ==> (#[trigger] rule_product(s)[k][j]).key
                == key_order(s)[j],
{
    lemma_key_order_distinct(s);
    let gs = groups_of(s);
    if gs.len() > 0 {
        assert forall|i: int| 0 <= i < gs.len() implies #[trigger] gs[i].len() <= usize::MAX by {
            s.lemma_filter_len(with_key(key_order(s)[i]));
        }
        lemma_pick_product(gs);
        lemma_index_product_valid(gs);
        let combos = product(index_sets(gs));
        assert forall|k: int, j: int| 0 <= k < rule_product(s).len() && 0 <= j < key_order(s).len() implies (
        #[trigger] rule_product(s)[k][j]).key == key_order(s)[j] by {
            let t = combos[k];
            assert(valid_pick(gs, t));
            assert(rule_product(s)[k] == pick(gs, t));
            s.lemma_filter_pred(with_key(key_order(s)[j]), t[j] as int);
        }
        assert forall|k: int| 0 <= k < rule_product(s).len() implies (#[trigger] rule_product(s)[k]).len()
            == key_order(s).len() by {
            assert(valid_pick(gs, combos[k]));
            assert(rule_product(s)[k] == pick(gs, combos[k]));
        }
    }
}

pub open spec fn weights_ascending<R>(s: Seq<(i32, R)>) -> bool {
    forall|i: int, j: int| 0 <= i < j < s.len() ==> s[i].0 <= s[j].0
}

pub open spec fn weights_strictly_ascending<R>(s: Seq<(i32, R)>) -> bool {
    forall|i: int, j: int| 0 <= i < j < s.len() ==> s[i].0 < s[j].0
}

pub open spec fn weights_distinct<R>(s: Seq<(i32, R)>) -> bool {
    forall|i: int, j: int| 0 <= i < j < s.len() ==> s[i].0 != s[j].0
}

proof fn lemma_insert_keeps_order<R>(s: Seq<(i32, R)>, e: (i32, R))
    ensures
        insert_by_weight(s, e).to_multiset() == s.to_multiset().insert(e),
        weights_ascending(s) ==> weights_ascending(insert_by_weight(s, e)),
        weights_strictly_ascending(s) && (forall|k: int| 0 <= k < s.len() ==> s[k].0 != e.0)
            ==> weights_strictly_ascending(insert_by_weight(s, e)),
    decreases s.len(),
{
    broadcast use vstd::seq_lib::group_to_multiset_ensures;

    if s.len() == 0 || s.last().0 <= e.0 {
    } else {
        let dl = s.drop_last();
        let t = insert_by_weight(dl, e);
        lemma_insert_keeps_order(dl, e);
        assert(dl.push(s.last()) == s);
        assert(t.push(s.last()).to_multiset() =~= s.to_multiset().insert(e));
        assert forall|k: int| 0 <= k < t.len() implies (#[trigger] t[k]) == e || dl.contains(t[k]) by {
            assert(t.contains(t[k]));
            assert(t.to_multiset().count(t[k]) > 0);
        }
        if weights_ascending(s) {
            assert forall|k: int| 0 <= k < t.len() implies (#[trigger] t[k]).0 <= s.last().0 by {
                if t[k] != e {
                    let m = choose|m: int| 0 <= m < dl.len() && dl[m] == t[k];
                    assert(s[m] == dl[m]);
                }
            }
        }
        if weights_strictly_ascending(s) && (forall|k: int| 0 <= k < s.len() ==> s[k].0 != e.0) {
            assert forall|k: int| 0 <= k < dl.len() implies dl[k].0 != e.0 by {
                assert(s[k] == dl[k]);
            }
            assert forall|k: int| 0 <= k < t.len() implies (#[trigger] t[k]).0 < s.last().0 by {
                if t[k] != e {
                    let m = choose|m: int| 0 <= m < dl.len() && dl[m] == t[k];
                    assert(s[m] == dl[m]);
                }
            }
        }
    }
}

proof fn lemma_sort_keeps_order<R>(s: Seq<(i32, R)>)
    ensures
        sort_by_weight(s).to_multiset() == s.to_multiset(),
        weights_ascending(sort_by_weight(s)),
        weights_distinct(s) ==> weights_strictly_ascending(sort_by_weight(s)),
    decreases s.len(),
{
    broadcast use vstd::seq_lib::group_to_multiset_ensures;

    if s.len() > 0 {
        let dl = s.drop_last();
        let t = sort_by_weight(dl);
        lemma_sort_keeps_order(dl);
        lemma_insert_keeps_order(t, s.last());
        assert(dl.push(s.last()) == s);
        if weights_distinct(s) {
            assert forall|k: int| 0 <= k < t.len() implies (#[trigger] t[k]).0 != s.last().0 by {
                assert(t.contains(t[k]));
                assert(t.to_multiset().count(t[k]) > 0);
                assert(dl.contains(t[k]));
                let m = choose|m: int| 0 <= m < dl.len() && dl[m] == t[k];
                assert(s[m] == dl[m]);
            }
        }
    }
}

/// Rules read from annotations come out by ascending weight, and strictly
/// ascending when no two annotations read carry the same weight; they are the
/// rules read, each as often as it was read.
pub proof fn lemma_annotation_rules_ordered(anns: Seq<(Seq<char>, Seq<char>)>, prefix: Seq<char>)
    ensures
        ({
            let read = weighted_rules(anns, prefix);
            let out = sort_by_weight(read);
            &&& annotation_rules(anns, prefix) == out.map_values(|e: (i32, MatchRuleView)| e.1)
            &&& out.to_multiset() == read.to_multiset()
            &&& weights_ascending(out)
            &&& weights_distinct(read) ==> weights_strictly_ascending(out)
        }),
{
    lemma_sort_keeps_order(weighted_rules(anns, prefix));
}

/// An annotation whose key has no decimal weight after its last `/` never
/// changes the rules read, wherever it stands among the others.
pub proof fn lemma_unweighted_annotation_ignored(
    anns: Seq<(Seq<char>, Seq<char>)>,
    prefix: Seq<char>,
    at: int,
    key: Seq<char>,
    value: Seq<char>,
)
    requires
        0 <= at <= anns.len(),
        weight_of(key) is None,
    ensures
        annotation_rules(anns.insert(at, (key, value)), prefix) == annotation_rules(anns, prefix),
{
    lemma_weighted_rules_ignore(anns, prefix, at, key, value);
}

proof fn lemma_weighted_rules_ignore(
    anns: Seq<(Seq<char>, Seq<char>)>,
    prefix: Seq<char>,
    at: int,
    key: Seq<char>,
    value: Seq<char>,
)
    requires
        0 <= at <= anns.len(),
        weight_of(key) is None,
    ensures
        weighted_rules(anns.insert(at, (key, value)), prefix) == weighted_rules(anns, prefix),
    decreases anns.len(),
{
    let with = anns.insert(at, (key, value));
    if at == anns.len() {
        assert(with.drop_last() =~= anns);
    } else {
        lemma_weighted_rules_ignore(anns.drop_last(), prefix, at, key, value);
        assert(with.drop_last() =~= anns.drop_last().insert(at, (key, value)));
        assert(with.last() == anns.last());
    }
}

proof fn lemma_insert_by_weight<R>(s: Seq<(i32, R)>, e: (i32, R), j: int)
    requires
        0 <= j <= s.len(),
        forall|k: int| j <= k < s.len() ==> s[k].0 > e.0,
        j == 0 || s[j - 1].0 <= e.0,
    ensures
        insert_by_weight(s, e) == s.insert(j, e),
    decreases s.len(),
{
    if j == s.len() {
        assert(s.insert(j, e) =~= s.push(e));
    } else {
        lemma_insert_by_weight(s.drop_last(), e, j);
        assert(s.insert(j, e) =~= s.drop_last().insert(j, e).push(s.last()));
    }
}

impl MatchRule {
    /// A copy with the same contents.
    pub fn duplicate(&self) -> (r: MatchRule)
        ensures
            r@ == self@,
    {
        MatchRule { key: self.key.clone(), value: self.value.clone(), match_type: self.match_type }
    }

    /// Parses `key=value` (exact match) or `key~=value` (regular expression).
    pub fn parse(rule: &str) -> (r: Result<MatchRule, I2GError>)
        ensures
            match r {
                Ok(m) => rule_of(rule@) == Some(m@),
                Err(e) => rule_of(rule@) is None && e is ParseError,
            },
    {
        let n = rule.unicode_len();
        let i = find_char(rule, '=');
        if i == n {
            let mut msg = to_owned_string("Invalid rule found '");
            msg.append(rule);
            msg.append("'");
            return Err(I2GError::ParseError(msg));
        }
        let value = to_owned_string(rule.substring_char(i + 1, n));
        if i > 0 && rule.get_char(i - 1) == '~' {
            let key = to_owned_string(rule.substring_char(0, i - 1));
            assert(key@ =~= rule@.subrange(0, i as int).drop_last());
            Ok(MatchRule { key, value, match_type: MatchType::RegularExpression })
        } else {
            let key = to_owned_string(rule.substring_char(0, i));
            assert(i > 0 ==> key@.last() == rule@[i - 1]);
            Ok(MatchRule { key, value, match_type: MatchType::Equal })
        }
    }
}

impl std::str::FromStr for MatchRule {
    type Err = I2GError;

    /// See [`MatchRule::parse`].
    fn from_str(rule: &str) -> Result<MatchRule, I2GError> {
        MatchRule::parse(rule)
    }
}

impl MatcherList {
    /// A list holding copies of `rules`.
    pub fn copy_of(rules: &Vec<MatchRule>) -> (r: MatcherList)
        ensures
            r@ == rules_view(rules@),
    {
        let mut v: Vec<MatchRule> = Vec::new();
        let mut i: usize = 0;
        while i < rules.len()
            invariant
                i <= rules@.len(),
                v@.len() == i,
                forall|m: int| 0 <= m < i ==> (#[trigger] v@[m])@ == rules@[m]@,
            decreases rules.len() - i,
        {
            v.push(rules[i].duplicate());
            i = i + 1;
        }
        assert(rules_view(v@) =~= rules_view(rules@));
        MatcherList(v)
    }

    /// A copy with the same rules.
    pub fn duplicate(&self) -> (r: MatcherList)
        ensures
            r@ == self@,
    {
        MatcherList::copy_of(&self.0)
    }

    /// The rules declared by annotations whose key starts with `prefix` and
    /// ends, after its last `/`, in a decimal weight: sorted by ascending
    /// weight, equal weights in annotation order. Annotations without a
    /// weight, and values that are not rules, are left out. `annotations`
    /// come in ascending key order (see [`annotations_ordered`]); the result
    /// is defined for any sequence, and equal weights keep that order.
    pub fn from_annotations(annotations: &Vec<(String, String)>, prefix: &str) -> (r: Self)
        ensures
            r@ == annotation_rules(annotations_view(annotations@), prefix@),
    {
        let ghost anns = annotations_view(annotations@);
        let mut sorted: Vec<(i32, MatchRule)> = Vec::new();
        let mut i: usize = 0;
        while i < annotations.len()
            invariant
                i <= annotations@.len(),
                anns == annotations_view(annotations@),
                weighted_view(sorted@) == sort_by_weight(weighted_rules(anns.subrange(0, i as int), prefix@)),
            decreases annotations.len() - i,
        {
            let ghost before = sorted@;
            let name = &annotations[i].0;
            let value = &annotations[i].1;
            assert(anns.subrange(0, i + 1).drop_last() =~= anns.subrange(0, i as int));
            assert(anns.subrange(0, i + 1).last() == (name@, value@));
            let ghost ws = weighted_rules(anns.subrange(0, i as int), prefix@);
            if starts_with(name.as_str(), prefix) {
                if let Some(w) = parse_i32(last_segment(name.as_str(), '/')) {
                    if let Ok(rule) = MatchRule::parse(value.as_str()) {
                        let mut j: usize = sorted.len();
                        while j > 0 && sorted[j - 1].0 > w
                            invariant
                                j <= sorted@.len(),
                                forall|k: int| j <= k < sorted@.len() ==> sorted@[k].0 > w,
                            decreases j,
                        {
                            j = j - 1;
                        }
                        proof {
                            lemma_insert_by_weight(weighted_view(sorted@), (w, rule@), j as int);
                        }
                        let ghost rv = rule@;
                        sorted.insert(j, (w, rule));
                        assert(weighted_view(sorted@) =~= weighted_view(before).insert(j as int, (w, rv)));
                        assert(ws.push((w, rv)).drop_last() =~= ws);
                    }
                }
            }
            i = i + 1;
        }
        assert(anns.subrange(0, annotations@.len() as int) =~= anns);
        let mut rules: Vec<MatchRule> = Vec::new();
        let mut k: usize = 0;
        while k < sorted.len()
            invariant
                k <= sorted@.len(),
                rules@.len() == k,
                forall|m: int| 0 <= m < k ==> (#[trigger] rules@[m])@ == sorted@[m].1@,
            decreases sorted.len() - k,
        {
            rules.push(sorted[k].1.duplicate());
            k = k + 1;
        }
        assert(rules_view(rules@) =~= weighted_view(sorted@).map_values(|e: (i32, MatchRuleView)| e.1));
        MatcherList(rules)
    }

    /// The rules grouped by key (see [`groups_of`]); no group is empty.
    pub fn make_groups(&self) -> (r: Vec<Vec<MatchRule>>)
        ensures
            groups_view(r@) == groups_of(self@),
            forall|g: int| 0 <= g < r@.len() ==> (#[trigger] r@[g])@.len() > 0,
    {
        let rules = &self.0;
        let ghost s = self@;
        let mut keys: Vec<String> = Vec::new();
        let ghost mut firsts: Seq<int> = Seq::empty();
        let mut i: usize = 0;
        while i < rules.len()
            invariant
                i <= rules@.len(),
                s == rules_view(rules@),
                keys@.len() == firsts.len(),
                key_order(s.subrange(0, i as int)) == keys@.map_values(|k: String| k@),
                forall|g: int| 0 <= g < firsts.len() ==> 0 <= #[trigger] firsts[g] < i && s[firsts[g]].key == keys@[g]@,
            decreases rules.len() - i,
        {
            let key = &rules[i].key;
            let ghost ks = keys@.map_values(|k: String| k@);
            assert(s.subrange(0, i + 1).drop_last() =~= s.subrange(0, i as int));
            let mut g: usize = 0;
            let mut found = false;
            while g < keys.len()
                invariant
                    g <= keys@.len(),
                    ks == keys@.map_values(|k: String| k@),
                    found ==> ks.contains(key@),
                    !found ==> forall|h: int| 0 <= h < g ==> ks[h] != key@,
                decreases keys.len() - g,
            {
                if keys[g] == *key {
                    assert(ks[g as int] == key@);
                    found = true;
                }
                g = g + 1;
            }
            if !found {
                keys.push(key.clone());
                proof {
                    firsts = firsts.push(i as int);
                }
                assert(keys@.map_values(|k: String| k@) =~= ks.push(key@));
            }
            i = i + 1;
        }
        assert(s.subrange(0, rules@.len() as int) =~= s);
        let mut groups: Vec<Vec<MatchRule>> = Vec::new();
        let mut g: usize = 0;
        while g < keys.len()
            invariant
                g <= keys@.len(),
                s == rules_view(rules@),
                s.len() == rules@.len(),
                keys@.len() == firsts.len(),
                key_order(s) == keys@.map_values(|k: String| k@),
                forall|h: int| 0 <= h < firsts.len() ==> 0 <= #[trigger] firsts[h] < s.len() && s[firsts[h]].key == keys@[h]@,
                groups@.len() == g,
                forall|h: int| 0 <= h < g ==> rules_view((#[trigger] groups@[h])@) == s.filter(with_key(keys@[h]@)),
                forall|h: int| 0 <= h < g ==> (#[trigger] groups@[h])@.len() > 0,
            decreases keys.len() - g,
        {
            let key = &keys[g];
            let mut group: Vec<MatchRule> = Vec::new();
            proof {
                reveal(Seq::filter);
            }
            let mut j: usize = 0;
            while j < rules.len()
                invariant
                    j <= rules@.len(),
                    s == rules_view(rules@),
                    0 <= firsts[g as int] < s.len(),
                    s[firsts[g as int]].key == key@,
                    rules_view(group@) == s.subrange(0, j as int).filter(with_key(key@)),
                    j > firsts[g as int] ==> group@.len() > 0,
                decreases rules.len() - j,
            {
                proof {
                    reveal(Seq::filter);
                }
                assert(s.subrange(0, j + 1).drop_last() =~= s.subrange(0, j as int));
                if rules[j].key == *key {
                    group.push(rules[j].duplicate());
                    assert(rules_view(group@) =~= s.subrange(0, j as int).filter(with_key(key@)).push(s[j as int]));
                }
                j = j + 1;
            }
            assert(s.subrange(0, rules@.len() as int) =~= s);
            groups.push(group);
            g = g + 1;
        }
        assert(groups_view(groups@) =~= groups_of(s));
        groups
    }

    /// The cartesian product over the groups of rules sharing a key: each
    /// result holds one rule per key. Empty when there are no rules.
    pub fn catesian_product(&self) -> (r: Vec<Vec<MatchRule>>)
        ensures
            groups_view(r@) == rule_product(self@),
    {
        let groups = self.make_groups();
        let ghost gv = groups_view(groups@);
        if groups.len() == 0 {
            let empty: Vec<Vec<MatchRule>> = Vec::new();
            assert(groups_view(empty@) =~= rule_product(self@));
            return empty;
        }
        let mut sizes: Vec<usize> = Vec::new();
        let mut g: usize = 0;
        while g < groups.len()
            invariant
                g <= groups@.len(),
                gv == groups_view(groups@),
                sizes@.len() == g,
                forall|h: int| 0 <= h < g ==> #[trigger] sizes@[h] == gv[h].len(),
            decreases groups.len() - g,
        {
            sizes.push(groups[g].len());
            g = g + 1;
        }
        let sets = index_ranges(&sizes);
        assert(sets@.map_values(|v: Vec<usize>| v@) =~= index_sets(gv));
        assert(sets@[0]@.len() == gv[0].len());
        let idx = index_product(&sets);
        let ghost combos = product(index_sets(gv));
        assert forall|i: int| 0 <= i < gv.len() implies #[trigger] gv[i].len() <= usize::MAX by {
            assert(sizes@[i] == gv[i].len());
        }
        proof {
            lemma_index_product_valid(gv);
            lemma_pick_product(gv);
        }
        assert(idx@.len() == combos.len());
        let mut out: Vec<Vec<MatchRule>> = Vec::new();
        let mut k: usize = 0;
        while k < idx.len()
            invariant
                k <= idx@.len(),
                gv == groups_view(groups@),
                idx@.map_values(|t: Vec<usize>| t@) == combos,
                combos == product(index_sets(gv)),
                forall|m: int| 0 <= m < combos.len() ==> valid_pick(gv, #[trigger] combos[m]),
                out@.len() == k,
                forall|m: int| 0 <= m < k ==> rules_view((#[trigger] out@[m])@) == pick(gv, combos[m]),
            decreases idx.len() - k,
        {
            let t = &idx[k];
            assert(t@ == combos[k as int]);
            assert(valid_pick(gv, t@));
            let mut set: Vec<MatchRule> = Vec::new();
            let mut j: usize = 0;
            while j < t.len()
                invariant
                    j <= t@.len(),
                    gv == groups_view(groups@),
                    valid_pick(gv, t@),
                    rules_view(set@) =~= pick(gv, t@).subrange(0, j as int),
                decreases t.len() - j,
            {
                let c = t[j];
                assert((c as int) < gv[j as int].len());
                assert(gv[j as int][c as int] == groups@[j as int]@[c as int]@);
                let ghost old_set = set@;
                let d = groups[j][c].duplicate();
                assert(d@ == pick(gv, t@)[j as int]);
                set.push(d);
                assert(rules_view(set@) =~= rules_view(old_set).push(d@));
                assert(pick(gv, t@).subrange(0, j + 1) =~= pick(gv, t@).subrange(0, j as int).push(d@));
                j = j + 1;
            }
            assert(pick(gv, t@).subrange(0, t@.len() as int) =~= pick(gv, t@));
            out.push(set);
            k = k + 1;
        }
        assert(groups_view(out@) =~= combos.map_values(|t: Seq<usize>| pick(gv, t)));
        out
    }
}

} // verus!
