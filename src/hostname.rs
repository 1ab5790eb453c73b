//! Hostnames made safe for use inside object names.

use vstd::prelude::*;
use vstd::string::*;

use crate::strings::to_owned_string;

verus! {

pub open spec fn is_alnum(c: char) -> bool {
    ('a' <= c && c <= 'z') || ('A' <= c && c <= 'Z') || ('0' <= c && c <= '9')
}

/// `s` with every maximal run of characters other than ASCII letters and
/// digits replaced by a single `-`.
pub open spec fn collapse_non_alnum(s: Seq<char>) -> Seq<char>
    decreases s.len(),
{
    if s.len() == 0 {
        s
    } else {
        let r = collapse_non_alnum(s.drop_last());
        if is_alnum(s.last()) {
            r.push(s.last())
        } else if s.len() > 1 && !is_alnum(s[s.len() - 2]) {
            r
        } else {
            r.push('-')
        }
    }
}

/// `s` without its leading `-` characters.
pub open spec fn strip_leading_dashes(s: Seq<char>) -> Seq<char>
    decreases s.len(),
{
    if s.len() > 0 && s[0] == '-' {
        strip_leading_dashes(s.drop_first())
    } else {
        s
    }
}

/// `s` without its trailing `-` characters.
pub open spec fn strip_trailing_dashes(s: Seq<char>) -> Seq<char>
    decreases s.len(),
{
    if s.len() > 0 && s.last() == '-' {
        strip_trailing_dashes(s.drop_last())
    } else {
        s
    }
}

/// The name-safe form of a hostname: runs of other characters than ASCII
/// letters and digits become one `-`, dashes at either end go, and an empty
/// result or `*` becomes `all-hosts`.
pub open spec fn sanitized_hostname(h: Seq<char>) -> Seq<char> {
    let t = strip_trailing_dashes(strip_leading_dashes(collapse_non_alnum(h)));
    if t.len() == 0 || t == seq!['*'] {
        seq!['a', 'l', 'l', '-', 'h', 'o', 's', 't', 's']
    } else {
        t
    }
}

proof fn lemma_strip_leading(s: Seq<char>, a: int)
    requires
        0 <= a <= s.len(),
        forall|k: int| 0 <= k < a ==> s[k] == '-',
        a == s.len() || s[a] != '-',
    ensures
        strip_leading_dashes(s) == s.subrange(a, s.len() as int),
    decreases a,
{
    if a == 0 {
        assert(s.subrange(0, s.len() as int) =~= s);
    } else {
        lemma_strip_leading(s.drop_first(), a - 1);
        assert(s.drop_first().subrange(a - 1, s.len() - 1) =~= s.subrange(a, s.len() as int));
    }
}

proof fn lemma_strip_trailing(s: Seq<char>, b: int)
    requires
        0 <= b <= s.len(),
        forall|k: int| b <= k < s.len() ==> s[k] == '-',
        b == 0 || s[b - 1] != '-',
    ensures
        strip_trailing_dashes(s) == s.subrange(0, b),
    decreases s.len() - b,
{
    if b == s.len() {
        assert(s.subrange(0, b) =~= s);
    } else {
        lemma_strip_trailing(s.drop_last(), b);
        assert(s.drop_last().subrange(0, b) =~= s.subrange(0, b));
    }
}

/// Relies on regex::Regex::replace_all with the pattern `[^a-zA-Z0-9]+`:
/// every leftmost maximal run of characters outside that class becomes `-`.
#[verifier::external_body]
fn replace_non_alnum_runs(s: &str) -> (r: String)
    ensures
        r@ == collapse_non_alnum(s@),
{
    regex::Regex::new("[^a-zA-Z0-9]+").unwrap().replace_all(s, "-").into_owned()
}

/// The hostname in a form fit for object names (see [`sanitized_hostname`]).
pub fn sanitize_hostname(hostname: &str) -> (r: String)
    ensures
        r@ == sanitized_hostname(hostname@),
{
    let collapsed = replace_non_alnum_runs(hostname);
    let c = collapsed.as_str();
    let n = c.unicode_len();
    let mut a: usize = 0;
    while a < n && c.get_char(a) == '-'
        invariant
            n == c@.len(),
            a <= n,
            forall|k: int| 0 <= k < a ==> c@[k] == '-',
        decreases n - a,
    {
        a = a + 1;
    }
    proof {
        lemma_strip_leading(c@, a as int);
    }
    let mut b: usize = n;
    while b > a && c.get_char(b - 1) == '-'
        invariant
            n == c@.len(),
            a <= b <= n,
            forall|k: int| b <= k < n ==> c@[k] == '-',
        decreases b,
    {
        b = b - 1;
    }
    let ghost lead = c@.subrange(a as int, n as int);
    proof {
        lemma_strip_trailing(lead, b - a);
        assert(lead.subrange(0, b - a) =~= c@.subrange(a as int, b as int));
    }
    let t = c.substring_char(a, b);
    if b == a || (b == a + 1 && c.get_char(a) == '*') {
        proof {
            reveal_strlit("all-hosts");
            if b == a + 1 {
                assert(t@ =~= seq!['*']);
            }
        }
        let r = to_owned_string("all-hosts");
        assert(r@ =~= seq!['a', 'l', 'l', '-', 'h', 'o', 's', 't', 's']);
        return r;
    }
    assert(t@ != seq!['*']) by {
        if t@ == seq!['*'] {
            assert(t@[0] == c@[a as int]);
        }
    }
    to_owned_string(t)
}

} // verus!
