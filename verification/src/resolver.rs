//! The redirect resolver.
//!
//! Given one request's host, path, scheme and query string, the resolver
//! tries the candidate keys in precedence order against the rule table,
//! decodes the first hit's payload, and on success builds the redirect's
//! status and `Location` value.  A request with no hit is left for the
//! caller to forward unchanged; a hit whose payload does not decode is
//! reported as malformed, never as a miss.

use vstd::prelude::*;
use vstd::string::StrSliceExecFns;
use vstd::string::StringExecFns;

use crate::keys::candidate_keys;
use crate::keys::opt_str_view;
use crate::keys::spec_candidates;
use crate::keys::trim_slashes;
use crate::keys::walk_candidates;
use crate::keys::WALK_LIMIT;
use crate::rule::decoded_rule_of;
use crate::rule::Rule;
use crate::store::RuleTable;

verus! {

/// One inbound request, as the resolver sees it.
pub struct RequestContext {
    pub scheme: String,
    pub host: Option<String>,
    pub path: String,
    pub query: Option<String>,
}

impl RequestContext {
    /// The view of the optional host.
    pub open spec fn host_view(&self) -> Option<Seq<char>> {
        match self.host {
            Some(h) => Some(h@),
            None => None,
        }
    }

    /// The view of the optional query string.
    pub open spec fn query_view(&self) -> Option<Seq<char>> {
        match self.query {
            Some(q) => Some(q@),
            None => None,
        }
    }
}

/// The payload of the first key of `keys` that `table` holds an entry
/// for, in order.
pub open spec fn first_hit(
    table: Map<Seq<char>, Seq<char>>,
    keys: Seq<Seq<char>>,
) -> Option<Seq<char>>
    decreases keys.len(),
{
    if keys.len() == 0 {
        None
    } else if table.contains_key(keys[0]) {
        Some(table[keys[0]])
    } else {
        first_hit(table, keys.drop_first())
    }
}

/// The payload the lookup yields for one request: the entry of the first
/// candidate key the table holds.
pub open spec fn spec_lookup(
    table: Map<Seq<char>, Seq<char>>,
    host: Option<Seq<char>>,
    path: Seq<char>,
) -> Option<Seq<char>> {
    first_hit(table, spec_candidates(host, path))
}

/// What resolution decided for one request, before any response is built.
pub enum RuleOutcome {
    /// The first candidate key with an entry decoded to this rule.
    Matched(Rule),
    /// No candidate key has an entry; the request is to be forwarded
    /// unchanged.
    NoMatch,
    /// A candidate key hit, but its payload does not decode to a rule.
    Malformed,
}

/// Looks the candidate keys up in precedence order and returns the first
/// hit's payload.
pub fn lookup(table: &RuleTable, host: Option<&String>, path: &String) -> (r: Option<String>)
    ensures
        match r {
            Some(p) => spec_lookup(table@, opt_str_view(host), path@) == Some(p@),
            None => spec_lookup(table@, opt_str_view(host), path@) is None,
        },
{
    let keys = candidate_keys(host, path);
    let ghost ks = keys.deep_view();
    let n = keys.len();
    let mut i: usize = 0;
    proof {
        assert(ks.skip(0) =~= ks);
    }
    while i < n
        invariant
            n == keys@.len(),
            i <= n,
            ks == keys.deep_view(),
            ks == spec_candidates(opt_str_view(host), path@),
            first_hit(table@, ks) == first_hit(table@, ks.skip(i as int)),
        decreases n - i,
    {
        assert(ks.skip(i as int)[0] == keys@[i as int]@);
        if let Some(p) = table.get(&keys[i]) {
            return Some(p.clone());
        }
        proof {
            assert(ks.skip(i as int).drop_first() =~= ks.skip(i as int + 1));
        }
        i += 1;
    }
    proof {
        assert(ks.skip(n as int) =~= Seq::<Seq<char>>::empty());
    }
    None
}

/// Resolves one request to a rule: the first candidate key with an entry
/// wins, and its payload is decoded.
pub fn resolve_rule(table: &RuleTable, ctx: &RequestContext) -> (r: RuleOutcome)
    ensures
        ({
            let hit = spec_lookup(table@, ctx.host_view(), ctx.path@);
            match r {
                RuleOutcome::NoMatch => hit is None,
                RuleOutcome::Malformed => hit is Some && decoded_rule_of(hit->0) is None,
                RuleOutcome::Matched(rule) => hit is Some && decoded_rule_of(hit->0) == Some(
                    (rule.status, rule.keep_query, rule.path@),
                ),
            }
        }),
{
    match lookup(table, ctx.host.as_ref(), &ctx.path) {
        None => RuleOutcome::NoMatch,
        Some(payload) => match Rule::decode(payload.as_str()) {
            Some(rule) => RuleOutcome::Matched(rule),
            None => RuleOutcome::Malformed,
        },
    }
}

/// The `Location` value for a matched rule: the scheme, `://`, the host
/// and the rule's destination path; the original query string is
/// appended after `?` exactly when the rule keeps the query and the
/// query is non-empty.
pub open spec fn spec_location(
    scheme: Seq<char>,
    host: Seq<char>,
    dest: Seq<char>,
    keep_query: bool,
    query: Option<Seq<char>>,
) -> Seq<char> {
    let base = scheme + seq![':', '/', '/'] + host + dest;
    if keep_query && query is Some && query->0.len() > 0 {
        base + seq!['?'] + query->0
    } else {
        base
    }
}

impl Rule {
    /// Builds the `Location` header value for this rule and the original
    /// request's scheme, host and query string.
    pub fn location_value(&self, scheme: &str, host: &str, query: Option<&String>) -> (r: String)
        ensures
            r@ == spec_location(scheme@, host@, self.path@, self.keep_query, opt_str_view(query)),
    {
        let mut loc = String::from_str(scheme);
        loc.append("://");
        loc.append(host);
        loc.append(self.path.as_str());
        proof {
            reveal_strlit("://");
            assert("://"@ =~= seq![':', '/', '/']);
        }
        if self.keep_query {
            if let Some(q) = query {
                if q.as_str().unicode_len() > 0 {
                    loc.append("?");
                    loc.append(q.as_str());
                    proof {
                        reveal_strlit("?");
                        assert("?"@ =~= seq!['?']);
                    }
                }
            }
        }
        loc
    }
}

/// A synthesized redirect: the response status and `Location` value.
pub struct RedirectResponse {
    pub status: u16,
    pub location: String,
}

/// What the resolver answers for one request.
pub enum Resolution {
    /// Answer directly with this redirect.
    Redirect(RedirectResponse),
    /// Forward the request unchanged.
    Forward,
    /// A hit's payload does not decode; the request fails rather than
    /// falling through.
    Malformed,
}

/// Resolves one request and, on a match, builds the redirect response.
/// The host is needed to form the `Location` value.
pub fn resolve(table: &RuleTable, ctx: &RequestContext) -> (r: Resolution)
    requires
        ctx.host is Some,
    ensures
        ({
            let hit = spec_lookup(table@, ctx.host_view(), ctx.path@);
            match r {
                Resolution::Forward => hit is None,
                Resolution::Malformed => hit is Some && decoded_rule_of(hit->0) is None,
                Resolution::Redirect(resp) => {
                    &&& hit is Some
                    &&& decoded_rule_of(hit->0) matches Some(f)
                    &&& resp.status == f.0
                    &&& resp.location@ == spec_location(
                        ctx.scheme@,
                        ctx.host_view()->0,
                        f.2,
                        f.1,
                        ctx.query_view(),
                    )
                },
            }
        }),
{
    match resolve_rule(table, ctx) {
        RuleOutcome::NoMatch => Resolution::Forward,
        RuleOutcome::Malformed => Resolution::Malformed,
        RuleOutcome::Matched(rule) => match &ctx.host {
            Some(h) => {
                let location = rule.location_value(
                    ctx.scheme.as_str(),
                    h.as_str(),
                    ctx.query.as_ref(),
                );
                Resolution::Redirect(RedirectResponse { status: rule.status, location })
            },
            None => vstd::pervasive::unreached(),
        },
    }
}

/// Law: the first candidate key with an entry decides the lookup: if no
/// candidate before `i` has an entry and candidate `i` has one, the
/// lookup yields candidate `i`'s entry, and no later candidate is
/// consulted.
pub proof fn lemma_first_hit_at(table: Map<Seq<char>, Seq<char>>, keys: Seq<Seq<char>>, i: int)
    requires
        0 <= i < keys.len(),
        table.contains_key(keys[i]),
        forall|j: int| 0 <= j < i ==> !table.contains_key(keys[j]),
    ensures
        first_hit(table, keys) == Some(table[keys[i]]),
    decreases i,
{
    if i > 0 {
        assert(!table.contains_key(keys[0]));
        assert(keys.drop_first()[i - 1] == keys[i]);
        assert forall|j: int| 0 <= j < i - 1 implies !table.contains_key(
            keys.drop_first()[j],
        ) by {
            assert(keys.drop_first()[j] == keys[j + 1]);
        }
        lemma_first_hit_at(table, keys.drop_first(), i - 1);
    }
}

/// Law: a lookup misses exactly when no candidate key has an entry.
pub proof fn lemma_first_hit_none(table: Map<Seq<char>, Seq<char>>, keys: Seq<Seq<char>>)
    ensures
        first_hit(table, keys) is None <==> forall|i: int|
            0 <= i < keys.len() ==> !table.contains_key(keys[i]),
    decreases keys.len(),
{
    if keys.len() > 0 && !table.contains_key(keys[0]) {
        lemma_first_hit_none(table, keys.drop_first());
        if first_hit(table, keys) is None {
            assert forall|i: int| 0 <= i < keys.len() implies !table.contains_key(keys[i]) by {
                if i > 0 {
                    assert(keys.drop_first()[i - 1] == keys[i]);
                }
            }
        }
        if forall|i: int| 0 <= i < keys.len() ==> !table.contains_key(keys[i]) {
            assert forall|j: int| 0 <= j < keys.drop_first().len() implies !table.contains_key(
                keys.drop_first()[j],
            ) by {
                assert(keys.drop_first()[j] == keys[j + 1]);
            }
        }
    }
}

/// Law: a request whose exact `host + path` key has a table entry
/// resolves to that entry, whatever else the table holds.
pub proof fn lemma_exact_match_wins(
    table: Map<Seq<char>, Seq<char>>,
    host: Seq<char>,
    path: Seq<char>,
)
    requires
        table.contains_key(host + path),
    ensures
        spec_lookup(table, Some(host), path) == Some(table[host + path]),
{
    let ks = spec_candidates(Some(host), path);
    assert(ks[0] == host + path);
}

/// Law: without a host, the host-keyed steps are skipped: only the exact
/// path key and the host-independent wildcard walk are tried.
pub proof fn lemma_no_host_keys(path: Seq<char>)
    ensures
        spec_candidates(None, path) == seq![path] + walk_candidates(
            trim_slashes(path),
            WALK_LIMIT as nat,
        ),
{
}

} // verus!
