//! Candidate lookup keys for one request.
//!
//! The resolver tries keys in a fixed precedence order: the exact
//! `host + path` key, the exact `path` key, a host-scoped wildcard walk,
//! and a host-independent wildcard walk.  A wildcard walk starts from a
//! base key (the path with trailing slashes stripped, optionally prefixed
//! by the host), appends `/*`, and on a miss strips the rightmost
//! `/`-delimited segment; it stops once the key has no `/` left or after
//! `WALK_LIMIT` steps.

use vstd::prelude::*;
use vstd::string::*;

verus! {

/// Upper bound on the number of wildcard candidates tried in one walk.
/// It truncates the walk on pathologically deep paths.
pub const WALK_LIMIT: usize = 6;

/// The two-character suffix that marks a wildcard candidate.
pub open spec fn wild_suffix() -> Seq<char> {
    seq!['/', '*']
}

/// Whether `s` holds at least one `/`.
pub open spec fn has_slash(s: Seq<char>) -> bool {
    exists|i: int| 0 <= i < s.len() && s[i] == '/'
}

/// Index of the rightmost `/` in `s`, or `-1` when `s` has none.
pub open spec fn last_slash_idx(s: Seq<char>) -> int
    decreases s.len(),
{
    if s.len() == 0 {
        -1
    } else if s[s.len() - 1] == '/' {
        s.len() - 1
    } else {
        last_slash_idx(s.drop_last())
    }
}

/// `last_slash_idx` points at the rightmost `/` of `s` when there is one.
pub proof fn lemma_last_slash_idx(s: Seq<char>)
    ensures
        has_slash(s) ==> {
            &&& 0 <= last_slash_idx(s) < s.len()
            &&& s[last_slash_idx(s)] == '/'
        },
        forall|j: int| last_slash_idx(s) < j < s.len() ==> s[j] != '/',
        !has_slash(s) ==> last_slash_idx(s) == -1,
    decreases s.len(),
{
    if s.len() == 0 {
    } else if s[s.len() - 1] == '/' {
        assert(has_slash(s));
    } else {
        lemma_last_slash_idx(s.drop_last());
        assert forall|j: int| last_slash_idx(s) < j < s.len() implies s[j] != '/' by {
            if j < s.len() - 1 {
                assert(s.drop_last()[j] == s[j]);
            }
        }
        if has_slash(s) {
            let i = choose|i: int| 0 <= i < s.len() && s[i] == '/';
            assert(s.drop_last()[i] == s[i]);
            assert(has_slash(s.drop_last()));
        }
        if has_slash(s.drop_last()) {
            let i = choose|i: int| 0 <= i < s.drop_last().len() && s.drop_last()[i] == '/';
            assert(s[i] == s.drop_last()[i]);
            assert(has_slash(s));
        }
    }
}

/// `s` cut just before its rightmost `/`; meaningful when `has_slash(s)`.
pub open spec fn parent_dir(s: Seq<char>) -> Seq<char> {
    s.subrange(0, last_slash_idx(s))
}

/// `s` with every trailing `/` removed.
pub open spec fn trim_slashes(s: Seq<char>) -> Seq<char>
    decreases s.len(),
{
    if s.len() > 0 && s[s.len() - 1] == '/' {
        trim_slashes(s.drop_last())
    } else {
        s
    }
}

/// The keys tried by one wildcard walk from `start`, in order: each is an
/// ancestor of `start` (the first is `start` itself) suffixed with `/*`,
/// and the walk stops at a key with no `/` or after `fuel` steps.
pub open spec fn walk_candidates(start: Seq<char>, fuel: nat) -> Seq<Seq<char>>
    decreases fuel,
{
    if fuel == 0 || !has_slash(start) {
        Seq::empty()
    } else {
        seq![start + wild_suffix()] + walk_candidates(parent_dir(start), (fuel - 1) as nat)
    }
}

/// Every candidate key for a request, in precedence order: `host + path`
/// exact, `path` exact, the host-scoped wildcard walk, then the
/// host-independent wildcard walk.  Without a host the host-keyed steps
/// are skipped.
pub open spec fn spec_candidates(host: Option<Seq<char>>, path: Seq<char>) -> Seq<Seq<char>> {
    match host {
        Some(h) => seq![h + path, path] + walk_candidates(
            h + trim_slashes(path),
            WALK_LIMIT as nat,
        ) + walk_candidates(trim_slashes(path), WALK_LIMIT as nat),
        None => seq![path] + walk_candidates(trim_slashes(path), WALK_LIMIT as nat),
    }
}

/// The view of an optional borrowed host string.
pub open spec fn opt_str_view(host: Option<&String>) -> Option<Seq<char>> {
    match host {
        Some(h) => Some(h@),
        None => None,
    }
}

/// Whether `s` holds a `/`.
fn contains_slash(s: &str) -> (r: bool)
    ensures
        r == has_slash(s@),
{
    let n = s.unicode_len();
    let mut i: usize = 0;
    while i < n
        invariant
            n == s@.len(),
            i <= n,
            forall|j: int| 0 <= j < i ==> s@[j] != '/',
        decreases n - i,
    {
        if s.get_char(i) == '/' {
            assert(s@[i as int] == '/');
            return true;
        }
        i += 1;
    }
    false
}

/// Index of the rightmost `/` in `s`.
fn last_slash_index(s: &str) -> (r: usize)
    requires
        has_slash(s@),
    ensures
        r == last_slash_idx(s@),
{
    let n = s.unicode_len();
    proof {
        let j0 = choose|j: int| 0 <= j < s@.len() && s@[j] == '/';
        assert(n > 0);
    }
    let mut i: usize = n;
    loop
        invariant
            n == s@.len(),
            0 < i <= n,
            has_slash(s@),
            forall|j: int| i <= j < n ==> s@[j] != '/',
        decreases i,
    {
        if s.get_char(i - 1) == '/' {
            proof {
                lemma_last_slash_idx(s@);
                let l = last_slash_idx(s@);
                if l < i - 1 {
                    assert(s@[i - 1] != '/');
                } else if l > i - 1 {
                    assert(s@[l] != '/');
                }
            }
            return i - 1;
        }
        proof {
            let j0 = choose|j: int| 0 <= j < s@.len() && s@[j] == '/';
            assert(j0 < i - 1);
        }
        i -= 1;
    }
}

/// `trim_slashes(s)` is the prefix of `s` that ends just before its
/// trailing run of `/` characters.
proof fn lemma_trim_slashes_subrange(s: Seq<char>, end: int)
    requires
        0 <= end <= s.len(),
        forall|j: int| end <= j < s.len() ==> s[j] == '/',
        end > 0 ==> s[end - 1] != '/',
    ensures
        trim_slashes(s) == s.subrange(0, end),
    decreases s.len(),
{
    if s.len() == end {
        assert(s.subrange(0, end) =~= s);
    } else {
        assert(s[s.len() - 1] == '/');
        assert forall|j: int| end <= j < s.drop_last().len() implies s.drop_last()[j] == '/' by {
            assert(s.drop_last()[j] == s[j]);
        }
        if end > 0 {
            assert(s.drop_last()[end - 1] == s[end - 1]);
        }
        lemma_trim_slashes_subrange(s.drop_last(), end);
        assert(s.drop_last().subrange(0, end) =~= s.subrange(0, end));
    }
}

/// `s` with every trailing `/` removed.
pub fn trim_trailing_slashes(s: &str) -> (r: String)
    ensures
        r@ == trim_slashes(s@),
{
    let n = s.unicode_len();
    let mut end: usize = n;
    loop
        invariant
            n == s@.len(),
            end <= n,
            forall|j: int| end <= j < n ==> s@[j] == '/',
        ensures
            end <= n,
            forall|j: int| end <= j < n ==> s@[j] == '/',
            end > 0 ==> s@[end - 1] != '/',
        decreases end,
    {
        if end == 0 {
            break;
        }
        if s.get_char(end - 1) != '/' {
            break;
        }
        end -= 1;
    }
    proof {
        lemma_trim_slashes_subrange(s@, end as int);
    }
    let r = s.substring_char(0, end);
    String::from_str(r)
}

/// Appends to `keys` the candidates of one wildcard walk from `start`.
fn push_walk_candidates(keys: &mut Vec<String>, start: String)
    ensures
        final(keys).deep_view() == old(keys).deep_view() + walk_candidates(
            start@,
            WALK_LIMIT as nat,
        ),
{
    let ghost full = old(keys).deep_view() + walk_candidates(start@, WALK_LIMIT as nat);
    let mut k = start;
    let mut steps: usize = 0;
    loop
        invariant
            steps <= WALK_LIMIT,
            keys.deep_view() + walk_candidates(k@, (WALK_LIMIT - steps) as nat) == full,
        ensures
            keys.deep_view() == full,
        decreases WALK_LIMIT - steps,
    {
        if steps >= WALK_LIMIT {
            assert(keys.deep_view() + walk_candidates(k@, (WALK_LIMIT - steps) as nat)
                =~= keys.deep_view());
            break;
        }
        if !contains_slash(k.as_str()) {
            assert(keys.deep_view() + walk_candidates(k@, (WALK_LIMIT - steps) as nat)
                =~= keys.deep_view());
            break;
        }
        let ghost pre = keys.deep_view();
        let ghost k_pre = k@;
        let ghost fuel = (WALK_LIMIT - steps) as nat;
        let with_wild = k.clone().concat("/*");
        proof {
            reveal_strlit("/*");
            assert("/*"@ =~= wild_suffix());
        }
        keys.push(with_wild);
        assert(keys.deep_view() =~= pre + seq![k_pre + wild_suffix()]);
        let idx = last_slash_index(k.as_str());
        proof {
            lemma_last_slash_idx(k@);
        }
        let parent = k.as_str().substring_char(0, idx);
        k = String::from_str(parent);
        steps += 1;
        proof {
            assert(walk_candidates(k_pre, fuel) == seq![k_pre + wild_suffix()]
                + walk_candidates(parent_dir(k_pre), (fuel - 1) as nat));
            assert(pre + (seq![k_pre + wild_suffix()] + walk_candidates(k@, (fuel - 1) as nat))
                =~= (pre + seq![k_pre + wild_suffix()]) + walk_candidates(k@, (fuel - 1) as nat));
        }
    }
}

/// The candidate keys for one request, in precedence order.
pub fn candidate_keys(host: Option<&String>, path: &String) -> (r: Vec<String>)
    ensures
        r.deep_view() == spec_candidates(opt_str_view(host), path@),
{
    let mut keys: Vec<String> = Vec::new();
    assert(keys.deep_view() =~= Seq::<Seq<char>>::empty());
    if let Some(h) = host {
        let ghost pre = keys.deep_view();
        keys.push(h.clone().concat(path.as_str()));
        assert(keys.deep_view() =~= pre + seq![h@ + path@]);
    }
    let ghost pre2 = keys.deep_view();
    keys.push(path.clone());
    assert(keys.deep_view() =~= pre2 + seq![path@]);
    let trimmed = trim_trailing_slashes(path.as_str());
    if let Some(h) = host {
        let start = h.clone().concat(trimmed.as_str());
        push_walk_candidates(&mut keys, start);
    }
    push_walk_candidates(&mut keys, trimmed);
    assert(keys.deep_view() =~= spec_candidates(opt_str_view(host), path@));
    keys
}

/// A wildcard candidate with its trailing `/*` removed.
pub open spec fn stem_of(c: Seq<char>) -> Seq<char> {
    c.subrange(0, c.len() - 2)
}

proof fn lemma_prefix_trans(s1: Seq<char>, s2: Seq<char>, s3: Seq<char>)
    requires
        s1.is_prefix_of(s2),
        s2.is_prefix_of(s3),
    ensures
        s1.is_prefix_of(s3),
{
    assert(s1 =~= s3.subrange(0, s1.len() as int));
}

/// Every walk candidate is an ancestor of the walk's start suffixed with
/// `/*`: the first candidate's stem is the start itself, every later
/// candidate's stem is a shorter prefix of it.
pub proof fn lemma_walk_shape(start: Seq<char>, fuel: nat)
    ensures
        forall|a: int|
            #![trigger walk_candidates(start, fuel)[a]]
            0 <= a < walk_candidates(start, fuel).len() ==> {
                &&& walk_candidates(start, fuel)[a].len() >= 2
                &&& stem_of(walk_candidates(start, fuel)[a]).is_prefix_of(start)
                &&& (a == 0 ==> stem_of(walk_candidates(start, fuel)[a]) == start)
                &&& (a > 0 ==> stem_of(walk_candidates(start, fuel)[a]).len() < start.len())
            },
    decreases fuel,
{
    if fuel != 0 && has_slash(start) {
        let w = walk_candidates(start, fuel);
        let p = parent_dir(start);
        lemma_last_slash_idx(start);
        lemma_walk_shape(p, (fuel - 1) as nat);
        assert(stem_of(w[0]) =~= start);
        assert(p.is_prefix_of(start));
        assert forall|a: int| 0 < a < w.len() implies {
            &&& w[a].len() >= 2
            &&& stem_of(w[a]).is_prefix_of(start)
            &&& stem_of(w[a]).len() < start.len()
        } by {
            let wp = walk_candidates(p, (fuel - 1) as nat);
            assert(w[a] == wp[a - 1]);
            assert(stem_of(wp[a - 1]).is_prefix_of(p));
            lemma_prefix_trans(stem_of(wp[a - 1]), p, start);
        }
    }
}

/// Law: a wildcard walk tries the deepest ancestor first: of two walk
/// candidates, the later one's stem is a strict prefix of the earlier
/// one's stem.
pub proof fn lemma_walk_deepest_first(start: Seq<char>, fuel: nat)
    ensures
        forall|a: int, b: int|
            #![trigger walk_candidates(start, fuel)[a], walk_candidates(start, fuel)[b]]
            0 <= a < b < walk_candidates(start, fuel).len() ==> {
                &&& stem_of(walk_candidates(start, fuel)[b]).len() < stem_of(
                    walk_candidates(start, fuel)[a],
                ).len()
                &&& stem_of(walk_candidates(start, fuel)[b]).is_prefix_of(
                    stem_of(walk_candidates(start, fuel)[a]),
                )
            },
    decreases fuel,
{
    if fuel != 0 && has_slash(start) {
        let w = walk_candidates(start, fuel);
        let p = parent_dir(start);
        lemma_last_slash_idx(start);
        lemma_walk_shape(start, fuel);
        lemma_walk_shape(p, (fuel - 1) as nat);
        lemma_walk_deepest_first(p, (fuel - 1) as nat);
        assert forall|a: int, b: int|
            #![trigger walk_candidates(start, fuel)[a], walk_candidates(start, fuel)[b]]
            0 <= a < b < w.len() implies {
            &&& stem_of(w[b]).len() < stem_of(w[a]).len()
            &&& stem_of(w[b]).is_prefix_of(stem_of(w[a]))
        } by {
            let wp = walk_candidates(p, (fuel - 1) as nat);
            assert(w[b] == wp[b - 1]);
            if a == 0 {
                assert(stem_of(w[a]) == start);
                assert(stem_of(wp[b - 1]).is_prefix_of(p));
                lemma_prefix_trans(stem_of(wp[b - 1]), p, start);
                if b - 1 == 0 {
                    assert(stem_of(wp[0]) == p);
                    assert(p.len() < start.len());
                }
            } else {
                assert(w[a] == wp[a - 1]);
            }
        }
    }
}

/// A wildcard walk tries at most `fuel` keys.
pub proof fn lemma_walk_bounded(start: Seq<char>, fuel: nat)
    ensures
        walk_candidates(start, fuel).len() <= fuel,
    decreases fuel,
{
    if fuel != 0 && has_slash(start) {
        lemma_walk_bounded(parent_dir(start), (fuel - 1) as nat);
    }
}

} // verus!
