//! The rule table: an associative store from lookup keys to serialized
//! rule payloads.
//!
//! The resolver only reads the table, through [`RuleTable::get`].  Its
//! view is the map from key text to payload text; of entries that share
//! a key, the latest inserted one wins.

use vstd::prelude::*;

verus! {

/// The map held by a sequence of key-value entries, a later entry
/// overriding an earlier one with the same key.
spec fn map_of(s: Seq<(String, String)>) -> Map<Seq<char>, Seq<char>>
    decreases s.len(),
{
    if s.len() == 0 {
        Map::empty()
    } else {
        map_of(s.drop_last()).insert(s.last().0@, s.last().1@)
    }
}

/// `map_of(s)` holds exactly the keys of `s`.
proof fn lemma_map_of_contains(s: Seq<(String, String)>, k: Seq<char>)
    ensures
        map_of(s).contains_key(k) <==> exists|i: int| 0 <= i < s.len() && s[i].0@ == k,
    decreases s.len(),
{
    if s.len() > 0 {
        let dl = s.drop_last();
        lemma_map_of_contains(dl, k);
        if map_of(s).contains_key(k) && s.last().0@ != k {
            let i = choose|i: int| 0 <= i < dl.len() && dl[i].0@ == k;
            assert(s[i].0@ == k);
        }
        if exists|i: int| 0 <= i < s.len() && s[i].0@ == k {
            let i = choose|i: int| 0 <= i < s.len() && s[i].0@ == k;
            if s.last().0@ != k {
                assert(i < dl.len() && dl[i].0@ == k);
            } else {
                assert(map_of(s).contains_key(k));
            }
        }
    }
}

/// The payload in `map_of(s)` at key `k` comes from the last entry of `s`
/// whose key is `k`.
proof fn lemma_map_of_last_match(s: Seq<(String, String)>, k: Seq<char>, i: int)
    requires
        0 <= i < s.len(),
        s[i].0@ == k,
        forall|j: int| i < j < s.len() ==> s[j].0@ != k,
    ensures
        map_of(s)[k] == s[i].1@,
    decreases s.len(),
{
    let dl = s.drop_last();
    if i == s.len() - 1 {
        assert(map_of(s)[k] == s.last().1@);
    } else {
        assert(s[s.len() - 1].0@ != k);
        assert(dl[i].0@ == k);
        assert forall|j: int| i < j < dl.len() implies dl[j].0@ != k by {
            assert(dl[j] == s[j]);
        }
        lemma_map_of_last_match(dl, k, i);
        assert(map_of(s)[k] == map_of(dl)[k]);
    }
}

/// A key-value table of redirect rules.
pub struct RuleTable {
    entries: Vec<(String, String)>,
}

impl View for RuleTable {
    type V = Map<Seq<char>, Seq<char>>;

    closed spec fn view(&self) -> Map<Seq<char>, Seq<char>> {
        map_of(self.entries@)
    }
}

impl RuleTable {
    /// An empty table.
    pub fn new() -> (r: RuleTable)
        ensures
            r@ == Map::<Seq<char>, Seq<char>>::empty(),
    {
        RuleTable { entries: Vec::new() }
    }

    /// Adds an entry, overriding any entry that already has this key.
    pub fn insert(&mut self, key: String, value: String)
        ensures
            final(self)@ == old(self)@.insert(key@, value@),
    {
        let ghost pre = self.entries@;
        let ghost kv = key@;
        let ghost vv = value@;
        self.entries.push((key, value));
        proof {
            assert(self.entries@.drop_last() =~= pre);
            assert(self.entries@.last().0@ == kv);
            assert(self.entries@.last().1@ == vv);
        }
    }

    /// Looks a key up; `Some` exactly when the table has an entry for it,
    /// with that entry's payload.
    pub fn get(&self, key: &String) -> (r: Option<&String>)
        ensures
            match r {
                Some(p) => self@.contains_key(key@) && p@ == self@[key@],
                None => !self@.contains_key(key@),
            },
    {
        let n = self.entries.len();
        let mut i: usize = n;
        while i > 0
            invariant
                n == self.entries@.len(),
                i <= n,
                forall|j: int| i <= j < n ==> self.entries@[j].0@ != key@,
            decreases i,
        {
            if self.entries[i - 1].0 == *key {
                proof {
                    lemma_map_of_contains(self.entries@, key@);
                    lemma_map_of_last_match(self.entries@, key@, i - 1);
                }
                return Some(&self.entries[i - 1].1);
            }
            i -= 1;
        }
        proof {
            lemma_map_of_contains(self.entries@, key@);
        }
        None
    }
}

} // verus!
