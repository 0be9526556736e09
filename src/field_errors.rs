//! Validation messages keyed by field name.

use vstd::prelude::*;
use vstd::string::StringExecFns;

verus! {

/// The map that a list of (key, message) entries stands for; a later entry
/// for a key wins over an earlier one.
pub open spec fn entries_map(s: Seq<(String, String)>) -> Map<Seq<char>, Seq<char>>
    decreases s.len(),
{
    if s.len() == 0 {
        Map::empty()
    } else {
        entries_map(s.drop_last()).insert(s.last().0@, s.last().1@)
    }
}

/// No two entries share a key.
pub open spec fn keys_unique(s: Seq<(String, String)>) -> bool {
    forall|i: int, j: int|
        0 <= i < s.len() && 0 <= j < s.len() && i != j ==> #[trigger] s[i].0@ != #[trigger] s[j].0@
}

proof fn lemma_entries_map_index(s: Seq<(String, String)>)
    requires
        keys_unique(s),
    ensures
        forall|k: Seq<char>|
            #[trigger] entries_map(s).contains_key(k) <==> exists|i: int|
                0 <= i < s.len() && s[i].0@ == k,
        forall|i: int| 0 <= i < s.len() ==> entries_map(s)[#[trigger] s[i].0@] == s[i].1@,
        entries_map(s).dom().finite(),
        entries_map(s).dom().len() == s.len(),
    decreases s.len(),
{
    if s.len() > 0 {
        let p = s.drop_last();
        assert(keys_unique(p));
        lemma_entries_map_index(p);
        assert forall|k: Seq<char>| #[trigger] entries_map(s).contains_key(k) <==> exists|i: int|
            0 <= i < s.len() && s[i].0@ == k by {
            if entries_map(p).contains_key(k) {
                let i = choose|i: int| 0 <= i < p.len() && p[i].0@ == k;
                assert(s[i] == p[i]);
            }
            if exists|i: int| 0 <= i < s.len() && s[i].0@ == k {
                let i = choose|i: int| 0 <= i < s.len() && s[i].0@ == k;
                if i < s.len() - 1 {
                    assert(p[i] == s[i]);
                }
            }
        }
        assert forall|i: int| 0 <= i < s.len() implies entries_map(s)[#[trigger] s[i].0@]
            == s[i].1@ by {
            if i < s.len() - 1 {
                assert(p[i] == s[i]);
                assert(s[i].0@ != s[s.len() - 1].0@);
            }
        }
        assert(!entries_map(p).contains_key(s.last().0@)) by {
            if entries_map(p).contains_key(s.last().0@) {
                let i = choose|i: int| 0 <= i < p.len() && p[i].0@ == s.last().0@;
                assert(p[i] == s[i]);
            }
        }
    }
}

proof fn lemma_entries_map_update(s: Seq<(String, String)>, j: int, e: (String, String))
    requires
        keys_unique(s),
        0 <= j < s.len(),
        e.0@ == s[j].0@,
    ensures
        keys_unique(s.update(j, e)),
        entries_map(s.update(j, e)) == entries_map(s).insert(e.0@, e.1@),
{
    let t = s.update(j, e);
    assert(keys_unique(t)) by {
        assert forall|a: int, b: int|
            0 <= a < t.len() && 0 <= b < t.len() && a != b implies #[trigger] t[a].0@
            != #[trigger] t[b].0@ by {
            assert(s[a].0@ != s[b].0@);
        }
    }
    lemma_entries_map_index(s);
    lemma_entries_map_index(t);
    assert forall|k: Seq<char>| entries_map(s).insert(e.0@, e.1@).contains_key(k) implies
        #[trigger] entries_map(t).contains_key(k) by {
        if entries_map(s).contains_key(k) && k != e.0@ {
            let i = choose|i: int| 0 <= i < s.len() && s[i].0@ == k;
            assert(t[i] == s[i]);
        }
        if k == e.0@ {
            assert(t[j] == e);
        }
    }
    assert forall|k: Seq<char>| #[trigger] entries_map(t).contains_key(k)
        implies entries_map(s).insert(e.0@, e.1@).contains_key(k) && entries_map(t)[k]
        == entries_map(s).insert(e.0@, e.1@)[k] by {
        let i = choose|i: int| 0 <= i < t.len() && t[i].0@ == k;
        if i != j {
            assert(t[i] == s[i]);
            assert(entries_map(s)[s[i].0@] == s[i].1@);
        }
    }
    assert(entries_map(t) =~= entries_map(s).insert(e.0@, e.1@));
}

fn copied(v: &Vec<(String, String)>) -> (r: Vec<(String, String)>)
    ensures
        r@ == v@,
{
    let mut entries: Vec<(String, String)> = Vec::new();
    let mut i: usize = 0;
    while i < v.len()
        invariant
            0 <= i <= v.len(),
            entries@.len() == i,
            forall|j: int| 0 <= j < i ==> #[trigger] entries@[j] == v@[j],
        decreases v.len() - i,
    {
        let (k, m) = &v[i];
        entries.push((k.clone(), m.clone()));
        i = i + 1;
    }
    assert(entries@ =~= v@);
    entries
}

/// Validation messages keyed by field name.
pub struct FieldErrors {
    entries: Vec<(String, String)>,
}

impl View for FieldErrors {
    type V = Map<Seq<char>, Seq<char>>;

    closed spec fn view(&self) -> Map<Seq<char>, Seq<char>> {
        entries_map(self.entries@)
    }
}

impl FieldErrors {
    /// Entries never repeat a key.
    #[verifier::type_invariant]
    spec fn keys_distinct(&self) -> bool {
        keys_unique(self.entries@)
    }

    /// A map with no entries.
    pub fn new() -> (r: Self)
        ensures
            r@ == Map::<Seq<char>, Seq<char>>::empty(),
    {
        FieldErrors { entries: Vec::new() }
    }

    /// Number of fields that carry a message.
    pub fn len(&self) -> (r: usize)
        ensures
            r == self@.len(),
            self@.dom().finite(),
    {
        proof {
            use_type_invariant(self);
            lemma_entries_map_index(self.entries@);
        }
        self.entries.len()
    }

    /// Whether no field carries a message.
    pub fn is_empty(&self) -> (r: bool)
        ensures
            r == (self@ == Map::<Seq<char>, Seq<char>>::empty()),
    {
        proof {
            use_type_invariant(self);
            lemma_entries_map_index(self.entries@);
            if self.entries.len() > 0 {
                assert(self@.contains_key(self.entries@[0].0@));
            } else {
                assert(self@ =~= Map::<Seq<char>, Seq<char>>::empty());
            }
        }
        self.entries.len() == 0
    }

    /// Removes every entry.
    pub fn clear(&mut self)
        ensures
            final(self)@ == Map::<Seq<char>, Seq<char>>::empty(),
    {
        self.entries = Vec::new();
    }

    /// The message for `key`, if it has one.
    pub fn get(&self, key: &str) -> (r: Option<&String>)
        ensures
            match r {
                Some(m) => self@.contains_key(key@) && m@ == self@[key@],
                None => !self@.contains_key(key@),
            },
    {
        proof {
            use_type_invariant(self);
            lemma_entries_map_index(self.entries@);
        }
        let wanted = String::from_str(key);
        let mut i: usize = 0;
        while i < self.entries.len()
            invariant
                wanted@ == key@,
                0 <= i <= self.entries.len(),
                forall|j: int| 0 <= j < i ==> self.entries@[j].0@ != key@,
            decreases self.entries.len() - i,
        {
            if self.entries[i].0 == wanted {
                proof {
                    use_type_invariant(self);
                    lemma_entries_map_index(self.entries@);
                    assert(self@[self.entries@[i as int].0@] == self.entries@[i as int].1@);
                }
                return Some(&self.entries[i].1);
            }
            i = i + 1;
        }
        None
    }

    /// Sets the message for `key`, replacing any earlier one.
    pub fn insert(&mut self, key: String, message: String)
        ensures
            final(self)@ == old(self)@.insert(key@, message@),
    {
        proof {
            use_type_invariant(&*self);
        }
        let mut i: usize = 0;
        let mut found = false;
        while i < self.entries.len()
            invariant_except_break
                !found,
            invariant
                0 <= i <= self.entries.len(),
                forall|j: int| 0 <= j < i ==> self.entries@[j].0@ != key@,
            ensures
                0 <= i <= self.entries.len(),
                forall|j: int| 0 <= j < i ==> self.entries@[j].0@ != key@,
                found ==> i < self.entries.len() && self.entries@[i as int].0@ == key@,
                !found ==> i == self.entries.len(),
            decreases self.entries.len() - i,
        {
            if self.entries[i].0 == key {
                found = true;
                break;
            }
            i = i + 1;
        }
        let ghost before = self.entries@;
        let mut next = copied(&self.entries);
        if found {
            proof {
                lemma_entries_map_update(before, i as int, (key, message));
            }
            next.set(i, (key, message));
        } else {
            next.push((key, message));
            proof {
                assert(next@.drop_last() == before);
                assert forall|a: int, b: int|
                    0 <= a < next@.len() && 0 <= b < next@.len() && a != b implies
                    #[trigger] next@[a].0@ != #[trigger] next@[b].0@ by {
                    if a < before.len() {
                        assert(before[a] == next@[a]);
                    }
                    if b < before.len() {
                        assert(before[b] == next@[b]);
                    }
                }
            }
        }
        self.entries = next;
    }

    /// An equal copy of the map.
    pub fn copy(&self) -> (r: Self)
        ensures
            r@ == self@,
    {
        proof {
            use_type_invariant(self);
        }
        FieldErrors { entries: copied(&self.entries) }
    }

    /// The (field, message) entries, in no particular order.
    pub fn entries(&self) -> (r: &Vec<(String, String)>)
        ensures
            keys_unique(r@),
            entries_map(r@) == self@,
    {
        proof {
            use_type_invariant(self);
        }
        &self.entries
    }
}

} // verus!
