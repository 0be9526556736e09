//! The directory store: contacts keyed by id.

use std::collections::HashMap;
use vstd::prelude::*;
use vstd::std_specs::hash::spec_hash_map_iter;
use vstd::std_specs::iter::IteratorSpec;
use vstd::string::{StrSliceExecFns, StringExecFns};

use crate::contact::{Contact, ContactView};
use crate::field_errors::FieldErrors;
use crate::text::{contains_text, decimal, decimal_text, is_substring, pad4, zeros};

verus! {

broadcast use vstd::std_specs::hash::group_hash_axioms;

/// The demonstration record numbered `i`.
pub open spec fn seed_contact(i: u32) -> ContactView {
    ContactView {
        id: i,
        first_name: "FirstName"@ + decimal(i as nat),
        last_name: "LastName"@ + decimal(i as nat),
        phone: "555-555-"@ + pad4(decimal(i as nat)),
        email: "user"@ + decimal(i as nat) + "@example.com"@,
        errors: Map::empty(),
    }
}

/// The records numbered `1` to `count`.
pub open spec fn seed_records(count: nat) -> Map<u32, ContactView> {
    Map::new(|id: u32| 1 <= id <= count, |id: u32| seed_contact(id))
}

/// `q` occurs in the first name, last name, email or phone of `c`.
pub open spec fn matches(q: Seq<char>, c: ContactView) -> bool {
    ||| is_substring(q, c.first_name)
    ||| is_substring(q, c.last_name)
    ||| is_substring(q, c.email)
    ||| is_substring(q, c.phone)
}

/// The records of `m` that match `q`.
pub open spec fn matching(m: Map<u32, ContactView>, q: Seq<char>) -> Map<u32, ContactView> {
    Map::new(|id: u32| m.contains_key(id) && matches(q, m[id]), |id: u32| m[id])
}

/// What a list of borrowed contacts holds.
pub open spec fn views(r: Seq<&Contact>) -> Seq<ContactView> {
    r.map_values(|c: &Contact| c@)
}

/// `r` holds each record of `m` exactly once, and nothing else.
pub open spec fn enumerates(r: Seq<ContactView>, m: Map<u32, ContactView>) -> bool {
    &&& forall|i: int| 0 <= i < r.len() ==> m.contains_key(#[trigger] r[i].id) && m[r[i].id] == r[i]
    &&& forall|id: u32| #[trigger] m.contains_key(id) ==> exists|i: int| 0 <= i < r.len() && r[i].id == id
    &&& forall|i: int, j: int| 0 <= i < j < r.len() ==> #[trigger] r[i].id != #[trigger] r[j].id
}

/// A record just saved is what a lookup of its id gives.
pub proof fn lemma_save_then_find(m: Map<u32, ContactView>, c: ContactView)
    ensures
        m.insert(c.id, c).contains_key(c.id),
        m.insert(c.id, c)[c.id] == c,
{
}

/// After a delete of `id`, no record has that id, whether one had it before
/// or not.
pub proof fn lemma_delete_then_find(m: Map<u32, ContactView>, id: u32)
    ensures
        !m.remove(id).contains_key(id),
{
}

/// A search gives exactly those records of the full listing that match the
/// query.
pub proof fn lemma_search_is_filtered_all(
    m: Map<u32, ContactView>,
    q: Seq<char>,
    everything: Seq<ContactView>,
    found: Seq<ContactView>,
)
    requires
        enumerates(everything, m),
        enumerates(found, matching(m, q)),
    ensures
        forall|c: ContactView|
            found.contains(c) <==> everything.contains(c) && matches(q, c),
{
    assert forall|c: ContactView| found.contains(c) <==> everything.contains(c) && matches(q, c) by {
        if found.contains(c) {
            let i = choose|i: int| 0 <= i < found.len() && found[i] == c;
            assert(matching(m, q).contains_key(found[i].id));
            let j = choose|j: int| 0 <= j < everything.len() && everything[j].id == c.id;
            assert(m.contains_key(everything[j].id));
            assert(everything[j] == c);
        }
        if everything.contains(c) && matches(q, c) {
            let j = choose|j: int| 0 <= j < everything.len() && everything[j] == c;
            assert(m.contains_key(everything[j].id));
            assert(matching(m, q).contains_key(c.id));
            let i = choose|i: int| 0 <= i < found.len() && found[i].id == c.id;
            assert(matching(m, q).contains_key(found[i].id));
            assert(found[i] == c);
        }
    }
}

/// The directory: every contact, keyed by its id.
pub struct ContactDB {
    db: HashMap<u32, Contact>,
}

impl View for ContactDB {
    type V = Map<u32, ContactView>;

    closed spec fn view(&self) -> Map<u32, ContactView> {
        self.db@.map_values(|c: Contact| c@)
    }
}

proof fn lemma_view_insert(m: Map<u32, Contact>, id: u32, c: Contact)
    ensures
        m.insert(id, c).map_values(|c: Contact| c@) == m.map_values(|c: Contact| c@).insert(id, c@),
{
    assert(m.insert(id, c).map_values(|c: Contact| c@) =~= m.map_values(|c: Contact| c@).insert(id, c@));
}

proof fn lemma_view_remove(m: Map<u32, Contact>, id: u32)
    ensures
        m.remove(id).map_values(|c: Contact| c@) == m.map_values(|c: Contact| c@).remove(id),
{
    assert(m.remove(id).map_values(|c: Contact| c@) =~= m.map_values(|c: Contact| c@).remove(id));
}

/// What iterating the map yields: each stored record once, with its id.
proof fn lemma_pairs(db: &ContactDB, pairs: Seq<(&u32, &Contact)>)
    requires
        db.wf(),
        pairs == spec_hash_map_iter(&db.db).remaining(),
        pairs.no_duplicates(),
    ensures
        forall|j: int|
            0 <= j < pairs.len() ==> db@.contains_key(*#[trigger] pairs[j].0) && db@[*pairs[j].0]
                == pairs[j].1@ && pairs[j].1.id == *pairs[j].0,
        forall|id: u32| #[trigger]
            db@.contains_key(id) ==> exists|j: int| 0 <= j < pairs.len() && *pairs[j].0 == id,
        forall|i: int, j: int|
            0 <= i < j < pairs.len() ==> *#[trigger] pairs[i].0 != *#[trigger] pairs[j].0,
{
    let m = db.db@;
    assert forall|j: int| 0 <= j < pairs.len() implies db@.contains_key(*#[trigger] pairs[j].0)
        && db@[*pairs[j].0] == pairs[j].1@ && pairs[j].1.id == *pairs[j].0 by {
        assert(m.contains_key(*pairs[j].0) && m[*pairs[j].0] == *pairs[j].1);
    }
    assert forall|id: u32| #[trigger] db@.contains_key(id) implies exists|j: int|
        0 <= j < pairs.len() && *pairs[j].0 == id by {
        assert(m.contains_key(id));
        assert(pairs.contains((&id, &m[id])));
        let j = choose|j: int| 0 <= j < pairs.len() && pairs[j] == (&id, &m[id]);
        assert(*pairs[j].0 == id);
    }
    assert forall|i: int, j: int| 0 <= i < j < pairs.len() implies *#[trigger] pairs[i].0
        != *#[trigger] pairs[j].0 by {
        if *pairs[i].0 == *pairs[j].0 {
            assert(m.contains_key(*pairs[i].0) && m[*pairs[i].0] == *pairs[i].1);
            assert(m.contains_key(*pairs[j].0) && m[*pairs[j].0] == *pairs[j].1);
            assert(pairs[i] == pairs[j]);
        }
    }
}

impl ContactDB {
    /// Each record is stored under its own id
    /// and carries no validation errors.
    pub closed spec fn wf(&self) -> bool {
        forall|id: u32| #[trigger]
            self.db@.contains_key(id) ==> self.db@[id].id == id && self.db@[id].errors@ == Map::<
                Seq<char>,
                Seq<char>,
            >::empty()
    }

    /// What the store keeps true of its records: each is stored under its
    /// own id, and none carries a validation error.
    pub proof fn lemma_records_well_formed(&self)
        requires
            self.wf(),
        ensures
            forall|id: u32| #[trigger]
                self@.contains_key(id) ==> self@[id].id == id && self@[id].errors == Map::<
                    Seq<char>,
                    Seq<char>,
                >::empty(),
    {
    }

    /// A directory seeded with the records numbered `1` to `count`.
    pub fn new(count: usize) -> (r: Self)
        requires
            count <= u32::MAX,
        ensures
            r.wf(),
            r@ == seed_records(count as nat),
    {
        let mut contact_db = ContactDB { db: HashMap::new() };
        let mut i: u32 = 0;
        proof {
            assert(contact_db@ =~= seed_records(0));
        }
        while (i as usize) < count
            invariant
                i <= count,
                count <= u32::MAX,
                contact_db.wf(),
                contact_db@ == seed_records(i as nat),
            decreases count - i,
        {
            i = i + 1;
            let contact = seed_record(i);
            proof {
                lemma_view_insert(contact_db.db@, i, contact);
            }
            contact_db.db.insert(contact.id, contact);
            proof {
                assert(contact_db@ =~= seed_records(i as nat));
            }
        }
        contact_db
    }
}

impl ContactDB {
    /// Stores `c` under its id, replacing any record that had that id; only
    /// a contact without validation errors may be stored.
    pub fn save(&mut self, c: Contact)
        requires
            old(self).wf(),
            c.errors@ == Map::<Seq<char>, Seq<char>>::empty(),
        ensures
            final(self).wf(),
            final(self)@ == old(self)@.insert(c.id, c@),
    {
        proof {
            lemma_view_insert(self.db@, c.id, c);
        }
        self.db.insert(c.id, c);
    }

    /// The record stored under `id`, if there is one.
    pub fn find(&self, id: u32) -> (r: Option<&Contact>)
        ensures
            match r {
                Some(c) => self@.contains_key(id) && c@ == self@[id],
                None => !self@.contains_key(id),
            },
    {
        self.db.get(&id)
    }

    /// Removes the record stored under `id`, if there is one.
    pub fn delete(&mut self, id: u32)
        requires
            old(self).wf(),
        ensures
            final(self).wf(),
            final(self)@ == old(self)@.remove(id),
    {
        proof {
            lemma_view_remove(self.db@, id);
        }
        self.db.remove(&id);
    }

    /// Merges `other_contact`, which carries no validation errors, into the
    /// record stored under `id`; false, with nothing changed, when there is
    /// no such record.
    pub fn update(&mut self, id: u32, other_contact: &Contact) -> (r: bool)
        requires
            old(self).wf(),
            other_contact.errors@ == Map::<Seq<char>, Seq<char>>::empty(),
        ensures
            final(self).wf(),
            r == old(self)@.contains_key(id),
            r ==> final(self)@ == old(self)@.insert(id, old(self)@[id].merged(other_contact@)),
            !r ==> final(self)@ == old(self)@,
    {
        let ghost before = self.db@;
        match self.db.remove(&id) {
            Some(mut c) => {
                c.update(other_contact);
                proof {
                    lemma_view_remove(before, id);
                    lemma_view_insert(before.remove(id), id, c);
                    assert(before.remove(id).insert(id, c) =~= before.insert(id, c));
                    lemma_view_insert(before, id, c);
                }
                self.db.insert(id, c);
                true
            },
            None => {
                proof {
                    assert(before.remove(id) =~= before);
                }
                false
            },
        }
    }
}

impl ContactDB {
    /// Every record, each once, in no particular order.
    pub fn all(&self) -> (r: Vec<&Contact>)
        requires
            self.wf(),
        ensures
            enumerates(views(r@), self@),
    {
        let ghost pairs = spec_hash_map_iter(&self.db).remaining();
        let mut result: Vec<&Contact> = Vec::new();
        for (_id, c) in it: self.db.iter()
            invariant
                it.seq() == pairs,
                it.seq().no_duplicates(),
                result@.len() == it.index(),
                forall|j: int| 0 <= j < it.index() ==> #[trigger] result@[j] == pairs[j].1,
        {
            result.push(c);
        }
        proof {
            lemma_pairs(self, pairs);
            let r = views(result@);
            assert(r.len() == pairs.len());
            assert forall|i: int| 0 <= i < r.len() implies self@.contains_key(#[trigger] r[i].id)
                && self@[r[i].id] == r[i] by {
                assert(r[i] == pairs[i].1@);
                assert(self@.contains_key(*pairs[i].0));
            }
            assert forall|id: u32| #[trigger] self@.contains_key(id) implies exists|i: int|
                0 <= i < r.len() && r[i].id == id by {
                let j = choose|j: int| 0 <= j < pairs.len() && *pairs[j].0 == id;
                assert(r[j] == pairs[j].1@);
            }
            assert forall|i: int, j: int| 0 <= i < j < r.len() implies #[trigger] r[i].id
                != #[trigger] r[j].id by {
                assert(r[i] == pairs[i].1@);
                assert(r[j] == pairs[j].1@);
                assert(*pairs[i].0 != *pairs[j].0);
            }
        }
        result
    }
}

impl ContactDB {
    /// Every record in which `query` occurs in the first name, last name,
    /// email or phone, each once, in no particular order.
    pub fn search(&self, query: String) -> (r: Vec<&Contact>)
        requires
            self.wf(),
        ensures
            enumerates(views(r@), matching(self@, query@)),
    {
        let ghost pairs = spec_hash_map_iter(&self.db).remaining();
        let ghost picked: Seq<int> = Seq::empty();
        let mut result: Vec<&Contact> = Vec::new();
        for (_id, c) in it: self.db.iter()
            invariant
                it.seq() == pairs,
                it.seq().no_duplicates(),
                result@.len() == picked.len(),
                forall|a: int|
                    0 <= a < picked.len() ==> 0 <= #[trigger] picked[a] < it.index() && result@[a]
                        == pairs[picked[a]].1 && matches(query@, pairs[picked[a]].1@),
                forall|a: int, b: int| 0 <= a < b < picked.len() ==> picked[a] < picked[b],
                forall|j: int|
                    0 <= j < it.index() && matches(query@, #[trigger] pairs[j].1@) ==> exists|a: int|
                        0 <= a < picked.len() && picked[a] == j,
        {
            let ghost j = it.index();
            let q = query.as_str();
            let found = contains_text(c.first_name.as_str(), q) || contains_text(
                c.last_name.as_str(),
                q,
            ) || contains_text(c.email.as_str(), q) || contains_text(c.phone.as_str(), q);
            assert(*c == *pairs[j].1);
            assert(found == matches(query@, pairs[j].1@));
            if found {
                result.push(c);
                proof {
                    let ghost before = picked;
                    picked = picked.push(j);
                    assert(picked[picked.len() - 1] == j);
                    assert forall|k: int|
                        0 <= k < j + 1 && matches(query@, #[trigger] pairs[k].1@) implies exists|a: int|
                        0 <= a < picked.len() && picked[a] == k by {
                        if k < j {
                            let a = choose|a: int| 0 <= a < before.len() && before[a] == k;
                            assert(picked[a] == k);
                        } else {
                            assert(picked[picked.len() - 1] == k);
                        }
                    }
                }
            }
        }
        proof {
            lemma_pairs(self, pairs);
            let r = views(result@);
            let want = matching(self@, query@);
            assert forall|i: int| 0 <= i < r.len() implies want.contains_key(#[trigger] r[i].id)
                && want[r[i].id] == r[i] by {
                assert(r[i] == pairs[picked[i]].1@);
                assert(self@.contains_key(*pairs[picked[i]].0));
            }
            assert forall|id: u32| #[trigger] want.contains_key(id) implies exists|i: int|
                0 <= i < r.len() && r[i].id == id by {
                assert(self@.contains_key(id));
                let j = choose|j: int| 0 <= j < pairs.len() && *pairs[j].0 == id;
                assert(self@.contains_key(*pairs[j].0));
                assert(matches(query@, pairs[j].1@));
                let a = choose|a: int| 0 <= a < picked.len() && picked[a] == j;
                assert(r[a] == pairs[j].1@);
            }
            assert forall|a: int, b: int| 0 <= a < b < r.len() implies #[trigger] r[a].id
                != #[trigger] r[b].id by {
                assert(r[a] == pairs[picked[a]].1@);
                assert(r[b] == pairs[picked[b]].1@);
                assert(self@.contains_key(*pairs[picked[a]].0));
                assert(self@.contains_key(*pairs[picked[b]].0));
                assert(*pairs[picked[a]].0 != *pairs[picked[b]].0);
            }
        }
        result
    }

    /// Whether some record's email is exactly `email`.
    pub fn email_exists(&self, email: &String) -> (r: bool)
        ensures
            r == exists|id: u32| self@.contains_key(id) && #[trigger] self@[id].email == email@,
    {
        let ghost pairs = spec_hash_map_iter(&self.db).remaining();
        let mut exists = false;
        for (_id, c) in it: self.db.iter()
            invariant
                it.seq() == pairs,
                pairs == spec_hash_map_iter(&self.db).remaining(),
                exists == (exists|j: int| 0 <= j < it.index() && #[trigger] pairs[j].1.email@ == email@),
        {
            if *email == c.email {
                exists = true;
            }
        }
        proof {
            let m = self.db@;
            if exists {
                let j = choose|j: int| 0 <= j < pairs.len() && #[trigger] pairs[j].1.email@ == email@;
                assert(m.contains_key(*pairs[j].0) && m[*pairs[j].0] == *pairs[j].1);
                assert(self@[*pairs[j].0].email == email@);
            }
            if exists|id: u32| self@.contains_key(id) && #[trigger] self@[id].email == email@ {
                let id = choose|id: u32| self@.contains_key(id) && #[trigger] self@[id].email == email@;
                assert(m.contains_key(id));
                assert(pairs.contains((&id, &m[id])));
                let j = choose|j: int| 0 <= j < pairs.len() && pairs[j] == (&id, &m[id]);
                assert(pairs[j].1.email@ == email@);
            }
        }
        exists
    }
}

fn seed_record(i: u32) -> (r: Contact)
    ensures
        r@ == seed_contact(i),
{
    let digits = decimal_text(i);
    let first_name = String::from_str("FirstName").concat(digits.as_str());
    let last_name = String::from_str("LastName").concat(digits.as_str());
    let mut phone = String::from_str("555-555-");
    let width = digits.as_str().unicode_len();
    let mut k: usize = width;
    while k < 4
        invariant
            width == decimal(i as nat).len(),
            width <= k,
            k <= 4 || k == width,
            phone@ == "555-555-"@ + zeros((k - width) as nat),
        decreases 4 - k,
    {
        phone.append("0");
        k = k + 1;
        proof {
            reveal_strlit("0");
            assert(phone@ =~= "555-555-"@ + zeros((k - width) as nat));
        }
    }
    phone.append(digits.as_str());
    proof {
        assert(phone@ =~= "555-555-"@ + pad4(decimal(i as nat)));
    }
    let email = String::from_str("user").concat(digits.as_str()).concat("@example.com");
    Contact::new(i, first_name, last_name, phone, email, FieldErrors::new())
}

} // verus!
