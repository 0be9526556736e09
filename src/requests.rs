//! The store operations that one request performs: listing, creating and
//! editing from a form, and checking whether an email is taken.

use vstd::prelude::*;

use crate::contact::{Contact, ContactForm, ContactView};
use crate::contact_db::{enumerates, matching, views, ContactDB};

verus! {

/// The id a new contact is given when its form is accepted.
pub const NEW_CONTACT_ID: u32 = 999;

/// The candidate that a submitted form stands for, with id `id`.
pub open spec fn candidate(form: ContactForm, id: u32) -> ContactView {
    ContactView {
        id,
        first_name: form.first_name@,
        last_name: form.last_name@,
        phone: form.phone@,
        email: form.email@,
        errors: Map::empty(),
    }
}

impl ContactDB {
    /// The records a listing shows: those matching `query` when one is given
    /// and not empty, else all of them.
    pub fn listing(&self, query: Option<String>) -> (r: Vec<&Contact>)
        requires
            self.wf(),
        ensures
            match query {
                Some(q) if q@.len() > 0 => enumerates(views(r@), matching(self@, q@)),
                _ => enumerates(views(r@), self@),
            },
    {
        match query {
            Some(q) => {
                if q.as_str().is_empty() {
                    self.all()
                } else {
                    self.search(q)
                }
            },
            None => self.all(),
        }
    }

    /// Validates the form as a new contact and saves it when it has no
    /// errors; otherwise hands back the validated candidate, saving nothing.
    pub fn create(&mut self, form: ContactForm) -> (r: Result<(), Contact>)
        requires
            old(self).wf(),
        ensures
            final(self).wf(),
            ({
                let c = candidate(form, NEW_CONTACT_ID).validated();
                match r {
                    Ok(_) => c.errors == Map::<Seq<char>, Seq<char>>::empty()
                        && final(self)@ == old(self)@.insert(NEW_CONTACT_ID, c),
                    Err(e) => c.errors != Map::<Seq<char>, Seq<char>>::empty() && e@ == c
                        && final(self)@ == old(self)@,
                }
            }),
    {
        let mut c = form.into_contact(NEW_CONTACT_ID);
        c.validate();
        if c.errors.is_empty() {
            self.save(c);
            Ok(())
        } else {
            Err(c)
        }
    }

    /// Validates the form as new values for the record `id` and merges them
    /// into it when there are no errors, telling whether the record existed;
    /// otherwise hands back the validated candidate, changing nothing.
    pub fn edit(&mut self, id: u32, form: ContactForm) -> (r: Result<bool, Contact>)
        requires
            old(self).wf(),
        ensures
            final(self).wf(),
            ({
                let c = candidate(form, id).validated();
                match r {
                    Ok(found) => c.errors == Map::<Seq<char>, Seq<char>>::empty() && found
                        == old(self)@.contains_key(id) && (found ==> final(self)@ == old(
                        self,
                    )@.insert(id, old(self)@[id].merged(c))) && (!found ==> final(self)@ == old(
                        self,
                    )@),
                    Err(e) => c.errors != Map::<Seq<char>, Seq<char>>::empty() && e@ == c
                        && final(self)@ == old(self)@,
                }
            }),
    {
        let mut c = form.into_contact(id);
        c.validate();
        if c.errors.is_empty() {
            Ok(self.update(id, &c))
        } else {
            Err(c)
        }
    }

    /// Whether `email` belongs to some record while differing from the email
    /// of the record `id`; `None` when there is no record `id`.
    pub fn email_taken(&self, id: u32, email: &String) -> (r: Option<bool>)
        ensures
            match r {
                Some(taken) => self@.contains_key(id) && taken == ((exists|k: u32|
                    self@.contains_key(k) && #[trigger] self@[k].email == email@) && email@
                    != self@[id].email),
                None => !self@.contains_key(id),
            },
    {
        match self.find(id) {
            Some(current) => Some(self.email_exists(email) && *email != current.email),
            None => None,
        }
    }
}

} // verus!
