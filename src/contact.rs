//! Contact records, their validation and their merge.

use vstd::prelude::*;
use vstd::string::StringExecFns;

use crate::field_errors::FieldErrors;
use crate::text::{blank, is_blank};

verus! {

/// What a contact holds, as mathematical values.
pub struct ContactView {
    pub id: u32,
    pub first_name: Seq<char>,
    pub last_name: Seq<char>,
    pub phone: Seq<char>,
    pub email: Seq<char>,
    pub errors: Map<Seq<char>, Seq<char>>,
}

/// Adds `key` with `message` to `m` when `value` is blank.
pub open spec fn require_field(
    m: Map<Seq<char>, Seq<char>>,
    value: Seq<char>,
    key: Seq<char>,
    message: Seq<char>,
) -> Map<Seq<char>, Seq<char>> {
    if blank(value) {
        m.insert(key, message)
    } else {
        m
    }
}

impl ContactView {
    /// One message for each of the four text fields that is blank.
    pub open spec fn field_errors(self) -> Map<Seq<char>, Seq<char>> {
        let m = require_field(Map::empty(), self.email, "email"@, "Email is required"@);
        let m = require_field(m, self.first_name, "first_name"@, "First name is required"@);
        let m = require_field(m, self.last_name, "last_name"@, "Last name is required"@);
        require_field(m, self.phone, "phone"@, "Phone number is required."@)
    }

    /// The contact with its errors recomputed from its fields.
    pub open spec fn validated(self) -> ContactView {
        ContactView { errors: self.field_errors(), ..self }
    }

    /// The contact with every field but the id taken from `patch`.
    pub open spec fn merged(self, patch: ContactView) -> ContactView {
        ContactView { id: self.id, ..patch }
    }

    /// How many of the four text fields are blank.
    pub open spec fn blank_count(self) -> nat {
        (if blank(self.first_name) { 1nat } else { 0nat }) + (if blank(self.last_name) {
            1nat
        } else {
            0nat
        }) + (if blank(self.phone) { 1nat } else { 0nat }) + (if blank(self.email) {
            1nat
        } else {
            0nat
        })
    }
}

/// Validation gives exactly one message for each blank text field, none at
/// all when no field is blank, and validating again changes nothing.
pub proof fn lemma_validation_messages(c: ContactView)
    ensures
        c.validated().errors.dom().finite(),
        c.validated().errors.len() == c.blank_count(),
        forall|f: Seq<char>|
            #[trigger] c.validated().errors.contains_key(f) <==> {
                ||| f == "first_name"@ && blank(c.first_name)
                ||| f == "last_name"@ && blank(c.last_name)
                ||| f == "phone"@ && blank(c.phone)
                ||| f == "email"@ && blank(c.email)
            },
        c.blank_count() == 0 ==> c.validated().errors == Map::<Seq<char>, Seq<char>>::empty(),
        c.validated().validated() == c.validated(),
{
    reveal_strlit("email");
    reveal_strlit("first_name");
    reveal_strlit("last_name");
    reveal_strlit("phone");
    assert("email"@[0] != "first_name"@[0]);
    assert("email"@[0] != "last_name"@[0]);
    assert("email"@ != "phone"@);
    assert("first_name"@ != "last_name"@);
    assert("first_name"@ != "phone"@);
    assert("last_name"@ != "phone"@);
    let m0 = Map::<Seq<char>, Seq<char>>::empty();
    let m1 = require_field(m0, c.email, "email"@, "Email is required"@);
    let m2 = require_field(m1, c.first_name, "first_name"@, "First name is required"@);
    let m3 = require_field(m2, c.last_name, "last_name"@, "Last name is required"@);
    let m4 = require_field(m3, c.phone, "phone"@, "Phone number is required."@);
    assert(m4 == c.validated().errors);
    assert(m0.dom() =~= Set::<Seq<char>>::empty());
    assert(c.blank_count() == 0 ==> m4 =~= m0);
}

/// One person's entry in the directory.
pub struct Contact {
    pub id: u32,
    pub first_name: String,
    pub last_name: String,
    pub phone: String,
    pub email: String,
    pub errors: FieldErrors,
}

impl View for Contact {
    type V = ContactView;

    open spec fn view(&self) -> ContactView {
        ContactView {
            id: self.id,
            first_name: self.first_name@,
            last_name: self.last_name@,
            phone: self.phone@,
            email: self.email@,
            errors: self.errors@,
        }
    }
}

impl Default for Contact {
    /// A form placeholder: the candidate id and a hint in each field.
    fn default() -> (r: Self)
        ensures
            r@ == (ContactView {
                id: 0,
                first_name: "First Name"@,
                last_name: "Last Name"@,
                phone: "Phone #"@,
                email: "Email"@,
                errors: Map::empty(),
            }),
    {
        Contact {
            id: 0,
            first_name: String::from_str("First Name"),
            last_name: String::from_str("Last Name"),
            phone: String::from_str("Phone #"),
            email: String::from_str("Email"),
            errors: FieldErrors::new(),
        }
    }
}

impl Contact {
    /// A contact made of the given values.
    pub fn new(
        id: u32,
        first_name: String,
        last_name: String,
        phone: String,
        email: String,
        errors: FieldErrors,
    ) -> (r: Self)
        ensures
            r@ == (ContactView {
                id,
                first_name: first_name@,
                last_name: last_name@,
                phone: phone@,
                email: email@,
                errors: errors@,
            }),
    {
        Contact { id, first_name, last_name, phone, email, errors }
    }

    /// Takes every field but the id from `other`.
    pub fn update(&mut self, other: &Contact)
        ensures
            final(self)@ == old(self)@.merged(other@),
    {
        self.first_name = other.first_name.clone();
        self.last_name = other.last_name.clone();
        self.phone = other.phone.clone();
        self.email = other.email.clone();
        self.errors = other.errors.copy();
    }

    /// Recomputes the errors from the fields, dropping any earlier ones.
    pub fn validate(&mut self)
        ensures
            final(self)@ == old(self)@.validated(),
    {
        self.errors.clear();
        if is_blank(self.email.as_str()) {
            self.errors.insert(String::from_str("email"), String::from_str("Email is required"));
        }
        if is_blank(self.first_name.as_str()) {
            self.errors.insert(
                String::from_str("first_name"),
                String::from_str("First name is required"),
            );
        }
        if is_blank(self.last_name.as_str()) {
            self.errors.insert(
                String::from_str("last_name"),
                String::from_str("Last name is required"),
            );
        }
        if is_blank(self.phone.as_str()) {
            self.errors.insert(
                String::from_str("phone"),
                String::from_str("Phone number is required."),
            );
        }
    }
}

/// The four text fields of a submitted contact form.
pub struct ContactForm {
    pub email: String,
    pub first_name: String,
    pub last_name: String,
    pub phone: String,
}

impl ContactForm {
    /// A candidate contact with id `id`, the form's fields and no errors.
    pub fn into_contact(self, id: u32) -> (r: Contact)
        ensures
            r@ == (ContactView {
                id,
                first_name: self.first_name@,
                last_name: self.last_name@,
                phone: self.phone@,
                email: self.email@,
                errors: Map::empty(),
            }),
    {
        Contact::new(id, self.first_name, self.last_name, self.phone, self.email, FieldErrors::new())
    }
}

} // verus!
