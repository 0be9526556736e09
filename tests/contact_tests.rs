use contact_directory::contact::{Contact, ContactForm};
use contact_directory::field_errors::FieldErrors;

fn contact(id: u32, first: &str, last: &str, phone: &str, email: &str) -> Contact {
    Contact::new(
        id,
        first.to_string(),
        last.to_string(),
        phone.to_string(),
        email.to_string(),
        FieldErrors::new(),
    )
}

#[test]
fn validate_complete_contact_has_no_errors() {
    let mut c = contact(1, "Ada", "Lovelace", "555-0100", "ada@example.com");
    c.validate();
    assert!(c.errors.is_empty());
    assert_eq!(c.errors.len(), 0);
}

#[test]
fn validate_reports_each_blank_field() {
    let mut c = contact(1, "", "  ", "555-0100", "\t");
    c.validate();
    assert_eq!(c.errors.len(), 3);
    assert_eq!(c.errors.get("first_name").unwrap(), "First name is required");
    assert_eq!(c.errors.get("last_name").unwrap(), "Last name is required");
    assert_eq!(c.errors.get("email").unwrap(), "Email is required");
    assert!(c.errors.get("phone").is_none());
}

#[test]
fn validate_all_blank_gives_four_messages() {
    let mut c = contact(7, "", "", "", "");
    c.validate();
    assert_eq!(c.errors.len(), 4);
    assert_eq!(c.errors.get("phone").unwrap(), "Phone number is required.");
}

#[test]
fn validate_twice_does_not_accumulate() {
    let mut c = contact(1, "", "Lovelace", "", "ada@example.com");
    c.validate();
    assert_eq!(c.errors.len(), 2);
    c.validate();
    assert_eq!(c.errors.len(), 2);
    assert!(c.errors.get("first_name").is_some());
    assert!(c.errors.get("phone").is_some());
}

#[test]
fn validate_clears_stale_errors() {
    let mut c = contact(1, "", "Lovelace", "555", "a@b.c");
    c.validate();
    assert_eq!(c.errors.len(), 1);
    c.first_name = "Ada".to_string();
    c.validate();
    assert!(c.errors.is_empty());
}

#[test]
fn validate_treats_unicode_spaces_as_blank() {
    let mut c = contact(1, "\u{3000}\u{a0}", "x", "y", "z");
    c.validate();
    assert_eq!(c.errors.len(), 1);
    assert!(c.errors.get("first_name").is_some());
}

#[test]
fn update_keeps_id_and_takes_other_fields() {
    let mut c = contact(5, "Ada", "Lovelace", "1", "ada@example.com");
    let mut other = contact(9, "Grace", "", "2", "grace@example.com");
    other.validate();
    c.update(&other);
    assert_eq!(c.id, 5);
    assert_eq!(c.first_name, "Grace");
    assert_eq!(c.last_name, "");
    assert_eq!(c.phone, "2");
    assert_eq!(c.email, "grace@example.com");
    assert_eq!(c.errors.len(), 1);
    assert!(c.errors.get("last_name").is_some());
}

#[test]
fn default_is_placeholder() {
    let c = Contact::default();
    assert_eq!(c.id, 0);
    assert_eq!(c.first_name, "First Name");
    assert_eq!(c.last_name, "Last Name");
    assert_eq!(c.phone, "Phone #");
    assert_eq!(c.email, "Email");
    assert!(c.errors.is_empty());
}

#[test]
fn form_becomes_candidate() {
    let form = ContactForm {
        email: "e@x.org".to_string(),
        first_name: "F".to_string(),
        last_name: "L".to_string(),
        phone: "P".to_string(),
    };
    let c = form.into_contact(42);
    assert_eq!(c.id, 42);
    assert_eq!(c.email, "e@x.org");
    assert_eq!(c.first_name, "F");
    assert_eq!(c.last_name, "L");
    assert_eq!(c.phone, "P");
    assert!(c.errors.is_empty());
}

#[test]
fn field_errors_insert_replaces_and_clear_empties() {
    let mut e = FieldErrors::new();
    e.insert("a".to_string(), "one".to_string());
    e.insert("b".to_string(), "two".to_string());
    e.insert("a".to_string(), "three".to_string());
    assert_eq!(e.len(), 2);
    assert_eq!(e.get("a").unwrap(), "three");
    let copy = e.copy();
    assert_eq!(copy.get("b").unwrap(), "two");
    assert_eq!(copy.entries().len(), 2);
    e.clear();
    assert!(e.is_empty());
    assert_eq!(copy.len(), 2);
}
