use contact_directory::contact::{Contact, ContactForm};
use contact_directory::contact_db::ContactDB;
use contact_directory::field_errors::FieldErrors;
use contact_directory::requests::NEW_CONTACT_ID;

fn contact(id: u32, first: &str, last: &str, phone: &str, email: &str) -> Contact {
    Contact::new(
        id,
        first.to_string(),
        last.to_string(),
        phone.to_string(),
        email.to_string(),
        FieldErrors::new(),
    )
}

fn form(first: &str, last: &str, phone: &str, email: &str) -> ContactForm {
    ContactForm {
        email: email.to_string(),
        first_name: first.to_string(),
        last_name: last.to_string(),
        phone: phone.to_string(),
    }
}

fn sorted_ids(v: &[&Contact]) -> Vec<u32> {
    let mut ids: Vec<u32> = v.iter().map(|c| c.id).collect();
    ids.sort();
    ids
}

#[test]
fn seed_two_scenario() {
    let mut db = ContactDB::new(2);
    let c1 = db.find(1).unwrap();
    assert_eq!(c1.first_name, "FirstName1");
    assert_eq!(c1.last_name, "LastName1");
    assert_eq!(c1.email, "user1@example.com");
    assert_eq!(c1.phone, "555-555-0001");
    let c2 = db.find(2).unwrap();
    assert_eq!(c2.first_name, "FirstName2");
    assert_eq!(c2.email, "user2@example.com");

    let found = db.search("FirstName1".to_string());
    assert_eq!(found.len(), 1);
    assert_eq!(found[0].id, 1);

    db.delete(1);
    let all = db.all();
    assert_eq!(all.len(), 1);
    assert_eq!(all[0].id, 2);
    assert_eq!(all[0].first_name, "FirstName2");
    assert!(db.email_exists(&"user2@example.com".to_string()));
    assert!(!db.email_exists(&"user1@example.com".to_string()));
}

#[test]
fn seed_formats_numbers() {
    let db = ContactDB::new(12345);
    assert_eq!(db.all().len(), 12345);
    assert_eq!(db.find(12).unwrap().phone, "555-555-0012");
    assert_eq!(db.find(12345).unwrap().phone, "555-555-12345");
    assert_eq!(db.find(1000).unwrap().email, "user1000@example.com");
    assert!(db.find(0).is_none());
    assert!(db.find(12346).is_none());
}

#[test]
fn seed_zero_is_empty() {
    let db = ContactDB::new(0);
    assert!(db.all().is_empty());
    assert!(db.search(String::new()).is_empty());
}

#[test]
fn save_then_find_gives_record() {
    let mut db = ContactDB::new(0);
    db.save(contact(7, "Ada", "Lovelace", "555", "ada@example.com"));
    let c = db.find(7).unwrap();
    assert_eq!(c.id, 7);
    assert_eq!(c.first_name, "Ada");
    assert_eq!(c.last_name, "Lovelace");
    assert_eq!(c.phone, "555");
    assert_eq!(c.email, "ada@example.com");
}

#[test]
fn save_overwrites_same_id() {
    let mut db = ContactDB::new(3);
    db.save(contact(2, "New", "Name", "1", "n@x"));
    assert_eq!(db.all().len(), 3);
    assert_eq!(db.find(2).unwrap().first_name, "New");
}

#[test]
fn update_absent_returns_false_and_changes_nothing() {
    let mut db = ContactDB::new(2);
    let patch = contact(0, "X", "Y", "Z", "w@x");
    assert!(!db.update(5, &patch));
    assert_eq!(db.all().len(), 2);
    assert_eq!(db.find(1).unwrap().first_name, "FirstName1");
    assert!(db.find(5).is_none());
}

#[test]
fn update_present_replaces_fields_but_not_id() {
    let mut db = ContactDB::new(2);
    let patch = contact(77, "X", "Y", "Z", "w@x");
    assert!(db.update(2, &patch));
    let c = db.find(2).unwrap();
    assert_eq!(c.id, 2);
    assert_eq!(c.first_name, "X");
    assert_eq!(c.last_name, "Y");
    assert_eq!(c.phone, "Z");
    assert_eq!(c.email, "w@x");
    assert!(db.find(77).is_none());
}

#[test]
fn delete_is_idempotent() {
    let mut db = ContactDB::new(2);
    db.delete(1);
    assert!(db.find(1).is_none());
    db.delete(1);
    assert!(db.find(1).is_none());
    db.delete(40);
    assert!(db.find(40).is_none());
    assert_eq!(db.all().len(), 1);
}

#[test]
fn search_matches_any_field_case_sensitively() {
    let mut db = ContactDB::new(0);
    db.save(contact(1, "Ada", "Lovelace", "555-1000", "ada@math.org"));
    db.save(contact(2, "Grace", "Hopper", "555-2000", "grace@navy.mil"));
    db.save(contact(3, "Alan", "Turing", "777-3000", "alan@bletchley.uk"));
    assert_eq!(sorted_ids(&db.search("Hop".to_string())), vec![2]);
    assert_eq!(sorted_ids(&db.search("hop".to_string())), Vec::<u32>::new());
    assert_eq!(sorted_ids(&db.search("555".to_string())), vec![1, 2]);
    assert_eq!(sorted_ids(&db.search("math".to_string())), vec![1]);
    assert_eq!(sorted_ids(&db.search("Al".to_string())), vec![3]);
    assert_eq!(sorted_ids(&db.search("".to_string())), vec![1, 2, 3]);
    assert!(db.search("zzz".to_string()).is_empty());
}

#[test]
fn search_is_subset_of_all() {
    let db = ContactDB::new(25);
    let all = db.all();
    let found = db.search("2".to_string());
    let expected: Vec<u32> = {
        let mut v: Vec<u32> = all
            .iter()
            .filter(|c| {
                c.first_name.contains("2")
                    || c.last_name.contains("2")
                    || c.email.contains("2")
                    || c.phone.contains("2")
            })
            .map(|c| c.id)
            .collect();
        v.sort();
        v
    };
    assert_eq!(sorted_ids(&found), expected);
}

#[test]
fn email_exists_is_exact() {
    let db = ContactDB::new(3);
    assert!(db.email_exists(&"user3@example.com".to_string()));
    assert!(!db.email_exists(&"USER3@example.com".to_string()));
    assert!(!db.email_exists(&"user3@example.co".to_string()));
    assert!(!db.email_exists(&"".to_string()));
}

#[test]
fn listing_uses_query_only_when_present() {
    let db = ContactDB::new(12);
    assert_eq!(db.listing(None).len(), 12);
    assert_eq!(db.listing(Some(String::new())).len(), 12);
    assert_eq!(sorted_ids(&db.listing(Some("FirstName1".to_string()))), vec![1, 10, 11, 12]);
}

#[test]
fn create_saves_valid_form_under_new_id() {
    let mut db = ContactDB::new(2);
    assert!(db.create(form("Ada", "Lovelace", "555", "ada@x.org")).is_ok());
    let c = db.find(NEW_CONTACT_ID).unwrap();
    assert_eq!(c.first_name, "Ada");
    assert_eq!(db.all().len(), 3);
}

#[test]
fn create_rejects_invalid_form() {
    let mut db = ContactDB::new(2);
    let err = db.create(form("Ada", "", "555", " ")).err().unwrap();
    assert_eq!(err.errors.len(), 2);
    assert!(err.errors.get("last_name").is_some());
    assert!(err.errors.get("email").is_some());
    assert_eq!(db.all().len(), 2);
}

#[test]
fn edit_merges_valid_form() {
    let mut db = ContactDB::new(2);
    assert_eq!(db.edit(1, form("A", "B", "C", "d@e")).ok(), Some(true));
    assert_eq!(db.find(1).unwrap().last_name, "B");
    assert_eq!(db.edit(9, form("A", "B", "C", "d@e")).ok(), Some(false));
    assert!(db.find(9).is_none());
    let err = db.edit(2, form("", "B", "C", "d@e")).err().unwrap();
    assert_eq!(err.id, 2);
    assert_eq!(err.errors.len(), 1);
    assert_eq!(db.find(2).unwrap().first_name, "FirstName2");
}

#[test]
fn email_taken_ignores_own_email() {
    let db = ContactDB::new(2);
    assert_eq!(db.email_taken(1, &"user1@example.com".to_string()), Some(false));
    assert_eq!(db.email_taken(1, &"user2@example.com".to_string()), Some(true));
    assert_eq!(db.email_taken(1, &"nobody@example.com".to_string()), Some(false));
    assert_eq!(db.email_taken(3, &"user2@example.com".to_string()), None);
}
