use contact_directory::form_body::selected_ids;

#[test]
fn selected_ids_reads_each_pair() {
    assert_eq!(
        selected_ids("selected_contact_ids=1&selected_contact_ids=2"),
        vec![1, 2]
    );
}

#[test]
fn selected_ids_keeps_order_and_repeats() {
    assert_eq!(
        selected_ids("selected_contact_ids=30&selected_contact_ids=4&selected_contact_ids=30"),
        vec![30, 4, 30]
    );
}

#[test]
fn selected_ids_skips_other_keys_and_bad_values() {
    assert_eq!(
        selected_ids("other=5&selected_contact_ids=x&selected_contact_ids&selected_contact_ids=7"),
        vec![7]
    );
    assert_eq!(selected_ids("selected_contact_ids=-1&selected_contact_ids="), Vec::<u32>::new());
    assert_eq!(selected_ids("selected_contact_ids=4294967296"), Vec::<u32>::new());
}

#[test]
fn selected_ids_value_may_hold_equals_sign() {
    assert_eq!(selected_ids("selected_contact_ids=3=4&selected_contact_ids=5"), vec![5]);
}

#[test]
fn selected_ids_accepts_plus_and_leading_zeros() {
    assert_eq!(
        selected_ids("selected_contact_ids=+8&selected_contact_ids=009&selected_contact_ids=4294967295"),
        vec![8, 9, 4294967295]
    );
}

#[test]
fn selected_ids_of_empty_body() {
    assert_eq!(selected_ids(""), Vec::<u32>::new());
    assert_eq!(selected_ids("&&"), Vec::<u32>::new());
}
