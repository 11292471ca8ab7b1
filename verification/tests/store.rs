use user_directory::store::Directory;
use user_directory::user::User;

fn ids_of(records: &[user_directory::user::UserRecord]) -> Vec<String> {
    let mut ids: Vec<String> = records.iter().map(|r| r.id.clone()).collect();
    ids.sort();
    ids
}

#[test]
fn create_assigns_count_plus_one() {
    let mut d = Directory::new();
    let r = d.create("Bob".to_string());
    assert_eq!(r.id, "1");
    assert_eq!(r.user.name, "Bob");
    let r2 = d.create("Carol".to_string());
    assert_eq!(r2.id, "2");
    assert_eq!(d.len(), 2);
}

#[test]
fn sequential_creates_grow_store_and_are_retrievable() {
    let mut d = Directory::new();
    let mut issued: Vec<String> = Vec::new();
    for k in 0..7 {
        let r = d.create(format!("user-{}", k));
        issued.push(r.id.clone());
    }
    assert_eq!(d.len(), 7);
    for (k, id) in issued.iter().enumerate() {
        let got = d.get(id).expect("created record must be retrievable");
        assert_eq!(got.id, *id);
        assert_eq!(got.user.name, format!("user-{}", k));
    }
}

#[test]
fn create_renders_multi_digit_identifiers() {
    let mut d = Directory::new();
    let mut last = d.create("a".to_string());
    for _ in 0..11 {
        last = d.create("a".to_string());
    }
    assert_eq!(last.id, "12");
    assert_eq!(d.len(), 12);
}

#[test]
fn get_absent_is_not_found() {
    let mut d = Directory::new();
    d.create("Bob".to_string());
    assert!(d.get(&"2".to_string()).is_none());
    assert!(d.get(&"".to_string()).is_none());
}

#[test]
fn update_then_get_round_trip() {
    let mut d = Directory::new();
    let r = d.create("Bob".to_string());
    let updated = d
        .update(&r.id, "Robert".to_string())
        .expect("present identifier must be updatable");
    assert_eq!(updated.id, r.id);
    assert_eq!(updated.user.name, "Robert");
    let got = d.get(&r.id).expect("updated record must remain retrievable");
    assert_eq!(got.id, r.id);
    assert_eq!(got.user.name, "Robert");
}

#[test]
fn update_absent_is_not_found_and_leaves_store_unchanged() {
    let mut d = Directory::new();
    d.create("Bob".to_string());
    assert!(d.update(&"9".to_string(), "X".to_string()).is_none());
    assert_eq!(d.len(), 1);
    assert_eq!(d.get(&"1".to_string()).unwrap().user.name, "Bob");
}

#[test]
fn delete_is_idempotent() {
    let mut d = Directory::new();
    d.create("Bob".to_string());
    d.create("Carol".to_string());
    let first = d.delete(&"1".to_string());
    let second = d.delete(&"1".to_string());
    assert_eq!(ids_of(&first), ids_of(&second));
    assert_eq!(first.len(), 1);
    assert_eq!(second.len(), 1);
    assert_eq!(first[0].id, "2");
    assert_eq!(first[0].user.name, second[0].user.name);
}

#[test]
fn delete_absent_is_a_no_op() {
    let mut d = Directory::new();
    d.create("Bob".to_string());
    let remaining = d.delete(&"7".to_string());
    assert_eq!(remaining.len(), 1);
    assert_eq!(remaining[0].id, "1");
    assert_eq!(d.len(), 1);
}

#[test]
fn list_after_creates_and_deletes() {
    let mut d = Directory::new();
    for k in 0..5 {
        d.create(format!("user-{}", k));
    }
    d.delete(&"2".to_string());
    d.delete(&"4".to_string());
    let listed = d.list();
    assert_eq!(listed.len(), 3);
    assert_eq!(ids_of(&listed), vec!["1".to_string(), "3".to_string(), "5".to_string()]);
}

#[test]
fn list_returns_an_independent_snapshot() {
    let mut d = Directory::new();
    d.create("Bob".to_string());
    let before = d.list();
    d.update(&"1".to_string(), "Robert".to_string());
    d.create("Carol".to_string());
    assert_eq!(before.len(), 1);
    assert_eq!(before[0].user.name, "Bob");
}

#[test]
fn reissued_identifier_overwrites_the_colliding_record() {
    // The identifier policy derives the id from the current count, so after
    // a delete a fresh create can be handed an id already in use; the store
    // then overwrites that record, as a map insertion would.
    let mut d = Directory::new();
    d.create("Bob".to_string());
    d.create("Carol".to_string());
    d.delete(&"1".to_string());
    let r = d.create("Dave".to_string());
    assert_eq!(r.id, "2");
    assert_eq!(d.len(), 1);
    assert_eq!(d.get(&"2".to_string()).unwrap().user.name, "Dave");
}

#[test]
fn bootstrap_scenario() {
    // Seeded store holding {"1": Alice}, as the process starts with.
    let mut d = Directory::new();
    let seeded = d.create("Alice".to_string());
    assert_eq!(seeded.id, "1");

    let bob = d.create("Bob".to_string());
    assert_eq!(bob.id, "2");
    assert_eq!(bob.user.name, "Bob");
    assert_eq!(d.len(), 2);

    let alicia = d.update(&"1".to_string(), "Alicia".to_string()).unwrap();
    assert_eq!(alicia.id, "1");
    assert_eq!(alicia.user.name, "Alicia");

    let remaining = d.delete(&"2".to_string());
    assert_eq!(remaining.len(), 1);
    assert_eq!(remaining[0].id, "1");
    assert_eq!(remaining[0].user.name, "Alicia");

    assert!(d.get(&"2".to_string()).is_none());
}

#[test]
fn user_accessors() {
    let mut u = User::new("Bob".to_string());
    assert_eq!(u.name(), "Bob");
    u.set_name("Robert".to_string());
    assert_eq!(u.name(), "Robert");
    assert_eq!(u.clone().name, "Robert");
}
