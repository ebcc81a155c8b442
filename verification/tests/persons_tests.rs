use kinsaga::{add_person, remove_person, Category, Chronicle, Fact, Person, PersonError};

fn create_test_chronicle() -> Chronicle {
    let mut chronicle = Chronicle::new("1.0");
    chronicle.categories.push(Category::new("family", "Family"));

    let mut alice = Person::new("alice", "Alice Smith");
    alice.facts.push(
        Fact::new("uuid-1", "2020-01-01", "family", "Shared event").with_persons(vec!["bob".to_string()]),
    );
    chronicle.persons.push(alice);
    chronicle.persons.push(Person::new("bob", "Bob Johnson"));

    chronicle
}

#[test]
fn test_add_person() {
    let mut chronicle = create_test_chronicle();
    add_person(&mut chronicle, "carol", "Carol White").unwrap();

    let carol = chronicle.find_person("carol").unwrap();
    assert_eq!(carol.name, "Carol White");
    assert!(carol.facts.is_empty());
}

#[test]
fn test_add_person_duplicate_id_rejected() {
    let mut chronicle = create_test_chronicle();
    let result = add_person(&mut chronicle, "alice", "Another Alice");
    assert!(matches!(result, Err(PersonError::DuplicateId { .. })));
}

#[test]
fn test_add_person_empty_name_rejected() {
    let mut chronicle = create_test_chronicle();
    assert!(matches!(add_person(&mut chronicle, "carol", ""), Err(PersonError::EmptyName)));
    assert!(matches!(add_person(&mut chronicle, "carol", "   "), Err(PersonError::EmptyName)));
}

#[test]
fn test_add_person_invalid_id_rejected() {
    let mut chronicle = create_test_chronicle();
    assert!(matches!(add_person(&mut chronicle, "Carol", "Carol"), Err(PersonError::InvalidId { .. })));
    assert!(matches!(add_person(&mut chronicle, "2cool", "Carol"), Err(PersonError::InvalidId { .. })));
}

#[test]
fn test_remove_person_unreferenced() {
    let mut chronicle = create_test_chronicle();
    // alice references bob, but nobody references alice
    let result = remove_person(&mut chronicle, "alice", false).unwrap();
    assert_eq!(result.person.id, "alice");
    assert_eq!(result.person.facts.len(), 1);
    assert_eq!(result.references_stripped, 0);
    assert!(chronicle.find_person("alice").is_none());
}

#[test]
fn test_remove_person_referenced_requires_force() {
    let mut chronicle = create_test_chronicle();
    // bob is referenced by alice's fact
    let result = remove_person(&mut chronicle, "bob", false);
    assert!(matches!(result, Err(PersonError::Referenced { count: 1, .. })));
    // Chronicle unchanged
    assert!(chronicle.find_person("bob").is_some());
}

#[test]
fn test_remove_person_force_strips_references() {
    let mut chronicle = create_test_chronicle();
    let result = remove_person(&mut chronicle, "bob", true).unwrap();
    assert_eq!(result.references_stripped, 1);
    assert!(chronicle.find_person("bob").is_none());
    // The empty 'with' list is dropped entirely
    assert!(chronicle.find_person("alice").unwrap().facts[0].with.is_none());
}

#[test]
fn test_remove_person_self_reference_neither_blocks_nor_counts() {
    // A (hand-edited) self-reference in the removed person's own facts:
    // it must not block removal without --force, and must not inflate
    // references_stripped — count and strip use the same scope.
    let mut chronicle = create_test_chronicle();
    chronicle.find_person_mut("bob").unwrap().facts.push(
        Fact::new("uuid-2", "2021-01-01", "family", "Self ref").with_persons(vec!["bob".to_string()]),
    );

    let result = remove_person(&mut chronicle, "bob", true).unwrap();
    // Only alice's reference counts; bob's self-reference vanished with him
    assert_eq!(result.references_stripped, 1);
    assert!(chronicle.find_person("bob").is_none());
}

#[test]
fn test_remove_person_not_found() {
    let mut chronicle = create_test_chronicle();
    assert!(matches!(remove_person(&mut chronicle, "unknown", false), Err(PersonError::NotFound { .. })));
}

// ---------------------------------------------------------------------------

#[test]
fn add_then_remove_gives_back_the_chronicle() {
    let mut chronicle = create_test_chronicle();
    add_person(&mut chronicle, "carol", "Carol").unwrap();
    assert_eq!(chronicle.persons.len(), 3);
    let removed = remove_person(&mut chronicle, "carol", false).unwrap();
    assert_eq!(removed.person.name, "Carol");
    assert_eq!(removed.references_stripped, 0);
    assert_eq!(chronicle.persons.len(), 2);
    assert_eq!(chronicle.persons[0].id, "alice");
    assert_eq!(chronicle.persons[1].id, "bob");
}

#[test]
fn person_error_messages() {
    let mut chronicle = create_test_chronicle();
    assert_eq!(
        remove_person(&mut chronicle, "bob", false).unwrap_err().message(),
        "Person 'bob' is referenced in the 'with' field of 1 fact(s); use --force to remove anyway and strip the references"
    );
    assert_eq!(
        remove_person(&mut chronicle, "zed", false).unwrap_err().message(),
        "Person 'zed' not found. Available persons: alice, bob"
    );
    assert_eq!(
        add_person(&mut chronicle, "Zed", "Zed").unwrap_err().message(),
        "Invalid person ID 'Zed': must match ^[a-z][a-z0-9_-]*$"
    );
    assert_eq!(add_person(&mut chronicle, "alice", "A").unwrap_err().message(), "Person ID 'alice' already exists");
}

#[test]
fn stripping_keeps_other_references() {
    let mut chronicle = create_test_chronicle();
    chronicle.persons.push(Person::new("carol", "Carol"));
    chronicle.persons[0].facts[0].with = Some(vec!["bob".to_string(), "carol".to_string(), "bob".to_string()]);
    let result = remove_person(&mut chronicle, "bob", true).unwrap();
    assert_eq!(result.references_stripped, 2);
    assert_eq!(chronicle.persons[0].facts[0].with, Some(vec!["carol".to_string()]));
}

#[test]
fn forced_removal_leaves_no_dangling_references() {
    let mut chronicle = create_test_chronicle();
    chronicle.persons.push(Person::new("carol", "Carol"));
    chronicle.persons[2].facts.push(
        Fact::new("uuid-2", "2021", "family", "Visit").with_persons(vec!["bob".to_string(), "alice".to_string(), "bob".to_string()]),
    );
    let result = remove_person(&mut chronicle, "bob", true).unwrap();
    assert_eq!(result.references_stripped, 3);
    let stale = chronicle
        .persons
        .iter()
        .flat_map(|p| p.facts.iter())
        .filter_map(|f| f.with.as_ref())
        .flatten()
        .filter(|id| id.as_str() == "bob")
        .count();
    assert_eq!(stale, 0);
    assert_eq!(chronicle.persons[1].facts[0].with, Some(vec!["alice".to_string()]));
}
