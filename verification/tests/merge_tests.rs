use kinsaga::{
    merge_chronicles, Attachment, Category, Chronicle, ConflictStrategy, DuplicateStrategy, Fact,
    Location, MergeEventType, MergeItemType, MergeOptions, Person,
};

fn create_test_chronicle(id_suffix: &str) -> Chronicle {
    let mut chronicle = Chronicle::new("1.0");
    chronicle.categories.push(Category::new("family", "Family"));

    let mut person = Person::new(&format!("person{}", id_suffix), &format!("Person {}", id_suffix));
    person.facts.push(Fact::new(
        &format!("uuid-{}", id_suffix),
        "2020-01-01",
        "family",
        &format!("Event {}", id_suffix),
    ));
    chronicle.persons.push(person);

    chronicle
}

#[test]
fn test_merge_new_person() {
    let target = create_test_chronicle("1");
    let source = create_test_chronicle("2");

    let result = merge_chronicles(target, &source, &MergeOptions::default()).unwrap();

    assert_eq!(result.chronicle.persons.len(), 2);
    assert_eq!(result.stats.persons_added, 1);
    assert_eq!(result.stats.facts_added, 1);
}

#[test]
fn test_merge_new_category() {
    let mut target = Chronicle::new("1.0");
    target.categories.push(Category::new("family", "Family"));

    let mut source = Chronicle::new("1.0");
    source.categories.push(Category::new("travel", "Travel"));

    let result = merge_chronicles(target, &source, &MergeOptions::default()).unwrap();

    assert_eq!(result.chronicle.categories.len(), 2);
    assert_eq!(result.stats.categories_added, 1);
}

#[test]
fn test_merge_category_conflict_skip() {
    let mut target = Chronicle::new("1.0");
    target.categories.push(Category::new("family", "Family Target"));

    let mut source = Chronicle::new("1.0");
    source.categories.push(Category::new("family", "Family Source"));

    let result = merge_chronicles(target, &source, &MergeOptions::default()).unwrap();

    assert_eq!(result.chronicle.categories.len(), 1);
    assert_eq!(result.chronicle.categories[0].label, "Family Target");
    assert_eq!(result.stats.categories_skipped, 1);
}

#[test]
fn test_merge_category_conflict_overwrite() {
    let mut target = Chronicle::new("1.0");
    target.categories.push(Category::new("family", "Family Target"));

    let mut source = Chronicle::new("1.0");
    source.categories.push(Category::new("family", "Family Source"));

    let options = MergeOptions { on_conflict: ConflictStrategy::Overwrite, ..Default::default() };
    let result = merge_chronicles(target, &source, &options).unwrap();

    assert_eq!(result.chronicle.categories[0].label, "Family Source");
    assert_eq!(result.stats.categories_overwritten, 1);
}

#[test]
fn test_merge_category_conflict_fail() {
    let mut target = Chronicle::new("1.0");
    target.categories.push(Category::new("family", "Family Target"));

    let mut source = Chronicle::new("1.0");
    source.categories.push(Category::new("family", "Family Source"));

    let options = MergeOptions { on_conflict: ConflictStrategy::Fail, ..Default::default() };
    let result = merge_chronicles(target, &source, &options);

    assert!(result.is_err());
}

#[test]
fn test_merge_duplicate_facts_skip() {
    let mut target = Chronicle::new("1.0");
    target.categories.push(Category::new("family", "Family"));
    let mut person = Person::new("alice", "Alice");
    person.facts.push(Fact::new("uuid-1", "2020-01-01", "family", "Same event"));
    target.persons.push(person);

    let mut source = Chronicle::new("1.0");
    source.categories.push(Category::new("family", "Family"));
    let mut person = Person::new("alice", "Alice");
    person.facts.push(Fact::new("uuid-2", "2020-01-01", "family", "Same event"));
    source.persons.push(person);

    let result = merge_chronicles(target, &source, &MergeOptions::default()).unwrap();

    assert_eq!(result.chronicle.persons[0].facts.len(), 1);
    assert_eq!(result.stats.facts_skipped, 1);
}

#[test]
fn test_merge_source_with_duplicate_person_ids_creates_no_duplicates() {
    let target = Chronicle::new("1.0");

    // Malformed source listing the same person ID twice
    let mut source = Chronicle::new("1.0");
    source.categories.push(Category::new("family", "Family"));
    let mut p1 = Person::new("alice", "Alice");
    p1.facts.push(Fact::new("uuid-1", "2020-01-01", "family", "Event 1"));
    let mut p2 = Person::new("alice", "Alice");
    p2.facts.push(Fact::new("uuid-2", "2020-01-02", "family", "Event 2"));
    source.persons.push(p1);
    source.persons.push(p2);

    let result = merge_chronicles(target, &source, &MergeOptions::default()).unwrap();

    // The second occurrence must merge into the first, not duplicate it
    assert_eq!(result.chronicle.persons.len(), 1);
    assert_eq!(result.chronicle.persons[0].facts.len(), 2);
}

#[test]
fn test_merge_preserves_all_fact_fields() {
    // Target already contains the fact's UUID, forcing the clone+new-id path
    let mut target = Chronicle::new("1.0");
    target.categories.push(Category::new("travel", "Travel"));
    let mut alice = Person::new("alice", "Alice");
    alice.facts.push(Fact::new("a1b2c3d4-e5f6-7890-abcd-ef1234567890", "2019-01-01", "travel", "Existing event"));
    target.persons.push(alice);

    let mut source = Chronicle::new("1.0");
    source.categories.push(Category::new("travel", "Travel"));
    let mut alice = Person::new("alice", "Alice");
    let url = url::Url::parse("https://example.com/photo.jpg").unwrap();
    alice.facts.push(
        Fact::new("a1b2c3d4-e5f6-7890-abcd-ef1234567890", "2020-06-15", "travel", "Rich event")
            .with_persons(vec!["alice".to_string()])
            .with_location(Location::new("France").with_place("Paris"))
            .with_attachment(Attachment::new(url.as_str()).with_title("Photo")),
    );
    source.persons.push(alice);

    let result = merge_chronicles(target, &source, &MergeOptions::default()).unwrap();

    let facts = &result.chronicle.persons[0].facts;
    assert_eq!(facts.len(), 2);
    let merged = &facts[1];
    assert_ne!(merged.id, "a1b2c3d4-e5f6-7890-abcd-ef1234567890");
    assert_eq!(merged.location.as_ref().unwrap().country, "France");
    assert_eq!(merged.attachments.len(), 1);
    assert_eq!(merged.with, Some(vec!["alice".to_string()]));
}

#[test]
fn test_merge_name_conflict_skip_emits_event() {
    let mut target = Chronicle::new("1.0");
    target.persons.push(Person::new("alice", "Alice Target"));

    let mut source = Chronicle::new("1.0");
    source.persons.push(Person::new("alice", "Alice Source"));

    let result = merge_chronicles(target, &source, &MergeOptions::default()).unwrap();

    assert_eq!(result.chronicle.persons[0].name, "Alice Target");
    assert!(result.events.iter().any(|e| {
        e.event_type == MergeEventType::Skipped && e.item_type == MergeItemType::Person && e.id == "alice"
    }));
}

#[test]
fn test_merge_regenerate_uuids() {
    let target = Chronicle::new("1.0");
    let source = create_test_chronicle("1");

    let options = MergeOptions { regenerate_uuids: true, ..Default::default() };
    let result = merge_chronicles(target, &source, &options).unwrap();

    assert_ne!(result.chronicle.persons[0].facts[0].id, "uuid-1");
}

// ---------------------------------------------------------------------------

#[test]
fn merging_an_empty_source_changes_nothing() {
    let target = create_test_chronicle("1");
    let result = merge_chronicles(target, &Chronicle::new("1.0"), &MergeOptions::default()).unwrap();
    assert_eq!(result.chronicle.persons.len(), 1);
    assert_eq!(result.chronicle.persons[0].facts[0].id, "uuid-1");
    assert!(result.events.is_empty());
    assert!(result.warnings.is_empty());
    assert_eq!(result.stats.facts_added, 0);
}

#[test]
fn merge_events_and_messages() {
    let mut target = Chronicle::new("1.0");
    target.persons.push(Person::new("alice", "Alice T"));
    let mut source = Chronicle::new("1.0");
    let mut a = Person::new("alice", "Alice S");
    a.facts.push(Fact::new("u1", "2020", "family", "E").with_persons(vec!["ghost".to_string()]));
    source.persons.push(a);
    let result = merge_chronicles(target, &source, &MergeOptions { on_conflict: ConflictStrategy::Overwrite, ..Default::default() }).unwrap();
    assert_eq!(result.chronicle.persons[0].name, "Alice S");
    assert_eq!(result.events.len(), 2);
    assert_eq!(result.events[0].details.as_deref(), Some("name overwritten: 'Alice T' -> 'Alice S'"));
    assert_eq!(result.events[1].details.as_deref(), Some("1 facts added, 0 skipped"));
    assert_eq!(result.chronicle.persons[0].facts[0].id, "u1", "free source IDs are kept");
    assert_eq!(result.warnings, vec!["Person 'alice', fact 'E': references unknown person 'ghost'".to_string()]);

    let mut target = Chronicle::new("1.0");
    target.persons.push(Person::new("alice", "Alice T"));
    let err = merge_chronicles(target, &source, &MergeOptions { on_conflict: ConflictStrategy::Fail, ..Default::default() }).unwrap_err();
    assert_eq!(err.message(), "Person conflict: 'alice' has different name ('Alice T' vs 'Alice S')");
}

#[test]
fn duplicates_can_be_added_anyway() {
    let mut target = Chronicle::new("1.0");
    let mut p = Person::new("alice", "Alice");
    p.facts.push(Fact::new("u1", "2020", "family", "Same"));
    target.persons.push(p);
    let mut source = Chronicle::new("1.0");
    let mut p = Person::new("alice", "Alice");
    p.facts.push(Fact::new("u1", "2020", "family", "Same"));
    source.persons.push(p);
    let options = MergeOptions { duplicates: DuplicateStrategy::Add, ..Default::default() };
    let result = merge_chronicles(target, &source, &options).unwrap();
    let facts = &result.chronicle.persons[0].facts;
    assert_eq!(facts.len(), 2);
    assert_ne!(facts[1].id, "u1", "a taken ID is replaced");
    assert!(uuid::Uuid::parse_str(&facts[1].id).is_ok());
    assert_eq!(result.stats.facts_skipped, 0);
}

#[test]
fn merging_a_chronicle_into_itself_adds_nothing() {
    let mut chronicle = create_test_chronicle("1");
    chronicle.categories.push(Category::new("travel", "Travel").with_color("#81C784"));
    chronicle.persons[0].facts.push(Fact::new("uuid-2", "2021", "travel", "Trip"));
    chronicle.persons.push(Person::new("bob", "Bob"));
    let source = chronicle.clone();
    for on_conflict in [ConflictStrategy::Skip, ConflictStrategy::Overwrite, ConflictStrategy::Fail] {
        let options = MergeOptions { on_conflict, ..Default::default() };
        let result = merge_chronicles(chronicle.clone(), &source, &options).unwrap();
        assert_eq!(result.chronicle.categories.len(), 2);
        assert_eq!(result.chronicle.persons.len(), 2);
        assert_eq!(result.chronicle.persons[0].facts.len(), 2);
        assert_eq!(result.chronicle.persons[0].facts[1].id, "uuid-2");
        assert!(result.chronicle.persons[1].facts.is_empty());
        assert_eq!(result.stats.categories_added, 0);
        assert_eq!(result.stats.categories_identical, 2);
        assert_eq!(result.stats.persons_added, 0);
        assert_eq!(result.stats.facts_added, 0);
        assert_eq!(result.stats.facts_skipped, 2);
    }
}

#[test]
fn duplicates_within_the_source_are_skipped_too() {
    let mut target = Chronicle::new("1.0");
    target.persons.push(Person::new("alice", "Alice"));
    let mut source = Chronicle::new("1.0");
    let mut p = Person::new("alice", "Alice");
    p.facts.push(Fact::new("u1", "2020", "family", "Same"));
    p.facts.push(Fact::new("u2", "2020", "family", "Same"));
    source.persons.push(p);
    let result = merge_chronicles(target, &source, &MergeOptions::default()).unwrap();
    assert_eq!(result.chronicle.persons[0].facts.len(), 1);
    assert_eq!(result.chronicle.persons[0].facts[0].id, "u1");
    assert_eq!(result.stats.facts_added, 1);
    assert_eq!(result.stats.facts_skipped, 1);

    let mut target = Chronicle::new("1.0");
    target.persons.push(Person::new("alice", "Alice"));
    let options = MergeOptions { duplicates: DuplicateStrategy::Add, ..Default::default() };
    let result = merge_chronicles(target, &source, &options).unwrap();
    assert_eq!(result.chronicle.persons[0].facts.len(), 2);
}

#[test]
fn regenerated_ids_differ_from_every_existing_id() {
    let mut target = Chronicle::new("1.0");
    let mut t = Person::new("alice", "Alice");
    t.facts.push(Fact::new("a1b2c3d4-e5f6-7890-abcd-ef1234567890", "2019-01-01", "travel", "Existing event"));
    target.persons.push(t);
    let mut source = Chronicle::new("1.0");
    let mut s = Person::new("alice", "Alice");
    s.facts.push(Fact::new("a1b2c3d4-e5f6-7890-abcd-ef1234567890", "2020-06-15", "travel", "Rich event"));
    source.persons.push(s);
    let result = merge_chronicles(target, &source, &MergeOptions::default()).unwrap();
    let facts = &result.chronicle.persons[0].facts;
    assert_eq!(facts.len(), 2);
    assert_ne!(facts[1].id, facts[0].id);
    assert_eq!(facts[1].id.len(), 36);
}
