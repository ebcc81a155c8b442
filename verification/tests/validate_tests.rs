use kinsaga::{
    add_fact, correct_uuids, edit_fact, is_valid_id, is_valid_mime_type, validate_chronicle,
    AddFactOptions, Attachment, Category, Chronicle, Coordinates, EditFactOptions, Fact, IssueType,
    Location, LocationUpdate, Person,
};
use uuid::Uuid;

#[test]
fn test_is_valid_id() {
    assert!(is_valid_id("alice"));
    assert!(is_valid_id("john-doe"));
    assert!(is_valid_id("cat_2"));
    assert!(!is_valid_id(""));
    assert!(!is_valid_id("Alice"));
    assert!(!is_valid_id("2cool"));
    assert!(!is_valid_id("has space"));
    assert!(!is_valid_id("umläut"));
}

#[test]
fn test_validate_invalid_id_pattern_warns() {
    let mut chronicle = Chronicle::new("1.0");
    chronicle.categories.push(Category::new("Family", "Family"));
    chronicle.persons.push(Person::new("Alice Smith", "Alice"));

    let result = validate_chronicle(&chronicle);
    let id_warnings: Vec<_> = result.warnings.iter().filter(|i| i.issue_type == IssueType::InvalidId).collect();
    assert_eq!(id_warnings.len(), 2);
}

#[test]
fn test_is_valid_mime_type() {
    assert!(is_valid_mime_type("image/jpeg"));
    assert!(is_valid_mime_type("application/pdf"));
    assert!(is_valid_mime_type("text/plain"));
    assert!(is_valid_mime_type("application/vnd.ms-excel"));
    assert!(is_valid_mime_type("image/svg+xml"));

    assert!(!is_valid_mime_type("invalid"));
    assert!(!is_valid_mime_type(""));
    assert!(!is_valid_mime_type("/jpeg"));
    assert!(!is_valid_mime_type("image/"));
    assert!(!is_valid_mime_type("image/jpeg/extra"));
}

#[test]
fn test_validate_empty_chronicle() {
    let chronicle = Chronicle::new("1.0");
    let result = validate_chronicle(&chronicle);
    assert!(result.is_valid());
    assert_eq!(result.person_count, 0);
    assert_eq!(result.fact_count, 0);
}

#[test]
fn test_validate_valid_chronicle() {
    let mut chronicle = Chronicle::new("1.0");
    chronicle.categories.push(Category::new("family", "Family"));

    let mut person = Person::new("alice", "Alice");
    person.facts.push(Fact::new("a1b2c3d4-e5f6-7890-abcd-ef1234567890", "2020-01-01", "family", "Test event"));
    chronicle.persons.push(person);

    let result = validate_chronicle(&chronicle);
    assert!(result.is_valid());
}

#[test]
fn test_validate_invalid_uuid() {
    let mut chronicle = Chronicle::new("1.0");
    chronicle.categories.push(Category::new("family", "Family"));

    let mut person = Person::new("alice", "Alice");
    person.facts.push(Fact::new("not-a-uuid", "2020-01-01", "family", "Test"));
    chronicle.persons.push(person);

    let result = validate_chronicle(&chronicle);
    assert!(!result.is_valid());
    assert_eq!(result.warnings.len(), 1);
    assert_eq!(result.warnings[0].issue_type, IssueType::InvalidUuid);
}

#[test]
fn test_validate_unknown_version_warns() {
    let chronicle = Chronicle::new("2.0");
    let result = validate_chronicle(&chronicle);
    assert_eq!(result.warnings.len(), 1);
    assert_eq!(result.warnings[0].issue_type, IssueType::UnknownVersion);

    assert!(validate_chronicle(&Chronicle::new("1.0")).is_valid());
}

#[test]
fn test_validate_empty_names_warn() {
    let mut chronicle = Chronicle::new("1.0");
    chronicle.categories.push(Category::new("family", "  "));
    chronicle.persons.push(Person::new("alice", ""));

    let result = validate_chronicle(&chronicle);
    let empty_names: Vec<_> = result.warnings.iter().filter(|i| i.issue_type == IssueType::EmptyName).collect();
    assert_eq!(empty_names.len(), 2, "person name and category label");
}

#[test]
fn test_validate_implausible_date_warns() {
    let mut chronicle = Chronicle::new("1.0");
    chronicle.categories.push(Category::new("family", "Family"));
    let mut person = Person::new("alice", "Alice");
    person.facts.push(Fact::new("a1b2c3d4-e5f6-7890-abcd-ef1234567890", "2023-02-31", "family", "Impossible day"));
    chronicle.persons.push(person);

    let result = validate_chronicle(&chronicle);
    assert_eq!(result.warnings.len(), 1);
    assert_eq!(result.warnings[0].issue_type, IssueType::ImplausibleDate);

    // Leap day, plain day, and incomplete dates stay clean
    for ok in ["2024-02-29", "2023-02-28", "2023-02", "2023"] {
        let mut c = Chronicle::new("1.0");
        c.categories.push(Category::new("family", "Family"));
        let mut p = Person::new("alice", "Alice");
        p.facts.push(Fact::new("a1b2c3d4-e5f6-7890-abcd-ef1234567890", ok, "family", "Fine"));
        c.persons.push(p);
        assert!(validate_chronicle(&c).is_valid(), "'{ok}' must validate clean");
    }
}

#[test]
fn test_validate_duplicate_uuid() {
    let mut chronicle = Chronicle::new("1.0");
    chronicle.categories.push(Category::new("family", "Family"));

    let uuid = "a1b2c3d4-e5f6-7890-abcd-ef1234567890";
    let mut person = Person::new("alice", "Alice");
    person.facts.push(Fact::new(uuid, "2020-01-01", "family", "Event 1"));
    person.facts.push(Fact::new(uuid, "2020-01-02", "family", "Event 2"));
    chronicle.persons.push(person);

    let result = validate_chronicle(&chronicle);
    assert!(!result.has_no_errors());
    assert_eq!(result.errors.len(), 1);
    assert_eq!(result.errors[0].issue_type, IssueType::DuplicateUuid);
}

#[test]
fn test_chronicle_with_invalid_attachment_url_loads_and_warns() {
    // A malformed attachment URL must be a warning, not a load failure
    let mut chronicle = Chronicle::new("1.0");
    chronicle.categories.push(Category::new("family", "Family"));
    let mut person = Person::new("alice", "Alice");
    person.facts.push(
        Fact::new("a1b2c3d4-e5f6-7890-abcd-ef1234567890", "2020-01-01", "family", "Event")
            .with_attachment(Attachment::new("not a url")),
    );
    chronicle.persons.push(person);
    let result = validate_chronicle(&chronicle);
    assert!(result.warnings.iter().any(|i| i.issue_type == IssueType::InvalidUrl));
}

#[test]
fn test_validate_duplicate_person_and_category_ids() {
    let mut chronicle = Chronicle::new("1.0");
    chronicle.categories.push(Category::new("family", "Family"));
    chronicle.categories.push(Category::new("family", "Family 2"));
    chronicle.persons.push(Person::new("alice", "Alice"));
    chronicle.persons.push(Person::new("alice", "Alice 2"));

    let result = validate_chronicle(&chronicle);
    assert!(!result.has_no_errors());
    assert!(result.errors.iter().any(|i| i.issue_type == IssueType::DuplicateCategoryId));
    assert!(result.errors.iter().any(|i| i.issue_type == IssueType::DuplicatePersonId));
}

#[test]
fn test_validate_diverged_shared_fact_detected() {
    let mut chronicle = Chronicle::new("1.0");
    chronicle.categories.push(Category::new("family", "Family"));
    chronicle.persons.push(Person::new("alice", "Alice"));
    chronicle.persons.push(Person::new("bob", "Bob"));

    let added = add_fact(
        &mut chronicle,
        "alice",
        AddFactOptions {
            date: "2024-06-01".to_string(),
            category: "family".to_string(),
            text: "Picnic".to_string(),
            with: Some(vec!["bob".to_string()]),
            propagate: true,
            ..Default::default()
        },
    )
    .unwrap();

    // Healthy propagation validates clean
    assert!(validate_chronicle(&chronicle).is_valid());

    // Edit one copy's location only → the pair is flagged as drift
    let alice_fact_id = added.facts_added[0].2.clone();
    edit_fact(
        &mut chronicle,
        &alice_fact_id,
        EditFactOptions {
            location: Some(LocationUpdate::SetTo(Location::new("France"))),
            ..Default::default()
        },
    )
    .unwrap();

    let result = validate_chronicle(&chronicle);
    let drift: Vec<_> = result.warnings.iter().filter(|i| i.issue_type == IssueType::DivergedSharedFact).collect();
    assert_eq!(drift.len(), 1, "exactly one drift pair");
    assert!(drift[0].message.contains("location"));
    assert!(drift[0].message.contains("bob"));
}

#[test]
fn test_validate_perspective_phrased_shared_facts_stay_clean() {
    // Hand-authored shared facts legitimately word each side from its
    // own perspective; different text alone must not warn
    let mut chronicle = Chronicle::new("1.0");
    chronicle.categories.push(Category::new("family", "Family"));
    let mut alice = Person::new("alice", "Alice");
    alice.facts.push(
        Fact::new("a1b2c3d4-e5f6-7890-abcd-ef1234567890", "2015", "family", "Married Bob")
            .with_persons(vec!["bob".to_string()]),
    );
    chronicle.persons.push(alice);
    let mut bob = Person::new("bob", "Bob");
    bob.facts.push(
        Fact::new("b1b2c3d4-e5f6-7890-abcd-ef1234567890", "2015", "family", "Married Alice")
            .with_persons(vec!["alice".to_string()]),
    );
    chronicle.persons.push(bob);

    assert!(validate_chronicle(&chronicle).is_valid());

    // Per-side attachments on a text-matched pair are fine too (each
    // side keeps its own photos, as in the sample chronicle)
    chronicle.persons[0].facts[0].text = "Married".to_string();
    chronicle.persons[1].facts[0].text = "Married".to_string();
    chronicle.persons[0].facts[0].attachments.push(Attachment::new("file:///photos/wedding.jpg"));
    assert!(validate_chronicle(&chronicle).is_valid());

    // ...but a category disagreement on a perspective-phrased pair
    // still warns: perspective phrasing wouldn't change the category
    chronicle.persons[0].facts[0].text = "Married Bob".to_string();
    chronicle.persons[1].facts[0].text = "Married Alice".to_string();
    chronicle.categories.push(Category::new("travel", "Travel"));
    chronicle.persons[1].facts[0].category = "travel".to_string();
    let result = validate_chronicle(&chronicle);
    assert!(result
        .warnings
        .iter()
        .any(|i| i.issue_type == IssueType::DivergedSharedFact && i.message.contains("category")));
}

#[test]
fn test_validate_distinct_shared_events_same_date_stay_clean() {
    let mut chronicle = Chronicle::new("1.0");
    chronicle.categories.push(Category::new("family", "Family"));
    chronicle.persons.push(Person::new("alice", "Alice"));
    chronicle.persons.push(Person::new("bob", "Bob"));

    // Two different shared events on the same date: every copy pairs up
    // exactly, so drift detection must stay silent
    for text in ["Breakfast together", "Evening concert"] {
        add_fact(
            &mut chronicle,
            "alice",
            AddFactOptions {
                date: "2024-06-01".to_string(),
                category: "family".to_string(),
                text: text.to_string(),
                with: Some(vec!["bob".to_string()]),
                propagate: true,
                ..Default::default()
            },
        )
        .unwrap();
    }

    assert!(validate_chronicle(&chronicle).is_valid());
}

#[test]
fn test_correct_uuids() {
    let mut chronicle = Chronicle::new("1.0");
    chronicle.categories.push(Category::new("family", "Family"));

    let mut person = Person::new("alice", "Alice");
    person.facts.push(Fact::new("invalid", "2020-01-01", "family", "Test"));
    chronicle.persons.push(person);

    let corrections = vec![("alice".to_string(), "invalid".to_string())];
    let fixed = correct_uuids(chronicle, &corrections);

    assert_ne!(fixed.persons[0].facts[0].id, "invalid");
    assert!(Uuid::parse_str(&fixed.persons[0].facts[0].id).is_ok());
}

#[test]
fn test_correct_uuids_duplicate_keeps_first_occurrence() {
    let mut chronicle = Chronicle::new("1.0");
    chronicle.categories.push(Category::new("family", "Family"));

    let uuid = "a1b2c3d4-e5f6-7890-abcd-ef1234567890";
    let mut person = Person::new("alice", "Alice");
    person.facts.push(Fact::new(uuid, "2020-01-01", "family", "Event 1"));
    person.facts.push(Fact::new(uuid, "2020-01-02", "family", "Event 2"));
    chronicle.persons.push(person);

    let result = validate_chronicle(&chronicle);
    let fixed = correct_uuids(chronicle, &result.needs_correction);

    let facts = &fixed.persons[0].facts;
    assert_eq!(facts[0].id, uuid, "first occurrence keeps its UUID");
    assert_ne!(facts[1].id, uuid, "duplicate gets a new UUID");
    assert!(Uuid::parse_str(&facts[1].id).is_ok());
}

#[test]
fn test_correct_uuids_cross_person_duplicate() {
    let mut chronicle = Chronicle::new("1.0");
    chronicle.categories.push(Category::new("family", "Family"));

    let uuid = "a1b2c3d4-e5f6-7890-abcd-ef1234567890";
    let mut alice = Person::new("alice", "Alice");
    alice.facts.push(Fact::new(uuid, "2020-01-01", "family", "Alice event"));
    chronicle.persons.push(alice);
    let mut bob = Person::new("bob", "Bob");
    bob.facts.push(Fact::new(uuid, "2020-01-02", "family", "Bob event"));
    chronicle.persons.push(bob);

    let result = validate_chronicle(&chronicle);
    let fixed = correct_uuids(chronicle, &result.needs_correction);

    assert_eq!(fixed.persons[0].facts[0].id, uuid, "Alice keeps her UUID");
    assert_ne!(fixed.persons[1].facts[0].id, uuid, "Bob's duplicate is regenerated");
}

#[test]
fn test_correct_uuids_multiple_empty_ids() {
    let mut chronicle = Chronicle::new("1.0");
    chronicle.categories.push(Category::new("family", "Family"));

    let mut person = Person::new("alice", "Alice");
    person.facts.push(Fact::new("", "2020-01-01", "family", "Event 1"));
    person.facts.push(Fact::new("", "2020-01-02", "family", "Event 2"));
    chronicle.persons.push(person);

    let result = validate_chronicle(&chronicle);
    let fixed = correct_uuids(chronicle, &result.needs_correction);

    let facts = &fixed.persons[0].facts;
    assert!(Uuid::parse_str(&facts[0].id).is_ok());
    assert!(Uuid::parse_str(&facts[1].id).is_ok());
    assert_ne!(facts[0].id, facts[1].id, "each fact gets a distinct UUID");
}

// ---------------------------------------------------------------------------

const GOOD: &str = "a1b2c3d4-e5f6-7890-abcd-ef1234567890";

fn one_fact(f: Fact) -> Chronicle {
    let mut c = Chronicle::new("1.0");
    c.categories.push(Category::new("family", "Family"));
    c.persons.push(Person::new("bob", "Bob"));
    let mut p = Person::new("alice", "Alice");
    p.facts.push(f);
    c.persons.push(p);
    c
}

#[test]
fn warning_messages_are_exact() {
    let c = one_fact(
        Fact::new(GOOD, "2023-13", "work", "A very long description that goes on and on")
            .with_persons(vec!["bob".to_string(), "zed".to_string()])
            .with_location(Location::new(" ").with_coordinates(Coordinates::new("95", "10")))
            .with_attachment(Attachment::new("nope").with_content_type("jpeg")),
    );
    let r = validate_chronicle(&c);
    let msgs: Vec<&str> = r.warnings.iter().map(|w| w.message.as_str()).collect();
    assert_eq!(
        msgs,
        [
            "Unknown category 'work'",
            "Invalid date '2023-13' - invalid month: 13",
            "Unknown person reference 'zed'",
            "Empty country in location",
            "Invalid GPS coordinates (lat: 95, lon: 10). Valid ranges: lat -90..90, lon -180..180",
            "Attachment 1: invalid URL 'nope' (must include a scheme, e.g. file://, https://)",
            "Attachment 1: invalid MIME type 'jpeg' (expected format: type/subtype)",
        ]
    );
    assert!(r.warnings.iter().all(|w| w.person_id == "alice" && w.fact_id.as_deref() == Some(GOOD)));
    assert!(r.errors.is_empty());
    assert!(r.needs_correction.is_empty());
    assert_eq!(r.person_count, 2);
    assert_eq!(r.fact_count, 1);
}

#[test]
fn uuid_messages_and_corrections() {
    let mut c = one_fact(Fact::new("", "2020", "family", "A very long description that goes on and on"));
    c.persons[1].facts.push(Fact::new("xyz", "2020", "family", "Short"));
    let r = validate_chronicle(&c);
    assert_eq!(r.warnings[0].message, "Empty UUID for fact 'A very long description tha...'");
    assert_eq!(r.warnings[1].message, "Invalid UUID format 'xyz' for fact 'Short'");
    assert_eq!(
        r.needs_correction,
        vec![("alice".to_string(), "".to_string()), ("alice".to_string(), "xyz".to_string())]
    );
    let fixed = correct_uuids(c, &r.needs_correction);
    assert!(validate_chronicle(&fixed).is_valid());
}

#[test]
fn implausible_date_message_pads_the_month() {
    let r = validate_chronicle(&one_fact(Fact::new(GOOD, "2023-02-29", "family", "x")));
    assert_eq!(r.warnings[0].message, "Implausible date '2023-02-29' - day 29 does not exist in 2023-02");
    let r = validate_chronicle(&one_fact(Fact::new(GOOD, "2000-02-29", "family", "x")));
    assert!(r.is_valid(), "2000 is a leap year");
    let r = validate_chronicle(&one_fact(Fact::new(GOOD, "1900-02-29", "family", "x")));
    assert_eq!(r.warnings[0].issue_type, IssueType::ImplausibleDate, "1900 is not");
    let r = validate_chronicle(&one_fact(Fact::new(GOOD, "12000-01-01", "family", "x")));
    assert_eq!(r.warnings[0].issue_type, IssueType::ImplausibleDate, "beyond year 9999");
}

#[test]
fn uuid_forms_that_parse() {
    for id in [
        "A1B2C3D4-E5F6-7890-ABCD-EF1234567890",
        "a1b2c3d4e5f67890abcdef1234567890",
        "{a1b2c3d4-e5f6-7890-abcd-ef1234567890}",
        "urn:uuid:a1b2c3d4-e5f6-7890-abcd-ef1234567890",
        "URN:UUID:a1b2c3d4-e5f6-7890-abcd-ef1234567890",
    ] {
        assert!(validate_chronicle(&one_fact(Fact::new(id, "2020", "family", "x"))).is_valid(), "{id}");
    }
    for id in ["a1b2c3d4-e5f6-7890-abcd-ef123456789", "g1b2c3d4-e5f6-7890-abcd-ef1234567890"] {
        let r = validate_chronicle(&one_fact(Fact::new(id, "2020", "family", "x")));
        assert_eq!(r.warnings[0].issue_type, IssueType::InvalidUuid, "{id}");
    }
}

#[test]
fn issue_types_that_are_errors() {
    assert!(IssueType::DuplicateUuid.is_error());
    assert!(IssueType::DuplicatePersonId.is_error());
    assert!(IssueType::DuplicateCategoryId.is_error());
    assert!(!IssueType::InvalidUuid.is_error());
    assert!(!IssueType::DivergedSharedFact.is_error());
}

#[test]
fn no_errors_exactly_when_ids_are_unique() {
    let mut c = one_fact(Fact::new(GOOD, "2020", "family", "x"));
    assert!(validate_chronicle(&c).has_no_errors());
    c.persons[0].facts.push(Fact::new(GOOD, "2021", "family", "y"));
    let r = validate_chronicle(&c);
    assert_eq!(r.errors.len(), 1);
    assert_eq!(r.errors[0].message, format!("Duplicate UUID '{GOOD}' for fact 'x'"));
    assert_eq!(r.errors[0].person_id, "alice");
}

#[test]
fn corrected_chronicle_validates_clean_and_a_second_pass_changes_nothing() {
    let mut c = Chronicle::new("1.0");
    c.categories.push(Category::new("family", "Family"));
    let mut alice = Person::new("alice", "Alice");
    alice.facts.push(Fact::new(GOOD, "2020-01-01", "family", "One"));
    alice.facts.push(Fact::new(GOOD, "2020-01-02", "family", "Two"));
    alice.facts.push(Fact::new("", "2020-01-03", "family", "Three"));
    alice.facts.push(Fact::new("bad", "2020-01-04", "family", "Four"));
    c.persons.push(alice);
    let r = validate_chronicle(&c);
    assert_eq!(r.needs_correction.len(), 3);
    let fixed = correct_uuids(c, &r.needs_correction);
    let ids: Vec<&str> = fixed.persons[0].facts.iter().map(|f| f.id.as_str()).collect();
    assert_eq!(ids[0], GOOD);
    for (i, a) in ids.iter().enumerate() {
        assert!(Uuid::parse_str(a).is_ok());
        for b in &ids[i + 1..] {
            assert_ne!(a, b);
        }
    }
    let r2 = validate_chronicle(&fixed);
    assert!(r2.errors.is_empty());
    assert!(r2.needs_correction.is_empty());
    let again = correct_uuids(fixed.clone(), &r2.needs_correction);
    for (a, b) in again.persons[0].facts.iter().zip(fixed.persons[0].facts.iter()) {
        assert_eq!(a.id, b.id);
    }
}

fn mirrored(text_a: &str, cat_a: &str, text_b: &str, cat_b: &str) -> Chronicle {
    let mut c = Chronicle::new("1.0");
    c.categories.push(Category::new("family", "Family"));
    c.categories.push(Category::new("travel", "Travel"));
    let mut alice = Person::new("alice", "Alice");
    alice.facts.push(Fact::new(GOOD, "2015", cat_a, text_a).with_persons(vec!["bob".to_string()]));
    c.persons.push(alice);
    let mut bob = Person::new("bob", "Bob");
    bob.facts.push(
        Fact::new("b1b2c3d4-e5f6-7890-abcd-ef1234567890", "2015", cat_b, text_b).with_persons(vec!["alice".to_string()]),
    );
    c.persons.push(bob);
    c
}

#[test]
fn mirrored_shared_fact_drift_cases() {
    let drift = |c: &Chronicle| -> Vec<String> {
        validate_chronicle(c)
            .warnings
            .iter()
            .filter(|i| i.issue_type == IssueType::DivergedSharedFact)
            .map(|i| i.message.clone())
            .collect()
    };
    assert!(drift(&mirrored("Married Bob", "family", "Married Alice", "family")).is_empty());
    let mut same = mirrored("Married", "family", "Married", "family");
    same.persons[1].facts[0].attachments.push(Attachment::new("file:///x.jpg"));
    assert!(drift(&same).is_empty());
    let d = drift(&mirrored("Married Bob", "family", "Married Alice", "travel"));
    assert_eq!(d.len(), 1);
    assert_eq!(
        d[0],
        "Shared facts 'Married Bob' (a1b2c3d4-e5f6-7890-abcd-ef1234567890) and 'Married Alice' ('bob', \
         b1b2c3d4-e5f6-7890-abcd-ef1234567890) on 2015 differ in category ('family' vs 'travel')"
    );
}

#[test]
fn revalidation_after_correction_reports_no_uuid_issue() {
    let mut c = Chronicle::new("1.0");
    c.categories.push(Category::new("family", "Family"));
    let mut alice = Person::new("alice", "Alice");
    alice.facts.push(Fact::new("", "2020", "family", "One"));
    alice.facts.push(Fact::new("nope", "2021", "family", "Two"));
    alice.facts.push(Fact::new(GOOD, "2022", "family", "Three"));
    c.persons.push(alice);
    let mut bob = Person::new("bob", "Bob");
    bob.facts.push(Fact::new(GOOD, "2023", "family", "Four"));
    c.persons.push(bob);
    let r = validate_chronicle(&c);
    let fixed = correct_uuids(c, &r.needs_correction);
    let r2 = validate_chronicle(&fixed);
    let uuid_kind = |t: IssueType| matches!(t, IssueType::EmptyUuid | IssueType::InvalidUuid | IssueType::DuplicateUuid);
    assert!(r2.errors.iter().all(|i| !uuid_kind(i.issue_type)));
    assert!(r2.warnings.iter().all(|i| !uuid_kind(i.issue_type)));
    assert!(r2.needs_correction.is_empty());
    assert_eq!(fixed.persons[0].facts[2].id, GOOD);
    assert_ne!(fixed.persons[1].facts[0].id, GOOD);
    assert_eq!(fixed.persons[1].facts[0].text, "Four");
}
