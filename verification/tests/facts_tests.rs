use kinsaga::{
    add_fact, build_attachments, build_location, collect_timeline_facts, edit_fact, fill_location, remove_fact,
    AddFactOptions, Attachment, AttachmentUpdate, Category, Chronicle, Coordinates, EditFactOptions,
    Fact, FactError, FactFilter, Location, LocationUpdate, MissingPiece, Person, WithUpdate,
};

fn create_test_chronicle() -> Chronicle {
    let mut chronicle = Chronicle::new("1.0");
    chronicle.categories.push(Category::new("family", "Family"));
    chronicle.categories.push(Category::new("travel", "Travel"));

    let mut alice = Person::new("alice", "Alice Smith");
    alice.facts.push(Fact::new("uuid-1", "2020-01-01", "family", "Test event"));
    chronicle.persons.push(alice);

    let bob = Person::new("bob", "Bob Johnson");
    chronicle.persons.push(bob);

    chronicle
}

#[test]
fn test_add_fact_basic() {
    let mut chronicle = create_test_chronicle();

    let options = AddFactOptions {
        date: "2021-06-15".to_string(),
        category: "family".to_string(),
        text: "New event".to_string(),
        ..Default::default()
    };

    let result = add_fact(&mut chronicle, "alice", options).unwrap();

    assert_eq!(result.facts_added.len(), 1);
    assert_eq!(chronicle.find_person("alice").unwrap().facts.len(), 2);
}

#[test]
fn test_add_fact_with_propagate() {
    let mut chronicle = create_test_chronicle();

    let options = AddFactOptions {
        date: "2021-06-15".to_string(),
        category: "family".to_string(),
        text: "Shared event".to_string(),
        with: Some(vec!["bob".to_string()]),
        propagate: true,
        ..Default::default()
    };

    let result = add_fact(&mut chronicle, "alice", options).unwrap();

    assert_eq!(result.facts_added.len(), 2);
    assert_eq!(chronicle.find_person("alice").unwrap().facts.len(), 2);
    assert_eq!(chronicle.find_person("bob").unwrap().facts.len(), 1);
}

#[test]
fn test_add_fact_invalid_person() {
    let mut chronicle = create_test_chronicle();

    let options = AddFactOptions {
        date: "2021-06-15".to_string(),
        category: "family".to_string(),
        text: "Test".to_string(),
        ..Default::default()
    };

    let result = add_fact(&mut chronicle, "unknown", options);
    assert!(result.is_err());
}

#[test]
fn test_add_fact_invalid_category() {
    let mut chronicle = create_test_chronicle();

    let options = AddFactOptions {
        date: "2021-06-15".to_string(),
        category: "unknown".to_string(),
        text: "Test".to_string(),
        ..Default::default()
    };

    let result = add_fact(&mut chronicle, "alice", options);
    assert!(result.is_err());
}

#[test]
fn test_add_fact_with_location() {
    let mut chronicle = create_test_chronicle();

    let options = AddFactOptions {
        date: "2021-06-15".to_string(),
        category: "travel".to_string(),
        text: "Trip".to_string(),
        location: Some(
            Location::new("France")
                .with_place("Eiffel Tower, Paris")
                .with_coordinates(Coordinates::new("48.8566", "2.3522")),
        ),
        ..Default::default()
    };

    let result = add_fact(&mut chronicle, "alice", options).unwrap();
    assert_eq!(result.facts_added.len(), 1);

    let fact = &chronicle.find_person("alice").unwrap().facts[1];
    assert!(fact.location.is_some());
    assert_eq!(fact.location.as_ref().unwrap().country, "France");
}

#[test]
fn test_collect_timeline_facts() {
    let mut chronicle = create_test_chronicle();

    // Add a fact from bob with alice
    let bob = chronicle.find_person_mut("bob").unwrap();
    bob.facts.push(
        Fact::new("uuid-2", "2020-06-15", "family", "Shared from Bob")
            .with_persons(vec!["alice".to_string()]),
    );

    let filter = FactFilter::new();
    let facts = collect_timeline_facts(&chronicle, "alice", &filter, true);

    assert_eq!(facts.len(), 2);
    // One shared fact from Bob
    assert!(facts.iter().any(|f| f.shared_from.is_some()));
}

#[test]
fn test_build_location() {
    let loc = build_location(
        Some("France".to_string()),
        Some("Paris".to_string()),
        Some("48.8566".to_string()),
        Some("2.3522".to_string()),
    )
    .unwrap();

    assert!(loc.is_some());
    let loc = loc.unwrap();
    assert_eq!(loc.country, "France");
    assert_eq!(loc.place, Some("Paris".to_string()));
    assert!(loc.coordinates.is_some());
}

#[test]
fn test_build_location_invalid_coords() {
    let result = build_location(
        Some("Test".to_string()),
        None,
        Some("100.0".to_string()), // Invalid
        Some("0.0".to_string()),
    );

    assert!(result.is_err());
}

#[test]
fn test_build_attachments() {
    let attachments = build_attachments(
        Some(vec!["https://example.com/photo.jpg".to_string()]),
        Some("image/jpeg".to_string()),
        Some("My Photo".to_string()),
    )
    .unwrap();

    assert_eq!(attachments.len(), 1);
    assert_eq!(attachments[0].content_type, Some("image/jpeg".to_string()));
    assert_eq!(attachments[0].title, Some("My Photo".to_string()));
}

#[test]
fn test_edit_fact_date() {
    let mut chronicle = create_test_chronicle();

    let result = edit_fact(
        &mut chronicle,
        "uuid-1",
        EditFactOptions {
            date: Some("2021-06-15".to_string()),
            ..Default::default()
        },
    )
    .unwrap();

    assert_eq!(result.person_id, "alice");
    let fact = &chronicle.find_person("alice").unwrap().facts[0];
    assert_eq!(fact.date, "2021-06-15");
    assert_eq!(fact.text, "Test event"); // unchanged
}

#[test]
fn test_edit_fact_text() {
    let mut chronicle = create_test_chronicle();

    edit_fact(
        &mut chronicle,
        "uuid-1",
        EditFactOptions {
            text: Some("Updated text".to_string()),
            ..Default::default()
        },
    )
    .unwrap();

    let fact = &chronicle.find_person("alice").unwrap().facts[0];
    assert_eq!(fact.text, "Updated text");
    assert_eq!(fact.date, "2020-01-01"); // unchanged
}

#[test]
fn test_edit_fact_category() {
    let mut chronicle = create_test_chronicle();

    edit_fact(
        &mut chronicle,
        "uuid-1",
        EditFactOptions {
            category: Some("travel".to_string()),
            ..Default::default()
        },
    )
    .unwrap();

    let fact = &chronicle.find_person("alice").unwrap().facts[0];
    assert_eq!(fact.category, "travel");
}

#[test]
fn test_edit_fact_location_set() {
    let mut chronicle = create_test_chronicle();

    edit_fact(
        &mut chronicle,
        "uuid-1",
        EditFactOptions {
            location: Some(LocationUpdate::SetTo(Location::new("France").with_place("Paris"))),
            ..Default::default()
        },
    )
    .unwrap();

    let fact = &chronicle.find_person("alice").unwrap().facts[0];
    assert!(fact.location.is_some());
    assert_eq!(fact.location.as_ref().unwrap().country, "France");
}

#[test]
fn test_edit_fact_location_clear() {
    let mut chronicle = create_test_chronicle();

    // First set a location
    edit_fact(
        &mut chronicle,
        "uuid-1",
        EditFactOptions {
            location: Some(LocationUpdate::SetTo(Location::new("France"))),
            ..Default::default()
        },
    )
    .unwrap();
    assert!(chronicle.find_person("alice").unwrap().facts[0].location.is_some());

    // Then clear it
    edit_fact(
        &mut chronicle,
        "uuid-1",
        EditFactOptions {
            location: Some(LocationUpdate::Clear),
            ..Default::default()
        },
    )
    .unwrap();

    let fact = &chronicle.find_person("alice").unwrap().facts[0];
    assert!(fact.location.is_none());
}

#[test]
fn test_edit_fact_with_replace() {
    let mut chronicle = create_test_chronicle();

    edit_fact(
        &mut chronicle,
        "uuid-1",
        EditFactOptions {
            with: Some(WithUpdate::Replace(vec!["bob".to_string()])),
            ..Default::default()
        },
    )
    .unwrap();

    let fact = &chronicle.find_person("alice").unwrap().facts[0];
    assert_eq!(fact.with, Some(vec!["bob".to_string()]));
}

#[test]
fn test_edit_fact_with_clear() {
    let mut chronicle = create_test_chronicle();

    // First set a 'with'
    edit_fact(
        &mut chronicle,
        "uuid-1",
        EditFactOptions {
            with: Some(WithUpdate::Replace(vec!["bob".to_string()])),
            ..Default::default()
        },
    )
    .unwrap();

    // Then clear it
    edit_fact(
        &mut chronicle,
        "uuid-1",
        EditFactOptions {
            with: Some(WithUpdate::Clear),
            ..Default::default()
        },
    )
    .unwrap();

    let fact = &chronicle.find_person("alice").unwrap().facts[0];
    assert!(fact.with.is_none());
}

#[test]
fn test_edit_fact_not_found() {
    let mut chronicle = create_test_chronicle();

    let result = edit_fact(
        &mut chronicle,
        "nonexistent-uuid",
        EditFactOptions {
            text: Some("New text".to_string()),
            ..Default::default()
        },
    );

    assert!(matches!(result.unwrap_err(), FactError::FactNotFound { .. }));
}

#[test]
fn test_edit_fact_invalid_category() {
    let mut chronicle = create_test_chronicle();

    let result = edit_fact(
        &mut chronicle,
        "uuid-1",
        EditFactOptions {
            category: Some("nonexistent".to_string()),
            ..Default::default()
        },
    );

    assert!(matches!(result.unwrap_err(), FactError::CategoryNotFound { .. }));
}

#[test]
fn test_edit_fact_multiple_fields() {
    let mut chronicle = create_test_chronicle();

    edit_fact(
        &mut chronicle,
        "uuid-1",
        EditFactOptions {
            date: Some("2022-01-01".to_string()),
            text: Some("Completely updated".to_string()),
            category: Some("travel".to_string()),
            location: Some(LocationUpdate::SetTo(Location::new("Japan").with_place("Tokyo"))),
            ..Default::default()
        },
    )
    .unwrap();

    let fact = &chronicle.find_person("alice").unwrap().facts[0];
    assert_eq!(fact.date, "2022-01-01");
    assert_eq!(fact.text, "Completely updated");
    assert_eq!(fact.category, "travel");
    assert_eq!(fact.location.as_ref().unwrap().country, "Japan");
}

#[test]
fn test_edit_fact_attachments_add() {
    let mut chronicle = create_test_chronicle();

    edit_fact(
        &mut chronicle,
        "uuid-1",
        EditFactOptions {
            attachments: Some(AttachmentUpdate::Add(vec![Attachment::new(
                "https://example.com/photo.jpg",
            )])),
            ..Default::default()
        },
    )
    .unwrap();

    let fact = &chronicle.find_person("alice").unwrap().facts[0];
    assert_eq!(fact.attachments.len(), 1);
}

#[test]
fn test_edit_fact_attachments_remove() {
    let mut chronicle = create_test_chronicle();

    // First add an attachment
    edit_fact(
        &mut chronicle,
        "uuid-1",
        EditFactOptions {
            attachments: Some(AttachmentUpdate::Add(vec![Attachment::new(
                "https://example.com/photo.jpg",
            )])),
            ..Default::default()
        },
    )
    .unwrap();
    assert_eq!(chronicle.find_person("alice").unwrap().facts[0].attachments.len(), 1);

    // Then remove it
    edit_fact(
        &mut chronicle,
        "uuid-1",
        EditFactOptions {
            attachments: Some(AttachmentUpdate::Remove(vec![
                "https://example.com/photo.jpg".to_string(),
            ])),
            ..Default::default()
        },
    )
    .unwrap();

    let fact = &chronicle.find_person("alice").unwrap().facts[0];
    assert_eq!(fact.attachments.len(), 0);
}

#[test]
fn test_edit_fact_attachments_clear() {
    let mut chronicle = create_test_chronicle();

    // Add two attachments
    edit_fact(
        &mut chronicle,
        "uuid-1",
        EditFactOptions {
            attachments: Some(AttachmentUpdate::Add(vec![
                Attachment::new("https://example.com/photo1.jpg"),
                Attachment::new("https://example.com/photo2.jpg"),
            ])),
            ..Default::default()
        },
    )
    .unwrap();
    assert_eq!(chronicle.find_person("alice").unwrap().facts[0].attachments.len(), 2);

    // Clear all
    edit_fact(
        &mut chronicle,
        "uuid-1",
        EditFactOptions {
            attachments: Some(AttachmentUpdate::Clear),
            ..Default::default()
        },
    )
    .unwrap();

    let fact = &chronicle.find_person("alice").unwrap().facts[0];
    assert_eq!(fact.attachments.len(), 0);
}

// ---------------------------------------------------------------------------

fn is_hyphenated_uuid(s: &str) -> bool {
    s.len() == 36 && uuid::Uuid::parse_str(s).is_ok()
}

#[test]
fn propagated_copies_name_the_origin_and_the_others() {
    let mut chronicle = create_test_chronicle();
    chronicle.persons.push(Person::new("carol", "Carol"));
    let result = add_fact(
        &mut chronicle,
        "alice",
        AddFactOptions {
            date: "2021".to_string(),
            category: "family".to_string(),
            text: "Reunion".to_string(),
            with: Some(vec!["bob".to_string(), "carol".to_string()]),
            propagate: true,
            ..Default::default()
        },
    )
    .unwrap();
    assert_eq!(result.facts_added.len(), 3);
    assert_eq!(result.facts_added[0].0, "alice");
    assert_eq!(result.facts_added[0].1, "Alice Smith");
    assert_eq!(result.facts_added[1].0, "bob");
    assert_eq!(result.facts_added[2].1, "Carol");
    for (_, _, id) in &result.facts_added {
        assert!(is_hyphenated_uuid(id));
    }
    let bob_fact = &chronicle.find_person("bob").unwrap().facts[0];
    assert_eq!(bob_fact.with, Some(vec!["alice".to_string(), "carol".to_string()]));
    assert_eq!(bob_fact.id, result.facts_added[1].2);
    let alice_fact = &chronicle.find_person("alice").unwrap().facts[1];
    assert_eq!(alice_fact.with, Some(vec!["bob".to_string(), "carol".to_string()]));
}

#[test]
fn add_fact_errors_in_order_and_leave_chronicle_unchanged() {
    let mut chronicle = create_test_chronicle();
    let before = chronicle.clone();

    let err = add_fact(
        &mut chronicle,
        "alice",
        AddFactOptions {
            date: "2021-13".to_string(),
            category: "nope".to_string(),
            text: "x".to_string(),
            ..Default::default()
        },
    )
    .unwrap_err();
    assert_eq!(err.message(), "Invalid date format '2021-13': invalid month: 13");

    let err = add_fact(
        &mut chronicle,
        "alice",
        AddFactOptions {
            date: "2021".to_string(),
            category: "family".to_string(),
            text: "x".to_string(),
            with: Some(vec!["bob".to_string(), "zed".to_string()]),
            ..Default::default()
        },
    )
    .unwrap_err();
    assert_eq!(err.message(), "Person 'zed' in 'with' not found. Available persons: alice, bob");

    let err = add_fact(
        &mut chronicle,
        "alice",
        AddFactOptions {
            date: "2021".to_string(),
            category: "family".to_string(),
            text: "x".to_string(),
            location: Some(Location::new("  ")),
            ..Default::default()
        },
    )
    .unwrap_err();
    assert!(matches!(err, FactError::EmptyCountry));

    let err = add_fact(
        &mut chronicle,
        "alice",
        AddFactOptions {
            date: "2021".to_string(),
            category: "family".to_string(),
            text: "x".to_string(),
            location: Some(Location::new("X").with_coordinates(Coordinates::new("0", "200"))),
            ..Default::default()
        },
    )
    .unwrap_err();
    assert_eq!(
        err.message(),
        "Invalid GPS coordinates (lat: 0, lon: 200). Valid ranges: lat -90..90, lon -180..180"
    );

    let err = add_fact(
        &mut chronicle,
        "alice",
        AddFactOptions {
            date: "2021".to_string(),
            category: "family".to_string(),
            text: "x".to_string(),
            attachments: vec![Attachment::new("a").with_content_type("jpeg")],
            ..Default::default()
        },
    )
    .unwrap_err();
    assert!(matches!(err, FactError::InvalidMimeType { ref mime } if mime == "jpeg"));

    let err = add_fact(
        &mut chronicle,
        "zed",
        AddFactOptions { date: "2021".to_string(), ..Default::default() },
    )
    .unwrap_err();
    assert_eq!(err.message(), "Person 'zed' not found. Available persons: alice, bob");

    assert_eq!(chronicle.persons.len(), before.persons.len());
    assert_eq!(chronicle.persons[0].facts.len(), 1);
    assert_eq!(chronicle.persons[1].facts.len(), 0);
}

#[test]
fn build_attachments_reports_bad_urls_and_types() {
    assert!(build_attachments(None, Some("bad".to_string()), None).unwrap().is_empty());
    let err = build_attachments(Some(vec!["not a url".to_string()]), None, None).unwrap_err();
    assert_eq!(
        err.message(),
        "Invalid URL 'not a url'. URLs must include a scheme (e.g., file://, https://, s3://)"
    );
    let err = build_attachments(Some(vec!["file:///a.jpg".to_string()]), Some("jpeg".to_string()), None)
        .unwrap_err();
    assert!(matches!(err, FactError::InvalidMimeType { .. }));
}

#[test]
fn build_location_without_country_is_none() {
    assert!(build_location(None, Some("Paris".to_string()), None, None).unwrap().is_none());
    let only_lat = build_location(Some("X".to_string()), None, Some("100".to_string()), None).unwrap().unwrap();
    assert!(only_lat.coordinates.is_none());
}

#[test]
fn edit_with_empty_replacement_drops_the_list() {
    let mut chronicle = create_test_chronicle();
    edit_fact(
        &mut chronicle,
        "uuid-1",
        EditFactOptions { with: Some(WithUpdate::Replace(vec![])), ..Default::default() },
    )
    .unwrap();
    assert!(chronicle.persons[0].facts[0].with.is_none());
}

#[test]
fn remove_fact_removes_one_copy() {
    let mut chronicle = create_test_chronicle();
    let removed = remove_fact(&mut chronicle, "uuid-1").unwrap();
    assert_eq!(removed.person_id, "alice");
    assert_eq!(removed.person_name, "Alice Smith");
    assert_eq!(removed.fact.text, "Test event");
    assert!(chronicle.persons[0].facts.is_empty());
    let err = remove_fact(&mut chronicle, "uuid-1").unwrap_err();
    assert_eq!(err.message(), "Fact with UUID 'uuid-1' not found");
}

#[test]
fn timeline_sorts_by_date_and_skips_owned_duplicates() {
    let mut chronicle = create_test_chronicle();
    chronicle.persons[0].facts.push(Fact::new("uuid-3", "2019", "family", "Earlier"));
    // A copy of alice's own fact on bob's side is not listed twice
    chronicle.persons[1].facts.push(
        Fact::new("uuid-4", "2020-01-01", "family", "Test event").with_persons(vec!["alice".to_string()]),
    );
    chronicle.persons[1].facts.push(
        Fact::new("uuid-5", "someday", "travel", "Undated").with_persons(vec!["alice".to_string()]),
    );
    let facts = collect_timeline_facts(&chronicle, "alice", &FactFilter::new(), true);
    let texts: Vec<&str> = facts.iter().map(|f| f.fact.text.as_str()).collect();
    assert_eq!(texts, ["Earlier", "Test event", "Undated"]);
    assert_eq!(facts[2].shared_from, Some("Bob Johnson"));
    assert!(collect_timeline_facts(&chronicle, "nobody", &FactFilter::new(), true).is_empty());
    assert_eq!(collect_timeline_facts(&chronicle, "alice", &FactFilter::new(), false).len(), 2);
}

#[test]
fn removing_a_unique_fact_leaves_no_fact_with_its_uuid() {
    let mut chronicle = create_test_chronicle();
    chronicle.persons[1].facts.push(Fact::new("uuid-9", "2022", "travel", "Only one"));
    let removed = remove_fact(&mut chronicle, "uuid-9").unwrap();
    assert_eq!(removed.person_id, chronicle.persons[1].id);
    assert!(!chronicle.persons.iter().flat_map(|p| p.facts.iter()).any(|f| f.id == "uuid-9"));
}

#[test]
fn add_fact_rejects_a_self_reference() {
    let mut chronicle = create_test_chronicle();
    let before_facts = chronicle.persons[0].facts.len();
    let err = add_fact(
        &mut chronicle,
        "alice",
        AddFactOptions {
            date: "2021".to_string(),
            category: "family".to_string(),
            text: "Self".to_string(),
            with: Some(vec!["bob".to_string(), "alice".to_string()]),
            propagate: true,
            ..Default::default()
        },
    )
    .unwrap_err();
    assert!(matches!(err, FactError::SelfReference { ref id } if id == "alice"));
    assert_eq!(err.message(), "Person 'alice' cannot be listed in their own 'with'");
    assert_eq!(chronicle.persons[0].facts.len(), before_facts);
    assert!(chronicle.persons[1].facts.is_empty());
}

#[test]
fn add_fact_deduplicates_the_with_list() {
    let mut chronicle = create_test_chronicle();
    chronicle.persons.push(Person::new("carol", "Carol"));
    let result = add_fact(
        &mut chronicle,
        "alice",
        AddFactOptions {
            date: "2021".to_string(),
            category: "family".to_string(),
            text: "Twice".to_string(),
            with: Some(vec!["bob".to_string(), "carol".to_string(), "bob".to_string()]),
            propagate: true,
            ..Default::default()
        },
    )
    .unwrap();
    assert_eq!(result.facts_added.len(), 3);
    let alice_fact = chronicle.persons[0].facts.last().unwrap();
    assert_eq!(alice_fact.with, Some(vec!["bob".to_string(), "carol".to_string()]));
    assert_eq!(chronicle.find_person("bob").unwrap().facts.len(), 1);
    assert_eq!(
        chronicle.find_person("bob").unwrap().facts[0].with,
        Some(vec!["alice".to_string(), "carol".to_string()])
    );
}

#[test]
fn fill_location_keeps_current_pieces() {
    let current = Some(Location::new("France").with_place("Paris").with_coordinates(Coordinates::new("48.8566", "2.3522")));
    let (c, p, a, b) = fill_location(&current, None, None, Some("49".to_string()), None).unwrap();
    assert_eq!(c, "France");
    assert_eq!(p.as_deref(), Some("Paris"));
    assert_eq!(a.as_deref(), Some("49"));
    assert_eq!(b.as_deref(), Some("2.3522"));
    let (c, p, a, b) = fill_location(&current, Some("Spain".to_string()), None, None, None).unwrap();
    assert_eq!((c.as_str(), p.as_deref(), a.as_deref(), b.as_deref()), ("Spain", Some("Paris"), Some("48.8566"), Some("2.3522")));
    assert_eq!(fill_location(&None, None, Some("x".to_string()), None, None).unwrap_err(), MissingPiece::Country);
    assert_eq!(
        fill_location(&None, Some("Spain".to_string()), None, None, Some("1".to_string())).unwrap_err(),
        MissingPiece::Latitude
    );
    assert_eq!(
        fill_location(&None, Some("Spain".to_string()), None, Some("1".to_string()), None).unwrap_err(),
        MissingPiece::Longitude
    );
}

#[test]
fn added_fact_ids_are_new_and_distinct() {
    let mut chronicle = create_test_chronicle();
    chronicle.persons.push(Person::new("carol", "Carol"));
    let result = add_fact(
        &mut chronicle,
        "alice",
        AddFactOptions {
            date: "2021".to_string(),
            category: "family".to_string(),
            text: "Trio".to_string(),
            with: Some(vec!["bob".to_string(), "carol".to_string()]),
            propagate: true,
            ..Default::default()
        },
    )
    .unwrap();
    let ids: Vec<&String> = result.facts_added.iter().map(|t| &t.2).collect();
    assert_ne!(ids[0], ids[1]);
    assert_ne!(ids[1], ids[2]);
    assert_ne!(ids[0], ids[2]);
    assert!(ids.iter().all(|id| id.as_str() != "uuid-1"));
}
