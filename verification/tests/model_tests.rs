use kinsaga::model::locations_equal;
use kinsaga::{Attachment, Category, Chronicle, Coordinates, Fact, Location, Person};

#[test]
fn test_find_person() {
    let mut chronicle = Chronicle::new("1.0");
    chronicle.persons.push(Person::new("alice", "Alice"));
    chronicle.persons.push(Person::new("bob", "Bob"));

    assert!(chronicle.find_person("alice").is_some());
    assert!(chronicle.find_person("unknown").is_none());
}

#[test]
fn test_coordinates_validation() {
    // Valid coordinates
    assert!(Coordinates::new("0.0", "0.0").is_valid());
    assert!(Coordinates::new("90.0", "180.0").is_valid());
    assert!(Coordinates::new("-90.0", "-180.0").is_valid());
    assert!(Coordinates::new("48.8566", "2.3522").is_valid()); // Paris

    // Invalid coordinates
    assert!(!Coordinates::new("91.0", "0.0").is_valid());
    assert!(!Coordinates::new("-91.0", "0.0").is_valid());
    assert!(!Coordinates::new("0.0", "181.0").is_valid());
    assert!(!Coordinates::new("0.0", "-181.0").is_valid());
}

#[test]
fn test_location_builder() {
    let loc = Location::new("France")
        .with_place("Paris")
        .with_coordinates(Coordinates::new("48.8566", "2.3522"));

    assert_eq!(loc.country, "France");
    assert_eq!(loc.place, Some("Paris".to_string()));
    assert!(loc.coordinates.is_some());
    let coords = loc.coordinates.unwrap();
    assert!((coords.lat.parse::<f64>().unwrap() - 48.8566).abs() < 0.0001);
}

#[test]
fn test_attachment_builder() {
    let att = Attachment::new("https://example.com/photo.jpg")
        .with_content_type("image/jpeg")
        .with_title("Wedding photo");

    assert_eq!(att.url, "https://example.com/photo.jpg");
    assert_eq!(att.content_type, Some("image/jpeg".to_string()));
    assert_eq!(att.title, Some("Wedding photo".to_string()));
}

#[test]
fn test_fact_with_location_and_attachments() {
    let fact = Fact::new("uuid-1", "2020-06-15", "family", "Wedding day")
        .with_location(Location::new("France").with_place("Paris"))
        .with_attachment(Attachment::new("file:///photos/wedding.jpg").with_title("Wedding photo"));

    assert!(fact.location.is_some());
    assert_eq!(fact.location.as_ref().unwrap().country, "France");
    assert_eq!(fact.attachments.len(), 1);
    assert_eq!(fact.attachments[0].title, Some("Wedding photo".to_string()));
}

// ---------------------------------------------------------------------------

#[test]
fn find_person_returns_the_first_match() {
    let mut chronicle = Chronicle::new("1.0");
    chronicle.persons.push(Person::new("alice", "First"));
    chronicle.persons.push(Person::new("alice", "Second"));
    assert_eq!(chronicle.find_person("alice").unwrap().name, "First");
    assert_eq!(chronicle.person_position("alice"), Some(0));
    chronicle.find_person_mut("alice").unwrap().name = "Changed".to_string();
    assert_eq!(chronicle.persons[0].name, "Changed");
    assert!(chronicle.find_person_mut("nobody").is_none());
}

#[test]
fn categories_are_found_by_id() {
    let mut chronicle = Chronicle::new("1.0");
    chronicle.categories.push(Category::new("family", "Family").with_color("#E57373"));
    let c = chronicle.find_category("family").unwrap();
    assert_eq!(c.color.as_deref(), Some("#E57373"));
    assert!(chronicle.has_category("family"));
    assert!(!chronicle.has_category("work"));
}

#[test]
fn coordinates_compare_by_value() {
    let a = Some(Location::new("X").with_coordinates(Coordinates::new("48.85", "2")));
    let b = Some(Location::new("X").with_coordinates(Coordinates::new("48.850", "2.0")));
    let c = Some(Location::new("X").with_coordinates(Coordinates::new("48.851", "2.0")));
    assert!(locations_equal(&a, &b));
    assert!(!locations_equal(&a, &c));
    assert!(!locations_equal(&a, &None));
    assert!(!Coordinates::new("abc", "0").is_valid());
}

#[test]
fn builders_keep_earlier_fields() {
    let fact = Fact::new("id", "2020", "family", "Text")
        .with_persons(vec!["bob".to_string()])
        .with_attachments(vec![Attachment::new("a"), Attachment::new("b")]);
    assert_eq!(fact.with, Some(vec!["bob".to_string()]));
    assert_eq!(fact.attachments.len(), 2);
    assert_eq!(fact.text, "Text");
}
