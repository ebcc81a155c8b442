use kinsaga::geocode::{envelope_error, extract_city, reverse_place, search_places, target_query_text, SearchItem};
use kinsaga::{
    apply_suggestions, check_outcome, count_facts_with_coordinates, count_facts_without_coordinates,
    evaluate_location_match, located_targets, suggest_outcome, Category, Chronicle, Coordinates, Fact,
    GeocodeError, GeocodedPlace, GpsCheckOutcome, GpsSuggestOutcome, GpsSuggestion, Location,
    NominatimAddress, Person,
};

fn geocoded(display: &str, country: Option<&str>, city: Option<&str>) -> GeocodedPlace {
    GeocodedPlace {
        display_name: display.to_string(),
        country: country.map(String::from),
        city: city.map(String::from),
        state: None,
        lat: "47.0".to_string(),
        lon: "9.0".to_string(),
    }
}

#[test]
fn test_evaluate_location_match() {
    // Country and place both match
    let loc = Location::new("CH").with_place("Mettmenalp");
    let place = geocoded("Mettmenalp, Glarus Süd, Schweiz", Some("Schweiz"), Some("Mettmenalp"));
    assert_eq!(evaluate_location_match(&loc, &place), (true, Some(true)));

    // Wrong country
    let loc = Location::new("France").with_place("Paris");
    let place = geocoded("Berlin, Deutschland", Some("Deutschland"), Some("Berlin"));
    assert_eq!(evaluate_location_match(&loc, &place), (false, Some(false)));

    // No stored place -> place match is None
    let loc = Location::new("Japan");
    let place = geocoded("Tokyo, 日本", Some("日本"), Some("Tokyo"));
    assert_eq!(evaluate_location_match(&loc, &place), (true, None));

    // Nominatim returned no country -> country cannot match
    let loc = Location::new("France");
    let place = geocoded("somewhere", None, None);
    assert_eq!(evaluate_location_match(&loc, &place), (false, None));
}

#[test]
fn test_count_and_apply_suggestions() {
    let mut chronicle = Chronicle::new("1.0");
    chronicle.categories.push(Category::new("travel", "Travel"));
    let mut alice = Person::new("alice", "Alice");
    let mut with_coords = Fact::new("uuid-1", "2020", "travel", "Trip A");
    with_coords.location = Some(
        Location::new("France").with_place("Paris").with_coordinates(Coordinates::new("48.8566", "2.3522")),
    );
    alice.facts.push(with_coords);
    let mut without_coords = Fact::new("uuid-2", "2021", "travel", "Trip B");
    without_coords.location = Some(Location::new("Japan").with_place("Tokyo"));
    alice.facts.push(without_coords);
    alice.facts.push(Fact::new("uuid-3", "2022", "travel", "No location"));
    chronicle.persons.push(alice);

    assert_eq!(count_facts_with_coordinates(&chronicle), 1);
    assert_eq!(count_facts_without_coordinates(&chronicle), 1);

    let suggestion = GpsSuggestion {
        fact_id: "uuid-2".to_string(),
        person_name: "Alice".to_string(),
        query: "Tokyo, Japan".to_string(),
        candidates: vec![geocoded("Tokyo, 日本", Some("日本"), Some("Tokyo"))],
    };
    let applied = apply_suggestions(&mut chronicle, &[suggestion]);
    assert_eq!(applied, 1);

    let coords = chronicle.persons[0].facts[1].location.as_ref().unwrap().coordinates.as_ref().unwrap();
    assert_eq!(coords.lat.parse::<f64>().unwrap(), 47.0);
    assert_eq!(coords.lon.parse::<f64>().unwrap(), 9.0);
    // Facts without location or with existing coordinates untouched
    assert!(chronicle.persons[0].facts[2].location.is_none());
}

// ---------------------------------------------------------------------------

#[test]
fn test_parse_reverse_response_success() {
    // The fields of a reverse answer for the Mettmenalp
    let place = reverse_place(
        None,
        Some("Mettmenalp, Schwändi, Glarus, Schweiz".to_string()),
        Some("46.960566".to_string()),
        Some("9.099201".to_string()),
        Some(NominatimAddress {
            country: Some("Schweiz".to_string()),
            city: None,
            town: None,
            village: Some("Schwändi".to_string()),
            state: Some("Glarus".to_string()),
        }),
    )
    .unwrap();
    assert_eq!(place.country.as_deref(), Some("Schweiz"));
    assert_eq!(place.city.as_deref(), Some("Schwändi"), "village used as city fallback");
    assert_eq!(place.state.as_deref(), Some("Glarus"));
    assert!((place.lat.parse::<f64>().unwrap() - 46.960566).abs() < 1e-9);
}

#[test]
fn test_parse_reverse_response_unable_to_geocode_is_no_results() {
    // Nominatim answers with an error field for e.g. ocean coordinates
    assert!(matches!(
        reverse_place(Some("Unable to geocode".to_string()), None, None, None, None),
        Err(GeocodeError::NoResults)
    ));
}

#[test]
fn test_parse_reverse_response_other_error() {
    assert!(matches!(
        reverse_place(Some("Rate limited".to_string()), None, None, None, None),
        Err(GeocodeError::Nominatim(msg)) if msg == "Rate limited"
    ));
}

#[test]
fn reverse_answers_missing_fields_are_parse_errors() {
    let err = reverse_place(None, Some("x".to_string()), None, Some("1".to_string()), None).unwrap_err();
    assert_eq!(err.message(), "Failed to parse response: invalid latitude in response");
    let err = reverse_place(None, None, None, None, None).unwrap_err();
    assert_eq!(err.message(), "Failed to parse response: missing display_name in response");
}

#[test]
fn city_falls_back_to_town_then_village() {
    let a = NominatimAddress {
        country: None,
        city: None,
        town: Some("Glarus".to_string()),
        village: Some("Schwändi".to_string()),
        state: None,
    };
    assert_eq!(extract_city(Some(&a)).as_deref(), Some("Glarus"));
    assert_eq!(extract_city(None), None);
}

fn chronicle_with_locations() -> Chronicle {
    let mut c = Chronicle::new("1.0");
    let mut alice = Person::new("alice", "Alice");
    alice.facts.push(
        Fact::new("f1", "2020", "travel", "A")
            .with_location(Location::new("France").with_place("Paris").with_coordinates(Coordinates::new("48.8566", "2.3522"))),
    );
    alice.facts.push(Fact::new("f2", "2021", "travel", "B").with_location(Location::new("Japan")));
    c.persons.push(alice);
    let mut bob = Person::new("bob", "Bob");
    bob.facts.push(Fact::new("f3", "2022", "travel", "C").with_location(Location::new("Italy").with_place("Rome")));
    c.persons.push(bob);
    c
}

#[test]
fn targets_come_in_document_order() {
    let c = chronicle_with_locations();
    let checks = located_targets(&c, true);
    assert_eq!(checks.len(), 1);
    assert_eq!(checks[0].fact_id, "f1");
    let suggest = located_targets(&c, false);
    let ids: Vec<&str> = suggest.iter().map(|t| t.fact_id.as_str()).collect();
    assert_eq!(ids, ["f2", "f3"]);
    assert_eq!(suggest[1].person_name, "Bob");
    assert_eq!(target_query_text(&suggest[0]), "Japan");
    assert_eq!(target_query_text(&suggest[1]), "Rome, Italy");
}

#[test]
fn check_outcomes_report_matches_and_failures() {
    let c = chronicle_with_locations();
    let t = &located_targets(&c, true)[0];
    match check_outcome(t, Ok(geocoded("Paris, France", Some("France"), Some("Paris")))) {
        GpsCheckOutcome::Checked(v) => {
            assert!(!v.is_mismatch());
            assert_eq!(v.stored_lat, "48.8566");
            assert_eq!(v.person_name, "Alice");
        },
        _ => panic!("expected a checked outcome"),
    }
    match check_outcome(t, Ok(geocoded("Berlin", Some("Deutschland"), Some("Berlin")))) {
        GpsCheckOutcome::Checked(v) => assert!(v.is_mismatch()),
        _ => panic!("expected a checked outcome"),
    }
    match check_outcome(t, Err(GeocodeError::HttpError("down".to_string()))) {
        GpsCheckOutcome::Failed { fact_id, error, .. } => {
            assert_eq!(fact_id, "f1");
            assert_eq!(error.message(), "HTTP request failed: down");
        },
        _ => panic!("expected a failure"),
    }
}

#[test]
fn suggest_outcomes_by_answer() {
    let c = chronicle_with_locations();
    let t = &located_targets(&c, false)[1];
    assert!(matches!(suggest_outcome(t, "Rome, Italy".to_string(), Ok(vec![])), GpsSuggestOutcome::NoResults { .. }));
    assert!(matches!(
        suggest_outcome(t, "Rome, Italy".to_string(), Err(GeocodeError::NoResults)),
        GpsSuggestOutcome::NoResults { .. }
    ));
    assert!(matches!(
        suggest_outcome(t, "Rome, Italy".to_string(), Err(GeocodeError::ParseError("x".to_string()))),
        GpsSuggestOutcome::Failed { .. }
    ));
    match suggest_outcome(t, "Rome, Italy".to_string(), Ok(vec![geocoded("Roma", Some("Italia"), Some("Roma"))])) {
        GpsSuggestOutcome::Suggested(s) => {
            assert_eq!(s.fact_id, "f3");
            assert_eq!(s.query, "Rome, Italy");
            assert_eq!(s.candidates.len(), 1);
        },
        _ => panic!("expected a suggestion"),
    }
}

#[test]
fn suggestions_without_candidates_change_nothing() {
    let mut c = chronicle_with_locations();
    let s = GpsSuggestion {
        fact_id: "f2".to_string(),
        person_name: "Alice".to_string(),
        query: "Japan".to_string(),
        candidates: vec![],
    };
    assert_eq!(apply_suggestions(&mut c, &[s]), 0);
    assert!(c.persons[0].facts[1].location.as_ref().unwrap().coordinates.is_none());
}

#[test]
fn search_answers_keep_results_with_numeric_coordinates() {
    let items = vec![
        SearchItem {
            display_name: "Paris, France".to_string(),
            lat: Some("48.8566".to_string()),
            lon: Some("2.3522".to_string()),
            address: Some(NominatimAddress {
                country: Some("France".to_string()),
                city: Some("Paris".to_string()),
                town: None,
                village: None,
                state: None,
            }),
        },
        SearchItem { display_name: "Nowhere".to_string(), lat: None, lon: Some("1".to_string()), address: None },
    ];
    let places = search_places(&items);
    assert_eq!(places.len(), 1);
    assert_eq!(places[0].city.as_deref(), Some("Paris"));
    assert_eq!(places[0].country.as_deref(), Some("France"));
    assert_eq!(places[0].lat, "48.8566");
}

#[test]
fn search_error_envelopes_give_their_message() {
    let e = envelope_error(None, Some("Parameter 'q' missing".to_string()), "{}".to_string());
    assert!(matches!(e, GeocodeError::Nominatim(ref m) if m == "Parameter 'q' missing"));
    let e = envelope_error(Some("boom".to_string()), None, "\"boom\"".to_string());
    assert!(matches!(e, GeocodeError::Nominatim(ref m) if m == "boom"));
    let e = envelope_error(None, None, "{\"code\":1}".to_string());
    assert!(matches!(e, GeocodeError::Nominatim(ref m) if m == "{\"code\":1}"));
}
