//! Checking and suggesting GPS coordinates against a geocoding service.
//!
//! The service itself (HTTP requests, rate limiting) is driven by the
//! program; this module decides which facts to look up, what to ask, and
//! what each answer means.
use vstd::prelude::*;
use crate::country::{fuzzy_match, names_match, query_text, suggestion_query};
use crate::lists::concat;
use crate::model::{
    Chronicle, ChronicleView, Coordinates, CoordinatesView, Fact, FactView, Location, LocationView,
    Person, PersonView,
};
use crate::text::{own, own_opt, str_eq};
use crate::validate::fact_total;

verus! {

// ---------------------------------------------------------------------------
// Places and errors
// ---------------------------------------------------------------------------

/// Errors that can occur during geocoding operations.
#[derive(Debug)]
pub enum GeocodeError {
    HttpError(String),
    ParseError(String),
    Nominatim(String),
    NoResults,
    /// Coordinates out of range, as decimal text.
    InvalidCoordinates { lat: String, lon: String },
}

/// View of a [`GeocodeError`].
pub enum GeocodeErrorView {
    HttpError(Seq<char>),
    ParseError(Seq<char>),
    Nominatim(Seq<char>),
    NoResults,
    InvalidCoordinates { lat: Seq<char>, lon: Seq<char> },
}

impl View for GeocodeError {
    type V = GeocodeErrorView;

    open spec fn view(&self) -> GeocodeErrorView {
        match self {
            GeocodeError::HttpError(s) => GeocodeErrorView::HttpError(s@),
            GeocodeError::ParseError(s) => GeocodeErrorView::ParseError(s@),
            GeocodeError::Nominatim(s) => GeocodeErrorView::Nominatim(s@),
            GeocodeError::NoResults => GeocodeErrorView::NoResults,
            GeocodeError::InvalidCoordinates { lat, lon } => GeocodeErrorView::InvalidCoordinates {
                lat: lat@,
                lon: lon@,
            },
        }
    }
}

/// The human-readable description of a geocoding error.
pub open spec fn geocode_error_message(e: GeocodeErrorView) -> Seq<char> {
    match e {
        GeocodeErrorView::HttpError(s) => "HTTP request failed: "@ + s,
        GeocodeErrorView::ParseError(s) => "Failed to parse response: "@ + s,
        GeocodeErrorView::Nominatim(s) => "Nominatim error: "@ + s,
        GeocodeErrorView::NoResults => "No results found"@,
        GeocodeErrorView::InvalidCoordinates { lat, lon } => "Invalid coordinates: lat="@ + lat + ", lon="@
            + lon,
    }
}

impl GeocodeError {
    /// The human-readable description of this error.
    pub fn message(&self) -> (r: String)
        ensures
            r@ == geocode_error_message(self@),
    {
        match self {
            GeocodeError::HttpError(s) => {
                let mut m = String::from_str("HTTP request failed: ");
                m.append(s.as_str());
                m
            },
            GeocodeError::ParseError(s) => {
                let mut m = String::from_str("Failed to parse response: ");
                m.append(s.as_str());
                m
            },
            GeocodeError::Nominatim(s) => {
                let mut m = String::from_str("Nominatim error: ");
                m.append(s.as_str());
                m
            },
            GeocodeError::NoResults => String::from_str("No results found"),
            GeocodeError::InvalidCoordinates { lat, lon } => {
                let mut m = String::from_str("Invalid coordinates: lat=");
                m.append(lat.as_str());
                m.append(", lon=");
                m.append(lon.as_str());
                m
            },
        }
    }
}

/// A place returned by Nominatim; coordinates as decimal text.
#[derive(Debug)]
pub struct GeocodedPlace {
    /// Display name (full address)
    pub display_name: String,
    /// Country name
    pub country: Option<String>,
    /// City/town/village
    pub city: Option<String>,
    /// State/province/region
    pub state: Option<String>,
    /// Latitude
    pub lat: String,
    /// Longitude
    pub lon: String,
}

/// View of a [`GeocodedPlace`].
pub struct PlaceView {
    pub display_name: Seq<char>,
    pub country: Option<Seq<char>>,
    pub city: Option<Seq<char>>,
    pub state: Option<Seq<char>>,
    pub lat: Seq<char>,
    pub lon: Seq<char>,
}

impl View for GeocodedPlace {
    type V = PlaceView;

    open spec fn view(&self) -> PlaceView {
        PlaceView {
            display_name: self.display_name@,
            country: self.country.deep_view(),
            city: self.city.deep_view(),
            state: self.state.deep_view(),
            lat: self.lat@,
            lon: self.lon@,
        }
    }
}

impl DeepView for GeocodedPlace {
    type V = PlaceView;

    open spec fn deep_view(&self) -> PlaceView {
        self@
    }
}

impl Clone for GeocodedPlace {
    fn clone(&self) -> (r: Self)
        ensures
            r@ == self@,
    {
        GeocodedPlace {
            display_name: self.display_name.clone(),
            country: own_opt(&self.country),
            city: own_opt(&self.city),
            state: own_opt(&self.state),
            lat: self.lat.clone(),
            lon: self.lon.clone(),
        }
    }
}

/// Address fields of a Nominatim answer.
#[derive(Debug)]
pub struct NominatimAddress {
    pub country: Option<String>,
    pub city: Option<String>,
    pub town: Option<String>,
    pub village: Option<String>,
    pub state: Option<String>,
}

/// View of a [`NominatimAddress`].
pub struct AddressView {
    pub country: Option<Seq<char>>,
    pub city: Option<Seq<char>>,
    pub town: Option<Seq<char>>,
    pub village: Option<Seq<char>>,
    pub state: Option<Seq<char>>,
}

impl View for NominatimAddress {
    type V = AddressView;

    open spec fn view(&self) -> AddressView {
        AddressView {
            country: self.country.deep_view(),
            city: self.city.deep_view(),
            town: self.town.deep_view(),
            village: self.village.deep_view(),
            state: self.state.deep_view(),
        }
    }
}

/// The city of an address: its city, else its town, else its village.
pub open spec fn city_of(a: Option<AddressView>) -> Option<Seq<char>> {
    match a {
        Some(x) => if x.city is Some {
            x.city
        } else if x.town is Some {
            x.town
        } else {
            x.village
        },
        None => None,
    }
}

/// Extract the city from the address fields Nominatim may use.
pub fn extract_city(address: Option<&NominatimAddress>) -> (r: Option<String>)
    ensures
        r.deep_view() == city_of(
            match address {
                Some(a) => Some(a@),
                None => None,
            },
        ),
{
    match address {
        None => None,
        Some(a) => if a.city.is_some() {
            own_opt(&a.city)
        } else if a.town.is_some() {
            own_opt(&a.town)
        } else {
            own_opt(&a.village)
        },
    }
}

/// The place a Nominatim answer describes, given its fields: an `error`
/// field means no known area ("Unable to geocode") or a service error;
/// otherwise the display name and both coordinates must be present (the
/// coordinates as text that parsed as numbers).
pub open spec fn answered_place(
    error: Option<Seq<char>>,
    display_name: Option<Seq<char>>,
    lat: Option<Seq<char>>,
    lon: Option<Seq<char>>,
    address: Option<AddressView>,
) -> Result<PlaceView, GeocodeErrorView> {
    match error {
        Some(e) => if e == "Unable to geocode"@ {
            Err(GeocodeErrorView::NoResults)
        } else {
            Err(GeocodeErrorView::Nominatim(e))
        },
        None => match (display_name, lat, lon) {
            (None, _, _) => Err(GeocodeErrorView::ParseError("missing display_name in response"@)),
            (Some(_), None, _) => Err(GeocodeErrorView::ParseError("invalid latitude in response"@)),
            (Some(_), Some(_), None) => Err(GeocodeErrorView::ParseError("invalid longitude in response"@)),
            (Some(d), Some(a), Some(b)) => Ok(
                PlaceView {
                    display_name: d,
                    country: match address {
                        Some(x) => x.country,
                        None => None,
                    },
                    city: city_of(address),
                    state: match address {
                        Some(x) => x.state,
                        None => None,
                    },
                    lat: a,
                    lon: b,
                },
            ),
        },
    }
}

/// The place of a reverse-geocoding answer, from its fields; `lat` and
/// `lon` are present only if they parsed as numbers.
pub fn reverse_place(
    error: Option<String>,
    display_name: Option<String>,
    lat: Option<String>,
    lon: Option<String>,
    address: Option<NominatimAddress>,
) -> (r: Result<GeocodedPlace, GeocodeError>)
    ensures
        match answered_place(
            error.deep_view(),
            display_name.deep_view(),
            lat.deep_view(),
            lon.deep_view(),
            match address {
                Some(a) => Some(a@),
                None => None,
            },
        ) {
            Ok(p) => r matches Ok(x) && x@ == p,
            Err(e) => r matches Err(x) && x@ == e,
        },
{
    if let Some(e) = error {
        proof {
            reveal_strlit("Unable to geocode");
        }
        if str_eq(e.as_str(), "Unable to geocode") {
            return Err(GeocodeError::NoResults);
        } else {
            return Err(GeocodeError::Nominatim(e));
        }
    }
    let display_name = match display_name {
        Some(d) => d,
        None => return Err(GeocodeError::ParseError(String::from_str("missing display_name in response"))),
    };
    let lat = match lat {
        Some(a) => a,
        None => return Err(GeocodeError::ParseError(String::from_str("invalid latitude in response"))),
    };
    let lon = match lon {
        Some(b) => b,
        None => return Err(GeocodeError::ParseError(String::from_str("invalid longitude in response"))),
    };
    let city = extract_city(address.as_ref());
    let (country, state) = match &address {
        Some(a) => (own_opt(&a.country), own_opt(&a.state)),
        None => (None, None),
    };
    Ok(GeocodedPlace { display_name, country, city, state, lat, lon })
}

/// One result of a Nominatim search, by its fields; `lat` and `lon` are
/// present only if their text parsed as a number.
#[derive(Debug)]
pub struct SearchItem {
    pub display_name: String,
    pub lat: Option<String>,
    pub lon: Option<String>,
    pub address: Option<NominatimAddress>,
}

/// View of a [`SearchItem`].
pub struct ItemView {
    pub display_name: Seq<char>,
    pub lat: Option<Seq<char>>,
    pub lon: Option<Seq<char>>,
    pub address: Option<AddressView>,
}

impl View for SearchItem {
    type V = ItemView;

    open spec fn view(&self) -> ItemView {
        ItemView {
            display_name: self.display_name@,
            lat: self.lat.deep_view(),
            lon: self.lon.deep_view(),
            address: match self.address {
                Some(a) => Some(a@),
                None => None,
            },
        }
    }
}

impl DeepView for SearchItem {
    type V = ItemView;

    open spec fn deep_view(&self) -> ItemView {
        self@
    }
}

/// The places of a search answer: the results whose coordinates both read
/// as numbers, in order, each described as a reverse answer with those
/// fields would be.
pub open spec fn search_answer_places(items: Seq<ItemView>) -> Seq<PlaceView>
    decreases items.len(),
{
    if items.len() == 0 {
        Seq::empty()
    } else {
        let prev = search_answer_places(items.drop_last());
        let it = items.last();
        match answered_place(None, Some(it.display_name), it.lat, it.lon, it.address) {
            Ok(p) => prev.push(p),
            Err(_) => prev,
        }
    }
}

/// The places of a search answer, from its results' fields.
pub fn search_places(items: &Vec<SearchItem>) -> (r: Vec<GeocodedPlace>)
    ensures
        r.deep_view() == search_answer_places(items.deep_view()),
{
    let ghost iv = items.deep_view();
    let mut r: Vec<GeocodedPlace> = Vec::new();
    let mut i: usize = 0;
    assert(r.deep_view() =~= search_answer_places(iv.take(0)));
    while i < items.len()
        invariant
            i <= items.len(),
            iv == items.deep_view(),
            r.deep_view() == search_answer_places(iv.take(i as int)),
        decreases items.len() - i,
    {
        let it = &items[i];
        assert(iv[i as int] == it@);
        assert(iv.take(i + 1).drop_last() =~= iv.take(i as int));
        assert(iv.take(i + 1).last() == it@);
        match (&it.lat, &it.lon) {
            (Some(a), Some(b)) => {
                let (country, state) = match &it.address {
                    Some(x) => (own_opt(&x.country), own_opt(&x.state)),
                    None => (None, None),
                };
                let place = GeocodedPlace {
                    display_name: it.display_name.clone(),
                    country,
                    city: extract_city(it.address.as_ref()),
                    state,
                    lat: a.clone(),
                    lon: b.clone(),
                };
                let ghost before = r.deep_view();
                let ghost pv = place@;
                r.push(place);
                assert(r.deep_view() =~= before.push(pv));
            },
            _ => {},
        }
        i += 1;
    }
    assert(iv.take(items.len() as int) =~= iv);
    r
}

/// The message of a search answer's error envelope: the error text itself,
/// else its `message` field, else the error as it was written.
pub open spec fn envelope_message(text: Option<Seq<char>>, message: Option<Seq<char>>, raw: Seq<char>) -> Seq<char> {
    match text {
        Some(t) => t,
        None => match message {
            Some(m) => m,
            None => raw,
        },
    }
}

/// The error a search answer's error envelope stands for: a Nominatim error
/// with the envelope's message.
pub fn envelope_error(text: Option<String>, message: Option<String>, raw: String) -> (r: GeocodeError)
    ensures
        r@ == GeocodeErrorView::Nominatim(envelope_message(text.deep_view(), message.deep_view(), raw@)),
{
    match text {
        Some(t) => GeocodeError::Nominatim(t),
        None => match message {
            Some(m) => GeocodeError::Nominatim(m),
            None => GeocodeError::Nominatim(raw),
        },
    }
}

// ---------------------------------------------------------------------------
// Comparing stored locations with answers
// ---------------------------------------------------------------------------

/// Whether a stored location agrees with a geocoded place: the countries
/// match; and, if a place is stored, whether it matches the city, the state
/// or the display name.
pub open spec fn location_match(l: LocationView, p: PlaceView) -> (bool, Option<bool>) {
    (
        match p.country {
            Some(c) => names_match(c, l.country),
            None => false,
        },
        match l.place {
            Some(sp) => Some(
                (match p.city {
                    Some(c) => names_match(c, sp),
                    None => false,
                }) || (match p.state {
                    Some(s) => names_match(s, sp),
                    None => false,
                }) || names_match(p.display_name, sp),
            ),
            None => None,
        },
    )
}

/// How a stored location is judged against an answer: the country matches
/// exactly when the answer has a country that fuzzy-matches the stored one;
/// with no stored place there is no place verdict; with one, it matches as
/// soon as any one of the answer's city, state or display name fuzzy-matches
/// it, and only then. So a fact is a mismatch exactly when the country does
/// not match or a stored place matches none of the three.
pub proof fn lemma_location_verdict(l: LocationView, p: PlaceView)
    ensures
        location_match(l, p).0 <==> (p.country matches Some(c) && names_match(c, l.country)),
        l.place is None <==> location_match(l, p).1 is None,
        l.place matches Some(sp) ==> (p.city matches Some(c) && names_match(c, sp) ==> location_match(l, p).1
            == Some(true)),
        l.place matches Some(sp) ==> (p.state matches Some(st) && names_match(st, sp) ==> location_match(l, p).1
            == Some(true)),
        l.place matches Some(sp) ==> (names_match(p.display_name, sp) ==> location_match(l, p).1 == Some(true)),
        l.place matches Some(sp) ==> (location_match(l, p).1 == Some(true) ==> (p.city matches Some(c) && names_match(
            c,
            sp,
        )) || (p.state matches Some(st) && names_match(st, sp)) || names_match(p.display_name, sp)),
        (!location_match(l, p).0 || location_match(l, p).1 == Some(false)) <==> (!(p.country matches Some(c)
            && names_match(c, l.country)) || (l.place matches Some(sp) && !(p.city matches Some(c) && names_match(
            c,
            sp,
        )) && !(p.state matches Some(st) && names_match(st, sp)) && !names_match(p.display_name, sp))),
{
}

/// Compare a stored location against a geocoded place.
/// Returns `(country_matches, place_matches)`.
pub fn evaluate_location_match(location: &Location, place: &GeocodedPlace) -> (r: (bool, Option<bool>))
    ensures
        r == location_match(location@, place@),
{
    let country_matches = match &place.country {
        Some(c) => fuzzy_match(c.as_str(), location.country.as_str()),
        None => false,
    };
    let place_matches = match &location.place {
        Some(sp) => {
            let by_city = match &place.city {
                Some(c) => fuzzy_match(c.as_str(), sp.as_str()),
                None => false,
            };
            let by_state = match &place.state {
                Some(s) => fuzzy_match(s.as_str(), sp.as_str()),
                None => false,
            };
            Some(by_city || by_state || fuzzy_match(place.display_name.as_str(), sp.as_str()))
        },
        None => None,
    };
    (country_matches, place_matches)
}

/// Result of validating a location's GPS coordinates.
#[derive(Debug)]
pub struct GpsValidationResult {
    /// The fact ID
    pub fact_id: String,
    /// Name of the person the fact belongs to
    pub person_name: String,
    /// The stored location description
    pub stored_country: String,
    /// The stored place (if any)
    pub stored_place: Option<String>,
    /// The stored coordinates, as decimal text
    pub stored_lat: String,
    pub stored_lon: String,
    /// What Nominatim returned for these coordinates
    pub nominatim_result: GeocodedPlace,
    /// Whether the country matches (case-insensitive)
    pub country_matches: bool,
    /// Whether the place roughly matches (if stored)
    pub place_matches: Option<bool>,
}

impl GpsValidationResult {
    /// Check if this result indicates a mismatch.
    pub fn is_mismatch(&self) -> (r: bool)
        ensures
            r == (!self.country_matches || self.place_matches == Some(false)),
    {
        !self.country_matches || match self.place_matches {
            Some(b) => !b,
            None => false,
        }
    }
}

/// Outcome of checking one fact's GPS coordinates.
#[derive(Debug)]
pub enum GpsCheckOutcome {
    /// Lookup succeeded; see the result for whether it matches
    Checked(GpsValidationResult),
    /// Lookup failed (network, parse, ...)
    Failed { fact_id: String, person_name: String, error: GeocodeError },
}

/// A coordinate suggestion for a fact whose location has no GPS data.
#[derive(Debug)]
pub struct GpsSuggestion {
    pub fact_id: String,
    pub person_name: String,
    /// The query that was sent to Nominatim
    pub query: String,
    /// Candidate places, best match first
    pub candidates: Vec<GeocodedPlace>,
}

/// Outcome of looking up coordinate suggestions for one fact.
#[derive(Debug)]
pub enum GpsSuggestOutcome {
    Suggested(GpsSuggestion),
    NoResults { fact_id: String, person_name: String, query: String },
    Failed { fact_id: String, person_name: String, query: String, error: GeocodeError },
}


// ---------------------------------------------------------------------------
// Which facts to look up
// ---------------------------------------------------------------------------

/// A fact to look up: its ID, its person's name and its location.
#[derive(Debug)]
pub struct GpsTarget {
    pub fact_id: String,
    pub person_name: String,
    pub location: Location,
}

/// View of a [`GpsTarget`].
pub struct TargetView {
    pub fact_id: Seq<char>,
    pub person_name: Seq<char>,
    pub location: LocationView,
}

impl View for GpsTarget {
    type V = TargetView;

    open spec fn view(&self) -> TargetView {
        TargetView { fact_id: self.fact_id@, person_name: self.person_name@, location: self.location@ }
    }
}

impl DeepView for GpsTarget {
    type V = TargetView;

    open spec fn deep_view(&self) -> TargetView {
        self@
    }
}

/// The facts of `facts` that have a location, with coordinates or without
/// as `with_coords` says.
pub open spec fn located_facts(facts: Seq<FactView>, with_coords: bool) -> Seq<FactView>
    decreases facts.len(),
{
    if facts.len() == 0 {
        Seq::empty()
    } else {
        let prev = located_facts(facts.drop_last(), with_coords);
        let f = facts.last();
        if f.location matches Some(l) && (l.coordinates is Some) == with_coords {
            prev.push(f)
        } else {
            prev
        }
    }
}

/// The lookup targets among the facts of person `p`.
pub open spec fn target_fn(ps: Seq<PersonView>, with_coords: bool) -> spec_fn(int) -> Seq<TargetView> {
    |p: int|
        located_facts(ps[p].facts, with_coords).map_values(
            |f: FactView| TargetView { fact_id: f.id, person_name: ps[p].name, location: f.location->0 },
        )
}

/// The facts to look up, in document order: those whose location has
/// coordinates (to check them) or has none (to suggest some).
pub open spec fn lookup_targets(ps: Seq<PersonView>, with_coords: bool) -> Seq<TargetView> {
    concat(ps.len(), target_fn(ps, with_coords))
}

/// The facts whose location has coordinates (`with_coords`) or lacks them,
/// with their person's name, in document order.
pub fn located_targets(chronicle: &Chronicle, with_coords: bool) -> (r: Vec<GpsTarget>)
    ensures
        r.deep_view() == lookup_targets(chronicle@.persons, with_coords),
{
    let ghost ps = chronicle@.persons;
    let mut r: Vec<GpsTarget> = Vec::new();
    let mut p: usize = 0;
    assert(r.deep_view() =~= concat(0, target_fn(ps, with_coords)));
    while p < chronicle.persons.len()
        invariant
            p <= chronicle.persons.len(),
            ps == chronicle@.persons,
            r.deep_view() == concat(p as nat, target_fn(ps, with_coords)),
        decreases chronicle.persons.len() - p,
    {
        let person = &chronicle.persons[p];
        assert(ps[p as int] == person@);
        let ghost r0 = r.deep_view();
        let ghost fs = person@.facts;
        let ghost name = person@.name;
        let mut k: usize = 0;
        assert(fs.take(0) =~= Seq::<FactView>::empty());
        assert(r0 =~= r0 + located_facts(fs.take(0), with_coords).map_values(
            |f: FactView| TargetView { fact_id: f.id, person_name: name, location: f.location->0 },
        ));
        while k < person.facts.len()
            invariant
                k <= person.facts.len(),
                fs == person@.facts,
                name == person@.name,
                r.deep_view() == r0 + located_facts(fs.take(k as int), with_coords).map_values(
                    |f: FactView| TargetView { fact_id: f.id, person_name: name, location: f.location->0 },
                ),
            decreases person.facts.len() - k,
        {
            let f = &person.facts[k];
            assert(fs[k as int] == f@);
            assert(fs.take(k + 1).drop_last() =~= fs.take(k as int));
            assert(fs.take(k + 1).last() == f@);
            let ghost prev = located_facts(fs.take(k as int), with_coords);
            let ghost rb = r.deep_view();
            if let Some(l) = &f.location {
                if l.coordinates.is_some() == with_coords {
                    let t = GpsTarget { fact_id: f.id.clone(), person_name: person.name.clone(), location: l.clone() };
                    let ghost tv = t@;
                    r.push(t);
                    assert(r.deep_view() =~= rb.push(tv));
                    assert(prev.push(f@).map_values(
                        |g: FactView| TargetView { fact_id: g.id, person_name: name, location: g.location->0 },
                    ) =~= prev.map_values(
                        |g: FactView| TargetView { fact_id: g.id, person_name: name, location: g.location->0 },
                    ).push(tv));
                }
            }
            k += 1;
        }
        assert(fs.take(person.facts.len() as int) =~= fs);
        p += 1;
    }
    r
}

/// Number of facts whose location has GPS coordinates.
pub fn count_facts_with_coordinates(chronicle: &Chronicle) -> (r: usize)
    ensures
        r == lookup_targets(chronicle@.persons, true).len(),
{
    let t = located_targets(chronicle, true);
    t.len()
}

/// Number of facts that have a location but no GPS coordinates.
pub fn count_facts_without_coordinates(chronicle: &Chronicle) -> (r: usize)
    ensures
        r == lookup_targets(chronicle@.persons, false).len(),
{
    let t = located_targets(chronicle, false);
    t.len()
}

/// The query to send for a target without coordinates: "place, country" or
/// the country alone.
pub open spec fn target_query(t: TargetView) -> Seq<char> {
    query_text(t.location.country, t.location.place)
}

/// The search query for a target: "place, country", or the country alone.
pub fn target_query_text(target: &GpsTarget) -> (r: String)
    ensures
        r@ == target_query(target@),
{
    let place = match &target.location.place {
        Some(p) => Some(p.as_str()),
        None => None,
    };
    suggestion_query(target.location.country.as_str(), place)
}

// ---------------------------------------------------------------------------
// What each answer means
// ---------------------------------------------------------------------------

/// The outcome of checking a target's coordinates, given what the reverse
/// lookup of those coordinates gave.
pub fn check_outcome(target: &GpsTarget, lookup: Result<GeocodedPlace, GeocodeError>) -> (r: GpsCheckOutcome)
    requires
        target@.location.coordinates is Some,
    ensures
        match lookup {
            Ok(p) => r matches GpsCheckOutcome::Checked(v) && v.fact_id@ == target@.fact_id
                && v.person_name@ == target@.person_name && v.stored_country@ == target@.location.country
                && v.stored_place.deep_view() == target@.location.place
                && v.stored_lat@ == target@.location.coordinates->0.lat
                && v.stored_lon@ == target@.location.coordinates->0.lon && v.nominatim_result@ == p@
                && (v.country_matches, v.place_matches) == location_match(target@.location, p@),
            Err(e) => r matches GpsCheckOutcome::Failed { fact_id, person_name, error } && fact_id@
                == target@.fact_id && person_name@ == target@.person_name && error@ == e@,
        },
{
    match lookup {
        Ok(place) => {
            let (country_matches, place_matches) = evaluate_location_match(&target.location, &place);
            let (lat, lon) = match &target.location.coordinates {
                Some(c) => (c.lat.clone(), c.lon.clone()),
                None => (String::new(), String::new()),
            };
            GpsCheckOutcome::Checked(GpsValidationResult {
                fact_id: target.fact_id.clone(),
                person_name: target.person_name.clone(),
                stored_country: target.location.country.clone(),
                stored_place: own_opt(&target.location.place),
                stored_lat: lat,
                stored_lon: lon,
                nominatim_result: place,
                country_matches,
                place_matches,
            })
        },
        Err(error) => GpsCheckOutcome::Failed {
            fact_id: target.fact_id.clone(),
            person_name: target.person_name.clone(),
            error,
        },
    }
}

/// The outcome of looking up suggestions for a target, given the query sent
/// and what the search gave: candidates, none (an empty list or the
/// service's no-results error), or a failure.
pub fn suggest_outcome(target: &GpsTarget, query: String, lookup: Result<Vec<GeocodedPlace>, GeocodeError>) -> (r: GpsSuggestOutcome)
    ensures
        match lookup {
            Ok(c) => if c@.len() == 0 {
                r matches GpsSuggestOutcome::NoResults { fact_id, person_name, query: q } && fact_id@
                    == target@.fact_id && person_name@ == target@.person_name && q@ == query@
            } else {
                r matches GpsSuggestOutcome::Suggested(s) && s.fact_id@ == target@.fact_id
                    && s.person_name@ == target@.person_name && s.query@ == query@
                    && s.candidates.deep_view() == c.deep_view()
            },
            Err(e) => if e is NoResults {
                r matches GpsSuggestOutcome::NoResults { fact_id, person_name, query: q } && fact_id@
                    == target@.fact_id && person_name@ == target@.person_name && q@ == query@
            } else {
                r matches GpsSuggestOutcome::Failed { fact_id, person_name, query: q, error } && fact_id@
                    == target@.fact_id && person_name@ == target@.person_name && q@ == query@
                    && error@ == e@
            },
        },
{
    let fact_id = target.fact_id.clone();
    let person_name = target.person_name.clone();
    match lookup {
        Ok(candidates) => if candidates.len() == 0 {
            GpsSuggestOutcome::NoResults { fact_id, person_name, query }
        } else {
            GpsSuggestOutcome::Suggested(GpsSuggestion { fact_id, person_name, query, candidates })
        },
        Err(GeocodeError::NoResults) => GpsSuggestOutcome::NoResults { fact_id, person_name, query },
        Err(error) => GpsSuggestOutcome::Failed { fact_id, person_name, query, error },
    }
}

// ---------------------------------------------------------------------------
// Applying suggestions
// ---------------------------------------------------------------------------

/// Fact `f` with coordinates `co` if its ID is `id` and it has a location.
pub open spec fn fact_given_coords(f: FactView, id: Seq<char>, co: CoordinatesView) -> FactView {
    if f.id == id && f.location is Some {
        FactView { location: Some(LocationView { coordinates: Some(co), ..f.location->0 }), ..f }
    } else {
        f
    }
}

/// Every fact with ID `id` and a location given coordinates `co`.
pub open spec fn given_coords(ps: Seq<PersonView>, id: Seq<char>, co: CoordinatesView) -> Seq<PersonView> {
    ps.map_values(
        |p: PersonView| PersonView { facts: p.facts.map_values(|f: FactView| fact_given_coords(f, id, co)), ..p },
    )
}

/// How many facts of `facts` have ID `id` and a location.
pub open spec fn located_with_id(facts: Seq<FactView>, id: Seq<char>) -> nat
    decreases facts.len(),
{
    if facts.len() == 0 {
        0
    } else {
        located_with_id(facts.drop_last(), id) + if facts.last().id == id && facts.last().location is Some {
            1nat
        } else {
            0nat
        }
    }
}

/// How many facts of `ps` have ID `id` and a location.
pub open spec fn count_with_id(ps: Seq<PersonView>, id: Seq<char>) -> nat
    decreases ps.len(),
{
    if ps.len() == 0 {
        0
    } else {
        count_with_id(ps.drop_last(), id) + located_with_id(ps.last().facts, id)
    }
}

/// View of a [`GpsSuggestion`]: the fact ID and the top candidate's
/// coordinates, if there is a candidate.
pub open spec fn suggestion_coords(s: &GpsSuggestion) -> Option<CoordinatesView> {
    if s.candidates@.len() == 0 {
        None
    } else {
        Some(CoordinatesView { lat: s.candidates@[0].lat@, lon: s.candidates@[0].lon@ })
    }
}

/// The persons and the count of updated facts after applying the first `n`
/// suggestions.
pub open spec fn applied(ps: Seq<PersonView>, sugs: Seq<GpsSuggestion>, n: nat) -> (Seq<PersonView>, nat)
    decreases n,
{
    if n == 0 {
        (ps, 0)
    } else {
        let (prev, count) = applied(ps, sugs, (n - 1) as nat);
        let s = sugs[n - 1];
        match suggestion_coords(&s) {
            Some(co) => (given_coords(prev, s.fact_id@, co), count + count_with_id(prev, s.fact_id@)),
            None => (prev, count),
        }
    }
}

fn coords_for_fact(f: &Fact, id: &str, lat: &str, lon: &str) -> (r: (Fact, bool))
    ensures
        r.0@ == fact_given_coords(f@, id@, CoordinatesView { lat: lat@, lon: lon@ }),
        r.1 == (f@.id == id@ && f@.location is Some),
{
    let mut g = f.clone();
    let hit = match &f.location {
        Some(l) => {
            if str_eq(f.id.as_str(), id) {
                let mut l2 = l.clone();
                l2.coordinates = Some(Coordinates { lat: own(lat), lon: own(lon) });
                g.location = Some(l2);
                true
            } else {
                false
            }
        },
        None => false,
    };
    (g, hit)
}

proof fn lemma_count_prefix(ps: Seq<PersonView>, id: Seq<char>, k: int)
    requires
        0 <= k <= ps.len(),
    ensures
        count_with_id(ps.take(k), id) <= count_with_id(ps, id),
    decreases ps.len() - k,
{
    if k < ps.len() {
        lemma_count_prefix(ps, id, k + 1);
        assert(ps.take(k + 1).drop_last() =~= ps.take(k));
    } else {
        assert(ps.take(k) =~= ps);
    }
}

proof fn lemma_located_prefix(fs: Seq<FactView>, id: Seq<char>, k: int)
    requires
        0 <= k <= fs.len(),
    ensures
        located_with_id(fs.take(k), id) <= located_with_id(fs, id),
    decreases fs.len() - k,
{
    if k < fs.len() {
        lemma_located_prefix(fs, id, k + 1);
        assert(fs.take(k + 1).drop_last() =~= fs.take(k));
    } else {
        assert(fs.take(k) =~= fs);
    }
}

fn give_coords(chronicle: &mut Chronicle, id: &str, lat: &str, lon: &str) -> (r: usize)
    requires
        count_with_id(old(chronicle)@.persons, id@) <= usize::MAX,
    ensures
        final(chronicle)@ == (ChronicleView {
            persons: given_coords(old(chronicle)@.persons, id@, CoordinatesView { lat: lat@, lon: lon@ }),
            ..old(chronicle)@
        }),
        r == count_with_id(old(chronicle)@.persons, id@),
{
    let ghost ps = chronicle@.persons;
    let ghost co = CoordinatesView { lat: lat@, lon: lon@ };
    let mut persons: Vec<Person> = Vec::new();
    let mut n: usize = 0;
    let mut p: usize = 0;
    assert(ps.take(0) =~= Seq::<PersonView>::empty());
    while p < chronicle.persons.len()
        invariant
            p <= chronicle.persons.len(),
            ps == chronicle@.persons,
            co == (CoordinatesView { lat: lat@, lon: lon@ }),
            count_with_id(ps, id@) <= usize::MAX,
            persons.deep_view() =~= given_coords(ps, id@, co).take(p as int),
            n == count_with_id(ps.take(p as int), id@),
        decreases chronicle.persons.len() - p,
    {
        let person = &chronicle.persons[p];
        assert(ps[p as int] == person@);
        let ghost fs = person@.facts;
        let mut facts: Vec<Fact> = Vec::new();
        let mut m: usize = 0;
        let mut k: usize = 0;
        assert(fs.take(0) =~= Seq::<FactView>::empty());
        proof {
            lemma_count_prefix(ps, id@, p + 1);
            assert(ps.take(p + 1).drop_last() =~= ps.take(p as int));
            assert(ps.take(p + 1).last() == person@);
        }
        while k < person.facts.len()
            invariant
                k <= person.facts.len(),
                fs == person@.facts,
                co == (CoordinatesView { lat: lat@, lon: lon@ }),
                facts.deep_view() =~= fs.map_values(|f: FactView| fact_given_coords(f, id@, co)).take(k as int),
                m == located_with_id(fs.take(k as int), id@),
                n + located_with_id(fs, id@) <= usize::MAX,
            decreases person.facts.len() - k,
        {
            let f = &person.facts[k];
            assert(fs[k as int] == f@);
            assert(fs.take(k + 1).drop_last() =~= fs.take(k as int));
            assert(fs.take(k + 1).last() == f@);
            proof {
                lemma_located_prefix(fs, id@, k + 1);
            }
            let (g, hit) = coords_for_fact(f, id, lat, lon);
            let ghost gv = g@;
            let ghost fb = facts.deep_view();
            facts.push(g);
            assert(facts.deep_view() =~= fb.push(gv));
            assert(fs.map_values(|f: FactView| fact_given_coords(f, id@, co)).take(k + 1) =~= fs.map_values(
                |f: FactView| fact_given_coords(f, id@, co),
            ).take(k as int).push(gv));
            if hit {
                m = m + 1;
            }
            k += 1;
        }
        assert(fs.take(fs.len() as int) =~= fs);
        assert(facts.deep_view() =~= fs.map_values(|f: FactView| fact_given_coords(f, id@, co)));
        let ghost pb = persons.deep_view();
        let np = Person { id: person.id.clone(), name: person.name.clone(), facts };
        let ghost npv = np@;
        persons.push(np);
        assert(persons.deep_view() =~= pb.push(npv));
        assert(npv == given_coords(ps, id@, co)[p as int]);
        assert(given_coords(ps, id@, co).take(p + 1) =~= given_coords(ps, id@, co).take(p as int).push(npv));
        n = n + m;
        p += 1;
    }
    assert(ps.take(ps.len() as int) =~= ps);
    assert(persons.deep_view() =~= given_coords(ps, id@, co));
    chronicle.persons = persons;
    n
}

/// Apply the top candidate of each suggestion to the chronicle: every fact
/// with the suggestion's ID and a location gets the candidate's coordinates.
///
/// Returns the number of facts updated.
pub fn apply_suggestions(chronicle: &mut Chronicle, suggestions: &[GpsSuggestion]) -> (r: usize)
    requires
        applied(old(chronicle)@.persons, suggestions@, suggestions@.len()).1 <= usize::MAX,
    ensures
        final(chronicle)@ == (ChronicleView {
            persons: applied(old(chronicle)@.persons, suggestions@, suggestions@.len()).0,
            ..old(chronicle)@
        }),
        r == applied(old(chronicle)@.persons, suggestions@, suggestions@.len()).1,
{
    let ghost ps = chronicle@.persons;
    let ghost c0 = chronicle@;
    let mut total: usize = 0;
    let mut q: usize = 0;
    while q < suggestions.len()
        invariant
            q <= suggestions@.len(),
            chronicle@ == (ChronicleView { persons: applied(ps, suggestions@, q as nat).0, ..c0 }),
            total == applied(ps, suggestions@, q as nat).1,
            applied(ps, suggestions@, suggestions@.len()).1 <= usize::MAX,
        decreases suggestions@.len() - q,
    {
        let s = &suggestions[q];
        proof {
            lemma_applied_grows(ps, suggestions@, (q + 1) as nat, suggestions@.len());
        }
        if s.candidates.len() > 0 {
            let top = &s.candidates[0];
            let added = give_coords(chronicle, s.fact_id.as_str(), top.lat.as_str(), top.lon.as_str());
            total = total + added;
        }
        q += 1;
    }
    total
}

proof fn lemma_applied_grows(ps: Seq<PersonView>, sugs: Seq<GpsSuggestion>, m: nat, n: nat)
    requires
        m <= n <= sugs.len(),
    ensures
        applied(ps, sugs, m).1 <= applied(ps, sugs, n).1,
    decreases n - m,
{
    if m < n {
        lemma_applied_grows(ps, sugs, m, (n - 1) as nat);
    }
}

} // verus!
