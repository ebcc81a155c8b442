//! # Kinsaga
//!
//! A family chronicle library for managing timestamped, categorized life
//! events. Events are timestamped with flexible precision (year, month, day,
//! possibly uncertain), categorized into life themes, and kept per person,
//! each family member having their own timeline.
//!
//! Every function here carries a contract that states what it returns, and
//! the contracts are checked against the code.
use vstd::prelude::*;

pub mod text;
pub mod lists;
pub mod decimal;
pub mod model;
pub mod date;
pub mod sort;
pub mod ordering;
pub mod format;
pub mod country;
pub mod checks;
pub mod validate;
pub mod filter;
pub mod facts;
pub mod persons;
pub mod merge;
pub mod geocode;

pub use country::fuzzy_match;
pub use date::{ChronicleDate, DateError};
pub use facts::{
    add_fact, build_attachments, build_location, collect_timeline_facts, edit_fact, fill_location, remove_fact,
    AddFactOptions, AddFactResult, AttachmentUpdate, EditFactOptions, EditFactResult, FactError,
    LocationUpdate, MissingPiece, RemoveFactResult, TimelineFact, WithUpdate,
};
pub use filter::{filter_facts, search, sort_facts_by_date, FactFilter, SearchResult};
pub use format::{
    csv_row, escape_csv, escape_md, format_attachment, format_attachment_markdown, format_date_display,
    format_location, parse_hex_color, truncate_text,
};
pub use geocode::{
    apply_suggestions, check_outcome, count_facts_with_coordinates, count_facts_without_coordinates,
    evaluate_location_match, located_targets, suggest_outcome, GeocodeError, GeocodedPlace,
    GpsCheckOutcome, GpsSuggestOutcome, GpsSuggestion, GpsTarget, GpsValidationResult,
    NominatimAddress,
};
pub use merge::{
    merge_chronicles, ConflictStrategy, DuplicateStrategy, MergeError, MergeEvent, MergeEventType,
    MergeItemType, MergeOptions, MergeResult, MergeStats,
};
pub use model::{Attachment, Category, Chronicle, Coordinates, Fact, Location, Person};
pub use ordering::cmp_date_strings;
pub use persons::{add_person, remove_person, PersonError, RemovePersonResult};
pub use validate::{
    correct_uuids, is_valid_id, is_valid_mime_type, validate_chronicle, IssueType, ValidationIssue,
    ValidationResult,
};

verus! {
}
