use kinsaga::{
    escape_csv, escape_md, format_attachment, format_attachment_markdown, format_date_display,
    format_location, parse_hex_color, truncate_text, Attachment, Coordinates, Location,
};

#[test]
fn test_format_location_country_only() {
    let loc = Location::new("France");
    assert_eq!(format_location(&loc), "France");
}

#[test]
fn test_format_location_with_place() {
    let loc = Location::new("France").with_place("Paris");
    assert_eq!(format_location(&loc), "Paris, France");
}

#[test]
fn test_format_location_with_coords() {
    let loc = Location::new("France")
        .with_place("Eiffel Tower, Paris")
        .with_coordinates(Coordinates::new("48.8566", "2.3522"));
    assert_eq!(
        format_location(&loc),
        "Eiffel Tower, Paris, France, (48.8566, 2.3522)"
    );
}

#[test]
fn test_format_attachment_with_title() {
    let att = Attachment::new("https://example.com/photo.jpg").with_title("My Photo");
    assert_eq!(
        format_attachment(&att),
        "My Photo (https://example.com/photo.jpg)"
    );
}

#[test]
fn test_format_attachment_without_title() {
    let att = Attachment::new("https://example.com/photo.jpg");
    assert_eq!(format_attachment(&att), "https://example.com/photo.jpg");
}

#[test]
fn test_format_attachment_markdown() {
    let att = Attachment::new("https://example.com/photo.jpg").with_title("My Photo");
    assert_eq!(
        format_attachment_markdown(&att),
        "[My Photo](https://example.com/photo.jpg)"
    );
}

#[test]
fn test_truncate_text_short() {
    assert_eq!(truncate_text("Hello", 10), "Hello");
}

#[test]
fn test_truncate_text_long() {
    assert_eq!(truncate_text("Hello World!", 8), "Hello...");
}

#[test]
fn test_truncate_text_multibyte_at_boundary() {
    // Byte-index slicing used to panic here ('ä' spans two bytes at the cut)
    let s = "Wanderung auf die Mettmenalp, Schwändi GL";
    let t = truncate_text(s, 38);
    assert!(t.ends_with("..."));
    assert_eq!(t.chars().count(), 38);
}

#[test]
fn test_truncate_text_cjk() {
    assert_eq!(truncate_text("日本語のテキストです", 8), "日本語のテ...");
}

#[test]
fn test_truncate_text_tiny_max_len() {
    assert_eq!(truncate_text("abcdef", 3), "...");
    assert_eq!(truncate_text("abcdef", 2), "..");
    assert_eq!(truncate_text("abcdef", 0), "");
    assert_eq!(truncate_text("ab", 2), "ab");
}

#[test]
fn test_escape_csv_simple() {
    assert_eq!(escape_csv("hello"), "hello");
}

#[test]
fn test_escape_csv_with_comma() {
    assert_eq!(escape_csv("hello, world"), "\"hello, world\"");
}

#[test]
fn test_escape_csv_with_quote() {
    assert_eq!(escape_csv("say \"hello\""), "\"say \"\"hello\"\"\"");
}

#[test]
fn test_escape_md() {
    assert_eq!(escape_md("plain text"), "plain text");
    assert_eq!(escape_md("a | b"), "a \\| b");
    assert_eq!(escape_md("line1\nline2"), "line1<br>line2");
    assert_eq!(escape_md("line1\r\nline2"), "line1<br>line2");
}

#[test]
fn test_parse_hex_color() {
    assert_eq!(parse_hex_color("#4A90D9"), Some((0x4A, 0x90, 0xD9)));
    assert_eq!(parse_hex_color("#ffffff"), Some((255, 255, 255)));
    assert_eq!(parse_hex_color("#000000"), Some((0, 0, 0)));
    assert_eq!(parse_hex_color("4A90D9"), None, "missing #");
    assert_eq!(parse_hex_color("#4A90D"), None, "too short");
    assert_eq!(parse_hex_color("#GGGGGG"), None, "not hex");
}

// ---------------------------------------------------------------------------

#[test]
fn coordinates_are_rounded_to_four_decimals() {
    let loc = Location::new("Schweiz").with_coordinates(Coordinates::new("46.960566", "-9.099201"));
    assert_eq!(format_location(&loc), "Schweiz, (46.9606, -9.0992)");
    let loc = Location::new("X").with_coordinates(Coordinates::new("0", "10"));
    assert_eq!(format_location(&loc), "X, (0.0000, 10.0000)");
}

#[test]
fn markdown_link_without_title_says_link() {
    let att = Attachment::new("file:///a.jpg");
    assert_eq!(format_attachment_markdown(&att), "[link](file:///a.jpg)");
}

#[test]
fn date_display_is_the_text() {
    assert_eq!(format_date_display("1987-03?"), "1987-03?");
}

#[test]
fn csv_quotes_newlines_and_md_escapes_pipes_only() {
    assert_eq!(escape_csv("a\nb"), "\"a\nb\"");
    assert_eq!(escape_md("a|b|c"), "a\\|b\\|c");
}

#[test]
fn escape_csv_quotes_a_lone_carriage_return() {
    assert_eq!(escape_csv("a\rb"), "\"a\rb\"");
    assert_eq!(escape_csv("a\r\nb"), "\"a\r\nb\"");
}

#[test]
fn csv_row_escapes_each_field() {
    let row = kinsaga::csv_row(&vec!["a".to_string(), "b,c".to_string(), "say \"hi\"".to_string(), String::new()]);
    assert_eq!(row, "a,\"b,c\",\"say \"\"hi\"\"\",");
}
