//! Display formatting helpers.
use vstd::prelude::*;
use crate::decimal::{round4, round4_text};
use crate::model::{Attachment, AttachmentView, Location, LocationView};
use crate::text::{
    chars_of, is_hex, lemma_map_chars_step, map_chars, own, push_range, vec_has_char,
};

verus! {

/// The display text of a location: place (if any), country and, if present,
/// the coordinates rounded to four decimals (see [`round4`]), joined by
/// `", "`.
pub open spec fn location_text(l: LocationView) -> Seq<char> {
    (match l.place {
        Some(p) => p + ", "@,
        None => Seq::empty(),
    }) + l.country + (match l.coordinates {
        Some(c) => ", ("@ + round4(c.lat) + ", "@ + round4(c.lon) + ")"@,
        None => Seq::empty(),
    })
}

/// Format a location for display, e.g. "Paris, France" or
/// "Eiffel Tower, France, (48.8566, 2.3522)".
pub fn format_location(location: &Location) -> (r: String)
    ensures
        r@ == location_text(location@),
{
    let mut r = String::new();
    if let Some(place) = &location.place {
        r.append(place.as_str());
        r.append(", ");
    }
    r.append(location.country.as_str());
    if let Some(coords) = &location.coordinates {
        r.append(", (");
        let lat = round4_text(coords.lat.as_str());
        r.append(lat.as_str());
        r.append(", ");
        let lon = round4_text(coords.lon.as_str());
        r.append(lon.as_str());
        r.append(")");
    }
    assert(r@ =~= location_text(location@));
    r
}

/// Format a date for display: the date text as written.
pub fn format_date_display(date_str: &str) -> (r: String)
    ensures
        r@ == date_str@,
{
    own(date_str)
}

/// The display text of an attachment: its title with the URL in
/// parentheses, or just the URL.
pub open spec fn attachment_text(a: AttachmentView) -> Seq<char> {
    match a.title {
        Some(t) => t + " ("@ + a.url + ")"@,
        None => a.url,
    }
}

/// Format an attachment for display: the title with the URL, or just the URL.
pub fn format_attachment(attachment: &Attachment) -> (r: String)
    ensures
        r@ == attachment_text(attachment@),
{
    match &attachment.title {
        Some(title) => {
            let mut r = title.clone();
            r.append(" (");
            r.append(attachment.url.as_str());
            r.append(")");
            r
        },
        None => attachment.url.clone(),
    }
}

/// The Markdown link for an attachment, titled `link` when it has no title.
pub open spec fn attachment_markdown(a: AttachmentView) -> Seq<char> {
    "["@ + (match a.title {
        Some(t) => t,
        None => "link"@,
    }) + "]("@ + a.url + ")"@
}

/// Format an attachment as a Markdown link.
pub fn format_attachment_markdown(attachment: &Attachment) -> (r: String)
    ensures
        r@ == attachment_markdown(attachment@),
{
    let mut r = String::from_str("[");
    match &attachment.title {
        Some(title) => r.append(title.as_str()),
        None => r.append("link"),
    }
    r.append("](");
    r.append(attachment.url.as_str());
    r.append(")");
    r
}

/// `n` dots.
pub open spec fn dots(n: nat) -> Seq<char> {
    Seq::new(n, |i: int| '.')
}

/// `s` cut to at most `max_len` characters: unchanged if it fits, otherwise
/// its first `max_len - 3` characters and `...`, or only dots when
/// `max_len` is 3 or less.
pub open spec fn truncated(s: Seq<char>, max_len: nat) -> Seq<char> {
    if s.len() <= max_len {
        s
    } else if max_len <= 3 {
        dots(max_len)
    } else {
        s.take(max_len - 3) + dots(3)
    }
}

/// Truncate text to a maximum length in characters, adding an ellipsis if
/// needed. The result never exceeds `max_len` characters.
pub fn truncate_text(s: &str, max_len: usize) -> (r: String)
    ensures
        r@ == truncated(s@, max_len as nat),
        r@.len() <= max_len,
        s@.len() <= max_len ==> r@ == s@,
{
    let v = chars_of(s);
    if v.len() <= max_len {
        return own(s);
    }
    let mut r = String::new();
    if max_len <= 3 {
        let mut i: usize = 0;
        while i < max_len
            invariant
                i <= max_len,
                r@ == dots(i as nat),
            decreases max_len - i,
        {
            r.push('.');
            i += 1;
            assert(r@ =~= dots(i as nat));
        }
        r
    } else {
        push_range(&mut r, v.as_slice(), 0, max_len - 3);
        r.push('.');
        r.push('.');
        r.push('.');
        assert(r@ =~= s@.take(max_len - 3) + dots(3));
        r
    }
}

/// Each `"` doubled.
pub open spec fn double_quote(c: char) -> Seq<char> {
    if c == '"' {
        seq!['"', '"']
    } else {
        seq![c]
    }
}

/// The CSV field for `s`: quoted, with quotes doubled, if it holds a comma,
/// a quote, a newline or a carriage return; otherwise `s` itself.
pub open spec fn csv_field(s: Seq<char>) -> Seq<char> {
    if s.contains(',') || s.contains('"') || s.contains('\n') || s.contains('\r') {
        seq!['"'] + map_chars(s, |c: char| double_quote(c)) + seq!['"']
    } else {
        s
    }
}

/// Escape a string for CSV output: wrapped in quotes if it contains a
/// comma, quote, newline or carriage return.
pub fn escape_csv(s: &str) -> (r: String)
    ensures
        r@ == csv_field(s@),
{
    let v = chars_of(s);
    if !(vec_has_char(&v, ',') || vec_has_char(&v, '"') || vec_has_char(&v, '\n') || vec_has_char(&v, '\r')) {
        return own(s);
    }
    let mut r = String::new();
    r.push('"');
    let mut i: usize = 0;
    while i < v.len()
        invariant
            i <= v.len(),
            v@ == s@,
            r@ == seq!['"'] + map_chars(v@.take(i as int), |c: char| double_quote(c)),
        decreases v.len() - i,
    {
        proof {
            lemma_map_chars_step(v@, |c: char| double_quote(c), i as int);
        }
        if v[i] == '"' {
            r.push('"');
            r.push('"');
        } else {
            r.push(v[i]);
        }
        i += 1;
        assert(r@ =~= seq!['"'] + map_chars(v@.take(i as int), |c: char| double_quote(c)));
    }
    r.push('"');
    assert(v@.take(v.len() as int) =~= v@);
    r
}

/// A CSV line: each field escaped, joined by commas.
pub open spec fn csv_line(fields: Seq<Seq<char>>) -> Seq<char> {
    crate::facts::joined(fields.map_values(|f: Seq<char>| csv_field(f)), ","@)
}

/// Build a CSV line from its fields, each escaped with [`escape_csv`].
pub fn csv_row(fields: &Vec<String>) -> (r: String)
    ensures
        r@ == csv_line(fields.deep_view()),
{
    let mut escaped: Vec<String> = Vec::new();
    let mut i: usize = 0;
    while i < fields.len()
        invariant
            i <= fields.len(),
            escaped.deep_view() == fields.deep_view().take(i as int).map_values(|f: Seq<char>| csv_field(f)),
        decreases fields.len() - i,
    {
        let ghost before = escaped.deep_view();
        assert(fields@[i as int]@ == fields.deep_view()[i as int]);
        let e = escape_csv(fields[i].as_str());
        let ghost ev = e@;
        escaped.push(e);
        assert(escaped.deep_view() =~= before.push(ev));
        assert(escaped.deep_view() =~= fields.deep_view().take(i + 1).map_values(|f: Seq<char>| csv_field(f)));
        i += 1;
    }
    assert(fields.deep_view().take(fields.len() as int) =~= fields.deep_view());
    crate::facts::join_strs(&escaped, ",")
}

/// The Markdown-table form of a character: `|` escaped, carriage returns
/// dropped, newlines as `<br>`.
pub open spec fn md_char(c: char) -> Seq<char> {
    if c == '|' {
        seq!['\\', '|']
    } else if c == '\r' {
        Seq::empty()
    } else if c == '\n' {
        "<br>"@
    } else {
        seq![c]
    }
}

/// Escape a string for use inside a Markdown table cell: pipes are escaped
/// and newlines become `<br>` so multi-line text cannot break the table.
pub fn escape_md(s: &str) -> (r: String)
    ensures
        r@ == map_chars(s@, |c: char| md_char(c)),
{
    let v = chars_of(s);
    let mut r = String::new();
    let mut i: usize = 0;
    assert(v@.take(0) =~= Seq::<char>::empty());
    while i < v.len()
        invariant
            i <= v.len(),
            v@ == s@,
            r@ == map_chars(v@.take(i as int), |c: char| md_char(c)),
        decreases v.len() - i,
    {
        proof {
            lemma_map_chars_step(v@, |c: char| md_char(c), i as int);
        }
        let c = v[i];
        if c == '|' {
            r.push('\\');
            r.push('|');
        } else if c == '\r' {
        } else if c == '\n' {
            r.append("<br>");
        } else {
            r.push(c);
        }
        i += 1;
        assert(r@ =~= map_chars(v@.take(i as int), |c: char| md_char(c)));
    }
    assert(v@.take(v.len() as int) =~= v@);
    r
}

/// The value of a hexadecimal digit.
pub open spec fn hex_value(c: char) -> nat {
    if '0' <= c && c <= '9' {
        (c as nat - '0' as nat) as nat
    } else if 'a' <= c && c <= 'f' {
        (c as nat - 'a' as nat + 10) as nat
    } else if 'A' <= c && c <= 'F' {
        (c as nat - 'A' as nat + 10) as nat
    } else {
        0
    }
}

/// The color a `#RRGGBB` string denotes, if it is one.
pub open spec fn hex_color(s: Seq<char>) -> Option<(u8, u8, u8)> {
    if s.len() == 7 && s[0] == '#' && (forall|i: int| 1 <= i < 7 ==> is_hex(#[trigger] s[i])) {
        Some(
            (
                (hex_value(s[1]) * 16 + hex_value(s[2])) as u8,
                (hex_value(s[3]) * 16 + hex_value(s[4])) as u8,
                (hex_value(s[5]) * 16 + hex_value(s[6])) as u8,
            ),
        )
    } else {
        None
    }
}

fn hex_digit(c: char) -> (r: u8)
    requires
        is_hex(c),
    ensures
        r == hex_value(c),
        r < 16,
{
    if '0' <= c && c <= '9' {
        (c as u32 - '0' as u32) as u8
    } else if 'a' <= c && c <= 'f' {
        (c as u32 - 'a' as u32 + 10) as u8
    } else {
        (c as u32 - 'A' as u32 + 10) as u8
    }
}

/// Parse a `#RRGGBB` hex color into an `(r, g, b)` triple.
pub fn parse_hex_color(hex: &str) -> (r: Option<(u8, u8, u8)>)
    ensures
        r == hex_color(hex@),
{
    let v = chars_of(hex);
    if v.len() != 7 || v[0] != '#' {
        return None;
    }
    let mut i: usize = 1;
    while i < 7
        invariant
            v@ == hex@,
            v@.len() == 7,
            1 <= i <= 7,
            forall|j: int| 1 <= j < i ==> is_hex(#[trigger] v@[j]),
        decreases 7 - i,
    {
        if !crate::text::char_is_hex(v[i]) {
            return None;
        }
        i += 1;
    }
    let r = hex_digit(v[1]) * 16 + hex_digit(v[2]);
    let g = hex_digit(v[3]) * 16 + hex_digit(v[4]);
    let b = hex_digit(v[5]) * 16 + hex_digit(v[6]);
    Some((r, g, b))
}

} // verus!
