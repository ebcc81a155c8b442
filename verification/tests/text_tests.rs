use kinsaga::text::trim_str;

#[test]
fn white_space_agrees_with_std_for_every_char() {
    for code in 0u32..=0x10FFFF {
        if let Some(c) = char::from_u32(code) {
            let mut s = String::new();
            s.push(c);
            s.push('x');
            let trimmed = trim_str(&s);
            assert_eq!(trimmed == "x", c.is_whitespace(), "U+{:04X}", code);
        }
    }
}
