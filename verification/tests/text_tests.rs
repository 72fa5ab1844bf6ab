use cli_log_file_analyzer::text::{is_alphabetic, is_whitespace};

#[test]
fn whitespace_agrees_with_std_on_every_char() {
    for u in 0..=0x10FFFFu32 {
        if let Some(c) = char::from_u32(u) {
            assert_eq!(is_whitespace(c), c.is_whitespace(), "U+{u:04X}");
        }
    }
}

#[test]
fn alphabetic_agrees_with_std_on_every_char() {
    for u in 0..=0x10FFFFu32 {
        if let Some(c) = char::from_u32(u) {
            assert_eq!(is_alphabetic(c), c.is_alphabetic(), "U+{u:04X}");
        }
    }
}
