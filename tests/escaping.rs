use intl_message::ast::{InlineContent, TextOrPlaceholder};
use intl_message::byte_lookup::{byte_is_significant, char_length_from_byte};
use intl_message::text::{escape_body_text, escape_href, format_plain_text, unescape};

#[test]
fn unescape_applies_a_single_pass() {
    assert_eq!(unescape("\\\\!"), "\\!");
}

#[test]
fn unescape_drops_backslash_before_punctuation() {
    assert_eq!(unescape("\\*not emphasis\\*"), "*not emphasis*");
}

#[test]
fn unescape_keeps_backslash_before_letters() {
    assert_eq!(unescape("a\\b"), "a\\b");
    assert_eq!(unescape("end\\"), "end\\");
}

#[test]
fn unescape_strips_carriage_returns() {
    assert_eq!(unescape("a\r\nb\r"), "a\nb");
}

#[test]
fn unescape_empty() {
    assert_eq!(unescape(""), "");
}

#[test]
fn escape_href_keeps_unreserved_characters() {
    let s = "abcXYZ019-_.~";
    assert_eq!(escape_href(s), s);
}

#[test]
fn escape_href_turns_ampersand_into_entity() {
    assert_eq!(escape_href("a&b"), "a&amp;b");
}

#[test]
fn escape_href_percent_encodes_multibyte_characters() {
    assert_eq!(escape_href("café"), "caf%C3%A9");
}

#[test]
fn escape_href_percent_encodes_unsafe_ascii() {
    assert_eq!(escape_href("a b<c>\"'"), "a%20b%3Cc%3E%22%27");
    assert_eq!(escape_href("\n"), "%0A");
}

#[test]
fn escape_href_keeps_url_punctuation() {
    let s = "https://example.com/a?b=c#d;e,f(g)*+!$%@";
    assert_eq!(escape_href(s), s);
}

#[test]
fn escape_body_text_replaces_special_characters() {
    assert_eq!(escape_body_text("<b>&\""), "&lt;b&gt;&amp;&quot;");
}

#[test]
fn escape_body_text_keeps_other_characters() {
    assert_eq!(escape_body_text("it's é"), "it's é");
    assert_eq!(escape_body_text(""), "");
}

#[test]
fn format_plain_text_keeps_only_visible_text() {
    let elements = vec![
        InlineContent::Text("a".to_string()),
        InlineContent::Strong(vec![InlineContent::Text("b".to_string())]),
        InlineContent::Link {
            label: vec![InlineContent::Emphasis(vec![InlineContent::Text("c".to_string())])],
            destination: TextOrPlaceholder::Text("https://x".to_string()),
        },
        InlineContent::CodeSpan("*d*".to_string()),
        InlineContent::HardLineBreak,
        InlineContent::Hook {
            name: "h".to_string(),
            content: vec![InlineContent::Strikethrough(vec![InlineContent::Text(
                "e".to_string(),
            )])],
        },
        InlineContent::IcuPound,
    ];
    assert_eq!(format_plain_text(&elements), "abc*d*e#");
}

#[test]
fn format_plain_text_of_nothing_is_empty() {
    assert_eq!(format_plain_text(&vec![]), "");
}

#[test]
fn significant_bytes() {
    for b in b"\t\n\x0C\r \"$&'()*:<>[\\]_`{}~".iter() {
        assert!(byte_is_significant(*b), "{}", b);
    }
    for b in b"aZ09-#%+,./;=?@^|!".iter() {
        assert!(!byte_is_significant(*b), "{}", b);
    }
    assert!(!byte_is_significant(0xC3));
}

#[test]
fn utf8_lengths_from_lead_bytes() {
    assert_eq!(char_length_from_byte(b'A'), 1);
    assert_eq!(char_length_from_byte(0x7F), 1);
    assert_eq!(char_length_from_byte(0x80), 0);
    assert_eq!(char_length_from_byte(0xBF), 0);
    assert_eq!(char_length_from_byte(0xC3), 2);
    assert_eq!(char_length_from_byte(0xE2), 3);
    assert_eq!(char_length_from_byte(0xF0), 4);
    assert_eq!(char_length_from_byte(0xF8), 0);
    for (i, c) in "aé€😀".char_indices() {
        assert_eq!(char_length_from_byte("aé€😀".as_bytes()[i]), c.len_utf8());
    }
}
