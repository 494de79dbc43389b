use vstd::prelude::*;

verus! {

/// The bytes that may start or end a significant token when they interrupt
/// textual content: whitespace, control line breaks and the punctuation that
/// markdown and ICU syntax give meaning to.
pub open spec fn is_significant_byte(b: u8) -> bool {
    b == 0x09 || b == 0x0A || b == 0x0C || b == 0x0D || b == 0x20
        || b == 0x22 || b == 0x24 || b == 0x26 || b == 0x27 || b == 0x28 || b == 0x29
        || b == 0x2A || b == 0x3A || b == 0x3C || b == 0x3E || b == 0x5B || b == 0x5C
        || b == 0x5D || b == 0x5F || b == 0x60 || b == 0x7B || b == 0x7D || b == 0x7E
}

/// Length of the UTF-8 sequence introduced by a lead byte, read from its top
/// five bits; 0 for a continuation byte or a byte that never leads.
pub open spec fn utf8_length_of_lead(b: u8) -> usize {
    if b < 0x80 {
        1
    } else if b < 0xC0 {
        0
    } else if b < 0xE0 {
        2
    } else if b < 0xF0 {
        3
    } else if b < 0xF8 {
        4
    } else {
        0
    }
}

/// Returns true if the given byte represents a significant character that
/// could become a new type of token: punctuation, whitespace and newlines.
/// Such bytes are only significant where they interrupt textual content.
pub fn byte_is_significant(byte: u8) -> (r: bool)
    ensures
        r == is_significant_byte(byte),
{
    match byte {
        0x09 | 0x0A | 0x0C | 0x0D | 0x20 | 0x22 | 0x24 | 0x26 | 0x27 | 0x28 | 0x29
        | 0x2A | 0x3A | 0x3C | 0x3E | 0x5B | 0x5C | 0x5D | 0x5F | 0x60 | 0x7B | 0x7D
        | 0x7E => true,
        _ => false,
    }
}

/// Returns the byte length of the complete UTF-8 code point that starts with
/// `byte`, looked up by the byte's top five bits.
pub fn char_length_from_byte(byte: u8) -> (r: usize)
    ensures
        r == utf8_length_of_lead(byte),
        r <= 4,
{
    let top: u8 = byte >> 3u8;
    assert(top == byte / 8) by (bit_vector)
        requires
            top == byte >> 3u8,
    ;
    if top < 16 {
        1
    } else if top < 24 {
        0
    } else if top < 28 {
        2
    } else if top < 30 {
        3
    } else if top < 31 {
        4
    } else {
        0
    }
}

} // verus!
