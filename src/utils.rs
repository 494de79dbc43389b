use vstd::prelude::*;

use vstd::string::StringSliceAdditionalSpecFns;

use crate::text::{chars_of, push_char};

verus! {

/// Whether `s` ends with `suffix`.
pub open spec fn has_suffix(s: Seq<char>, suffix: Seq<char>) -> bool {
    s.len() >= suffix.len() && s.subrange(s.len() - suffix.len(), s.len() as int) == suffix
}

fn ends_with(s: &Vec<char>, suffix: &str) -> (r: bool)
    ensures
        r == has_suffix(s@, suffix@),
{
    let tail = chars_of(suffix);
    if tail.len() > s.len() {
        return false;
    }
    let offset = s.len() - tail.len();
    let mut i: usize = 0;
    while i < tail.len()
        invariant
            tail@ == suffix@,
            s@.len() <= usize::MAX,
            offset + tail@.len() == s@.len(),
            i <= tail@.len(),
            forall|j: int| 0 <= j < i ==> s@[offset + j] == tail@[j],
        decreases tail@.len() - i,
    {
        if s[offset + i] != tail[i] {
            assert(s@.subrange(offset as int, s@.len() as int)[i as int] != tail@[i as int]);
            return false;
        }
        i = i + 1;
    }
    assert(s@.subrange(offset as int, s@.len() as int) =~= tail@);
    true
}

/// Whether a file name names a file of message definitions: `.messages` as
/// written in an import, or the file itself, `.messages.tsx`, `.messages.jsx`,
/// `.messages.ts` or `.messages.js`.
pub open spec fn is_definitions_name(name: Seq<char>) -> bool {
    has_suffix(name, ".messages"@) || has_suffix(name, ".messages.tsx"@) || has_suffix(
        name,
        ".messages.jsx"@,
    ) || has_suffix(name, ".messages.ts"@) || has_suffix(name, ".messages.js"@)
}

/// Whether a file name names a file of message translations:
/// `.messages.json` or `.messages.jsona`.
pub open spec fn is_translations_name(name: Seq<char>) -> bool {
    has_suffix(name, ".messages.json"@) || has_suffix(name, ".messages.jsona"@)
}

/// Returns true if the given file name is considered a message definitions
/// file.
pub fn is_message_definitions_file(file_name: &str) -> (r: bool)
    ensures
        r == is_definitions_name(file_name@),
{
    let name = chars_of(file_name);
    ends_with(&name, ".messages") || ends_with(&name, ".messages.tsx") || ends_with(
        &name,
        ".messages.jsx",
    ) || ends_with(&name, ".messages.ts") || ends_with(&name, ".messages.js")
}

/// Returns true if the given file name is considered a message translations
/// file.
pub fn is_message_translations_file(file_name: &str) -> (r: bool)
    ensures
        r == is_translations_name(file_name@),
{
    let name = chars_of(file_name);
    ends_with(&name, ".messages.json") || ends_with(&name, ".messages.jsona")
}

/// The seed of the hash behind message keys.
pub const KEY_HASH_SEED: u64 = 0;

/// The 64-bit xxHash (XXH64) of some bytes under a seed.
pub uninterp spec fn xxh64_of(bytes: Seq<u8>, seed: u64) -> u64;

/// Relies on xxhash_rust::xxh64::xxh64: the XXH64 hash of the input under the
/// seed, a function of the two alone.
#[verifier::external_body]
fn xxh64(input: &[u8], seed: u64) -> (r: u64)
    ensures
        r == xxh64_of(input@, seed),
{
    xxhash_rust::xxh64::xxh64(input, seed)
}

/// Byte `i` of `h`, counting from the least significant.
pub open spec fn le_byte(h: u64, i: int) -> u8 {
    ((h >> ((8 * i) as u64)) & 0xff) as u8
}

/// The bytes of `h` in little-endian order.
pub open spec fn le_bytes(h: u64) -> Seq<u8> {
    Seq::new(8, |i: int| le_byte(h, i))
}

/// The bytes of `h` in big-endian order.
pub open spec fn be_bytes(h: u64) -> Seq<u8> {
    Seq::new(8, |i: int| le_byte(h, 7 - i))
}

/// Relies on u64::to_ne_bytes: the eight bytes of the value in the machine's
/// byte order, which is little- or big-endian.
#[verifier::external_body]
fn native_bytes(h: u64) -> (r: [u8; 8])
    ensures
        r@ == le_bytes(h) || r@ == be_bytes(h),
{
    h.to_ne_bytes()
}

/// The character of the standard base64 alphabet for a value below 64.
pub open spec fn base64_char(n: u8) -> char {
    if n < 26 {
        (n + 65) as char
    } else if n < 52 {
        (n + 71) as char
    } else if n < 62 {
        (n - 4) as char
    } else if n == 62 {
        '+'
    } else {
        '/'
    }
}

fn base64_char_of(n: u8) -> (r: char)
    requires
        n < 64,
    ensures
        r == base64_char(n),
{
    if n < 26 {
        (n + 65) as char
    } else if n < 52 {
        (n + 71) as char
    } else if n < 62 {
        (n - 4) as char
    } else if n == 62 {
        '+'
    } else {
        '/'
    }
}

/// The six characters of a key drawn from the first four bytes of a hash:
/// the base64 digits of the first three bytes, then of the fourth byte's
/// high six bits and of its low two bits followed by its high four.
pub open spec fn key_chars(b: Seq<u8>) -> Seq<char> {
    seq![
        base64_char(b[0] >> 2),
        base64_char(((b[0] & 0x03) << 4) | (b[1] >> 4)),
        base64_char(((b[1] & 0x0f) << 2) | (b[2] >> 6)),
        base64_char(b[2] & 0x3f),
        base64_char(b[3] >> 2),
        base64_char(((b[3] & 0x03) << 4) | (b[3] >> 4)),
    ]
}

/// Encodes the bytes of a message key's hash as its six-character key.
pub fn key_from_hash_bytes(input: [u8; 8]) -> (r: String)
    ensures
        r@ == key_chars(input@),
{
    let b0 = input[0];
    let b1 = input[1];
    let b2 = input[2];
    let b3 = input[3];
    let c0 = b0 >> 2u8;
    let c1 = ((b0 & 0x03) << 4u8) | (b1 >> 4u8);
    let c2 = ((b1 & 0x0f) << 2u8) | (b2 >> 6u8);
    let c3 = b2 & 0x3f;
    let c4 = b3 >> 2u8;
    let c5 = ((b3 & 0x03) << 4u8) | (b3 >> 4u8);
    assert(c0 < 64 && c1 < 64 && c2 < 64 && c3 < 64 && c4 < 64 && c5 < 64) by (bit_vector)
        requires
            c0 == b0 >> 2u8,
            c1 == ((b0 & 0x03) << 4u8) | (b1 >> 4u8),
            c2 == ((b1 & 0x0f) << 2u8) | (b2 >> 6u8),
            c3 == b2 & 0x3f,
            c4 == b3 >> 2u8,
            c5 == ((b3 & 0x03) << 4u8) | (b3 >> 4u8),
    ;
    let mut r = String::new();
    push_char(&mut r, base64_char_of(c0));
    push_char(&mut r, base64_char_of(c1));
    push_char(&mut r, base64_char_of(c2));
    push_char(&mut r, base64_char_of(c3));
    push_char(&mut r, base64_char_of(c4));
    push_char(&mut r, base64_char_of(c5));
    assert(r@ =~= key_chars(input@));
    r
}

/// Returns a short, consistent key for a message name: six base64 characters
/// read from the XXH64 hash of its bytes, taken in the machine's byte order.
pub fn hash_message_key(content: &str) -> (r: String)
    ensures
        r@ == key_chars(le_bytes(xxh64_of(content.spec_bytes(), KEY_HASH_SEED))) || r@
            == key_chars(be_bytes(xxh64_of(content.spec_bytes(), KEY_HASH_SEED))),
{
    let hash = xxh64(content.as_bytes(), KEY_HASH_SEED);
    let bytes = native_bytes(hash);
    key_from_hash_bytes(bytes)
}

} // verus!
