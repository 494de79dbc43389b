use vstd::prelude::*;

use vstd::string::StringSliceAdditionalSpecFns;

use crate::ast::InlineContent;

verus! {

broadcast use vstd::string::axiom_spec_iter;

/// Relies on String::push: appends one character.
#[verifier::external_body]
pub(crate) fn push_char(buffer: &mut String, c: char)
    ensures
        final(buffer)@ == old(buffer)@.push(c),
{
    buffer.push(c)
}

/// The characters of a string, in order.
pub(crate) fn chars_of(text: &str) -> (r: Vec<char>)
    ensures
        r@ == text@,
{
    let mut r: Vec<char> = Vec::new();
    for c in it: text.chars()
        invariant
            it.seq() == text@,
            r@ == it.seq().subrange(0, it.index()),
    {
        r.push(c);
    }
    r
}

/// ASCII punctuation: the printable ASCII characters that are neither letters,
/// digits nor space.
pub open spec fn is_ascii_punct(c: char) -> bool {
    ('!' <= c <= '/') || (':' <= c <= '@') || ('[' <= c <= '`') || ('{' <= c <= '~')
}

pub(crate) fn is_ascii_punctuation(c: char) -> (r: bool)
    ensures
        r == is_ascii_punct(c),
{
    ('!' <= c && c <= '/') || (':' <= c && c <= '@') || ('[' <= c && c <= '`') || ('{' <= c
        && c <= '~')
}

/// Text with backslash escapes consumed and carriage returns removed, in one
/// pass from the left: a backslash before ASCII punctuation is dropped and the
/// punctuation kept literally; every other backslash stays.
pub open spec fn unescaped(s: Seq<char>) -> Seq<char>
    decreases s.len(),
{
    if s.len() == 0 {
        Seq::empty()
    } else if s[0] == '\\' && s.len() > 1 && is_ascii_punct(s[1]) {
        seq![s[1]] + unescaped(s.subrange(2, s.len() as int))
    } else if s[0] == '\r' {
        unescaped(s.subrange(1, s.len() as int))
    } else {
        seq![s[0]] + unescaped(s.subrange(1, s.len() as int))
    }
}

/// Handles backslash escapes (turning `\!` into `!`) and removes carriage
/// returns from the input.
pub fn unescape(text: &str) -> (r: String)
    ensures
        r@ == unescaped(text@),
{
    let chars = chars_of(text);
    let n = chars.len();
    let mut result = String::new();
    let mut index: usize = 0;
    assert(chars@.subrange(0, n as int) =~= chars@);
    assert(result@ + unescaped(chars@) =~= unescaped(chars@));
    while index < n
        invariant
            n == chars@.len(),
            index <= n,
            result@ + unescaped(chars@.subrange(index as int, n as int)) == unescaped(chars@),
        decreases n - index,
    {
        let ghost rest = chars@.subrange(index as int, n as int);
        let c = chars[index];
        if c == '\\' && index + 1 < n && is_ascii_punctuation(chars[index + 1]) {
            assert(rest.subrange(2, rest.len() as int) =~= chars@.subrange(index + 2, n as int));
            push_char(&mut result, chars[index + 1]);
            index = index + 2;
        } else if c == '\r' {
            assert(rest.subrange(1, rest.len() as int) =~= chars@.subrange(index + 1, n as int));
            index = index + 1;
        } else {
            assert(rest.subrange(1, rest.len() as int) =~= chars@.subrange(index + 1, n as int));
            push_char(&mut result, c);
            index = index + 1;
        }
    }
    assert(chars@.subrange(n as int, n as int) =~= Seq::<char>::empty());
    assert(result@ + Seq::<char>::empty() =~= result@);
    result
}

/// The ASCII bytes that are kept as they are in a url: letters, digits and the
/// punctuation `!#$%()*+,-./:;=?@^_~`.
pub open spec fn is_href_safe(b: u8) -> bool {
    b == 0x21 || (0x23 <= b <= 0x25) || (0x28 <= b <= 0x3B) || b == 0x3D || (0x3F <= b <= 0x5A)
        || (0x5E <= b <= 0x5F) || (0x61 <= b <= 0x7A) || b == 0x7E
}

fn href_safe(b: u8) -> (r: bool)
    ensures
        r == is_href_safe(b),
{
    b == 0x21 || (0x23 <= b && b <= 0x25) || (0x28 <= b && b <= 0x3B) || b == 0x3D || (0x3F <= b
        && b <= 0x5A) || (0x5E <= b && b <= 0x5F) || (0x61 <= b && b <= 0x7A) || b == 0x7E
}

/// The uppercase hexadecimal digit of a value below 16.
pub open spec fn hex_digit(n: u8) -> char {
    if n < 10 {
        (n + 48) as char
    } else {
        (n + 55) as char
    }
}

fn hex_digit_of(n: u8) -> (r: char)
    requires
        n < 16,
    ensures
        r == hex_digit(n),
{
    if n < 10 {
        (n + 48) as char
    } else {
        (n + 55) as char
    }
}

/// What one byte of a url becomes: itself when safe, the entity `&amp;` for
/// `&`, and otherwise `%` followed by two uppercase hexadecimal digits.
pub open spec fn href_byte(b: u8) -> Seq<char> {
    if is_href_safe(b) {
        seq![b as char]
    } else if b == 0x26 {
        seq!['&', 'a', 'm', 'p', ';']
    } else {
        seq!['%', hex_digit(b / 16), hex_digit(b % 16)]
    }
}

/// A url's bytes, each escaped by `href_byte`, in order.
pub open spec fn href_escaped(b: Seq<u8>) -> Seq<char>
    decreases b.len(),
{
    if b.len() == 0 {
        Seq::empty()
    } else {
        href_escaped(b.drop_last()) + href_byte(b.last())
    }
}

/// Replaces non-ascii and unsafe characters in a url with their percent
/// encoding, byte by byte, except `&`, which becomes `&amp;`.
pub fn escape_href(text: &str) -> (r: String)
    ensures
        r@ == href_escaped(text.spec_bytes()),
{
    let bytes = text.as_bytes();
    let mut result = String::new();
    let mut i: usize = 0;
    while i < bytes.len()
        invariant
            bytes@ == text.spec_bytes(),
            i <= bytes@.len(),
            result@ == href_escaped(bytes@.subrange(0, i as int)),
        decreases bytes@.len() - i,
    {
        let b = bytes[i];
        assert(bytes@.subrange(0, i + 1).drop_last() =~= bytes@.subrange(0, i as int));
        if href_safe(b) {
            push_char(&mut result, b as char);
        } else if b == 0x26 {
            push_char(&mut result, '&');
            push_char(&mut result, 'a');
            push_char(&mut result, 'm');
            push_char(&mut result, 'p');
            push_char(&mut result, ';');
        } else {
            push_char(&mut result, '%');
            push_char(&mut result, hex_digit_of(b / 16));
            push_char(&mut result, hex_digit_of(b % 16));
        }
        assert(result@ =~= href_escaped(bytes@.subrange(0, i + 1)));
        i = i + 1;
    }
    assert(bytes@.subrange(0, bytes@.len() as int) =~= bytes@);
    result
}

/// The characters that every url keeps as they are and no other text
/// treatment gives meaning to: ASCII letters, digits and `-_.~`.
pub open spec fn is_unreserved(c: char) -> bool {
    ('a' <= c <= 'z') || ('A' <= c <= 'Z') || ('0' <= c <= '9') || c == '-' || c == '_' || c
        == '.' || c == '~'
}

proof fn lemma_safe_bytes_unchanged(b: Seq<u8>)
    requires
        forall|i: int| 0 <= i < b.len() ==> is_href_safe(#[trigger] b[i]),
    ensures
        href_escaped(b) == Seq::new(b.len(), |i: int| b[i] as char),
    decreases b.len(),
{
    if b.len() > 0 {
        let prefix = b.drop_last();
        assert forall|i: int| 0 <= i < prefix.len() implies is_href_safe(#[trigger] prefix[i]) by {
            assert(prefix[i] == b[i]);
        }
        lemma_safe_bytes_unchanged(prefix);
        assert(is_href_safe(b[b.len() - 1]));
        assert(href_escaped(b) =~= Seq::new(b.len(), |i: int| b[i] as char));
    }
}

/// A url made only of ASCII letters, digits and `-_.~` is left as it is by
/// `escape_href`.
pub proof fn lemma_unreserved_href_unchanged(s: Seq<char>)
    requires
        forall|i: int| 0 <= i < s.len() ==> is_unreserved(#[trigger] s[i]),
    ensures
        href_escaped(vstd::utf8::encode_utf8(s)) == s,
{
    assert(vstd::utf8::is_ascii_chars(s));
    vstd::utf8::is_ascii_chars_encode_utf8(s);
    let b = vstd::utf8::encode_utf8(s);
    assert forall|i: int| 0 <= i < b.len() implies is_href_safe(#[trigger] b[i]) by {
        assert(s[i] as u8 == b[i]);
        assert(is_unreserved(s[i]));
    }
    lemma_safe_bytes_unchanged(b);
    assert forall|i: int| 0 <= i < s.len() implies (b[i] as char) == s[i] by {
        assert(s[i] as u8 == b[i]);
        assert(is_unreserved(s[i]));
    }
    assert(Seq::new(b.len(), |i: int| b[i] as char) =~= s);
}

/// The named entity that stands for a character in html body text, if any.
pub open spec fn entity_of(c: char) -> Option<Seq<char>> {
    if c == '<' {
        Some(seq!['&', 'l', 't', ';'])
    } else if c == '>' {
        Some(seq!['&', 'g', 't', ';'])
    } else if c == '"' {
        Some(seq!['&', 'q', 'u', 'o', 't', ';'])
    } else if c == '&' {
        Some(seq!['&', 'a', 'm', 'p', ';'])
    } else {
        None
    }
}

/// Text with `<`, `>`, `"` and `&` replaced by their named entities.
pub open spec fn body_escaped(s: Seq<char>) -> Seq<char>
    decreases s.len(),
{
    if s.len() == 0 {
        Seq::empty()
    } else {
        body_escaped(s.drop_last()) + match entity_of(s.last()) {
            Some(e) => e,
            None => seq![s.last()],
        }
    }
}

fn get_special_entity_replacement(c: char) -> (r: Option<&'static str>)
    ensures
        r is Some <==> entity_of(c) is Some,
        r is Some ==> r->0@ == entity_of(c)->0,
{
    proof {
        reveal_strlit("&lt;");
        reveal_strlit("&gt;");
        reveal_strlit("&quot;");
        reveal_strlit("&amp;");
    }
    match c {
        '<' => Some("&lt;"),
        '>' => Some("&gt;"),
        '"' => Some("&quot;"),
        '&' => Some("&amp;"),
        _ => None,
    }
}

fn replace_special_entities(text: &str) -> (r: String)
    ensures
        r@ == body_escaped(text@),
{
    let chars = chars_of(text);
    let mut result = String::new();
    let mut i: usize = 0;
    while i < chars.len()
        invariant
            i <= chars@.len(),
            result@ == body_escaped(chars@.subrange(0, i as int)),
        decreases chars@.len() - i,
    {
        let c = chars[i];
        assert(chars@.subrange(0, i + 1).drop_last() =~= chars@.subrange(0, i as int));
        match get_special_entity_replacement(c) {
            Some(entity) => result.append(entity),
            None => push_char(&mut result, c),
        }
        assert(result@ =~= body_escaped(chars@.subrange(0, i + 1)));
        i = i + 1;
    }
    assert(chars@.subrange(0, chars@.len() as int) =~= text@);
    result
}

/// Escapes text for an html body: `<`, `>`, `"` and `&` become their named
/// entities, everything else stays.
pub fn escape_body_text(text: &str) -> (r: String)
    ensures
        r@ == body_escaped(text@),
{
    replace_special_entities(text)
}

/// Whether an inline node holds, at any depth, an ICU placeholder other than
/// the pound reference: plain-text flattening has no rendering for those.
pub open spec fn has_icu(c: InlineContent) -> bool
    decreases c, 0int,
{
    match c {
        InlineContent::Strong(v) => has_icu_list(v, v@.len() as int),
        InlineContent::Emphasis(v) => has_icu_list(v, v@.len() as int),
        InlineContent::Strikethrough(v) => has_icu_list(v, v@.len() as int),
        InlineContent::Link { label, .. } => has_icu_list(label, label@.len() as int),
        InlineContent::Hook { content, .. } => has_icu_list(content, content@.len() as int),
        InlineContent::Icu(_) => true,
        _ => false,
    }
}

/// Whether any of the first `n` nodes of `v` holds an ICU placeholder.
pub open spec fn has_icu_list(v: Vec<InlineContent>, n: int) -> bool
    decreases v, n,
{
    if n <= 0 || n > v@.len() {
        false
    } else {
        has_icu_list(v, n - 1) || has_icu(v@[n - 1])
    }
}

/// The visible text of an inline node: what is left when every piece of
/// formatting is dropped.
pub open spec fn plain_text_of(c: InlineContent) -> Seq<char>
    decreases c, 0int,
{
    match c {
        InlineContent::Text(t) => t@,
        InlineContent::Strong(v) => plain_text_list(v, v@.len() as int),
        InlineContent::Emphasis(v) => plain_text_list(v, v@.len() as int),
        InlineContent::Strikethrough(v) => plain_text_list(v, v@.len() as int),
        InlineContent::CodeSpan(t) => t@,
        InlineContent::HardLineBreak => Seq::empty(),
        InlineContent::Link { label, .. } => plain_text_list(label, label@.len() as int),
        InlineContent::Hook { content, .. } => plain_text_list(content, content@.len() as int),
        InlineContent::Icu(_) => Seq::empty(),
        InlineContent::IcuPound => seq!['#'],
    }
}

/// The visible text of the first `n` nodes of `v`, in order.
pub open spec fn plain_text_list(v: Vec<InlineContent>, n: int) -> Seq<char>
    decreases v, n,
{
    if n <= 0 || n > v@.len() {
        Seq::empty()
    } else {
        plain_text_list(v, n - 1) + plain_text_of(v@[n - 1])
    }
}

/// Processes the list of inline elements by taking only the visual text that
/// appears within each item: `**hello**` is written as `hello`.
pub fn format_plain_text(elements: &Vec<InlineContent>) -> (r: String)
    requires
        !has_icu_list(*elements, elements@.len() as int),
    ensures
        r@ == plain_text_list(*elements, elements@.len() as int),
{
    let mut buffer = String::new();
    format_plain_text_inner(&mut buffer, elements);
    buffer
}

fn format_plain_text_inner(buffer: &mut String, elements: &Vec<InlineContent>)
    requires
        !has_icu_list(*elements, elements@.len() as int),
    ensures
        final(buffer)@ == old(buffer)@ + plain_text_list(*elements, elements@.len() as int),
    decreases elements,
{
    let ghost start = buffer@;
    let mut i: usize = 0;
    while i < elements.len()
        invariant
            i <= elements@.len(),
            !has_icu_list(*elements, elements@.len() as int),
            buffer@ == start + plain_text_list(*elements, i as int),
        decreases elements@.len() - i,
    {
        proof {
            lemma_has_icu_prefix(*elements, i as int + 1, elements@.len() as int);
        }
        let element = &elements[i];
        let ghost before = buffer@;
        match element {
            InlineContent::Text(text) => buffer.append(text.as_str()),
            InlineContent::Strong(content) => format_plain_text_inner(buffer, content),
            InlineContent::Emphasis(content) => format_plain_text_inner(buffer, content),
            InlineContent::Strikethrough(content) => format_plain_text_inner(buffer, content),
            InlineContent::CodeSpan(code) => buffer.append(code.as_str()),
            InlineContent::HardLineBreak => {},
            InlineContent::Link { label, .. } => format_plain_text_inner(buffer, label),
            InlineContent::Hook { content, .. } => format_plain_text_inner(buffer, content),
            InlineContent::Icu(_) => {},
            InlineContent::IcuPound => {
                buffer.append("#");
                proof {
                    reveal_strlit("#");
                }
            },
        }
        assert(buffer@ == before + plain_text_of(elements@[i as int]));
        i = i + 1;
    }
}

/// A prefix of a list without ICU placeholders has none either.
proof fn lemma_has_icu_prefix(v: Vec<InlineContent>, m: int, n: int)
    requires
        0 <= m <= n <= v@.len(),
        !has_icu_list(v, n),
    ensures
        !has_icu_list(v, m),
        m > 0 ==> !has_icu(v@[m - 1]),
    decreases n - m,
{
    if m < n {
        lemma_has_icu_prefix(v, m, n - 1);
    }
}

} // verus!
