use vstd::prelude::*;

use crate::ast::{
    BlockNode, Document, Icu, IcuPlural, IcuPluralArm, InlineContent, TextOrPlaceholder,
};
use crate::text::{
    chars_of, has_icu, has_icu_list, is_ascii_punctuation, plain_text_list, plain_text_of, push_char,
};

verus! {

/// Why a message could not be parsed, with the position (in characters)
/// where the problem was found.
pub enum ParseError {
    /// A placeholder's closing brace never came.
    UnterminatedPlaceholder(usize),
    /// A placeholder without a name.
    EmptyPlaceholderName(usize),
    /// A placeholder whose type is none of plural, date, time or number.
    UnknownPlaceholderType(usize),
    /// A plural placeholder with no arm.
    PluralWithoutArms(usize),
    /// A plural arm whose selector is not followed by `{`.
    MalformedPluralArm(usize),
}

/// The characters that can begin or end a construct: escapes, delimiters,
/// brackets, braces, the pound sign and carriage returns. (A `$` matters only
/// before `[`, which is a marker itself.)
pub open spec fn is_marker(c: char) -> bool {
    c == '\\' || c == '*' || c == '_' || c == '~' || c == '`' || c == '[' || c == ']' || c == '{'
        || c == '}' || c == '#' || c == '\r'
}

/// Text whose only marker characters are carriage returns, which parsing
/// drops: it has no formatting at all.
pub open spec fn is_plain_text(s: Seq<char>) -> bool {
    forall|i: int| 0 <= i < s.len() ==> (!is_marker(#[trigger] s[i]) || s[i] == '\r')
}

/// Text with its carriage returns removed.
pub open spec fn without_cr(s: Seq<char>) -> Seq<char>
    decreases s.len(),
{
    if s.len() == 0 {
        Seq::empty()
    } else if s.last() == '\r' {
        without_cr(s.drop_last())
    } else {
        without_cr(s.drop_last()).push(s.last())
    }
}

/// Text with no marker character: it has no formatting at all.
pub open spec fn is_plain(s: Seq<char>) -> bool {
    forall|i: int| 0 <= i < s.len() ==> !is_marker(#[trigger] s[i])
}

/// Whether a `{` stands at or after `pos`: only a placeholder can make
/// parsing fail.
pub open spec fn brace_from(src: Seq<char>, pos: int) -> bool {
    exists|k: int| pos <= k < src.len() && src[k] == '{'
}

/// Whitespace between the parts of a placeholder.
pub open spec fn is_space_char(c: char) -> bool {
    c == ' ' || c == '\t' || c == '\n' || c == '\r'
}

/// A character of a placeholder's name or type: anything but whitespace and
/// `,{}`.
pub open spec fn is_word_char(c: char) -> bool {
    !is_space_char(c) && c != ',' && c != '{' && c != '}'
}

/// Whether `src[pos..=close]` is a simple variable placeholder `{name}`,
/// with a name of one or more word characters.
pub open spec fn variable_at(src: Seq<char>, pos: int, close: int) -> bool {
    &&& 0 <= pos && pos + 1 < close < src.len()
    &&& src[pos] == '{' && src[close] == '}'
    &&& forall|k: int| pos < k < close ==> is_word_char(#[trigger] src[k])
}

/// A placeholder's own invariant: its name is not empty, and a plural has
/// at least one arm.
pub open spec fn icu_shape_ok(icu: Icu) -> bool {
    match icu {
        Icu::IcuVariable(n) => n@.len() > 0,
        Icu::IcuPlural(p) => p.name@.len() > 0 && p.arms@.len() > 0,
        Icu::IcuDate(n) => n@.len() > 0,
        Icu::IcuTime(n) => n@.len() > 0,
        Icu::IcuNumber(n) => n@.len() > 0,
    }
}

/// Whether parsing gave exactly one node, the variable placeholder `name`.
pub open spec fn yields_variable(
    r: Result<(Vec<InlineContent>, usize, bool), ParseError>,
    name: Seq<char>,
) -> bool {
    match r {
        Ok((nodes, _, _)) => nodes@.len() == 1 && is_variable_node(nodes@[0], name),
        Err(_) => false,
    }
}

/// The type word of a typed placeholder: 0 for `date`, 1 for `time`, 2 for
/// `number`.
pub open spec fn type_word(kind: nat) -> Seq<char> {
    if kind == 0 {
        seq!['d', 'a', 't', 'e']
    } else if kind == 1 {
        seq!['t', 'i', 'm', 'e']
    } else {
        seq!['n', 'u', 'm', 'b', 'e', 'r']
    }
}

/// Whether `src[pos..=close]` is a typed placeholder `{name, type}`: a name
/// of word characters, the comma at `comma`, one space, and the type word.
pub open spec fn typed_at(src: Seq<char>, pos: int, comma: int, close: int, kind: nat) -> bool {
    &&& 0 <= pos && pos + 1 < comma && kind <= 2
    &&& close == comma + 2 + type_word(kind).len() && close < src.len()
    &&& src[pos] == '{' && src[comma] == ',' && src[comma + 1] == ' ' && src[close] == '}'
    &&& forall|k: int| pos < k < comma ==> is_word_char(#[trigger] src[k])
    &&& src.subrange(comma + 2, close) == type_word(kind)
}

/// Whether a placeholder is the typed one of kind `kind` named `name`.
pub open spec fn is_typed_icu(icu: Icu, kind: nat, name: Seq<char>) -> bool {
    match icu {
        Icu::IcuDate(n) => kind == 0 && n@ == name,
        Icu::IcuTime(n) => kind == 1 && n@ == name,
        Icu::IcuNumber(n) => kind == 2 && n@ == name,
        _ => false,
    }
}

/// Whether parsing gave exactly one node, the typed placeholder of kind
/// `kind` named `name`.
pub open spec fn yields_typed(
    r: Result<(Vec<InlineContent>, usize, bool), ParseError>,
    kind: nat,
    name: Seq<char>,
) -> bool {
    match r {
        Ok((nodes, _, _)) => nodes@.len() == 1 && is_typed_node(nodes@[0], kind, name),
        Err(_) => false,
    }
}

/// Whether a node is the typed placeholder of kind `kind` named `name`.
pub open spec fn is_typed_node(c: InlineContent, kind: nat, name: Seq<char>) -> bool {
    match c {
        InlineContent::Icu(icu) => is_typed_icu(icu, kind, name),
        _ => false,
    }
}

/// Whether a document is one paragraph holding the typed placeholder of kind
/// `kind` named `name` alone.
pub open spec fn is_typed_paragraph(d: Document, kind: nat, name: Seq<char>) -> bool {
    d.blocks@.len() == 1 && match d.blocks@[0] {
        BlockNode::Paragraph(v) => v@.len() == 1 && is_typed_node(v@[0], kind, name),
        _ => false,
    }
}

/// Whether a node is the variable placeholder named `name`.
pub open spec fn is_variable_node(c: InlineContent, name: Seq<char>) -> bool {
    match c {
        InlineContent::Icu(Icu::IcuVariable(n)) => n@ == name,
        _ => false,
    }
}

/// Whether a document is one paragraph holding the variable placeholder
/// `name` alone.
pub open spec fn is_variable_paragraph(d: Document, name: Seq<char>) -> bool {
    d.blocks@.len() == 1 && match d.blocks@[0] {
        BlockNode::Paragraph(v) => v@.len() == 1 && is_variable_node(v@[0], name),
        _ => false,
    }
}

/// Whether a `{` stands at `pos` and no `}` comes after it: a placeholder
/// opened there is never closed.
pub open spec fn opens_unclosed(src: Seq<char>, pos: int) -> bool {
    0 <= pos < src.len() && src[pos] == '{' && !src.subrange(pos, src.len() as int).contains('}')
}

/// Whether a node is the text `s`.
pub open spec fn is_text_node(c: InlineContent, s: Seq<char>) -> bool {
    match c {
        InlineContent::Text(t) => t@ == s,
        _ => false,
    }
}

/// Whether a document is one paragraph holding the text `s` alone (nothing,
/// when `s` is empty).
pub open spec fn is_text_paragraph(d: Document, s: Seq<char>) -> bool {
    d.blocks@.len() == 1 && match d.blocks@[0] {
        BlockNode::Paragraph(v) => if s.len() == 0 {
            v@.len() == 0
        } else {
            v@.len() == 1 && is_text_node(v@[0], s)
        },
        _ => false,
    }
}

/// Whether `c` repeated `run` times is an emphasis, strong or strikethrough
/// delimiter.
pub open spec fn is_delimiter(c: char, run: int) -> bool {
    ((c == '*' || c == '_') && (run == 1 || run == 2)) || (c == '~' && run == 2)
}

/// Whether `src[from..]` is nonempty plain text followed by `c` repeated
/// `run` times, which ends the input.
pub open spec fn plain_then_closing(src: Seq<char>, from: int, c: char, run: int) -> bool {
    &&& is_delimiter(c, run)
    &&& 0 <= from < src.len() - run
    &&& is_plain(src.subrange(from, src.len() - run))
    &&& forall|k: int| src.len() - run <= k < src.len() ==> src[k] == c
}

/// The length of the delimiter run at `pos`: two when the next character
/// repeats it.
pub open spec fn run_at(src: Seq<char>, pos: int) -> int {
    if pos + 1 < src.len() && src[pos + 1] == src[pos] {
        2
    } else {
        1
    }
}

/// Whether `src[pos..]` is plain text wrapped in a delimiter run on each side,
/// like `**bold**`, `*text*` or `~~gone~~`.
pub open spec fn wrapped_at(src: Seq<char>, pos: int) -> bool {
    &&& 0 <= pos < src.len()
    &&& forall|k: int| pos <= k < pos + run_at(src, pos) ==> src[k] == src[pos]
    &&& plain_then_closing(src, pos + run_at(src, pos), src[pos], run_at(src, pos))
}

/// The node that a delimiter run of `c` repeated `run` times makes of the
/// text `t`: strikethrough for `~~`, strong for a double run, emphasis for
/// a single one.
pub open spec fn is_wrapped_node(node: InlineContent, c: char, run: int, t: Seq<char>) -> bool {
    match node {
        InlineContent::Strikethrough(v) => c == '~' && v@.len() == 1 && is_text_node(v@[0], t),
        InlineContent::Strong(v) => c != '~' && run == 2 && v@.len() == 1 && is_text_node(v@[0], t),
        InlineContent::Emphasis(v) => c != '~' && run == 1 && v@.len() == 1 && is_text_node(v@[0], t),
        _ => false,
    }
}

/// Whether parsing gave exactly one node, the wrapped text at `pos`.
pub open spec fn yields_wrapped(
    r: Result<(Vec<InlineContent>, usize, bool), ParseError>,
    src: Seq<char>,
    pos: int,
) -> bool {
    match r {
        Ok((nodes, _, _)) => nodes@.len() == 1 && is_wrapped_node(
            nodes@[0],
            src[pos],
            run_at(src, pos),
            src.subrange(pos + run_at(src, pos), src.len() - run_at(src, pos)),
        ),
        Err(_) => false,
    }
}

/// Whether a document is one paragraph holding the wrapped text of `raw`.
pub open spec fn is_wrapped_paragraph(d: Document, raw: Seq<char>) -> bool {
    d.blocks@.len() == 1 && match d.blocks@[0] {
        BlockNode::Paragraph(v) => v@.len() == 1 && is_wrapped_node(
            v@[0],
            raw[0],
            run_at(raw, 0),
            raw.subrange(run_at(raw, 0), raw.len() - run_at(raw, 0)),
        ),
        _ => false,
    }
}

/// Whether a delimiter stop is met by plain text at `pos` and then its
/// closing run at the end of the input.
spec fn stop_closes_plain(stop: Stop, src: Seq<char>, pos: int) -> bool {
    match stop {
        Stop::Delim(c, run) => plain_then_closing(src, pos, c, run as int),
        _ => false,
    }
}

spec fn stop_run(stop: Stop) -> int {
    match stop {
        Stop::Delim(_, run) => run as int,
        _ => 0,
    }
}

/// Whether parsing found its stop at the end of the input after the single
/// text node `t`.
spec fn yields_closed_text(
    r: Result<(Vec<InlineContent>, usize, bool), ParseError>,
    t: Seq<char>,
    end: int,
) -> bool {
    match r {
        Ok((nodes, e, found)) => found && e == end && nodes@.len() == 1 && is_text_node(nodes@[0], t),
        Err(_) => false,
    }
}

/// What ends a run of inline content.
enum Stop {
    /// The end of the input.
    End,
    /// The `}` that closes a plural arm.
    Brace,
    /// The `]` that closes a link label.
    Bracket,
    /// A closing delimiter run: the character and its length.
    Delim(char, usize),
}

fn is_space(c: char) -> (r: bool)
    ensures
        r == (c == ' ' || c == '\t' || c == '\n' || c == '\r'),
{
    c == ' ' || c == '\t' || c == '\n' || c == '\r'
}

/// Moves a pending run of text, if any, into the node list.
fn flush(nodes: &mut Vec<InlineContent>, text: &mut String)
    ensures
        final(text)@.len() == 0,
        old(text)@.len() == 0 ==> final(nodes)@ == old(nodes)@,
        old(text)@.len() > 0 ==> final(nodes)@.len() == old(nodes)@.len() + 1,
        old(text)@.len() > 0 ==> final(nodes)@.drop_last() == old(nodes)@,
        old(text)@.len() > 0 ==> is_text_node(final(nodes)@.last(), old(text)@),
{
    if !text.as_str().is_empty() {
        let t = text.clone();
        *text = String::new();
        nodes.push(InlineContent::Text(t));
        assert(nodes@.drop_last() =~= old(nodes)@);
    }
}

fn skip_spaces(src: &Vec<char>, pos: usize) -> (r: usize)
    requires
        pos <= src@.len(),
    ensures
        pos <= r <= src@.len(),
        pos < src@.len() && !is_space_char(src@[pos as int]) ==> r == pos,
        forall|k: int| pos <= k < r ==> is_space_char(#[trigger] src@[k]),
        r < src@.len() ==> !is_space_char(src@[r as int]),
{
    let mut i = pos;
    while i < src.len() && is_space(src[i])
        invariant
            pos <= i <= src@.len(),
            pos < src@.len() && !is_space_char(src@[pos as int]) ==> i == pos,
            forall|k: int| pos <= k < i ==> is_space_char(#[trigger] src@[k]),
        decreases src@.len() - i,
    {
        i = i + 1;
    }
    i
}

/// Reads a word: the characters up to whitespace or one of `,{}`.
fn read_word(src: &Vec<char>, pos: usize) -> (r: (String, usize))
    requires
        pos <= src@.len(),
    ensures
        pos <= r.1 <= src@.len(),
        r.0@ == src@.subrange(pos as int, r.1 as int),
        forall|k: int| pos <= k < r.1 ==> is_word_char(#[trigger] src@[k]),
        r.1 < src@.len() ==> !is_word_char(src@[r.1 as int]),
{
    let mut word = String::new();
    let mut i = pos;
    while i < src.len() && !is_space(src[i]) && src[i] != ',' && src[i] != '{' && src[i] != '}'
        invariant
            pos <= i <= src@.len(),
            word@ == src@.subrange(pos as int, i as int),
            forall|k: int| pos <= k < i ==> is_word_char(#[trigger] src@[k]),
        decreases src@.len() - i,
    {
        push_char(&mut word, src[i]);
        i = i + 1;
        assert(word@ =~= src@.subrange(pos as int, i as int));
    }
    (word, i)
}

fn same_word(word: &String, expected: &str) -> (r: bool)
    ensures
        r == (word@ == expected@),
{
    *word == expected.to_owned()
}

/// Parses an ICU placeholder whose opening brace stands just before `pos`.
/// On success, returns the placeholder and the position after its closing
/// brace.
fn parse_placeholder(src: &Vec<char>, pos: usize) -> (r: Result<(Icu, usize), ParseError>)
    requires
        pos <= src@.len(),
    ensures
        r matches Ok((_, end)) ==> pos < end <= src@.len() && src@[end - 1] == '}',
        r matches Ok((icu, _)) ==> icu_shape_ok(icu),
        forall|comma: int, close: int, kind: nat| #[trigger] typed_at(src@, pos - 1, comma, close, kind)
            ==> (r matches Ok((icu, end)) && end == close + 1 && is_typed_icu(
            icu,
            kind,
            src@.subrange(pos as int, comma),
        )),
        forall|close: int| #[trigger] variable_at(src@, pos - 1, close) ==> (r matches Ok((icu, end))
            && end == close + 1 && is_variable_node(InlineContent::Icu(icu), src@.subrange(pos as int, close))),
    decreases src@.len() - pos, 0int,
{
    let start = pos;
    let mut i = skip_spaces(src, pos);
    let ghost first = i;
    let (name, after_name) = read_word(src, i);
    proof {
        assert forall|comma: int, close: int, kind: nat| #[trigger] typed_at(
            src@,
            pos - 1,
            comma,
            close,
            kind,
        ) implies first == pos && after_name == comma by {
            assert(is_word_char(src@[pos as int]));
            if after_name > comma {
                assert(is_word_char(src@[comma]));
            }
            if after_name < comma {
                assert(is_word_char(src@[after_name as int]));
            }
        }
        assert forall|close: int| #[trigger] variable_at(src@, pos - 1, close) implies first == pos
            && after_name == close by {
            assert(is_word_char(src@[pos as int]));
            if after_name > close {
                assert(is_word_char(src@[close]));
            }
            if after_name < close {
                assert(is_word_char(src@[after_name as int]));
            }
        }
    }
    if name.as_str().is_empty() {
        return Err(ParseError::EmptyPlaceholderName(start));
    }
    i = skip_spaces(src, after_name);
    proof {
        assert forall|close: int| #[trigger] variable_at(src@, pos - 1, close) implies i == close
            && name@ == src@.subrange(pos as int, close) by {
            assert(!is_space_char(src@[close]));
        }
    }
    if i >= src.len() {
        return Err(ParseError::UnterminatedPlaceholder(start));
    }
    if src[i] == '}' {
        return Ok((Icu::IcuVariable(name), i + 1));
    }
    if src[i] != ',' {
        return Err(ParseError::UnterminatedPlaceholder(start));
    }
    let ghost at_comma = i;
    i = skip_spaces(src, i + 1);
    let ghost at_kind = i;
    let (kind, after_kind) = read_word(src, i);
    i = skip_spaces(src, after_kind);
    proof {
        reveal_strlit("plural");
        reveal_strlit("selectordinal");
        reveal_strlit("date");
        reveal_strlit("time");
        reveal_strlit("number");
        assert forall|comma: int, close: int, kind_id: nat| #[trigger] typed_at(
            src@,
            pos - 1,
            comma,
            close,
            kind_id,
        ) implies i == close && kind@ == type_word(kind_id) && name@ == src@.subrange(
            pos as int,
            comma,
        ) by {
            assert(at_comma == comma);
            assert(src@[comma + 2] == src@.subrange(comma + 2, close)[0]);
            assert(!is_space_char(src@[comma + 2]));
            assert(at_kind == comma + 2);
            assert forall|k: int| comma + 2 <= k < close implies is_word_char(src@[k]) by {
                assert(src@[k] == src@.subrange(comma + 2, close)[k - comma - 2]);
            }
            if after_kind > close {
                assert(is_word_char(src@[close]));
            }
            if after_kind < close {
                assert(is_word_char(src@[after_kind as int]));
            }
            assert(!is_space_char(src@[close]));
        }
        assert forall|comma: int, close: int, kind_id: nat| #[trigger] typed_at(
            src@,
            pos - 1,
            comma,
            close,
            kind_id,
        ) implies kind@ != "plural"@ && kind@ != "selectordinal"@ && (kind@ == "date"@ <==> kind_id
            == 0) && (kind@ == "time"@ <==> kind_id == 1) && (kind@ == "number"@ <==> kind_id == 2) by {
            assert(kind@ == type_word(kind_id));
            assert("date"@ =~= type_word(0));
            assert("time"@ =~= type_word(1));
            assert("number"@ =~= type_word(2));
            assert("plural"@[0] == 'p');
            assert("selectordinal"@.len() == 13);
            if kind_id == 0 {
                assert(kind@[0] == 'd' && kind@.len() == 4);
                assert(kind@[0] != "time"@[0]);
            } else if kind_id == 1 {
                assert(kind@[0] == 't' && kind@.len() == 4);
                assert(kind@[0] != "date"@[0]);
            } else {
                assert(kind@[0] == 'n' && kind@.len() == 6);
            }
        }
    }
    if i >= src.len() {
        return Err(ParseError::UnterminatedPlaceholder(start));
    }
    if same_word(&kind, "plural") || same_word(&kind, "selectordinal") {
        if src[i] != ',' {
            return Err(ParseError::MalformedPluralArm(i));
        }
        i = i + 1;
        let mut arms: Vec<IcuPluralArm> = Vec::new();
        loop
            invariant
                pos < i <= src@.len(),
                name@.len() > 0,
                forall|close: int| !#[trigger] variable_at(src@, pos - 1, close),
                forall|comma: int, close: int, kind_id: nat|
                    !#[trigger] typed_at(src@, pos - 1, comma, close, kind_id),
            decreases src@.len() - i,
        {
            i = skip_spaces(src, i);
            if i >= src.len() {
                return Err(ParseError::UnterminatedPlaceholder(start));
            }
            if src[i] == '}' {
                if arms.len() == 0 {
                    return Err(ParseError::PluralWithoutArms(start));
                }
                return Ok((Icu::IcuPlural(IcuPlural { name, arms }), i + 1));
            }
            let (selector, after_selector) = read_word(src, i);
            if selector.as_str().is_empty() {
                return Err(ParseError::MalformedPluralArm(i));
            }
            i = skip_spaces(src, after_selector);
            if i >= src.len() || src[i] != '{' {
                return Err(ParseError::MalformedPluralArm(i));
            }
            match parse_inline(src, i + 1, &Stop::Brace, true, false) {
                Ok((content, end, true)) => {
                    arms.push(IcuPluralArm { selector, content });
                    i = end;
                },
                Ok(_) => {
                    return Err(ParseError::UnterminatedPlaceholder(start));
                },
                Err(e) => {
                    return Err(e);
                },
            }
        }
    } else if same_word(&kind, "date") || same_word(&kind, "time") || same_word(&kind, "number") {
        // The format style that may follow is passed over: it has no meaning here.
        while i < src.len() && src[i] != '}'
            invariant
                pos < i <= src@.len(),
                name@.len() > 0,
                forall|close: int| !#[trigger] variable_at(src@, pos - 1, close),
                forall|comma: int, close: int, kind_id: nat| #[trigger] typed_at(
                    src@,
                    pos - 1,
                    comma,
                    close,
                    kind_id,
                ) ==> i == close && kind@ == type_word(kind_id) && name@ == src@.subrange(
                    pos as int,
                    comma,
                ),
            decreases src@.len() - i,
        {
            i = i + 1;
        }
        if i >= src.len() {
            return Err(ParseError::UnterminatedPlaceholder(start));
        }
        let icu = if same_word(&kind, "date") {
            Icu::IcuDate(name)
        } else if same_word(&kind, "time") {
            Icu::IcuTime(name)
        } else {
            Icu::IcuNumber(name)
        };
        Ok((icu, i + 1))
    } else {
        Err(ParseError::UnknownPlaceholderType(start))
    }
}

/// Parses inline content from `pos` until `stop`. Returns the nodes, the
/// position after what was read (after the stop, when it was found) and
/// whether the stop was found. Content never fails to parse; only a
/// malformed placeholder does.
fn parse_inline(src: &Vec<char>, pos: usize, stop: &Stop, in_arm: bool, in_label: bool) -> (r:
    Result<(Vec<InlineContent>, usize, bool), ParseError>)
    requires
        pos <= src@.len(),
    ensures
        r matches Ok((_, end, _)) ==> pos <= end <= src@.len(),
        r matches Ok((_, end, true)) ==> pos < end,
        r is Err ==> brace_from(src@, pos as int),
        opens_unclosed(src@, pos as int) ==> r is Err,
        variable_at(src@, pos as int, src@.len() - 1) ==> yields_variable(
            r,
            src@.subrange(pos + 1, src@.len() - 1),
        ),
        forall|comma: int, kind: nat| #[trigger] typed_at(src@, pos as int, comma, src@.len() - 1, kind)
            ==> yields_typed(r, kind, src@.subrange(pos + 1, comma)),
        stop_closes_plain(*stop, src@, pos as int) ==> yields_closed_text(
            r,
            src@.subrange(pos as int, src@.len() - stop_run(*stop)),
            src@.len() as int,
        ),
        *stop == Stop::End && wrapped_at(src@, pos as int) ==> yields_wrapped(r, src@, pos as int),
        (*stop == Stop::End && !in_arm && !in_label && is_plain_text(src@.subrange(pos as int, src@.len() as int))) ==> (
        r matches Ok((nodes, end, _)) && end == src@.len() && (if without_cr(src@.subrange(pos as int, src@.len() as int)).len() == 0 {
            nodes@.len() == 0
        } else {
            nodes@.len() == 1 && is_text_node(nodes@[0], without_cr(src@.subrange(pos as int, src@.len() as int)))
        })),
    decreases src@.len() - pos, 1int,
{
    let ghost plain = *stop == Stop::End && !in_arm && !in_label && is_plain_text(
        src@.subrange(pos as int, src@.len() as int),
    );
    let mut nodes: Vec<InlineContent> = Vec::new();
    let mut text = String::new();
    let mut i = pos;
    while i < src.len()
        invariant
            pos <= i <= src@.len(),
            plain == (*stop == Stop::End && !in_arm && !in_label && is_plain_text(
                src@.subrange(pos as int, src@.len() as int),
            )),
            plain ==> nodes@.len() == 0 && text@ == without_cr(src@.subrange(pos as int, i as int)),
            opens_unclosed(src@, pos as int) ==> i == pos,
            variable_at(src@, pos as int, src@.len() - 1) ==> (i == pos && nodes@.len() == 0
                && text@.len() == 0) || (i == src@.len() && nodes@.len() == 1 && is_variable_node(
                nodes@[0],
                src@.subrange(pos + 1, src@.len() - 1),
            ) && text@.len() == 0),
            forall|comma: int, kind: nat| #[trigger] typed_at(
                src@,
                pos as int,
                comma,
                src@.len() - 1,
                kind,
            ) ==> (i == pos && nodes@.len() == 0 && text@.len() == 0) || (i == src@.len()
                && nodes@.len() == 1 && is_typed_node(nodes@[0], kind, src@.subrange(pos + 1, comma))
                && text@.len() == 0),
            stop_closes_plain(*stop, src@, pos as int) ==> i <= src@.len() - stop_run(*stop)
                && nodes@.len() == 0 && text@ == src@.subrange(pos as int, i as int),
            *stop == Stop::End && wrapped_at(src@, pos as int) ==> (i == pos && nodes@.len() == 0
                && text@.len() == 0) || (i == src@.len() && nodes@.len() == 1 && is_wrapped_node(
                nodes@[0],
                src@[pos as int],
                run_at(src@, pos as int),
                src@.subrange(pos + run_at(src@, pos as int), src@.len() - run_at(src@, pos as int)),
            ) && text@.len() == 0),
        decreases src@.len() - i,
    {
        let ghost before = i;
        let c = src[i];
        let next = if i + 1 < src.len() {
            src[i + 1]
        } else {
            '\0'
        };
        proof {
            if plain {
                assert(src@.subrange(pos as int, src@.len() as int)[i - pos] == c);
            }
            if stop_closes_plain(*stop, src@, pos as int) && i < src@.len() - stop_run(*stop) {
                assert(src@.subrange(pos as int, src@.len() - stop_run(*stop))[i - pos] == c);
                if i + 1 < src@.len() - stop_run(*stop) {
                    assert(src@.subrange(pos as int, src@.len() - stop_run(*stop))[i + 1 - pos]
                        == next);
                }
            }
            if plain && i + 1 < src@.len() {
                assert(src@.subrange(pos as int, src@.len() as int)[i + 1 - pos] == next);
            }
        }
        if c == '\\' && i + 1 < src.len() && is_ascii_punctuation(next) {
            push_char(&mut text, next);
            i = i + 2;
        } else if c == '\\' && next == '\n' {
            flush(&mut nodes, &mut text);
            nodes.push(InlineContent::HardLineBreak);
            i = i + 2;
        } else if c == '\r' {
            i = i + 1;
        } else if c == '}' && in_arm {
            flush(&mut nodes, &mut text);
            return Ok((nodes, i + 1, matches!(stop, Stop::Brace)));
        } else if c == ']' && in_label {
            flush(&mut nodes, &mut text);
            return Ok((nodes, i + 1, matches!(stop, Stop::Bracket)));
        } else if c == '#' && in_arm {
            flush(&mut nodes, &mut text);
            nodes.push(InlineContent::IcuPound);
            i = i + 1;
        } else if c == '{' {
            flush(&mut nodes, &mut text);
            match parse_placeholder(src, i + 1) {
                Ok((icu, end)) => {
                    proof {
                        if variable_at(src@, pos as int, src@.len() - 1) {
                            assert(variable_at(src@, (i + 1) - 1, src@.len() - 1));
                        }
                        assert forall|comma: int, kind: nat| #[trigger] typed_at(
                            src@,
                            pos as int,
                            comma,
                            src@.len() - 1,
                            kind,
                        ) implies end == src@.len() && is_typed_icu(icu, kind, src@.subrange(pos + 1, comma)) by {
                            assert(typed_at(src@, (i + 1) - 1, comma, src@.len() - 1, kind));
                        }
                        if opens_unclosed(src@, pos as int) {
                            assert(src@.subrange(pos as int, src@.len() as int)[end - 1 - pos]
                                == '}');
                        }
                    }
                    nodes.push(InlineContent::Icu(icu));
                    i = end;
                },
                Err(e) => {
                    assert(src@[i as int] == '{');
                    proof {
                        if variable_at(src@, pos as int, src@.len() - 1) {
                            assert(variable_at(src@, (i + 1) - 1, src@.len() - 1));
                        }
                        assert forall|comma: int, kind: nat| #[trigger] typed_at(
                            src@,
                            pos as int,
                            comma,
                            src@.len() - 1,
                            kind,
                        ) implies false by {
                            assert(typed_at(src@, (i + 1) - 1, comma, src@.len() - 1, kind));
                        }
                    }
                    return Err(e);
                },
            }
        } else if c == '`' {
            let mut j = i + 1;
            while j < src.len() && src[j] != '`'
                invariant
                    i < j <= src@.len(),
                decreases src@.len() - j,
            {
                j = j + 1;
            }
            if j < src.len() {
                flush(&mut nodes, &mut text);
                let mut code = String::new();
                let mut k = i + 1;
                while k < j
                    invariant
                        k <= j < src@.len(),
                    decreases j - k,
                {
                    push_char(&mut code, src[k]);
                    k = k + 1;
                }
                nodes.push(InlineContent::CodeSpan(code));
                i = j + 1;
            } else {
                push_char(&mut text, c);
                i = i + 1;
            }
        } else if c == '*' || c == '_' || (c == '~' && next == '~') {
            let run: usize = if next == c {
                2
            } else {
                1
            };
            let closes = match stop {
                Stop::Delim(d, n) => *d == c && *n == run,
                _ => false,
            };
            if closes {
                flush(&mut nodes, &mut text);
                return Ok((nodes, i + run, true));
            }
            proof {
                if *stop == Stop::End && wrapped_at(src@, pos as int) {
                    assert(src@.subrange(pos + run, src@.len() - run).len() > 0);
                    assert(stop_closes_plain(Stop::Delim(c, run), src@, (i + run) as int));
                }
            }
            let inner = Stop::Delim(c, run);
            match parse_inline(src, i + run, &inner, in_arm, in_label) {
                Ok((content, end, true)) => {
                    flush(&mut nodes, &mut text);
                    if c == '~' {
                        nodes.push(InlineContent::Strikethrough(content));
                    } else if run == 2 {
                        nodes.push(InlineContent::Strong(content));
                    } else {
                        nodes.push(InlineContent::Emphasis(content));
                    }
                    i = end;
                },
                Ok(_) => {
                    push_char(&mut text, c);
                    if run == 2 {
                        push_char(&mut text, c);
                    }
                    i = i + run;
                },
                Err(e) => {
                    proof {
                        let k = choose|k: int| i + run <= k < src@.len() && src@[k] == '{';
                        assert(pos <= k);
                    }
                    return Err(e);
                },
            }
        } else if c == '[' || (c == '$' && next == '[') {
            let is_hook = c == '$';
            let bracket: usize = if is_hook {
                i + 1
            } else {
                i
            };
            match parse_link(src, bracket, in_arm, is_hook) {
                Ok(Some((node, end))) => {
                    flush(&mut nodes, &mut text);
                    nodes.push(node);
                    i = end;
                },
                Ok(None) => {
                    push_char(&mut text, c);
                    i = i + 1;
                },
                Err(e) => {
                    proof {
                        let k = choose|k: int| bracket + 1 <= k < src@.len() && src@[k] == '{';
                        assert(pos <= k);
                    }
                    return Err(e);
                },
            }
        } else {
            push_char(&mut text, c);
            i = i + 1;
        }
        proof {
            if plain {
                assert(i == before + 1);
                assert(src@.subrange(pos as int, i as int).drop_last() =~= src@.subrange(
                    pos as int,
                    before as int,
                ));
                assert(text@ =~= without_cr(src@.subrange(pos as int, i as int)));
            }
            if stop_closes_plain(*stop, src@, pos as int) {
                assert(text@ =~= src@.subrange(pos as int, i as int));
            }
        }
    }
    flush(&mut nodes, &mut text);
    Ok((nodes, i, false))
}

/// Parses `[label](destination)` from the `[` at `bracket` (a hook's `$[` has
/// its name as destination). Returns `None` when what follows is not a link,
/// so the opening bracket is text.
fn parse_link(src: &Vec<char>, bracket: usize, in_arm: bool, is_hook: bool) -> (r: Result<
    Option<(InlineContent, usize)>,
    ParseError,
>)
    requires
        bracket < src@.len(),
    ensures
        r matches Ok(Some((_, end))) ==> bracket < end <= src@.len(),
        r is Err ==> brace_from(src@, bracket + 1),
    decreases src@.len() - bracket, 0int,
{
    let n = src.len();
    assert(bracket < n);
    let pos = bracket + 1;
    let (label, after_label, closed) = match parse_inline(src, pos, &Stop::Bracket, in_arm, true) {
        Ok(v) => v,
        Err(e) => {
            return Err(e);
        },
    };
    if !closed || after_label >= src.len() || src[after_label] != '(' {
        return Ok(None);
    }
    let mut j = after_label + 1;
    if !is_hook && j < src.len() && src[j] == '{' {
        let (icu, end) = match parse_placeholder(src, j + 1) {
            Ok(v) => v,
            Err(e) => {
                assert(src@[j as int] == '{');
                return Err(e);
            },
        };
        if end >= src.len() || src[end] != ')' {
            return Ok(None);
        }
        return Ok(
            Some((InlineContent::Link { label, destination: TextOrPlaceholder::Placeholder(icu) }, end + 1)),
        );
    }
    let mut target = String::new();
    while j < src.len() && src[j] != ')'
        invariant
            pos < j <= src@.len(),
        decreases src@.len() - j,
    {
        push_char(&mut target, src[j]);
        j = j + 1;
    }
    if j >= src.len() {
        return Ok(None);
    }
    if is_hook {
        Ok(Some((InlineContent::Hook { name: target, content: label }, j + 1)))
    } else {
        Ok(Some((InlineContent::Link { label, destination: TextOrPlaceholder::Text(target) }, j + 1)))
    }
}

/// Whether position `k` of `s` begins a line.
pub open spec fn line_start(s: Seq<char>, k: int) -> bool {
    k == 0 || s[k - 1] == '\n'
}

/// Whether a line of `s` could begin a block other than a paragraph line: an
/// empty line, or one that begins with `#`, a backtick or `---`.
pub open spec fn block_start_at(s: Seq<char>, k: int) -> bool {
    line_start(s, k) && (s[k] == '\n' || s[k] == '#' || s[k] == '`' || (k + 2 < s.len() && s[k]
        == '-' && s[k + 1] == '-' && s[k + 2] == '-'))
}

/// Whether a message may hold blocks beyond one paragraph.
pub open spec fn has_block_syntax(s: Seq<char>) -> bool {
    exists|k: int| 0 <= k < s.len() && #[trigger] block_start_at(s, k)
}

fn block_start(src: &Vec<char>, k: usize) -> (r: bool)
    requires
        k < src@.len(),
    ensures
        r == block_start_at(src@, k as int),
{
    let starts_line = k == 0 || src[k - 1] == '\n';
    let c = src[k];
    starts_line && (c == '\n' || c == '#' || c == '`' || (src.len() - k > 2 && c == '-' && src[k
        + 1] == '-' && src[k + 2] == '-'))
}

/// Whether a message may hold blocks beyond one paragraph.
pub fn may_have_blocks(src: &Vec<char>) -> (r: bool)
    ensures
        r == has_block_syntax(src@),
{
    let mut k: usize = 0;
    while k < src.len()
        invariant
            k <= src@.len(),
            forall|j: int| 0 <= j < k ==> !#[trigger] block_start_at(src@, j),
        decreases src@.len() - k,
    {
        if block_start(src, k) {
            return true;
        }
        k = k + 1;
    }
    false
}

fn copy_range(src: &Vec<char>, from: usize, to: usize) -> (r: Vec<char>)
    requires
        from <= to <= src@.len(),
    ensures
        r@ == src@.subrange(from as int, to as int),
{
    let mut r: Vec<char> = Vec::new();
    let mut k = from;
    while k < to
        invariant
            from <= k <= to <= src@.len(),
            r@ == src@.subrange(from as int, k as int),
        decreases to - k,
    {
        r.push(src[k]);
        k = k + 1;
        assert(r@ =~= src@.subrange(from as int, k as int));
    }
    r
}

fn line_end(src: &Vec<char>, from: usize) -> (r: usize)
    requires
        from <= src@.len(),
    ensures
        from <= r <= src@.len(),
        r < src@.len() ==> src@[r as int] == '\n',
{
    let mut k = from;
    while k < src.len() && src[k] != '\n'
        invariant
            from <= k <= src@.len(),
        decreases src@.len() - k,
    {
        k = k + 1;
    }
    k
}

/// Whether the line `[from, to)` holds only whitespace.
fn is_blank(src: &Vec<char>, from: usize, to: usize) -> (r: bool)
    requires
        from <= to <= src@.len(),
{
    let mut k = from;
    while k < to
        invariant
            from <= k <= to <= src@.len(),
        decreases to - k,
    {
        if !is_space(src[k]) {
            return false;
        }
        k = k + 1;
    }
    true
}

/// Whether the line `[from, to)` is a thematic break: three or more of one of
/// `-`, `*` or `_`, and nothing else but spaces.
fn is_thematic_break(src: &Vec<char>, from: usize, to: usize) -> (r: bool)
    requires
        from <= to <= src@.len(),
{
    let mut mark = ' ';
    let mut count: usize = 0;
    let mut k = from;
    while k < to
        invariant
            from <= k <= to <= src@.len(),
            count <= k - from,
        decreases to - k,
    {
        let c = src[k];
        if c == '-' || c == '*' || c == '_' {
            if count > 0 && c != mark {
                return false;
            }
            mark = c;
            count = count + 1;
        } else if c != ' ' && c != '\t' && c != '\r' {
            return false;
        }
        k = k + 1;
    }
    count >= 3
}

/// The level of a heading line `[from, to)`: one to six `#` and then a space
/// or the end of the line; 0 for any other line.
fn heading_level(src: &Vec<char>, from: usize, to: usize) -> (r: u8)
    requires
        from <= to <= src@.len(),
    ensures
        r <= 6,
        r > 0 ==> from + r <= to,
{
    let mut level: u8 = 0;
    let mut k = from;
    while k < to && src[k] == '#' && level < 7
        invariant
            from <= k <= to <= src@.len(),
            level == k - from,
            level <= 7,
        decreases to - k,
    {
        level = level + 1;
        k = k + 1;
    }
    if level == 0 || level > 6 {
        0
    } else if k == to || src[k] == ' ' {
        level
    } else {
        0
    }
}

/// Whether no `{` stands in `s`.
pub open spec fn brace_free(s: Seq<char>) -> bool {
    !s.contains('{')
}

/// Parses a run of text as the inline content of one block.
fn parse_block_inline(chars: &Vec<char>) -> (r: Result<Vec<InlineContent>, ParseError>)
    ensures
        brace_free(chars@) ==> r is Ok,
{
    match parse_inline(chars, 0, &Stop::End, false, false) {
        Ok((nodes, _, _)) => Ok(nodes),
        Err(e) => {
            proof {
                let k = choose|k: int| 0 <= k < chars@.len() && chars@[k] == '{';
                assert(chars@.contains('{'));
            }
            Err(e)
        },
    }
}

/// Ends the pending paragraph, if any, as a block.
fn close_paragraph(blocks: &mut Vec<BlockNode>, lines: &mut Vec<char>) -> (r: Result<(), ParseError>)
    requires
        forall|j: int| 0 <= j < old(blocks)@.len() ==> (#[trigger] old(blocks)@[j]).wf(),
    ensures
        forall|j: int| 0 <= j < final(blocks)@.len() ==> (#[trigger] final(blocks)@[j]).wf(),
        final(lines)@.len() == 0,
        brace_free(old(lines)@) ==> r is Ok,
{
    if lines.len() == 0 {
        return Ok(());
    }
    let result = parse_block_inline(lines);
    *lines = Vec::new();
    match result {
        Ok(nodes) => {
            blocks.push(BlockNode::Paragraph(nodes));
            Ok(())
        },
        Err(e) => Err(e),
    }
}

/// Parses a message line by line into blocks: blank lines end paragraphs; a
/// line of one to six `#` and a space is a heading; a line of three or more
/// `-`, `*` or `_` is a thematic break; a line that begins with three
/// backticks opens a code block that the next such line closes; every other
/// line belongs to a paragraph.
fn parse_blocks(src: &Vec<char>) -> (r: Result<Vec<BlockNode>, ParseError>)
    ensures
        r matches Ok(blocks) ==> forall|j: int| 0 <= j < blocks@.len() ==> (#[trigger] blocks@[j]).wf(),
        brace_free(src@) ==> r is Ok,
{
    let mut blocks: Vec<BlockNode> = Vec::new();
    let mut lines: Vec<char> = Vec::new();
    let mut i: usize = 0;
    while i < src.len()
        invariant
            i <= src@.len(),
            forall|j: int| 0 <= j < blocks@.len() ==> (#[trigger] blocks@[j]).wf(),
            brace_free(src@) ==> brace_free(lines@),
        decreases src@.len() - i,
    {
        let end = line_end(src, i);
        let next = if end < src.len() {
            end + 1
        } else {
            end
        };
        let level = heading_level(src, i, end);
        let fence = end - i > 2 && src[i] == '`' && src[i + 1] == '`' && src[i + 2] == '`';
        if is_blank(src, i, end) {
            if let Err(e) = close_paragraph(&mut blocks, &mut lines) {
                return Err(e);
            }
            i = next;
        } else if fence {
            if let Err(e) = close_paragraph(&mut blocks, &mut lines) {
                return Err(e);
            }
            let mut k = next;
            let mut close = src.len();
            while k < src.len()
                invariant
                    next <= k <= src@.len(),
                    next <= close <= src@.len(),
                decreases src@.len() - k,
            {
                if src.len() - k > 2 && src[k] == '`' && src[k + 1] == '`' && src[k + 2] == '`' {
                    close = k;
                    break;
                }
                let e = line_end(src, k);
                k = if e < src.len() {
                    e + 1
                } else {
                    e
                };
            }
            let code_end = if close > next && src[close - 1] == '\n' {
                close - 1
            } else {
                close
            };
            let code_end = if code_end < next {
                next
            } else {
                code_end
            };
            let code_chars = copy_range(src, next, code_end);
            let mut code = String::new();
            let mut m: usize = 0;
            while m < code_chars.len()
                invariant
                    m <= code_chars@.len(),
                decreases code_chars@.len() - m,
            {
                push_char(&mut code, code_chars[m]);
                m = m + 1;
            }
            blocks.push(BlockNode::CodeBlock(code));
            if close < src.len() {
                let e = line_end(src, close);
                i = if e < src.len() {
                    e + 1
                } else {
                    e
                };
            } else {
                i = src.len();
            }
        } else if level > 0 {
            if let Err(e) = close_paragraph(&mut blocks, &mut lines) {
                return Err(e);
            }
            let start = if i + (level as usize) < end {
                i + (level as usize) + 1
            } else {
                end
            };
            let text = copy_range(src, start, end);
            proof {
                if brace_free(src@) {
                    assert forall|j: int| 0 <= j < text@.len() implies text@[j] != '{' by {
                        assert(text@[j] == src@[start + j]);
                    }
                }
            }
            match parse_block_inline(&text) {
                Ok(nodes) => blocks.push(BlockNode::Heading(level, nodes)),
                Err(e) => {
                    return Err(e);
                },
            }
            i = next;
        } else if is_thematic_break(src, i, end) {
            if let Err(e) = close_paragraph(&mut blocks, &mut lines) {
                return Err(e);
            }
            blocks.push(BlockNode::ThematicBreak);
            i = next;
        } else {
            let mut line = copy_range(src, i, end);
            if lines.len() > 0 {
                lines.push('\n');
            }
            proof {
                if brace_free(src@) {
                    assert forall|j: int| 0 <= j < line@.len() implies line@[j] != '{' by {
                        assert(line@[j] == src@[i + j]);
                    }
                }
            }
            let ghost before = lines@;
            lines.append(&mut line);
            proof {
                if brace_free(src@) {
                    assert forall|j: int| 0 <= j < lines@.len() implies lines@[j] != '{' by {
                        if j >= before.len() {
                            assert(lines@[j] == src@[i + j - before.len()]);
                        } else {
                            assert(lines@[j] == before[j]);
                        }
                    }
                }
            }
            i = next;
        }
    }
    match close_paragraph(&mut blocks, &mut lines) {
        Ok(()) => Ok(blocks),
        Err(e) => Err(e),
    }
}

/// The document a parse yields, or `None` when it fails.
pub open spec fn outcome_of(r: Result<Document, ParseError>) -> Option<Document> {
    match r {
        Ok(d) => Some(d),
        Err(_) => None,
    }
}

/// What parsing the message `s` gives, stated of its outcome (the document,
/// or `None` for a parse error):
/// - a document is well formed;
/// - a message without `{` always parses;
/// - a message that opens a placeholder it never closes fails;
/// - plain text, a single delimited run of plain text, `{name}`, and
///   `{name, date|time|number}` each give exactly one paragraph holding what
///   they stand for.
pub open spec fn parse_facts(s: Seq<char>, outcome: Option<Document>) -> bool {
    &&& (outcome matches Some(d) ==> d.wf())
    &&& (!s.contains('{') ==> outcome is Some)
    &&& (opens_unclosed(s, 0) && !has_block_syntax(s) ==> outcome is None)
    &&& (wrapped_at(s, 0) && !has_block_syntax(s) ==> (outcome matches Some(d)
        && is_wrapped_paragraph(d, s)))
    &&& (forall|comma: int, kind: nat| #[trigger] typed_at(s, 0, comma, s.len() - 1, kind) ==> (
    outcome matches Some(d) && is_typed_paragraph(d, kind, s.subrange(1, comma))))
    &&& (variable_at(s, 0, s.len() - 1) ==> (outcome matches Some(d) && is_variable_paragraph(
        d,
        s.subrange(1, s.len() - 1),
    )))
    &&& (is_plain_text(s) && !has_block_syntax(s) ==> (outcome matches Some(d) && is_text_paragraph(
        d,
        without_cr(s),
    )))
}

/// Parses a message into a document. A message with block syntax (see
/// `has_block_syntax`) is parsed block by block; any other is one
/// paragraph. Only a malformed placeholder makes parsing fail, and text with
/// no marker character and no block syntax parses to a single text node
/// holding all of it.
pub fn parse(raw: &str) -> (r: Result<Document, ParseError>)
    ensures
        parse_facts(raw@, outcome_of(r)),
{
    let src = chars_of(raw);
    assert(src@.subrange(0, src@.len() as int) =~= src@);
    proof {
        assert forall|comma: int, kind: nat, k: int| #[trigger] typed_at(
            raw@,
            0,
            comma,
            raw@.len() - 1,
            kind,
        ) && 0 <= k < raw@.len() implies !#[trigger] block_start_at(raw@, k) by {
            if k > 1 && k - 1 < comma {
                assert(is_word_char(raw@[k - 1]));
            }
            if k - 1 > comma + 1 {
                assert(raw@[k - 1] == raw@.subrange(comma + 2, raw@.len() - 1)[k - 1 - comma - 2]);
            }
        }
        if variable_at(raw@, 0, raw@.len() - 1) {
            assert forall|k: int| 0 <= k < raw@.len() implies !#[trigger] block_start_at(raw@, k) by {
                if k > 1 {
                    assert(is_word_char(raw@[k - 1]));
                }
            }
        }
    }
    if may_have_blocks(&src) {
        return match parse_blocks(&src) {
            Ok(blocks) => Ok(Document { blocks }),
            Err(e) => Err(e),
        };
    }
    match parse_inline(&src, 0, &Stop::End, false, false) {
        Ok((nodes, _, _)) => {
            let mut blocks: Vec<BlockNode> = Vec::new();
            blocks.push(BlockNode::Paragraph(nodes));
            Ok(Document { blocks })
        },
        Err(e) => {
            proof {
                let k = choose|k: int| 0 <= k < src@.len() && src@[k] == '{';
                assert(raw@[k] == '{');
            }
            Err(e)
        },
    }
}

/// Text without formatting comes back unchanged, but for its carriage
/// returns, when parsed and flattened to plain text: the document that
/// `parse` gives for it is one paragraph whose content, which holds no
/// placeholder, flattens to the text without carriage returns.
pub proof fn lemma_plain_text_round_trip(raw: Seq<char>, d: Document)
    requires
        is_plain_text(raw),
        !has_block_syntax(raw),
        is_text_paragraph(d, without_cr(raw)),
    ensures
        d.blocks@[0] matches BlockNode::Paragraph(v) && !has_icu_list(v, v@.len() as int)
            && plain_text_list(v, v@.len() as int) == without_cr(raw),
{
    match d.blocks@[0] {
        BlockNode::Paragraph(v) => {
            if without_cr(raw).len() == 0 {
                assert(plain_text_list(v, 0) == Seq::<char>::empty());
                assert(!has_icu_list(v, 0));
            } else {
                assert(has_icu_list(v, 0) == false);
                assert(plain_text_list(v, 0) == Seq::<char>::empty());
                match v@[0] {
                    InlineContent::Text(t) => {
                        assert(plain_text_of(v@[0]) == t@);
                        assert(!has_icu(v@[0]));
                    },
                    _ => {},
                }
                assert(plain_text_list(v, 1) =~= without_cr(raw));
            }
        },
        _ => {},
    }
}

} // verus!
