use intl_message::ast::{BlockNode, Document, Icu, InlineContent, TextOrPlaceholder};
use intl_message::parse::{parse, ParseError};
use intl_message::source::{
    MessageMeta, MessageSourceError, RawMessage, RawMessageDefinition, RawMessageTranslation,
    SourceFileKind,
};
use intl_message::text::format_plain_text;
use intl_message::value::{FilePosition, MessageValue};
use intl_message::variables::{MessageVariableType, MessageVariables};

fn paragraph(doc: &Document) -> &Vec<InlineContent> {
    assert_eq!(doc.blocks.len(), 1);
    match &doc.blocks[0] {
        BlockNode::Paragraph(content) => content,
        _ => panic!("expected a paragraph"),
    }
}

fn text_of(node: &InlineContent) -> &str {
    match node {
        InlineContent::Text(t) => t.as_str(),
        _ => panic!("expected text"),
    }
}

fn kinds(vars: &MessageVariables, name: &str) -> Vec<String> {
    vars.get(name)
        .expect("variable present")
        .iter()
        .map(|i| {
            match i.kind {
                MessageVariableType::Any => "any",
                MessageVariableType::Number => "number",
                MessageVariableType::Plural => "plural",
                MessageVariableType::Enum(_) => "enum",
                MessageVariableType::Date => "date",
                MessageVariableType::Time => "time",
                MessageVariableType::HookFunction => "hook",
                MessageVariableType::LinkFunction => "link",
            }
            .to_string()
        })
        .collect()
}

#[test]
fn plain_text_round_trips() {
    for raw in ["", "hello world", "it's 5 o'clock, (really)!\nnext line", "né à 100%"] {
        let doc = parse(raw).ok().expect("plain text parses");
        assert_eq!(format_plain_text(paragraph(&doc)), raw);
    }
}

#[test]
fn strong_text_parses_to_strong_node() {
    let value = MessageValue::from_raw("**bold**").ok().expect("parses");
    let content = paragraph(&value.parsed);
    assert_eq!(content.len(), 1);
    match &content[0] {
        InlineContent::Strong(inner) => {
            assert_eq!(inner.len(), 1);
            assert_eq!(text_of(&inner[0]), "bold");
        },
        _ => panic!("expected strong"),
    }
    let vars = value.variables.as_ref().expect("catalog");
    assert_eq!(kinds(vars, "b"), vec!["hook"]);
    assert_eq!(kinds(vars, "p"), vec!["hook"]);
    assert_eq!(vars.count(), 2);
}

#[test]
fn plural_parses_with_arms_and_pound() {
    let value = MessageValue::from_raw("{count, plural, one {1 item} other {# items}}")
        .ok()
        .expect("parses");
    let content = paragraph(&value.parsed);
    assert_eq!(content.len(), 1);
    match &content[0] {
        InlineContent::Icu(Icu::IcuPlural(plural)) => {
            assert_eq!(plural.name, "count");
            assert_eq!(plural.arms.len(), 2);
            assert_eq!(plural.arms[0].selector, "one");
            assert_eq!(plural.arms[0].content.len(), 1);
            assert_eq!(text_of(&plural.arms[0].content[0]), "1 item");
            assert_eq!(plural.arms[1].selector, "other");
            assert_eq!(plural.arms[1].content.len(), 2);
            assert!(matches!(plural.arms[1].content[0], InlineContent::IcuPound));
            assert_eq!(text_of(&plural.arms[1].content[1]), " items");
        },
        _ => panic!("expected a plural"),
    }
    let vars = value.variables.as_ref().expect("catalog");
    assert_eq!(kinds(vars, "count"), vec!["plural"]);
    assert_eq!(vars.get_keys(), vec!["p".to_string(), "count".to_string()]);
    assert!(vars.get("#").is_none());
}

#[test]
fn unterminated_placeholder_is_a_parse_error() {
    assert!(matches!(parse("{unterminated"), Err(ParseError::UnterminatedPlaceholder(_))));
    assert!(MessageValue::from_raw("{unterminated").is_err());
}

#[test]
fn malformed_placeholders_are_parse_errors() {
    assert!(matches!(parse("{}"), Err(ParseError::EmptyPlaceholderName(_))));
    assert!(matches!(parse("{n, plural, }"), Err(ParseError::PluralWithoutArms(_))));
    assert!(matches!(parse("{n, plural, one two}"), Err(ParseError::MalformedPluralArm(_))));
    assert!(matches!(parse("{n, frobnicate}"), Err(ParseError::UnknownPlaceholderType(_))));
    assert!(matches!(parse("{n, plural, one {x}"), Err(ParseError::UnterminatedPlaceholder(_))));
}

#[test]
fn values_with_same_raw_text_are_equal() {
    let a = MessageValue::from_raw("Hello {name}").ok().expect("parses");
    let b = MessageValue::from_raw("Hello {name}").ok().expect("parses");
    let c = MessageValue::from_raw("Hello {other}").ok().expect("parses");
    let b = b.with_file_position(FilePosition { line: 3, col: 7 });
    assert!(a == b);
    assert!(a != c);
    assert!(b.file_position.is_some());
    assert!(a.file_position.is_none());
}

#[test]
fn unclosed_delimiters_stay_text() {
    let doc = parse("**a").ok().expect("parses");
    let content = paragraph(&doc);
    assert_eq!(content.len(), 1);
    assert_eq!(text_of(&content[0]), "**a");
}

#[test]
fn nested_emphasis_and_strikethrough() {
    let value = MessageValue::from_raw("*a **b** ~~c~~* `x*y`").ok().expect("parses");
    let content = paragraph(&value.parsed);
    assert_eq!(content.len(), 3);
    match &content[0] {
        InlineContent::Emphasis(inner) => {
            assert_eq!(inner.len(), 4);
            assert!(matches!(inner[1], InlineContent::Strong(_)));
            assert!(matches!(inner[3], InlineContent::Strikethrough(_)));
        },
        _ => panic!("expected emphasis"),
    }
    match &content[2] {
        InlineContent::CodeSpan(code) => assert_eq!(code, "x*y"),
        _ => panic!("expected code"),
    }
    let vars = value.variables.as_ref().expect("catalog");
    assert_eq!(kinds(vars, "i"), vec!["hook"]);
    assert_eq!(kinds(vars, "b"), vec!["hook"]);
    assert_eq!(kinds(vars, "del"), vec!["hook"]);
    assert_eq!(kinds(vars, "code"), vec!["hook"]);
}

#[test]
fn links_hooks_and_typed_placeholders() {
    let raw = "[click]({url}) $[here](bold) {d, date, short} {t, time} {n, number} {n}\\\nend";
    let value = MessageValue::from_raw(raw).ok().expect("parses");
    let content = paragraph(&value.parsed);
    match &content[0] {
        InlineContent::Link { label, destination } => {
            assert_eq!(text_of(&label[0]), "click");
            assert!(matches!(destination, TextOrPlaceholder::Placeholder(Icu::IcuVariable(n)) if n == "url"));
        },
        _ => panic!("expected a link"),
    }
    match &content[2] {
        InlineContent::Hook { name, content } => {
            assert_eq!(name, "bold");
            assert_eq!(text_of(&content[0]), "here");
        },
        _ => panic!("expected a hook"),
    }
    let vars = value.variables.as_ref().expect("catalog");
    assert_eq!(kinds(vars, "link"), vec!["link"]);
    assert_eq!(kinds(vars, "url"), vec!["any"]);
    assert_eq!(kinds(vars, "bold"), vec!["hook"]);
    assert_eq!(kinds(vars, "d"), vec!["date"]);
    assert_eq!(kinds(vars, "t"), vec!["time"]);
    assert_eq!(kinds(vars, "n"), vec!["number", "any"]);
    assert_eq!(kinds(vars, "br"), vec!["hook"]);
}

#[test]
fn link_with_text_destination() {
    let doc = parse("see [docs](https://example.com) now").ok().expect("parses");
    let content = paragraph(&doc);
    assert_eq!(content.len(), 3);
    match &content[1] {
        InlineContent::Link { destination: TextOrPlaceholder::Text(url), .. } => {
            assert_eq!(url, "https://example.com")
        },
        _ => panic!("expected a link"),
    }
    assert_eq!(format_plain_text(content), "see docs now");
}

#[test]
fn escapes_and_carriage_returns_in_messages() {
    let doc = parse("\\*a\\*\r\n").ok().expect("parses");
    let content = paragraph(&doc);
    assert_eq!(content.len(), 1);
    assert_eq!(text_of(&content[0]), "*a*\n");
}

#[test]
fn raw_definitions_and_translations() {
    let meta = MessageMeta { fields: vec![("description".to_string(), "greeting".to_string())] };
    let def = RawMessageDefinition::new("GREETING".to_string(), 12, "Hi {name}", meta)
        .ok()
        .expect("parses");
    assert_eq!(def.name(), "GREETING");
    assert_eq!(def.offset, 12);
    assert_eq!(def.value.raw, "Hi {name}");
    assert_eq!(def.meta.fields.len(), 1);
    let bad = RawMessageDefinition::new("BAD".to_string(), 0, "{oops", MessageMeta { fields: vec![] });
    assert!(matches!(bad, Err(MessageSourceError::ParseError(SourceFileKind::Definition, _))));

    let tr = RawMessageTranslation::new("GREETING".to_string(), 4, "Salut {name}").ok().expect("parses");
    assert_eq!(tr.name(), "GREETING");
    assert_eq!(tr.offset, 4);
    let bad = RawMessageTranslation::new("BAD".to_string(), 0, "{x, plural,}");
    assert!(matches!(bad, Err(MessageSourceError::ParseError(SourceFileKind::Translation, _))));
}

#[test]
fn block_structure_is_parsed() {
    let raw = "# Title\n\nBody **x**\n---\n```\ncode {x}\n```\n## Sub";
    let value = MessageValue::from_raw(raw).ok().expect("parses");
    let blocks = &value.parsed.blocks;
    assert_eq!(blocks.len(), 5);
    match &blocks[0] {
        BlockNode::Heading(1, content) => assert_eq!(text_of(&content[0]), "Title"),
        _ => panic!("expected a level 1 heading"),
    }
    match &blocks[1] {
        BlockNode::Paragraph(content) => {
            assert_eq!(text_of(&content[0]), "Body ");
            assert!(matches!(content[1], InlineContent::Strong(_)));
        },
        _ => panic!("expected a paragraph"),
    }
    assert!(matches!(blocks[2], BlockNode::ThematicBreak));
    match &blocks[3] {
        BlockNode::CodeBlock(code) => assert_eq!(code, "code {x}"),
        _ => panic!("expected a code block"),
    }
    assert!(matches!(blocks[4], BlockNode::Heading(2, _)));
    let vars = value.variables.as_ref().expect("catalog");
    assert_eq!(
        vars.get_keys(),
        vec!["h1", "p", "b", "hr", "codeBlock", "h2"].iter().map(|s| s.to_string()).collect::<Vec<_>>()
    );
    assert!(vars.get("x").is_none());
}

#[test]
fn blank_lines_separate_paragraphs() {
    let doc = parse("para one\nstill one\n\npara two").ok().expect("parses");
    assert_eq!(doc.blocks.len(), 2);
    match &doc.blocks[0] {
        BlockNode::Paragraph(content) => assert_eq!(text_of(&content[0]), "para one\nstill one"),
        _ => panic!("expected a paragraph"),
    }
    match &doc.blocks[1] {
        BlockNode::Paragraph(content) => assert_eq!(text_of(&content[0]), "para two"),
        _ => panic!("expected a paragraph"),
    }
    let value = MessageValue::from_raw("a\n\nb").ok().expect("parses");
    assert_eq!(kinds(value.variables.as_ref().expect("catalog"), "p"), vec!["hook", "hook"]);
}

#[test]
fn hashes_without_space_are_not_headings() {
    let doc = parse("#tag\n\n####### seven").ok().expect("parses");
    assert_eq!(doc.blocks.len(), 2);
    assert!(matches!(doc.blocks[0], BlockNode::Paragraph(_)));
    assert!(matches!(doc.blocks[1], BlockNode::Paragraph(_)));
}

#[test]
fn lone_placeholders_parse_to_their_nodes() {
    let doc = parse("{name}").ok().expect("parses");
    assert!(matches!(&paragraph(&doc)[0], InlineContent::Icu(Icu::IcuVariable(n)) if n == "name"));
    let doc = parse("{when, date}").ok().expect("parses");
    assert!(matches!(&paragraph(&doc)[0], InlineContent::Icu(Icu::IcuDate(n)) if n == "when"));
    let doc = parse("{at, time}").ok().expect("parses");
    assert!(matches!(&paragraph(&doc)[0], InlineContent::Icu(Icu::IcuTime(n)) if n == "at"));
    let doc = parse("{total, number}").ok().expect("parses");
    assert!(matches!(&paragraph(&doc)[0], InlineContent::Icu(Icu::IcuNumber(n)) if n == "total"));
}

#[test]
fn single_delimiters_wrap_plain_text() {
    let doc = parse("_soft_").ok().expect("parses");
    match &paragraph(&doc)[0] {
        InlineContent::Emphasis(inner) => assert_eq!(text_of(&inner[0]), "soft"),
        _ => panic!("expected emphasis"),
    }
    let doc = parse("~~gone~~").ok().expect("parses");
    match &paragraph(&doc)[0] {
        InlineContent::Strikethrough(inner) => assert_eq!(text_of(&inner[0]), "gone"),
        _ => panic!("expected strikethrough"),
    }
}

#[test]
fn plain_text_round_trips_without_carriage_returns() {
    let doc = parse("costs $5\r\nor more\r").ok().expect("parses");
    assert_eq!(format_plain_text(paragraph(&doc)), "costs $5\nor more");
    let doc = parse("\r").ok().expect("parses");
    assert_eq!(format_plain_text(paragraph(&doc)), "");
}
