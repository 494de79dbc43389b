use vstd::prelude::*;

use vstd::std_specs::cmp::PartialEqSpec;

use crate::ast::{BlockNode, Document, InlineContent};
use crate::parse::{is_wrapped_paragraph, parse, parse_facts, run_at, ParseError};
use crate::variables::{add_uses, EntryModel, MessageVariables, VariableTypeModel};
use crate::visitor::{
    blocks_events, document_events, inline_events, list_events, record, MessageVariablesVisitor,
    UseEvent,
};

verus! {

/// Where a message stands in its source file.
pub struct FilePosition {
    pub line: u32,
    pub col: u32,
}

/// A message: its raw text and everything derived from it, the parsed
/// document and the catalog of its variables.
pub struct MessageValue {
    pub raw: String,
    pub parsed: Document,
    pub variables: Option<MessageVariables>,
    pub file_position: Option<FilePosition>,
}

/// What the catalog of a document holds: each use of a variable in it,
/// recorded in visiting order into an empty catalog.
pub open spec fn catalog_of(d: Document) -> Seq<EntryModel> {
    record(Seq::empty(), document_events(d))
}

/// A value as `from_raw` makes it: a well-formed document, the catalog of
/// that document, and no file position yet.
pub open spec fn well_derived(v: MessageValue) -> bool {
    &&& v.parsed.wf()
    &&& v.file_position is None
    &&& v.variables is Some
    &&& v.variables->0.wf()
    &&& v.variables->0.entries() == catalog_of(v.parsed)
}

/// The document a construction holds, or `None` when its text failed to
/// parse.
pub open spec fn parsed_outcome(r: Result<MessageValue, ParseError>) -> Option<Document> {
    match r {
        Ok(v) => Some(v.parsed),
        Err(_) => None,
    }
}

impl MessageValue {
    /// Creates a value holding the raw content as given, the document parsed
    /// from it and the variables found in that document. Fails when the
    /// content does not parse, which only a placeholder can cause.
    pub fn from_raw(content: &str) -> (r: Result<MessageValue, ParseError>)
        ensures
            r matches Ok(v) ==> v.raw@ == content@ && well_derived(v),
            parse_facts(content@, parsed_outcome(r)),
    {
        let document = match parse(content) {
            Ok(d) => d,
            Err(e) => {
                return Err(e);
            },
        };
        let mut variables = MessageVariables::new();
        MessageVariablesVisitor::visit(&document, &mut variables);
        Ok(
            MessageValue {
                raw: content.to_owned(),
                parsed: document,
                variables: Some(variables),
                file_position: None,
            },
        )
    }

    /// The same value, placed at `position` in its source file.
    pub fn with_file_position(self, position: FilePosition) -> (r: MessageValue)
        ensures
            r.raw == self.raw,
            r.parsed == self.parsed,
            r.variables == self.variables,
            r.file_position == Some(position),
    {
        let mut value = self;
        value.file_position = Some(position);
        value
    }
}

/// Two values are equal when their raw text is: everything else in a value
/// is derived from it.
impl PartialEq for MessageValue {
    fn eq(&self, other: &MessageValue) -> (r: bool) {
        self.raw == other.raw
    }
}

impl vstd::std_specs::cmp::PartialEqSpecImpl for MessageValue {
    open spec fn obeys_eq_spec() -> bool {
        true
    }

    open spec fn eq_spec(&self, other: &MessageValue) -> bool {
        self.raw@ == other.raw@
    }
}

/// Values built from the same raw text are equal, however they were made and
/// whatever their documents or catalogs hold.
pub proof fn lemma_same_raw_values_equal(content: Seq<char>, a: MessageValue, b: MessageValue)
    requires
        a.raw@ == content,
        b.raw@ == content,
    ensures
        a.eq_spec(&b),
        b.eq_spec(&a),
{
}

/// The tag that a delimiter run records: `del` for `~~`, `b` for a double
/// run, `i` for a single one.
pub open spec fn wrapped_tag(c: char, run: int) -> Seq<char> {
    if c == '~' {
        seq!['d', 'e', 'l']
    } else if run == 2 {
        seq!['b']
    } else {
        seq!['i']
    }
}

/// The catalog of a message made of delimited plain text, like `**bold**`:
/// one hook use of `p` for the paragraph, then one of the delimiter's tag.
pub proof fn lemma_wrapped_catalog(d: Document, raw: Seq<char>)
    requires
        is_wrapped_paragraph(d, raw),
    ensures
        catalog_of(d) == seq![
            (seq!['p'], seq![(VariableTypeModel::HookFunction, None::<usize>)]),
            (wrapped_tag(raw[0], run_at(raw, 0)), seq![(VariableTypeModel::HookFunction, None::<usize>)]),
        ],
{
    let tag = wrapped_tag(raw[0], run_at(raw, 0));
    let hook = VariableTypeModel::HookFunction;
    match d.blocks@[0] {
        BlockNode::Paragraph(v) => {
            match v@[0] {
                InlineContent::Strong(w) => {
                    assert(list_events(w, 0) == Seq::<UseEvent>::empty());
                    assert(inline_events(w@[0]) == Seq::<UseEvent>::empty());
                    assert(list_events(w, 1) =~= Seq::<UseEvent>::empty());
                },
                InlineContent::Emphasis(w) => {
                    assert(list_events(w, 0) == Seq::<UseEvent>::empty());
                    assert(inline_events(w@[0]) == Seq::<UseEvent>::empty());
                    assert(list_events(w, 1) =~= Seq::<UseEvent>::empty());
                },
                InlineContent::Strikethrough(w) => {
                    assert(list_events(w, 0) == Seq::<UseEvent>::empty());
                    assert(inline_events(w@[0]) == Seq::<UseEvent>::empty());
                    assert(list_events(w, 1) =~= Seq::<UseEvent>::empty());
                },
                _ => {},
            }
            assert(inline_events(v@[0]) =~= seq![(tag, hook)]);
            assert(list_events(v, 0) == Seq::<UseEvent>::empty());
            assert(list_events(v, 1) =~= seq![(tag, hook)]);
            assert(blocks_events(d.blocks@, 0) == Seq::<UseEvent>::empty());
            let events = seq![(seq!['p'], hook), (tag, hook)];
            assert(document_events(d) =~= events);
            let e0 = Seq::<EntryModel>::empty();
            let one = seq![(hook, None::<usize>)];
            let e1 = add_uses(e0, seq!['p'], one);
            assert(e1 =~= seq![(seq!['p'], one)]);
            let e2 = add_uses(e1, tag, one);
            assert(seq!['p'] != tag) by {
                assert(seq!['p'].len() != tag.len() || seq!['p'][0] != tag[0]);
            }
            assert(e1.drop_first() =~= Seq::<EntryModel>::empty());
            assert(add_uses(e1.drop_first(), tag, one) =~= seq![(tag, one)]);
            assert(e2 =~= seq![(seq!['p'], one), (tag, one)]);
            assert(events.drop_first() =~= seq![(tag, hook)]);
            assert(events.drop_first().drop_first() =~= Seq::<UseEvent>::empty());
            assert(record(e2, Seq::<UseEvent>::empty()) == e2);
            assert(record(e1, seq![(tag, hook)]) == e2);
            assert(record(e0, events) == e2);
        },
        _ => {},
    }
}

} // verus!
