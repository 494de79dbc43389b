use vstd::prelude::*;

use crate::ast::{BlockNode, Document, Icu, IcuPluralArm, InlineContent, TextOrPlaceholder};
use crate::variables::{
    add_uses, EntryModel, MessageVariableType, MessageVariables, VariableTypeModel,
};

verus! {

broadcast use vstd::std_specs::vec::axiom_vec_index_decreases;

/// One recorded use: a variable name and its inferred type.
pub type UseEvent = (Seq<char>, VariableTypeModel);

/// The catalog after recording each use of `events`, in order, with no span.
pub open spec fn record(entries: Seq<EntryModel>, events: Seq<UseEvent>) -> Seq<EntryModel>
    decreases events.len(),
{
    if events.len() == 0 {
        entries
    } else {
        record(
            add_uses(entries, events[0].0, seq![(events[0].1, None::<usize>)]),
            events.drop_first(),
        )
    }
}

/// The uses an ICU placeholder contributes, in visiting order.
pub open spec fn icu_events(icu: Icu) -> Seq<UseEvent>
    decreases icu, 0int,
{
    match icu {
        Icu::IcuVariable(name) => seq![(name@, VariableTypeModel::Any)],
        Icu::IcuPlural(plural) => seq![(plural.name@, VariableTypeModel::Plural)] + arms_events(
            plural.arms,
            plural.arms@.len() as int,
        ),
        Icu::IcuDate(name) => seq![(name@, VariableTypeModel::Date)],
        Icu::IcuTime(name) => seq![(name@, VariableTypeModel::Time)],
        Icu::IcuNumber(name) => seq![(name@, VariableTypeModel::Number)],
    }
}

/// The uses in the content of the first `n` arms of a plural.
pub open spec fn arms_events(arms: Vec<IcuPluralArm>, n: int) -> Seq<UseEvent>
    decreases arms, n,
{
    if n <= 0 || n > arms@.len() {
        Seq::empty()
    } else {
        arms_events(arms, n - 1) + list_events(
            arms@[n - 1].content,
            arms@[n - 1].content@.len() as int,
        )
    }
}

/// The uses an inline node contributes: its own tag, if it has one, then those
/// of what it holds.
pub open spec fn inline_events(c: InlineContent) -> Seq<UseEvent>
    decreases c, 0int,
{
    match c {
        InlineContent::Text(_) => Seq::empty(),
        InlineContent::IcuPound => Seq::empty(),
        InlineContent::Icu(icu) => icu_events(icu),
        InlineContent::Emphasis(v) => seq![(seq!['i'], VariableTypeModel::HookFunction)]
            + list_events(v, v@.len() as int),
        InlineContent::Strong(v) => seq![(seq!['b'], VariableTypeModel::HookFunction)]
            + list_events(v, v@.len() as int),
        InlineContent::Strikethrough(v) => seq![(seq!['d', 'e', 'l'], VariableTypeModel::HookFunction)]
            + list_events(v, v@.len() as int),
        InlineContent::HardLineBreak => seq![(seq!['b', 'r'], VariableTypeModel::HookFunction)],
        InlineContent::CodeSpan(_) => seq![
            (seq!['c', 'o', 'd', 'e'], VariableTypeModel::HookFunction),
        ],
        InlineContent::Hook { name, content } => seq![(name@, VariableTypeModel::HookFunction)]
            + list_events(content, content@.len() as int),
        InlineContent::Link { label, destination } => seq![
            (seq!['l', 'i', 'n', 'k'], VariableTypeModel::LinkFunction),
        ] + list_events(label, label@.len() as int) + destination_events(destination),
    }
}

/// The uses in a link's destination: those of its placeholder, if it is one.
pub open spec fn destination_events(d: TextOrPlaceholder) -> Seq<UseEvent>
    decreases d, 0int,
{
    match d {
        TextOrPlaceholder::Placeholder(icu) => icu_events(icu),
        TextOrPlaceholder::Text(_) => Seq::empty(),
    }
}

/// The uses in the first `n` nodes of `v`, in order.
pub open spec fn list_events(v: Vec<InlineContent>, n: int) -> Seq<UseEvent>
    decreases v, n,
{
    if n <= 0 || n > v@.len() {
        Seq::empty()
    } else {
        list_events(v, n - 1) + inline_events(v@[n - 1])
    }
}

/// The name a heading of the given level records: `h1` to `h6`.
pub open spec fn heading_tag(level: u8) -> Seq<char> {
    seq!['h', ((level + 48) as u8) as char]
}

/// The uses a block contributes.
pub open spec fn block_events(b: BlockNode) -> Seq<UseEvent> {
    match b {
        BlockNode::InlineContent(v) => list_events(v, v@.len() as int),
        BlockNode::Paragraph(v) => seq![(seq!['p'], VariableTypeModel::HookFunction)]
            + list_events(v, v@.len() as int),
        BlockNode::Heading(level, v) => seq![(heading_tag(level), VariableTypeModel::HookFunction)]
            + list_events(v, v@.len() as int),
        BlockNode::CodeBlock(_) => seq![
            (seq!['c', 'o', 'd', 'e', 'B', 'l', 'o', 'c', 'k'], VariableTypeModel::HookFunction),
        ],
        BlockNode::ThematicBreak => seq![(seq!['h', 'r'], VariableTypeModel::HookFunction)],
    }
}

/// The uses in the first `n` blocks of a document.
pub open spec fn blocks_events(blocks: Seq<BlockNode>, n: int) -> Seq<UseEvent>
    decreases n,
{
    if n <= 0 || n > blocks.len() {
        Seq::empty()
    } else {
        blocks_events(blocks, n - 1) + block_events(blocks[n - 1])
    }
}

/// Every use of a variable in a document, in visiting order.
pub open spec fn document_events(d: Document) -> Seq<UseEvent> {
    blocks_events(d.blocks@, d.blocks@.len() as int)
}

/// Recording two runs of uses one after the other records their concatenation.
pub proof fn lemma_record_concat(entries: Seq<EntryModel>, a: Seq<UseEvent>, b: Seq<UseEvent>)
    ensures
        record(entries, a + b) == record(record(entries, a), b),
    decreases a.len(),
{
    if a.len() == 0 {
        assert(a + b =~= b);
    } else {
        assert((a + b).drop_first() =~= a.drop_first() + b);
        lemma_record_concat(
            add_uses(entries, a[0].0, seq![(a[0].1, None::<usize>)]),
            a.drop_first(),
            b,
        );
    }
}

proof fn lemma_record_one(entries: Seq<EntryModel>, e: UseEvent)
    ensures
        record(entries, seq![e]) == add_uses(entries, e.0, seq![(e.1, None::<usize>)]),
{
    let s = seq![e];
    let once = add_uses(entries, e.0, seq![(e.1, None::<usize>)]);
    assert(s.drop_first() =~= Seq::<UseEvent>::empty());
    assert(record(once, s.drop_first()) == once);
}

/// Walks a document and records one use per variable occurrence, with the
/// type that its construct implies.
pub struct MessageVariablesVisitor;

impl MessageVariablesVisitor {
    /// Records every use of a variable in `ast`, in visiting order.
    pub fn visit(ast: &Document, variables: &mut MessageVariables)
        requires
            ast.wf(),
            old(variables).wf(),
        ensures
            final(variables).wf(),
            final(variables).entries() == record(old(variables).entries(), document_events(*ast)),
    {
        let ghost start = variables.entries();
        let blocks = ast.blocks();
        let mut i: usize = 0;
        while i < blocks.len()
            invariant
                blocks@ == ast.blocks@,
                ast.wf(),
                i <= blocks@.len(),
                variables.wf(),
                variables.entries() == record(start, blocks_events(blocks@, i as int)),
            decreases blocks@.len() - i,
        {
            let ghost mid = variables.entries();
            assert(blocks@[i as int].wf());
            Self::visit_block(&blocks[i], variables);
            proof {
                lemma_record_concat(
                    start,
                    blocks_events(blocks@, i as int),
                    block_events(blocks@[i as int]),
                );
            }
            i = i + 1;
        }
    }

    fn tag(variables: &mut MessageVariables, name: &str, kind: MessageVariableType)
        requires
            old(variables).wf(),
        ensures
            final(variables).wf(),
            final(variables).entries() == record(old(variables).entries(), seq![(name@, kind@)]),
    {
        proof {
            lemma_record_one(variables.entries(), (name@, kind@));
        }
        variables.add_instance(name, kind, None);
    }

    fn visit_block(block_node: &BlockNode, variables: &mut MessageVariables)
        requires
            block_node.wf(),
            old(variables).wf(),
        ensures
            final(variables).wf(),
            final(variables).entries() == record(old(variables).entries(), block_events(*block_node)),
    {
        let ghost start = variables.entries();
        match block_node {
            BlockNode::InlineContent(content) => Self::visit_inline_children(content, variables),
            BlockNode::Paragraph(content) => {
                proof {
                    reveal_strlit("p");
                    assert("p"@ =~= seq!['p']);
                }
                Self::tag(variables, "p", MessageVariableType::HookFunction);
                Self::visit_inline_children(content, variables);
                proof {
                    lemma_record_concat(start, seq![(seq!['p'], VariableTypeModel::HookFunction)],
                        list_events(*content, content@.len() as int));
                }
            },
            BlockNode::Heading(level, content) => {
                let mut tag = String::new();
                crate::text::push_char(&mut tag, 'h');
                crate::text::push_char(&mut tag, (*level + 48) as char);
                assert(tag@ =~= heading_tag(*level));
                Self::tag(variables, tag.as_str(), MessageVariableType::HookFunction);
                Self::visit_inline_children(content, variables);
                proof {
                    lemma_record_concat(start, seq![(heading_tag(*level), VariableTypeModel::HookFunction)],
                        list_events(*content, content@.len() as int));
                }
            },
            BlockNode::CodeBlock(_) => {
                proof {
                    reveal_strlit("codeBlock");
                    assert("codeBlock"@ =~= seq!['c', 'o', 'd', 'e', 'B', 'l', 'o', 'c', 'k']);
                }
                Self::tag(variables, "codeBlock", MessageVariableType::HookFunction);
            },
            BlockNode::ThematicBreak => {
                proof {
                    reveal_strlit("hr");
                    assert("hr"@ =~= seq!['h', 'r']);
                }
                Self::tag(variables, "hr", MessageVariableType::HookFunction);
            },
        }
    }

    fn visit_inline_children(content: &Vec<InlineContent>, variables: &mut MessageVariables)
        requires
            old(variables).wf(),
        ensures
            final(variables).wf(),
            final(variables).entries() == record(
                old(variables).entries(),
                list_events(*content, content@.len() as int),
            ),
        decreases content, 0int,
    {
        let ghost start = variables.entries();
        let mut i: usize = 0;
        while i < content.len()
            invariant
                i <= content@.len(),
                variables.wf(),
                variables.entries() == record(start, list_events(*content, i as int)),
            decreases content@.len() - i,
        {
            Self::visit_inline_content(&content[i], variables);
            proof {
                lemma_record_concat(
                    start,
                    list_events(*content, i as int),
                    inline_events(content@[i as int]),
                );
            }
            i = i + 1;
        }
    }

    fn visit_inline_content(element: &InlineContent, variables: &mut MessageVariables)
        requires
            old(variables).wf(),
        ensures
            final(variables).wf(),
            final(variables).entries() == record(old(variables).entries(), inline_events(*element)),
        decreases element, 0int,
    {
        let ghost start = variables.entries();
        match element {
            InlineContent::Text(_) => {
                assert(record(start, inline_events(*element)) == start);
            },
            InlineContent::IcuPound => {
                assert(record(start, inline_events(*element)) == start);
            },
            InlineContent::Icu(icu) => Self::visit_icu(icu, variables),
            InlineContent::Emphasis(content) => {
                proof {
                    reveal_strlit("i");
                    assert("i"@ =~= seq!['i']);
                }
                Self::tag(variables, "i", MessageVariableType::HookFunction);
                Self::visit_inline_children(content, variables);
                proof {
                    lemma_record_concat(start, seq![(seq!['i'], VariableTypeModel::HookFunction)],
                        list_events(*content, content@.len() as int));
                }
            },
            InlineContent::Strong(content) => {
                proof {
                    reveal_strlit("b");
                    assert("b"@ =~= seq!['b']);
                }
                Self::tag(variables, "b", MessageVariableType::HookFunction);
                Self::visit_inline_children(content, variables);
                proof {
                    lemma_record_concat(start, seq![(seq!['b'], VariableTypeModel::HookFunction)],
                        list_events(*content, content@.len() as int));
                }
            },
            InlineContent::Strikethrough(content) => {
                proof {
                    reveal_strlit("del");
                    assert("del"@ =~= seq!['d', 'e', 'l']);
                }
                Self::tag(variables, "del", MessageVariableType::HookFunction);
                Self::visit_inline_children(content, variables);
                proof {
                    lemma_record_concat(start, seq![(seq!['d', 'e', 'l'], VariableTypeModel::HookFunction)],
                        list_events(*content, content@.len() as int));
                }
            },
            InlineContent::HardLineBreak => {
                proof {
                    reveal_strlit("br");
                    assert("br"@ =~= seq!['b', 'r']);
                }
                Self::tag(variables, "br", MessageVariableType::HookFunction);
            },
            InlineContent::CodeSpan(_) => {
                proof {
                    reveal_strlit("code");
                    assert("code"@ =~= seq!['c', 'o', 'd', 'e']);
                }
                Self::tag(variables, "code", MessageVariableType::HookFunction);
            },
            InlineContent::Hook { name, content } => {
                Self::tag(variables, name.as_str(), MessageVariableType::HookFunction);
                Self::visit_inline_children(content, variables);
                proof {
                    lemma_record_concat(start, seq![(name@, VariableTypeModel::HookFunction)],
                        list_events(*content, content@.len() as int));
                }
            },
            InlineContent::Link { label, destination } => {
                proof {
                    reveal_strlit("link");
                    assert("link"@ =~= seq!['l', 'i', 'n', 'k']);
                }
                Self::tag(variables, "link", MessageVariableType::LinkFunction);
                let ghost head = seq![(seq!['l', 'i', 'n', 'k'], VariableTypeModel::LinkFunction)];
                Self::visit_inline_children(label, variables);
                proof {
                    lemma_record_concat(start, head, list_events(*label, label@.len() as int));
                }
                let ghost mid = variables.entries();
                match destination {
                    TextOrPlaceholder::Placeholder(icu) => Self::visit_icu(icu, variables),
                    TextOrPlaceholder::Text(_) => {},
                }
                proof {
                    let tail = destination_events(*destination);
                    if tail.len() == 0 {
                        assert(record(mid, tail) == mid);
                    }
                    lemma_record_concat(start, head + list_events(*label, label@.len() as int), tail);
                }
            },
        }
    }

    fn visit_icu(icu: &Icu, variables: &mut MessageVariables)
        requires
            old(variables).wf(),
        ensures
            final(variables).wf(),
            final(variables).entries() == record(old(variables).entries(), icu_events(*icu)),
        decreases icu, 0int,
    {
        let ghost start = variables.entries();
        match icu {
            Icu::IcuVariable(name) => Self::tag(variables, name.as_str(), MessageVariableType::Any),
            Icu::IcuPlural(plural) => {
                Self::tag(variables, plural.name.as_str(), MessageVariableType::Plural);
                let ghost head = seq![(plural.name@, VariableTypeModel::Plural)];
                let ghost mid = variables.entries();
                let mut i: usize = 0;
                while i < plural.arms.len()
                    invariant
                        *icu == Icu::IcuPlural(*plural),
                        i <= plural.arms@.len(),
                        variables.wf(),
                        variables.entries() == record(mid, arms_events(plural.arms, i as int)),
                    decreases plural.arms@.len() - i,
                {
                    proof {
                        let arm = plural.arms@[i as int];
                        assert(decreases_to!(plural.arms => plural.arms[i as int]));
                        assert(decreases_to!(arm => arm.content));
                        assert(decreases_to!(*icu => (*icu)->IcuPlural_0));
                        assert(decreases_to!(*plural => plural.arms));
                        assert(decreases_to!(*icu => plural.arms));
                        assert(decreases_to!(*icu => arm.content));
                    }
                    Self::visit_inline_children(&plural.arms[i].content, variables);
                    proof {
                        lemma_record_concat(
                            mid,
                            arms_events(plural.arms, i as int),
                            list_events(
                                plural.arms@[i as int].content,
                                plural.arms@[i as int].content@.len() as int,
                            ),
                        );
                    }
                    i = i + 1;
                }
                proof {
                    lemma_record_concat(start, head, arms_events(plural.arms, plural.arms@.len() as int));
                }
            },
            Icu::IcuDate(name) => Self::tag(variables, name.as_str(), MessageVariableType::Date),
            Icu::IcuTime(name) => Self::tag(variables, name.as_str(), MessageVariableType::Time),
            Icu::IcuNumber(name) => Self::tag(variables, name.as_str(), MessageVariableType::Number),
        }
    }
}

} // verus!
