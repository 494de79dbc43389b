use vstd::prelude::*;

verus! {

/// The destination of a link: literal text, or a single ICU placeholder.
pub enum TextOrPlaceholder {
    Text(String),
    Placeholder(Icu),
}

/// One selector-labelled branch of a plural placeholder.
pub struct IcuPluralArm {
    pub selector: String,
    pub content: Vec<InlineContent>,
}

/// A plural placeholder: the name of its numeric argument and its arms, in
/// source order.
pub struct IcuPlural {
    pub name: String,
    pub arms: Vec<IcuPluralArm>,
}

/// A typed ICU placeholder.
pub enum Icu {
    IcuVariable(String),
    IcuPlural(IcuPlural),
    IcuDate(String),
    IcuTime(String),
    IcuNumber(String),
}

/// Inline content, nestable to any depth.
pub enum InlineContent {
    Text(String),
    Strong(Vec<InlineContent>),
    Emphasis(Vec<InlineContent>),
    Strikethrough(Vec<InlineContent>),
    /// Verbatim code: never unescaped or parsed again.
    CodeSpan(String),
    HardLineBreak,
    Link { label: Vec<InlineContent>, destination: TextOrPlaceholder },
    Hook { name: String, content: Vec<InlineContent> },
    Icu(Icu),
    /// The implicit numeric argument of the nearest enclosing plural.
    IcuPound,
}

/// A block of a document, each owning its inline content.
pub enum BlockNode {
    Paragraph(Vec<InlineContent>),
    Heading(u8, Vec<InlineContent>),
    CodeBlock(String),
    ThematicBreak,
    InlineContent(Vec<InlineContent>),
}

/// A parsed message: its blocks in order.
pub struct Document {
    pub blocks: Vec<BlockNode>,
}

impl BlockNode {
    /// A heading's level lies in 1 to 6.
    pub open spec fn wf(&self) -> bool {
        match self {
            BlockNode::Heading(level, _) => 1 <= *level <= 6,
            _ => true,
        }
    }
}

impl Document {
    pub open spec fn wf(&self) -> bool {
        forall|i: int| 0 <= i < self.blocks@.len() ==> (#[trigger] self.blocks@[i]).wf()
    }

    pub fn blocks(&self) -> (r: &Vec<BlockNode>)
        ensures
            r@ == self.blocks@,
    {
        &self.blocks
    }
}

} // verus!
