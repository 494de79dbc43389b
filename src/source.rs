use vstd::prelude::*;

use crate::ast::Document;
use crate::parse::{parse_facts, ParseError};
use crate::value::{well_derived, MessageValue};

verus! {

/// Which kind of source a message came from.
pub enum SourceFileKind {
    /// A file that declares messages in their source language.
    Definition,
    /// A file that holds the translations of messages.
    Translation,
}

/// Why a source file, or a message in it, could not be taken in.
pub enum MessageSourceError {
    /// A message failed to parse.
    ParseError(SourceFileKind, ParseError),
    /// A definition broke a semantic rule of definitions.
    DefinitionRestrictionViolated(String),
    /// A translation broke a semantic rule of translations.
    TranslationRestrictionViolated(String),
    /// The named message had no value.
    NoMessageValue(String),
    /// The file's meta descriptor is invalid.
    InvalidSourceFileMeta,
    /// The named message's meta descriptor is invalid.
    InvalidMessageMeta(String),
    /// A file expected to define messages defined none.
    NoMessagesFound,
}

/// Metadata of a source file, as name and value pairs.
pub struct SourceFileMeta {
    pub fields: Vec<(String, String)>,
}

/// Metadata of one message definition, as name and value pairs.
pub struct MessageMeta {
    pub fields: Vec<(String, String)>,
}

/// A message read from a source, known by its name.
pub trait RawMessage {
    fn name(&self) -> String;
}

/// A message definition read from a source file.
pub struct RawMessageDefinition {
    pub name: String,
    pub value: MessageValue,
    pub offset: u32,
    pub meta: MessageMeta,
}

/// The document a definition's value holds, or `None` when it failed to
/// parse.
pub open spec fn definition_outcome(r: Result<RawMessageDefinition, MessageSourceError>) -> Option<
    Document,
> {
    match r {
        Ok(d) => Some(d.value.parsed),
        Err(_) => None,
    }
}

/// The document a translation's value holds, or `None` when it failed to
/// parse.
pub open spec fn translation_outcome(r: Result<RawMessageTranslation, MessageSourceError>) -> Option<
    Document,
> {
    match r {
        Ok(t) => Some(t.value.parsed),
        Err(_) => None,
    }
}

impl RawMessageDefinition {
    /// Builds a definition, parsing its value. A value that does not parse is
    /// a parse error of a definition source.
    pub fn new(name: String, offset: u32, value: &str, meta: MessageMeta) -> (r: Result<
        RawMessageDefinition,
        MessageSourceError,
    >)
        ensures
            r matches Ok(d) ==> d.name == name && d.offset == offset && d.meta == meta
                && d.value.raw@ == value@,
            r matches Ok(d) ==> well_derived(d.value),
            r matches Err(e) ==> e matches MessageSourceError::ParseError(
                SourceFileKind::Definition,
                _,
            ),
            parse_facts(value@, definition_outcome(r)),
    {
        match MessageValue::from_raw(value) {
            Ok(value) => Ok(RawMessageDefinition { name, value, offset, meta }),
            Err(e) => Err(MessageSourceError::ParseError(SourceFileKind::Definition, e)),
        }
    }
}

impl RawMessage for RawMessageDefinition {
    fn name(&self) -> String {
        self.name.clone()
    }
}

/// A message translation read from a source file.
pub struct RawMessageTranslation {
    pub name: String,
    pub offset: u32,
    pub value: MessageValue,
}

impl RawMessageTranslation {
    /// Builds a translation, parsing its value. A value that does not parse
    /// is a parse error of a translation source.
    pub fn new(name: String, offset: u32, value: &str) -> (r: Result<
        RawMessageTranslation,
        MessageSourceError,
    >)
        ensures
            r matches Ok(t) ==> t.name == name && t.offset == offset && t.value.raw@ == value@,
            r matches Ok(t) ==> well_derived(t.value),
            r matches Err(e) ==> e matches MessageSourceError::ParseError(
                SourceFileKind::Translation,
                _,
            ),
            parse_facts(value@, translation_outcome(r)),
    {
        match MessageValue::from_raw(value) {
            Ok(value) => Ok(RawMessageTranslation { name, offset, value }),
            Err(e) => Err(MessageSourceError::ParseError(SourceFileKind::Translation, e)),
        }
    }
}

impl RawMessage for RawMessageTranslation {
    fn name(&self) -> String {
        self.name.clone()
    }
}

/// A reader of message definitions from the text of a source file.
pub trait MessageDefinitionSource {
    /// Returns the file's metadata and every message definition it holds.
    fn extract_definitions(self, file_name: String, content: &str) -> Result<
        (SourceFileMeta, Vec<RawMessageDefinition>),
        MessageSourceError,
    >;
}

/// A reader of message translations from the text of a source file.
pub trait MessageTranslationSource {
    /// Returns every message translation the file holds.
    fn extract_translations(self, file_name: String, content: &str) -> Result<
        Vec<RawMessageTranslation>,
        MessageSourceError,
    >;
}

} // verus!
