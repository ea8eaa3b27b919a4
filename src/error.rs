//! What can go wrong while reading a line or a template entry.
use vstd::prelude::*;

verus! {

/// Why a grammar or a table entry was not matched.
#[derive(Clone, Copy, Debug, PartialEq, Eq, Structural)]
pub enum ParseError {
    /// The timestamp or the logger tag does not have its fixed shape.
    PrefixMalformed,
    /// The logger tag of the line rules the grammar out.
    GrammarNotApplicable,
    /// The grammar applies, but the payload does not have its shape.
    PayloadGrammarFailed,
    /// No death template matches the payload.
    DeathMessageTemplateExhausted,
    /// A death entry of the localization source could not be read.
    TemplateSourceEntryMalformed,
}

} // verus!
