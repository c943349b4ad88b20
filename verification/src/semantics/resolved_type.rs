//! Why a type name left in a signature could not be opened to the type it names.
use vstd::prelude::*;

verus! {

/// Why a type name that stays in the comparison could not be opened.
///
/// Told apart because each asks the user for something different.
#[derive(Debug, Clone, Copy, PartialEq, Eq)]
pub enum UnopenedReason {
    /// The server does not provide `typeDefinition`.
    TypeDefinitionNotProvided,
    /// The server does not answer where the type is declared.
    NoDeclarationSite,
    /// The `typeDefinition` answer could not be read.
    UnreadableTypeDefinition,
    /// The declaring file could not be read.
    UnreadableDeclaringDocument,
    /// The server holds no type at the declaration.
    NoSpellingAtDeclaration,
    /// The hover answer at the declaration could not be read.
    UnreadableDeclarationHover,
    /// The server does not provide hover.
    HoverNotProvided,
    /// The server was still working and its hover answer at the declaration did not settle.
    ServerStillWorking,
    /// The right-hand side of the alias could not be put in place.
    UnopenableAlias,
}

} // verus!
