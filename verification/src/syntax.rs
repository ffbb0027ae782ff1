//! Declarations and trusted wrappers for the syntax-highlighting engine.
//!
//! The engine itself is an external collaborator: the library only
//! consumes a syntax definition set capable of producing per-line scope
//! transition events, and treats its values as opaque.

use vstd::prelude::*;
use crate::errors::Error;

verus! {

#[verifier::external_type_specification]
#[verifier::external_body]
pub struct ExSyntaxSet(syntect::parsing::SyntaxSet);

#[verifier::external_type_specification]
#[verifier::external_body]
pub struct ExSyntaxReference(syntect::parsing::SyntaxReference);

#[verifier::external_type_specification]
#[verifier::external_body]
pub struct ExParseState(syntect::parsing::ParseState);

#[verifier::external_type_specification]
#[verifier::external_body]
pub struct ExScopeStack(syntect::parsing::ScopeStack);

#[verifier::external_type_specification]
#[verifier::external_body]
pub struct ExScopeStackOp(syntect::parsing::ScopeStackOp);

/// Relies on `syntect::parsing::SyntaxSet::load_defaults_newlines`: loads
/// the bundled default syntax definitions from an embedded dump.
#[verifier::external_body]
pub fn load_default_syntaxes() -> syntect::parsing::SyntaxSet {
    syntect::parsing::SyntaxSet::load_defaults_newlines()
}

/// Relies on `syntect::parsing::SyntaxSet::find_syntax_by_extension`:
/// looks a syntax definition up by file extension; the result is cloned
/// out of the set.
#[verifier::external_body]
pub fn find_syntax_by_extension(
    set: &syntect::parsing::SyntaxSet,
    extension: &str,
) -> Option<syntect::parsing::SyntaxReference> {
    set.find_syntax_by_extension(extension).cloned()
}

/// Relies on `syntect::parsing::SyntaxSet::find_syntax_by_name`: looks
/// the set's plain-text definition up by its name, without assuming the
/// set holds one; the result is cloned out of the set.
#[verifier::external_body]
pub fn find_syntax_plain_text(
    set: &syntect::parsing::SyntaxSet,
) -> Option<syntect::parsing::SyntaxReference> {
    set.find_syntax_by_name("Plain Text").cloned()
}

/// A line parser tied to the syntax set it was built from.
///
/// `syntect::parsing::ParseState::parse_line` is documented to demand the
/// set its state was built from, and can panic on any other; keeping the
/// two in one place, with no way to construct the pair otherwise, makes a
/// mismatched call unrepresentable.
pub struct LineParser<'a> {
    state: syntect::parsing::ParseState,
    set: &'a syntect::parsing::SyntaxSet,
}

impl<'a> LineParser<'a> {
    /// Relies on `syntect::parsing::SyntaxSet::find_syntax_by_name` and
    /// `syntect::parsing::ParseState::new`: the parser is built from a
    /// definition resolved within `set` itself (looked up by the given
    /// reference's name), the pairing `parse_line` requires; a reference
    /// unknown to the set yields nothing.
    #[verifier::external_body]
    pub fn new(
        set: &'a syntect::parsing::SyntaxSet,
        reference: &syntect::parsing::SyntaxReference,
    ) -> Option<LineParser<'a>> {
        set.find_syntax_by_name(&reference.name).map(
            |definition| LineParser { state: syntect::parsing::ParseState::new(definition), set },
        )
    }

    /// Relies on `syntect::parsing::ParseState::parse_line`: parses one
    /// line, advancing the parser state, and yields scope transition
    /// events as byte offsets into the line paired with scope stack
    /// operations. The state is parsed against the set it was built from.
    /// The events depend on the parser's accumulated state, so nothing
    /// more is assumed of them.
    #[verifier::external_body]
    pub fn parse_line(
        &mut self,
        line: &str,
    ) -> Result<Vec<(usize, syntect::parsing::ScopeStackOp)>, Error> {
        self.state.parse_line(line, self.set).map_err(|e| Error::Parsing(format!("{e:?}")))
    }
}

/// Relies on `syntect::parsing::ScopeStack::new`: an empty scope stack.
#[verifier::external_body]
pub fn scope_stack_new() -> syntect::parsing::ScopeStack {
    syntect::parsing::ScopeStack::new()
}

/// Relies on `syntect::parsing::ScopeStack::clone`.
#[verifier::external_body]
pub fn clone_scope_stack(stack: &syntect::parsing::ScopeStack) -> syntect::parsing::ScopeStack {
    stack.clone()
}

/// Relies on `syntect::parsing::ScopeStack::apply`: applies one scope
/// transition to the stack.
#[verifier::external_body]
pub fn scope_stack_apply(
    stack: &mut syntect::parsing::ScopeStack,
    op: &syntect::parsing::ScopeStackOp,
) -> Result<(), Error> {
    stack.apply(op).map_err(|e| Error::Scope(format!("{e:?}")))
}

} // verus!
