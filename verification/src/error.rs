//! The error taxonomy of the parser.
//!
//! - [`Error::Syntax`]: the grammar engine rejected the input outright; it
//!   carries the character offset of the failure and the rules that were
//!   expected there.
//! - [`Error::Structure`]: the tree handed to a builder had a shape the
//!   builder does not expect (missing child, unrecognised rule tag, malformed
//!   numeral). This signals a grammar/builder mismatch, never a normal user
//!   mistake, and is still reported as an ordinary error, never an abort.
//! - [`Error::Encoding`]: a string literal contains an escape sequence the
//!   decoder does not recognise.

use vstd::prelude::*;

use crate::tree::Rule;

verus! {

/// The precise shape mismatch behind an [`Error::Structure`]. Every variant
/// that concerns an unrecognised rule carries that rule, so the report names
/// the tag it stumbled on.
#[derive(Clone, Copy, Debug, PartialEq, Eq, Structural)]
pub enum StructureKind {
    /// The grammar engine succeeded but produced no top-level node at all.
    NoExpressions,
    /// An expression wrapper node without any child.
    EmptyExpression,
    /// An expression wrapper whose child carries a rule the expression
    /// builder does not know.
    UnknownExpressionRule { rule: Rule },
    /// A value wrapper node without any child.
    EmptyValue,
    /// A value wrapper whose child carries a rule the value parser does not
    /// know.
    UnknownValueRule { rule: Rule },
    /// A number node whose text is not a well-formed numeral.
    BadNumeral,
    /// An integer numeral that does not fit the machine integer range.
    NumberTooLarge,
    /// A string node whose text is not delimited by a quote on each side.
    BadStringNode,
    /// An object node with a child that is not a key/value pair node.
    ExpectedPair { rule: Rule },
    /// A pair node with fewer than two children.
    MalformedPair,
    /// A pair node whose key child is not a string node.
    KeyNotString { rule: Rule },
    /// The grammar engine was driven at a start rule it does not support.
    UnsupportedStartRule { rule: Rule },
}

/// An error of the parser. The three variants are the three failure classes:
/// grammar-level rejection, unexpected tree shape, unknown escape sequence.
#[derive(Clone, Debug, PartialEq)]
pub enum Error {
    /// The grammar engine rejected the input at character offset `pos`,
    /// where it expected one of the rules in `expected`.
    Syntax { pos: usize, expected: Vec<Rule> },
    /// A builder met a tree shape it does not expect.
    Structure { kind: StructureKind },
    /// A string literal holds an unrecognised escape sequence. `escape` is
    /// the character that followed the backslash, or the backslash itself
    /// when the literal ends in a lone backslash.
    Encoding { escape: char },
}

/// The mathematical model of an [`Error`].
pub ghost enum ErrorS {
    Syntax { pos: int, expected: Seq<Rule> },
    Structure { kind: StructureKind },
    Encoding { escape: char },
}

/// Whether `e` is a syntax error reported at offset `p`.
pub open spec fn is_syntax_at(e: ErrorS, p: int) -> bool {
    e matches ErrorS::Syntax { pos, .. } && pos == p
}

impl View for Error {
    type V = ErrorS;

    open spec fn view(&self) -> ErrorS {
        match *self {
            Error::Syntax { pos, expected } => ErrorS::Syntax {
                pos: pos as int,
                expected: expected@,
            },
            Error::Structure { kind } => ErrorS::Structure { kind },
            Error::Encoding { escape } => ErrorS::Encoding { escape },
        }
    }
}

impl Error {
    /// A structural error, with the precise shape mismatch.
    pub fn structural(kind: StructureKind) -> (e: Error)
        ensures
            e@ == (ErrorS::Structure { kind }),
    {
        Error::Structure { kind }
    }

    /// True exactly when the error is a grammar-level rejection.
    pub fn is_syntax(&self) -> (r: bool)
        ensures
            r == (self@ is Syntax),
    {
        match *self {
            Error::Syntax { .. } => true,
            _ => false,
        }
    }
}

} // verus!
