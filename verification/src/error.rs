//! The failures that the library reports.

use crate::lexer::Token;
use vstd::prelude::*;

verus! {

/// The tokenizer failed: the input ends inside a string literal.
#[derive(Debug, Clone, Copy, PartialEq, Eq, Structural)]
pub enum LexError {
    /// The string literal that opens at character `start` is still open
    /// where the input ends, at character `end`.
    UnterminatedString { start: usize, end: usize },
}

/// Why a text is not the numeral of an integer.
#[derive(Debug, Clone, Copy, PartialEq, Eq, Structural)]
pub enum NumeralFault {
    /// The text is empty.
    Empty,
    /// The text holds a character that is no digit where a digit must
    /// stand, or a sign and nothing else.
    InvalidDigit,
    /// The number is too large for an integer element.
    PosOverflow,
    /// The number is too small for an integer element.
    NegOverflow,
}

/// A literal could not be read as a number.
#[derive(Debug, Clone)]
pub struct LiteralParseError {
    /// The text of the literal.
    pub text: String,
    /// Why it is no numeral.
    pub cause: NumeralFault,
}

/// Two arrays whose shapes do not agree were combined elementwise.
#[derive(Debug, Clone)]
pub struct ShapeMismatch {
    /// The shape of the left operand.
    pub left: Vec<usize>,
    /// The shape of the right operand.
    pub right: Vec<usize>,
}

/// Two values could not be brought to one kind. The three kinds are totally
/// ordered, so no pair of values gives this failure: it is kept for kinds
/// that are not numbers.
#[derive(Debug, Clone, Copy, PartialEq, Eq, Structural)]
pub enum PromotionFailure {
    IncompatibleTypes,
}

/// With how many operands a verb is applied.
#[derive(Debug, Clone, Copy, PartialEq, Eq, Structural)]
pub enum Arity {
    /// With one operand, on its right.
    Monadic,
    /// With two operands, one on each side.
    Dyadic,
}

/// A symbol names no verb of the arity with which it is applied.
#[derive(Debug, Clone)]
pub struct UnknownVerb {
    /// The symbol.
    pub symbol: String,
    /// The arity with which it was applied.
    pub arity: Arity,
}

/// A verb could not be applied to its operands.
#[derive(Debug, Clone)]
pub enum VerbError {
    /// The shapes of two array operands do not agree.
    Shape(ShapeMismatch),
    /// The operands could not be brought to one kind.
    Promotion(PromotionFailure),
    /// A result leaves the range of an integer element.
    Overflow,
    /// The verb is not defined on an operand of this kind or shape.
    IncompatibleArgument,
}

/// Why a token stands for no value.
#[derive(Debug, Clone)]
pub enum NoNoun {
    /// The token is a name, and the name is bound to no value.
    Unbound(String),
    /// The token is a numeric literal that is no number.
    Literal(LiteralParseError),
    /// The token is neither a name nor a numeric literal.
    NotAnOperand,
}

/// A line of tokens could not be evaluated.
#[derive(Debug)]
pub enum EvalError {
    /// The token at the right end of the line stands for no value.
    NoRightmostNoun(NoNoun),
    /// The token to the left of a verb of two operands stands for no value.
    NoLeftNoun(NoNoun),
    /// A symbol names no verb of the arity with which it is applied.
    UnknownVerb(UnknownVerb),
    /// The verb named by the symbol failed.
    Verb { symbol: String, cause: VerbError },
    /// A token stands where only a verb can stand.
    Nonsense(Token),
}

} // verus!
