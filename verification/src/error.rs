//! The failures of the library.

use vstd::prelude::*;
use vstd::string::*;
use crate::grammar::{Expected, ParseError};

verus! {

/// Why an expression or a function definition could not be solved.
#[derive(Debug, PartialEq)]
pub enum Error {
    /// The text does not conform to the grammar of expressions.
    GrammarViolation(ParseError),
    /// A variable of the expression has no value in the environment.
    UnknownVariable(String),
    /// A function definition has no equals sign, or no parameter in
    /// parentheses before it.
    MalformedFunctionDefinition,
}

/// The model of an [`Error`].
pub enum Failure {
    GrammarViolation(ParseError),
    UnknownVariable(Seq<char>),
    MalformedFunctionDefinition,
}

impl View for Error {
    type V = Failure;

    open spec fn view(&self) -> Failure {
        match self {
            Error::GrammarViolation(e) => Failure::GrammarViolation(*e),
            Error::UnknownVariable(name) => Failure::UnknownVariable(name@),
            Error::MalformedFunctionDefinition => Failure::MalformedFunctionDefinition,
        }
    }
}

impl Expected {
    /// What the grammar wanted, in words.
    pub open spec fn words(self) -> Seq<char> {
        match self {
            Expected::Operand => "a number, a variable, '(' or '-'"@,
            Expected::Closing => "an operator or ')'"@,
            Expected::End => "an operator or the end of the text"@,
        }
    }

    /// What the grammar wanted, in words.
    pub fn describe(&self) -> (text: String)
        ensures
            text@ == self.words(),
    {
        match self {
            Expected::Operand => "a number, a variable, '(' or '-'".to_owned(),
            Expected::Closing => "an operator or ')'".to_owned(),
            Expected::End => "an operator or the end of the text".to_owned(),
        }
    }
}

} // verus!
