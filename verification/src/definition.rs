//! Function definitions: a label with one parameter in parentheses, an equals
//! sign, and the expression that defines the function, as in
//! `f(x) = 0.1x^3`.

use vstd::prelude::*;
use vstd::string::*;
use crate::error::{Error, Failure};
use crate::text::{characters, find, is_word, position, slice, trim, trimmed, word_between};

verus! {

/// The model of a [`Definition`].
pub struct Header {
    pub label: Seq<char>,
    pub parameter: Seq<char>,
    pub body: Seq<char>,
}

/// The parts of a function definition.
#[derive(Debug, PartialEq)]
pub struct Definition {
    /// All that stands before the first equals sign, as it is written.
    pub label: String,
    /// The name between the parentheses of the label.
    pub parameter: String,
    /// All that stands after the first equals sign.
    pub body: String,
}

impl View for Definition {
    type V = Header;

    open spec fn view(&self) -> Header {
        Header { label: self.label@, parameter: self.parameter@, body: self.body@ }
    }
}

/// The index of the first equals sign of `text`; its length where it has
/// none.
pub open spec fn equals_at(text: Seq<char>) -> int {
    position(text, '=', 0, text.len() as int)
}

/// The index of the first opening parenthesis before the equals sign.
pub open spec fn opens_at(text: Seq<char>) -> int {
    position(text, '(', 0, equals_at(text))
}

/// The index of the first closing parenthesis between the opening one and
/// the equals sign.
pub open spec fn closes_at(text: Seq<char>) -> int {
    position(text, ')', opens_at(text) + 1, equals_at(text))
}

/// Whether `text` is a function definition: it has an equals sign, and what
/// stands before the first one is a name that is not empty, a word in
/// parentheses, and nothing more; spaces around the three do not count.
pub open spec fn is_definition(text: Seq<char>) -> bool {
    let equals = equals_at(text);
    let opens = opens_at(text);
    let closes = closes_at(text);
    &&& equals < text.len()
    &&& opens < closes < equals
    &&& trimmed(text, 0, opens).len() > 0
    &&& is_word(trimmed(text, opens + 1, closes))
    &&& trimmed(text, closes + 1, equals).len() == 0
}

/// The parts of the function definition `text`: the label is all that stands
/// before the first equals sign, the parameter is the word in its
/// parentheses, and the body is all that stands after that equals sign.
pub open spec fn header(text: Seq<char>) -> Header {
    Header {
        label: text.take(equals_at(text)),
        parameter: trimmed(text, opens_at(text) + 1, closes_at(text)),
        body: text.skip(equals_at(text) + 1),
    }
}

/// Whether `result` is what splitting `text` owes: its parts where it is a
/// function definition, and the failure that calls it malformed where it is
/// none.
pub open spec fn split_as(text: Seq<char>, result: Result<Definition, Error>) -> bool {
    if is_definition(text) {
        result matches Ok(definition) && definition@ == header(text)
    } else {
        result matches Err(e) && e@ == Failure::MalformedFunctionDefinition
    }
}

/// Splits a function definition into its parts.
///
/// A text that is no function definition is refused as malformed.
pub fn split_definition(function: &str) -> (result: Result<Definition, Error>)
    ensures
        split_as(function@, result),
{
    let chars = characters(function);
    let ascii = function.is_ascii();
    let len = chars.len();
    let equals = find(&chars, '=', 0, len);
    if equals >= len {
        return Err(Error::MalformedFunctionDefinition);
    }
    let opens = find(&chars, '(', 0, equals);
    if opens >= equals {
        return Err(Error::MalformedFunctionDefinition);
    }
    let closes = find(&chars, ')', opens + 1, equals);
    if closes >= equals {
        return Err(Error::MalformedFunctionDefinition);
    }
    let name = trim(&chars, 0, opens);
    let parameter = trim(&chars, opens + 1, closes);
    let rest = trim(&chars, closes + 1, equals);
    if name.0 == name.1 || rest.0 != rest.1 || !word_between(&chars, parameter.0, parameter.1) {
        return Err(Error::MalformedFunctionDefinition);
    }
    assert(function@.take(equals as int) =~= function@.subrange(0, equals as int));
    assert(function@.skip(equals + 1) =~= function@.subrange(equals + 1, len as int));
    Ok(
        Definition {
            label: slice(function, ascii, 0, equals),
            parameter: slice(function, ascii, parameter.0, parameter.1),
            body: slice(function, ascii, equals + 1, len),
        },
    )
}

} // verus!
