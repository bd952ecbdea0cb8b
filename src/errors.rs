use vstd::prelude::*;
use vstd::string::*;

verus! {

/// The ways in which parsing a stylesheet can fail.
#[derive(Debug, Clone, Copy, PartialEq, Eq, Structural)]
pub enum CssParseError {
    InvalidSelector,
    InvalidDeclaration,
    InvalidValue,
    InvalidColor,
    UnexpectedToken(char),
    UnexpectedEOF,
    InvalidUnit,
}

/// The text that describes an error.
pub open spec fn message_of(e: CssParseError) -> Seq<char> {
    match e {
        CssParseError::InvalidSelector => "Invalid CSS selector"@,
        CssParseError::InvalidDeclaration => "Invalid CSS declaration"@,
        CssParseError::InvalidValue => "Invalid CSS value"@,
        CssParseError::UnexpectedToken(c) => "Unexpected token: "@.push(c),
        CssParseError::UnexpectedEOF => "Unexpected end of file"@,
        CssParseError::InvalidColor => "Invalid color value"@,
        CssParseError::InvalidUnit => "Invalid unit"@,
    }
}

/// Relies on `char`'s `Display`, which writes the character itself.
#[verifier::external_body]
fn token_message(c: char) -> (r: String)
    ensures
        r@ == "Unexpected token: "@.push(c),
{
    format!("Unexpected token: {}", c)
}

impl CssParseError {
    /// A human-readable description of the error.
    pub fn message(&self) -> (r: String)
        ensures
            r@ == message_of(*self),
    {
        match self {
            CssParseError::InvalidSelector => String::from_str("Invalid CSS selector"),
            CssParseError::InvalidDeclaration => String::from_str("Invalid CSS declaration"),
            CssParseError::InvalidValue => String::from_str("Invalid CSS value"),
            CssParseError::UnexpectedToken(c) => token_message(*c),
            CssParseError::UnexpectedEOF => String::from_str("Unexpected end of file"),
            CssParseError::InvalidColor => String::from_str("Invalid color value"),
            CssParseError::InvalidUnit => String::from_str("Invalid unit"),
        }
    }
}

} // verus!
