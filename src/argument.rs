use vstd::prelude::*;

use crate::decimal::{decimal_value, is_canonical_decimal, is_decimal, is_decimal_text, read_decimal};

verus! {

/// One top-level token of an attribute's argument.
#[derive(Debug)]
pub enum AttrToken {
    Ident(String),
    Punct(char),
    Literal(String),
    /// A delimited group, with its text.
    Group(String),
}

/// What every message on a malformed argument starts with.
pub const EXPECTED_LITERAL: &'static str = "expected a single integer literal";

/// Why an attribute's argument is not a size.
#[derive(Clone, Copy, Debug, PartialEq, Eq, Structural)]
pub enum ArgumentError {
    /// The argument holds no token.
    Missing,
    /// The first token is not an unsigned integer literal.
    NotAnInteger,
    /// The integer literal is written in base 2, 8 or 16.
    NotBase10,
    /// The value does not fit in a `usize`.
    TooLarge,
    /// A token follows the integer literal.
    UnexpectedToken,
}

impl ArgumentError {
    /// The index of the token that the error is about.
    pub fn token_index(&self) -> (r: usize)
        ensures
            r == (if *self == ArgumentError::UnexpectedToken { 1usize } else { 0usize }),
    {
        match self {
            ArgumentError::UnexpectedToken => 1,
            _ => 0,
        }
    }

    /// What was expected, a single integer literal, and what was found.
    pub fn message(&self) -> (r: &'static str)
        ensures
            EXPECTED_LITERAL@.is_prefix_of(r@),
            *self == ArgumentError::Missing ==> r@ == "expected a single integer literal, found nothing"@,
            *self == ArgumentError::NotAnInteger ==> r@
                == "expected a single integer literal, found another token"@,
            *self == ArgumentError::NotBase10 ==> r@
                == "expected a single integer literal in base 10, found a radix prefix"@,
            *self == ArgumentError::TooLarge ==> r@
                == "expected a single integer literal no larger than usize::MAX, found a larger value"@,
            *self == ArgumentError::UnexpectedToken ==> r@
                == "expected a single integer literal, found a token after it"@,
    {
        proof {
            reveal_strlit("expected a single integer literal");
        }
        match self {
            ArgumentError::Missing => {
                proof {
                    reveal_strlit("expected a single integer literal, found nothing");
                }
                "expected a single integer literal, found nothing"
            },
            ArgumentError::NotAnInteger => {
                proof {
                    reveal_strlit("expected a single integer literal, found another token");
                }
                "expected a single integer literal, found another token"
            },
            ArgumentError::NotBase10 => {
                proof {
                    reveal_strlit("expected a single integer literal in base 10, found a radix prefix");
                }
                "expected a single integer literal in base 10, found a radix prefix"
            },
            ArgumentError::TooLarge => {
                proof {
                    reveal_strlit(
                        "expected a single integer literal no larger than usize::MAX, found a larger value",
                    );
                }
                "expected a single integer literal no larger than usize::MAX, found a larger value"
            },
            ArgumentError::UnexpectedToken => {
                proof {
                    reveal_strlit("expected a single integer literal, found a token after it");
                }
                "expected a single integer literal, found a token after it"
            },
        }
    }
}

/// The base-10 digits, without suffix and underscores, of the integer
/// literal written `text`; `None` where `text` is no integer literal.
pub uninterp spec fn literal_digits(text: Seq<char>) -> Option<Seq<char>>;

/// The view of an optional string.
pub open spec fn string_option_view(r: Option<String>) -> Option<Seq<char>> {
    match r {
        Some(d) => Some(d@),
        None => None,
    }
}

/// Relies on `syn::parse_str::<syn::LitInt>` and `syn::LitInt::base10_digits`:
/// whether the text is one integer literal, and its value as base-10 digits.
/// A text of decimal digits without leading zero is read in base 10 and its
/// value printed back in the same way, so its digits are the text itself.
#[verifier::external_body]
fn int_literal_digits(text: &str) -> (r: Option<String>)
    ensures
        string_option_view(r) == literal_digits(text@),
        is_canonical_decimal(text@) ==> string_option_view(r) == Some(text@),
{
    match syn::parse_str::<syn::LitInt>(text) {
        Ok(lit) => Some(lit.base10_digits().to_string()),
        Err(_) => None,
    }
}

/// A literal text that starts with a radix prefix: `0x`, `0o` or `0b`.
pub open spec fn has_radix_prefix(text: Seq<char>) -> bool {
    text.len() >= 2 && text[0] == '0' && (text[1] == 'x' || text[1] == 'o' || text[1] == 'b')
}

/// The size that the literal written `text`, with base-10 digits `digits`
/// (`None` where it is no integer literal), stands for.
pub open spec fn literal_size(text: Seq<char>, digits: Option<Seq<char>>) -> Result<usize, ArgumentError> {
    match digits {
        None => Err(ArgumentError::NotAnInteger),
        Some(d) => if !is_decimal(d) {
            Err(ArgumentError::NotAnInteger)
        } else if has_radix_prefix(text) {
            Err(ArgumentError::NotBase10)
        } else if decimal_value(d) > usize::MAX {
            Err(ArgumentError::TooLarge)
        } else {
            Ok(decimal_value(d) as usize)
        },
    }
}

/// The outcome of reading `tokens` as a size argument: exactly one unsigned
/// base-10 integer literal that fits in a `usize`.
pub open spec fn argument_size(tokens: Seq<AttrToken>) -> Result<usize, ArgumentError> {
    if tokens.len() == 0 {
        Err(ArgumentError::Missing)
    } else {
        match tokens[0] {
            AttrToken::Literal(text) => match literal_size(text@, literal_digits(text@)) {
                Err(e) => Err(e),
                Ok(n) => if tokens.len() > 1 {
                    Err(ArgumentError::UnexpectedToken)
                } else {
                    Ok(n)
                },
            },
            _ => Err(ArgumentError::NotAnInteger),
        }
    }
}

/// The size written by `tokens` where they are a single literal in the
/// usual decimal writing, as `render_decimal` gives it, of a `usize`.
pub open spec fn decimal_literal_size(tokens: Seq<AttrToken>) -> Option<usize> {
    if tokens.len() == 1 {
        match tokens[0] {
            AttrToken::Literal(t) => if is_canonical_decimal(t@) && decimal_value(t@) <= usize::MAX {
                Some(decimal_value(t@) as usize)
            } else {
                None
            },
            _ => None,
        }
    } else {
        None
    }
}

/// Whether `text` starts with a radix prefix.
fn radix_prefixed(text: &str) -> (r: bool)
    ensures
        r == has_radix_prefix(text@),
{
    if text.unicode_len() < 2 {
        return false;
    }
    let c1 = text.get_char(1);
    text.get_char(0) == '0' && (c1 == 'x' || c1 == 'o' || c1 == 'b')
}

/// The size that a literal stands for, given the base-10 digits that the
/// literal parser found in it (`None` where it found no integer literal).
pub fn size_from_literal(text: &str, digits: Option<&str>) -> (r: Result<usize, ArgumentError>)
    ensures
        r == literal_size(text@, match digits { Some(d) => Some(d@), None => None }),
{
    match digits {
        None => Err(ArgumentError::NotAnInteger),
        Some(d) => {
            if !is_decimal_text(d) {
                Err(ArgumentError::NotAnInteger)
            } else if radix_prefixed(text) {
                Err(ArgumentError::NotBase10)
            } else {
                match read_decimal(d) {
                    Some(v) => Ok(v),
                    None => Err(ArgumentError::TooLarge),
                }
            }
        },
    }
}

/// Reads the argument of a size attribute: exactly one unsigned base-10
/// integer literal whose value fits in a `usize`.
pub fn parse_size_argument(tokens: &Vec<AttrToken>) -> (r: Result<usize, ArgumentError>)
    ensures
        r == argument_size(tokens@),
        decimal_literal_size(tokens@) matches Some(n) ==> r == Ok::<usize, ArgumentError>(n),
{
    if tokens.len() == 0 {
        return Err(ArgumentError::Missing);
    }
    match &tokens[0] {
        AttrToken::Literal(text) => {
            let digits = int_literal_digits(text.as_str());
            let size = match &digits {
                Some(d) => size_from_literal(text.as_str(), Some(d.as_str())),
                None => size_from_literal(text.as_str(), None),
            };
            match size {
                Err(e) => Err(e),
                Ok(n) => if tokens.len() > 1 {
                    Err(ArgumentError::UnexpectedToken)
                } else {
                    Ok(n)
                },
            }
        },
        _ => Err(ArgumentError::NotAnInteger),
    }
}

} // verus!
