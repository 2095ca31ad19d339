//! Compile-time size assertions for type declarations.
//!
//! The library reads the argument of a size attribute (one base-10 integer
//! literal) and a struct, enum or union declaration, and produces the source
//! text of a constant assertion that compares the expected size with
//! `::core::mem::size_of` of the declared type, followed by the declaration
//! itself, unchanged.

pub mod argument;
pub mod decimal;
pub mod declaration;
pub mod expand;

pub use argument::{parse_size_argument, size_from_literal, ArgumentError, AttrToken};
pub use decimal::{is_decimal_text, read_decimal, render_decimal};
pub use declaration::{type_reference, DeclaredType};
pub use expand::{assert_size, size_assertion, transform, ExpandError};
