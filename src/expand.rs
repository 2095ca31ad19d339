use vstd::prelude::*;

use crate::argument::{argument_size, decimal_literal_size, parse_size_argument, ArgumentError, AttrToken};
use crate::declaration::{declared_type, parse_declaration, type_reference, type_reference_text, DeclaredType};
use crate::decimal::{decimal, is_digit, lemma_decimal_injective, lemma_decimal_round_trip, render_decimal};

verus! {

/// The text before the expected size: a constant whose initializer asserts.
pub const ASSERTION_HEAD: &'static str = "#[allow(unknown_lints, clippy::eq_op)]\nconst _: () = assert!(";

/// The text between the expected size and the type: the size's type suffix
/// and the call of the compiler's own size computation.
pub const SIZE_OF_HEAD: &'static str = "usize == ::core::mem::size_of::<";

/// The text that closes the assertion.
pub const ASSERTION_TAIL: &'static str = ">());";

/// The assertion that the type written `ty` takes `size` bytes.
pub open spec fn assertion_text(size: nat, ty: Seq<char>) -> Seq<char> {
    ASSERTION_HEAD@ + decimal(size) + SIZE_OF_HEAD@ + ty + ASSERTION_TAIL@
}

/// The assertion, a line break, and the declaration `item` as it was written.
pub open spec fn expansion_text(size: nat, ty: Seq<char>, item: Seq<char>) -> Seq<char> {
    assertion_text(size, ty) + seq!['\n'] + item
}

/// Why a size attribute cannot be expanded.
#[derive(Debug)]
pub enum ExpandError {
    /// The attribute's argument is not a size.
    Argument(ArgumentError),
    /// The annotated item is not a struct, enum or union declaration; the
    /// parser's message.
    Declaration(String),
}

/// The view of an expansion: its text, or the argument's error, or the
/// declaration parser's message.
pub open spec fn expand_view(r: Result<String, ExpandError>) -> Result<Seq<char>, Result<ArgumentError, Seq<char>>> {
    match r {
        Ok(s) => Ok(s@),
        Err(ExpandError::Argument(e)) => Err(Ok(e)),
        Err(ExpandError::Declaration(m)) => Err(Err(m@)),
    }
}

/// What applying the attribute with argument `attr` to the declaration
/// written `item` gives: the argument is read first, then the declaration.
pub open spec fn expansion(attr: Seq<AttrToken>, item: Seq<char>) -> Result<Seq<char>, Result<ArgumentError, Seq<char>>> {
    match argument_size(attr) {
        Err(e) => Err(Ok(e)),
        Ok(size) => match declared_type(item) {
            Err(m) => Err(Err(m)),
            Ok(decl) => Ok(expansion_text(size as nat, type_reference_text(decl.0, decl.1), item)),
        },
    }
}

/// The assertion that the declared type takes `size` bytes.
pub fn size_assertion(size: usize, decl: &DeclaredType) -> (r: String)
    ensures
        r@ == assertion_text(size as nat, type_reference_text(decl@.0, decl@.1)),
{
    let mut r = String::from_str(ASSERTION_HEAD);
    let digits = render_decimal(size);
    r.append(digits.as_str());
    r.append(SIZE_OF_HEAD);
    let ty = type_reference(decl);
    r.append(ty.as_str());
    r.append(ASSERTION_TAIL);
    r
}

/// The size assertion for the declared type, followed by the declaration
/// `item` unchanged.
pub fn transform(size: usize, decl: &DeclaredType, item: &str) -> (r: String)
    ensures
        r@ == expansion_text(size as nat, type_reference_text(decl@.0, decl@.1), item@),
{
    let mut r = size_assertion(size, decl);
    proof {
        reveal_strlit("\n");
    }
    r.append("\n");
    r.append(item);
    r
}

/// Applies the size attribute with argument `attr` to the declaration
/// written `item`.
pub fn assert_size(attr: &Vec<AttrToken>, item: &str) -> (r: Result<String, ExpandError>)
    ensures
        expand_view(r) == expansion(attr@, item@),
        decimal_literal_size(attr@) matches Some(n) ==> (declared_type(item@) matches Ok(d)
            ==> expand_view(r) == Ok::<Seq<char>, Result<ArgumentError, Seq<char>>>(
            expansion_text(n as nat, type_reference_text(d.0, d.1), item@),
        )),
{
    let size = match parse_size_argument(attr) {
        Ok(size) => size,
        Err(e) => return Err(ExpandError::Argument(e)),
    };
    match parse_declaration(item) {
        Ok(decl) => Ok(transform(size, &decl, item)),
        Err(m) => Err(ExpandError::Declaration(m)),
    }
}

/// Distinct expected sizes give distinct assertions on the same type: the
/// size that the check compares with is exactly the one given.
pub proof fn lemma_distinct_sizes_distinct_checks(a: nat, b: nat, ty: Seq<char>)
    requires
        a != b,
    ensures
        assertion_text(a, ty) != assertion_text(b, ty),
{
    let h = ASSERTION_HEAD@;
    let m = SIZE_OF_HEAD@;
    let da = decimal(a);
    let db = decimal(b);
    let rest = m + ty + ASSERTION_TAIL@;
    let l = assertion_text(a, ty);
    let r = assertion_text(b, ty);
    assert(l =~= h + da + rest);
    assert(r =~= h + db + rest);
    lemma_decimal_round_trip(a);
    lemma_decimal_round_trip(b);
    reveal_strlit("usize == ::core::mem::size_of::<");
    assert(m[0] == 'u');
    if l == r {
        if da.len() == db.len() {
            assert forall|i: int| 0 <= i < da.len() implies da[i] == db[i] by {
                assert(l[h.len() + i] == da[i]);
                assert(r[h.len() + i] == db[i]);
            }
            assert(da =~= db);
            lemma_decimal_injective(a, b);
        } else if da.len() < db.len() {
            assert(l[(h.len() + da.len()) as int] == 'u');
            assert(r[(h.len() + da.len()) as int] == db[da.len() as int]);
            assert(is_digit(db[da.len() as int]));
        } else {
            assert(r[(h.len() + db.len()) as int] == 'u');
            assert(l[(h.len() + db.len()) as int] == da[db.len() as int]);
            assert(is_digit(da[db.len() as int]));
        }
    }
}

/// The expansion ends with the declaration exactly as it was written, and
/// what precedes it is the assertion alone: the declaration's fields,
/// attributes and representation, and so its layout, stay as they were.
pub proof fn lemma_declaration_kept(size: nat, ty: Seq<char>, item: Seq<char>)
    ensures
        ({
            let e = expansion_text(size, ty, item);
            &&& e.subrange(e.len() - item.len(), e.len() as int) == item
            &&& e.take(e.len() - item.len() - 1) == assertion_text(size, ty)
        }),
{
    let e = expansion_text(size, ty, item);
    assert(e.subrange(e.len() - item.len(), e.len() as int) =~= item);
    assert(e.take(e.len() - item.len() - 1) =~= assertion_text(size, ty));
}

} // verus!
