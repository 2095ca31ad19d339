use vstd::prelude::*;

verus! {

/// What a size check needs of a struct, enum or union declaration: the
/// type's name and its generic parameters, as written.
#[derive(Debug)]
pub struct DeclaredType {
    pub name: String,
    /// Each generic parameter by itself: `'a` for a lifetime, the name of a
    /// type or const parameter, without bounds or defaults.
    pub generics: Vec<String>,
}

impl View for DeclaredType {
    type V = (Seq<char>, Seq<Seq<char>>);

    open spec fn view(&self) -> Self::V {
        (self.name@, self.generics@.map_values(|g: String| g@))
    }
}

/// The name and generic parameters of the declaration written `item`, or
/// the parser's message where `item` is no struct, enum or union
/// declaration.
pub uninterp spec fn declared_type(item: Seq<char>) -> Result<(Seq<char>, Seq<Seq<char>>), Seq<char>>;

/// The view of a parsed declaration, or of the parser's message.
pub open spec fn declaration_view(r: Result<DeclaredType, String>) -> Result<(Seq<char>, Seq<Seq<char>>), Seq<char>> {
    match r {
        Ok(d) => Ok(d@),
        Err(e) => Err(e@),
    }
}

/// Relies on `syn::parse_str::<syn::DeriveInput>`: parses a struct, enum or
/// union declaration, from which the name and each generic parameter's
/// lifetime or name are taken; on failure, the parser's message.
#[verifier::external_body]
pub(crate) fn parse_declaration(item: &str) -> (r: Result<DeclaredType, String>)
    ensures
        declaration_view(r) == declared_type(item@),
{
    match syn::parse_str::<syn::DeriveInput>(item) {
        Ok(input) => Ok(DeclaredType {
            name: input.ident.to_string(),
            generics: input.generics.params.iter().map(|p| match p {
                syn::GenericParam::Lifetime(l) => l.lifetime.to_string(),
                syn::GenericParam::Type(t) => t.ident.to_string(),
                syn::GenericParam::Const(c) => c.ident.to_string(),
            }).collect(),
        }),
        Err(e) => Err(e.to_string()),
    }
}

/// The generic parameters separated by `", "`.
pub open spec fn comma_separated(items: Seq<Seq<char>>) -> Seq<char>
    decreases items.len(),
{
    if items.len() == 0 {
        Seq::empty()
    } else if items.len() == 1 {
        items[0]
    } else {
        comma_separated(items.drop_last()) + seq![',', ' '] + items.last()
    }
}

/// The declared type named with its own generic parameters, in their order:
/// `Name` or `Name<'a, T, N>`.
pub open spec fn type_reference_text(name: Seq<char>, generics: Seq<Seq<char>>) -> Seq<char> {
    if generics.len() == 0 {
        name
    } else {
        name + seq!['<'] + comma_separated(generics) + seq!['>']
    }
}

/// Names the declared type with its generic parameters reapplied in order.
pub fn type_reference(decl: &DeclaredType) -> (r: String)
    ensures
        r@ == type_reference_text(decl@.0, decl@.1),
{
    let n = decl.generics.len();
    let mut r = decl.name.clone();
    if n == 0 {
        return r;
    }
    let ghost gs = decl@.1;
    proof {
        reveal_strlit("<");
        reveal_strlit(", ");
        reveal_strlit(">");
    }
    r.append("<");
    let mut i: usize = 0;
    while i < n
        invariant
            n == decl.generics@.len(),
            gs == decl@.1,
            i <= n,
            r@ == decl@.0 + seq!['<'] + comma_separated(gs.take(i as int)),
        decreases n - i,
    {
        let ghost before = r@;
        let ghost head = decl@.0 + seq!['<'];
        if i > 0 {
            r.append(", ");
        }
        r.append(decl.generics[i].as_str());
        proof {
            reveal_strlit(", ");
            let t = gs.take(i + 1);
            assert(gs[i as int] == decl.generics@[i as int]@);
            assert(t.drop_last() =~= gs.take(i as int));
            assert(t.last() == gs[i as int]);
            if i == 0 {
                assert(gs.take(0) =~= Seq::<Seq<char>>::empty());
                assert(comma_separated(t) == gs[0]);
                assert(r@ =~= head + comma_separated(t));
            } else {
                assert(comma_separated(t) == comma_separated(gs.take(i as int)) + seq![',', ' '] + gs[i as int]);
                assert(r@ =~= head + comma_separated(t));
            }
        }
        i = i + 1;
    }
    r.append(">");
    assert(gs.take(n as int) =~= gs);
    r
}

} // verus!
