//! Per-field directives, and the extraction of the each-directive: the name
//! of an accumulating setter, written `#[builder(key = "name")]`.

use vstd::prelude::*;

verus! {

/// A literal in a directive.
pub enum Literal {
    Str(String),
    /// Any non-string literal, as its source text.
    Other(String),
}

/// One item inside a directive's parentheses.
pub enum NestedMeta {
    /// A bare path (`each`).
    Path(String),
    /// `key = literal`.
    NameValue { key: String, value: Literal },
    /// A nested list (`inner(...)`), by its path.
    List(String),
    /// A bare literal.
    Literal(Literal),
}

/// What follows a directive's path.
pub enum AttrBody {
    /// Nothing (`#[builder]`).
    Bare,
    /// A parenthesised list (`#[builder(...)]`).
    List(Vec<NestedMeta>),
    /// `#[builder = literal]`.
    NameValue(Literal),
    /// Tokens that do not form a directive.
    Unparsed,
}

/// An attribute on a field: its path and its body.
pub struct Attribute {
    pub path: String,
    pub body: AttrBody,
}

/// Relies on `syn::parse_str::<syn::Ident>` and `Ident::to_string`: the
/// identifier that syn reads from the string, written back as text, or `None`
/// where syn reads no single identifier (it refuses `_` and most keywords).
/// What it reads depends on the lexer in use (inside the compiler,
/// identifiers come back normalised), so nothing is stated of the result.
#[verifier::external_body]
fn parse_identifier(s: &str) -> (r: Option<String>) {
    syn::parse_str::<syn::Ident>(s).ok().map(|i| i.to_string())
}

pub open spec fn opt_view(o: Option<String>) -> Option<Seq<char>> {
    match o {
        Some(s) => Some(s@),
        None => None,
    }
}

/// The path that marks the builder's directives.
pub open spec fn directive_path() -> Seq<char> {
    "builder"@
}

pub open spec fn is_directive(a: Attribute) -> bool {
    a.path@ == directive_path()
}

/// The string literal of a directive of the accepted shape, a list of one
/// `key = "..."` item; `None` for any other shape.
pub open spec fn directive_literal(a: Attribute) -> Option<Seq<char>> {
    match a.body {
        AttrBody::List(items) => if items@.len() == 1 {
            match items@[0] {
                NestedMeta::NameValue { key: _, value: Literal::Str(s) } => Some(s@),
                _ => None,
            }
        } else {
            None
        },
        _ => None,
    }
}

/// The setter name that a directive requests, given what the identifier
/// parser read from its literal: the literal, where the parser read it back
/// unchanged; `None` otherwise.
pub open spec fn directive_name(a: Attribute, parsed: Option<Seq<char>>) -> Option<Seq<char>> {
    match directive_literal(a) {
        Some(s) => if parsed == Some(s) {
            Some(s)
        } else {
            None
        },
        None => None,
    }
}

/// The each-directive of a field with attributes `attrs`, by shape:
/// `Ok(None)` with no directive, `Ok(Some(literal))` with one directive of
/// the accepted shape, `Err(())` with a directive of another shape or more
/// than one.
pub open spec fn each_directive(attrs: Seq<Attribute>) -> Result<Option<Seq<char>>, ()>
    decreases attrs.len(),
{
    if attrs.len() == 0 {
        Ok(None)
    } else {
        let prior = each_directive(attrs.drop_last());
        let a = attrs.last();
        if !is_directive(a) {
            prior
        } else {
            match prior {
                Ok(None) => match directive_literal(a) {
                    Some(n) => Ok(Some(n)),
                    None => Err(()),
                },
                _ => Err(()),
            }
        }
    }
}

/// The string literal of a directive of the accepted shape.
fn literal_of(a: &Attribute) -> (r: Option<&String>)
    ensures
        r matches Some(s) ==> directive_literal(*a) == Some(s@),
        r is None ==> directive_literal(*a) is None,
{
    match &a.body {
        AttrBody::List(items) => {
            if items.len() != 1 {
                return None;
            }
            match &items[0] {
                NestedMeta::NameValue { key: _, value: Literal::Str(s) } => Some(s),
                _ => None,
            }
        },
        _ => None,
    }
}

/// Decides the setter name of one directive from what the identifier parser
/// read from its literal (`parsed`).
pub fn requested_name_from(a: &Attribute, parsed: Option<String>) -> (r: Option<String>)
    ensures
        opt_view(r) == directive_name(*a, opt_view(parsed)),
{
    match literal_of(a) {
        Some(s) => match parsed {
            Some(t) => {
                if t == *s {
                    Some(s.clone())
                } else {
                    None
                }
            },
            None => None,
        },
        None => None,
    }
}

/// Extracts the each-directive from a field's attributes; attributes under
/// another path are ignored. With no directive it yields `Ok(None)`; with a
/// directive of another shape, or more than one, `Err(())`; with one of the
/// accepted shape, its literal where the identifier parser reads the literal
/// back unchanged, and `Err(())` otherwise.
pub fn extract_each(attrs: &Vec<Attribute>) -> (r: Result<Option<String>, ()>)
    ensures
        r matches Ok(Some(s)) ==> each_directive(attrs@) == Ok::<_, ()>(Some(s@)),
        r matches Ok(None) <==> each_directive(attrs@) == Ok::<Option<Seq<char>>, ()>(None),
        each_directive(attrs@) is Err ==> r is Err,
{
    let marker = "builder".to_owned();
    let mut found: Option<String> = None;
    let mut i: usize = 0;
    while i < attrs.len()
        invariant
            i <= attrs@.len(),
            marker@ == directive_path(),
            found matches Some(s) ==> each_directive(attrs@.take(i as int)) == Ok::<_, ()>(
                Some(s@),
            ),
            found is None ==> each_directive(attrs@.take(i as int)) == Ok::<
                Option<Seq<char>>,
                (),
            >(None),
        decreases attrs@.len() - i,
    {
        proof {
            assert(attrs@.take(i + 1).drop_last() == attrs@.take(i as int));
        }
        let a = &attrs[i];
        if a.path == marker {
            if found.is_some() {
                proof {
                    lemma_directive_persists(attrs@, i as int + 1);
                }
                return Err(());
            }
            let parsed = match literal_of(a) {
                Some(lit) => parse_identifier(lit.as_str()),
                None => None,
            };
            match requested_name_from(a, parsed) {
                Some(n) => {
                    found = Some(n);
                },
                None => {
                    proof {
                        lemma_directive_persists(attrs@, i as int + 1);
                    }
                    return Err(());
                },
            }
        }
        i = i + 1;
    }
    proof {
        assert(attrs@.take(i as int) == attrs@);
    }
    Ok(found)
}

/// Once a prefix of the attributes holds a directive, so does every longer
/// prefix; once a prefix is malformed, so is every longer prefix.
proof fn lemma_directive_persists(attrs: Seq<Attribute>, k: int)
    requires
        0 <= k <= attrs.len(),
        each_directive(attrs.take(k)) != Ok::<Option<Seq<char>>, ()>(None),
    ensures
        each_directive(attrs) != Ok::<Option<Seq<char>>, ()>(None),
        each_directive(attrs.take(k)) is Err ==> each_directive(attrs) is Err,
    decreases attrs.len() - k,
{
    if k < attrs.len() {
        assert(attrs.take(k + 1).drop_last() == attrs.take(k));
        lemma_directive_persists(attrs, k + 1);
    } else {
        assert(attrs.take(k) == attrs);
    }
}

} // verus!
