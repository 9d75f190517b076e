use crate::seqs::{
    first_match, lemma_first_match_at, lemma_first_match_facts, lemma_first_match_none, without_first,
};
use vstd::prelude::*;

verus! {

/// What the value of a `name = value` attribute reads as.
#[derive(Clone, Debug, PartialEq, Eq)]
pub enum ExprValue {
    /// A string literal, with its value.
    LitStr(String),
    /// Anything else.
    Other,
}

/// The form of an attribute: `#[name]`, `#[name(...)]` or `#[name = value]`.
#[derive(Clone, Debug, PartialEq, Eq)]
pub enum Meta {
    Path,
    List,
    NameValue(ExprValue),
}

/// An attribute as the logic reads it: the identifier its path consists of
/// (if the path is a single identifier), its form, and the attribute itself,
/// carried along untouched.
#[derive(Clone, Debug, PartialEq, Eq)]
pub struct Attr<R> {
    pub ident: Option<String>,
    pub meta: Meta,
    pub raw: R,
}

/// The forms that the `remove_*` operations select by.
#[derive(Clone, Copy, Debug, PartialEq, Eq, Structural)]
pub enum Kind {
    Any,
    Path,
    List,
    NameValue,
}

/// Whether the attribute's path is the single identifier `target`.
pub open spec fn is_named<R>(a: Attr<R>, target: Seq<char>) -> bool {
    a.ident matches Some(id) && id@ == target
}

/// Whether a form is of the kind.
pub open spec fn fits(meta: Meta, kind: Kind) -> bool {
    match kind {
        Kind::Any => true,
        Kind::Path => meta is Path,
        Kind::List => meta is List,
        Kind::NameValue => meta is NameValue,
    }
}

/// The attributes named `target` of the given kind.
pub open spec fn selects<R>(target: Seq<char>, kind: Kind) -> spec_fn(Attr<R>) -> bool {
    |a: Attr<R>| is_named(a, target) && fits(a.meta, kind)
}

/// Removes the first attribute named `target` of the given kind.
fn remove_first<R>(attrs: &mut Vec<Attr<R>>, target: &str, kind: Kind) -> (res: Option<
    Attr<R>,
>)
    ensures
        (final(attrs)@, res) == without_first(old(attrs)@, selects::<R>(target@, kind)),
{
    let ghost p = selects::<R>(target@, kind);
    let wanted = String::from_str(target);
    let mut i: usize = 0;
    while i < attrs.len()
        invariant
            attrs@ == old(attrs)@,
            wanted@ == target@,
            p == selects::<R>(target@, kind),
            0 <= i <= attrs.len(),
            forall|j: int| 0 <= j < i ==> !p(attrs@[j]),
        decreases attrs.len() - i,
    {
        let named = match &attrs[i].ident {
            Some(id) => *id == wanted,
            None => false,
        };
        let fits_kind = match kind {
            Kind::Any => true,
            Kind::Path => matches!(attrs[i].meta, Meta::Path),
            Kind::List => matches!(attrs[i].meta, Meta::List),
            Kind::NameValue => matches!(attrs[i].meta, Meta::NameValue(_)),
        };
        if named && fits_kind {
            proof {
                lemma_first_match_at(old(attrs)@, p, i as int);
            }
            let found = attrs.remove(i);
            return Some(found);
        }
        i = i + 1;
    }
    proof {
        lemma_first_match_none(old(attrs)@, p);
    }
    None
}

/// Removes the first attribute that `matches` accepts, and returns it.
pub fn remove_if<R, F: Fn(&Attr<R>) -> bool>(
    attrs: &mut Vec<Attr<R>>,
    matches: F,
) -> (res: Option<Attr<R>>)
    requires
        forall|a: &Attr<R>| matches.requires((a,)),
    ensures
        match res {
            Some(r) => exists|i: int|
                0 <= i < old(attrs).len() && r == old(attrs)@[i] && final(attrs)@ == old(
                    attrs,
                )@.remove(i) && matches.ensures((&old(attrs)@[i],), true) && forall|j: int|
                    0 <= j < i ==> matches.ensures((&old(attrs)@[j],), false),
            None => final(attrs)@ == old(attrs)@ && forall|j: int|
                0 <= j < old(attrs).len() ==> matches.ensures((&old(attrs)@[j],), false),
        },
{
    let mut i: usize = 0;
    while i < attrs.len()
        invariant
            attrs@ == old(attrs)@,
            forall|a: &Attr<R>| matches.requires((a,)),
            0 <= i <= attrs.len(),
            forall|j: int| 0 <= j < i ==> matches.ensures((&old(attrs)@[j],), false),
        decreases attrs.len() - i,
    {
        if matches(&attrs[i]) {
            let found = attrs.remove(i);
            return Some(found);
        }
        i = i + 1;
    }
    None
}

/// Removes the first attribute named `target` that `kind_match` accepts
/// (typically by its form), and returns it.  `kind_match`
/// is asked before the name is compared.
pub fn remove_ident_if<R, F: Fn(&Attr<R>) -> bool>(
    attrs: &mut Vec<Attr<R>>,
    target: &str,
    kind_match: F,
) -> (res: Option<Attr<R>>)
    requires
        forall|a: &Attr<R>| kind_match.requires((a,)),
    ensures
        match res {
            Some(r) => exists|i: int|
                0 <= i < old(attrs).len() && r == old(attrs)@[i] && final(attrs)@ == old(
                    attrs,
                )@.remove(i) && kind_match.ensures((&old(attrs)@[i],), true) && is_named(
                    old(attrs)@[i],
                    target@,
                ) && forall|j: int|
                    0 <= j < i ==> kind_match.ensures((&old(attrs)@[j],), false) || !is_named(
                        old(attrs)@[j],
                        target@,
                    ),
            None => final(attrs)@ == old(attrs)@ && forall|j: int|
                0 <= j < old(attrs).len() ==> kind_match.ensures((&old(attrs)@[j],), false)
                    || !is_named(old(attrs)@[j], target@),
        },
{
    let wanted = String::from_str(target);
    let mut i: usize = 0;
    while i < attrs.len()
        invariant
            attrs@ == old(attrs)@,
            wanted@ == target@,
            forall|a: &Attr<R>| kind_match.requires((a,)),
            0 <= i <= attrs.len(),
            forall|j: int|
                0 <= j < i ==> kind_match.ensures((&old(attrs)@[j],), false) || !is_named(
                    old(attrs)@[j],
                    target@,
                ),
        decreases attrs.len() - i,
    {
        let accepted = kind_match(&attrs[i]);
        let hit = accepted && match &attrs[i].ident {
            Some(id) => *id == wanted,
            None => false,
        };
        if hit {
            let found = attrs.remove(i);
            return Some(found);
        }
        i = i + 1;
    }
    None
}

/// Removes the first attribute named `target`, whatever its form.
pub fn remove_any<R>(attrs: &mut Vec<Attr<R>>, target: &str) -> (res: Option<Attr<R>>)
    ensures
        (final(attrs)@, res) == without_first(old(attrs)@, selects::<R>(target@, Kind::Any)),
        res matches Some(a) ==> is_named(a, target@),
        res is None <==> forall|i: int|
            0 <= i < old(attrs).len() ==> !is_named(#[trigger] old(attrs)@[i], target@),
        res is None ==> final(attrs)@ == old(attrs)@,
{
    let res = remove_first(attrs, target, Kind::Any);
    proof {
        lemma_first_match_facts(old(attrs)@, selects::<R>(target@, Kind::Any));
    }
    res
}

/// Removes the first attribute of the form `#[target]`.
pub fn remove_path<R>(attrs: &mut Vec<Attr<R>>, target: &str) -> (res: Option<Attr<R>>)
    ensures
        (final(attrs)@, res) == without_first(old(attrs)@, selects::<R>(target@, Kind::Path)),
        res matches Some(a) ==> is_named(a, target@) && a.meta is Path,
        res is None <==> forall|i: int|
            0 <= i < old(attrs).len() ==> !(is_named(#[trigger] old(attrs)@[i], target@)
                && old(attrs)@[i].meta is Path),
        res is None ==> final(attrs)@ == old(attrs)@,
{
    let res = remove_first(attrs, target, Kind::Path);
    proof {
        lemma_first_match_facts(old(attrs)@, selects::<R>(target@, Kind::Path));
    }
    res
}

/// Removes the first attribute of the form `#[target = value]`.
pub fn remove_name_value<R>(attrs: &mut Vec<Attr<R>>, target: &str) -> (res: Option<
    Attr<R>,
>)
    ensures
        (final(attrs)@, res) == without_first(
            old(attrs)@,
            selects::<R>(target@, Kind::NameValue),
        ),
        res matches Some(a) ==> is_named(a, target@) && a.meta is NameValue,
        res is None <==> forall|i: int|
            0 <= i < old(attrs).len() ==> !(is_named(#[trigger] old(attrs)@[i], target@)
                && old(attrs)@[i].meta is NameValue),
        res is None ==> final(attrs)@ == old(attrs)@,
{
    let res = remove_first(attrs, target, Kind::NameValue);
    proof {
        lemma_first_match_facts(old(attrs)@, selects::<R>(target@, Kind::NameValue));
    }
    res
}

/// Removes the first attribute of the form `#[target(...)]`.
pub fn remove_list<R>(attrs: &mut Vec<Attr<R>>, target: &str) -> (res: Option<Attr<R>>)
    ensures
        (final(attrs)@, res) == without_first(old(attrs)@, selects::<R>(target@, Kind::List)),
        res matches Some(a) ==> is_named(a, target@) && a.meta is List,
        res is None <==> forall|i: int|
            0 <= i < old(attrs).len() ==> !(is_named(#[trigger] old(attrs)@[i], target@)
                && old(attrs)@[i].meta is List),
        res is None ==> final(attrs)@ == old(attrs)@,
{
    let res = remove_first(attrs, target, Kind::List);
    proof {
        lemma_first_match_facts(old(attrs)@, selects::<R>(target@, Kind::List));
    }
    res
}

/// What an attribute reads as in the model: the identifier its path is, if
/// it is one; the form of its meta; and, for `name = value`, whether the
/// value is a string literal and which (its unescaped value).
pub uninterp spec fn attribute_read(attr: syn::Attribute) -> Attr<syn::Attribute>;

/// Reads an attribute in the model, through `syn::Attribute::path`,
/// `syn::Path::get_ident` and, for a string literal, `syn::LitStr::value`.
#[verifier::external_body]
fn read_attribute(attr: syn::Attribute) -> (res: Attr<syn::Attribute>)
    ensures
        res == attribute_read(attr),
{
    let ident = attr.path().get_ident().map(|ident| ident.to_string());
    let meta = match &attr.meta {
        syn::Meta::Path(_) => Meta::Path,
        syn::Meta::List(_) => Meta::List,
        syn::Meta::NameValue(nv) => Meta::NameValue(match &nv.value {
            syn::Expr::Lit(syn::ExprLit { lit: syn::Lit::Str(s), .. }) => ExprValue::LitStr(s.value()),
            _ => ExprValue::Other,
        }),
    };
    Attr { ident, meta, raw: attr }
}

/// Reads each attribute in the model, in order.
pub fn read_attributes(attrs: Vec<syn::Attribute>) -> (res: Vec<Attr<syn::Attribute>>)
    ensures
        res@ == attrs@.map_values(|a: syn::Attribute| attribute_read(a)),
{
    let ghost all = attrs@;
    let mut rest = attrs;
    let mut out: Vec<Attr<syn::Attribute>> = Vec::new();
    proof {
        assert(rest@ =~= all.skip(0));
    }
    while rest.len() > 0
        invariant
            out.len() + rest@.len() == all.len(),
            rest@ == all.skip(out.len() as int),
            forall|i: int| 0 <= i < out.len() ==> out@[i] == attribute_read(#[trigger] all[i]),
        decreases rest.len(),
    {
        let ghost k = out.len() as int;
        let a = rest.remove(0);
        assert(a == all[k]);
        out.push(read_attribute(a));
        assert(rest@ =~= all.skip(k + 1));
    }
    assert(out@ =~= all.map_values(|a: syn::Attribute| attribute_read(a)));
    out
}

} // verus!
