//! The `strings` attribute read from its raw tokens: the options from the
//! attribute's arguments, the variants from the annotated enum, and the plan
//! that the two give.
use crate::attribute::{attribute_read, read_attributes};
use crate::options::{options_outcome, Options, OptionsError};
use crate::strings::{default_names, plan, plan_outcome, Plan, Variant, VariantError};
use proc_macro2::{Ident, TokenStream};
use syn::parse::Parser;
use syn::punctuated::Punctuated;
use syn::token::Comma;
use vstd::prelude::*;

verus! {

/// Why the `strings` attribute refuses its input.
#[derive(Debug)]
pub enum StringsFailure {
    /// The arguments are no comma-separated identifiers, or the item is no enum.
    Syntax(syn::Error),
    /// The arguments name no valid set of options; `args` are the arguments
    /// as read, which the error's position refers to.
    Options { error: OptionsError, args: Punctuated<Ident, Comma> },
    /// A variant of the enum is refused; `item` is the enum as read, which
    /// the error's position refers to.
    Variant { error: VariantError<syn::Attribute>, item: syn::ItemEnum },
}

/// What `Punctuated::<Ident, Comma>::parse_terminated` makes of the
/// attribute's arguments: the identifiers' names, in order, and the list
/// itself; `None` where they do not read so.
pub uninterp spec fn parsed_words(attr: TokenStream) -> Option<(Seq<Seq<char>>, Punctuated<Ident, Comma>)>;

/// What `syn::parse2::<syn::ItemEnum>` makes of the item: the enum and, for
/// each variant in order, its name, whether its fields are empty, and its
/// attributes; `None` where the item is no enum.
pub uninterp spec fn parsed_enum(item: TokenStream) -> Option<(syn::ItemEnum, Seq<(Seq<char>, bool, Seq<syn::Attribute>)>)>;

/// Calls `Punctuated::<Ident, Comma>::parse_terminated` on the arguments
/// (through `syn::parse::Parser::parse2`, which also asks that every token
/// be read), with the name of each identifier.  The contract claims that a
/// success is the named result; of a failure it claims only that the named
/// result is `None`.
#[verifier::external_body]
fn parse_words(attr: TokenStream) -> (res: Result<(Vec<String>, Punctuated<Ident, Comma>), syn::Error>)
    ensures
        parsed_words(attr) == match res {
            Ok((words, args)) => Some((words.deep_view(), args)),
            Err(_) => None,
        },
{
    let args = Parser::parse2(Punctuated::<Ident, Comma>::parse_terminated, attr)?;
    Ok((args.iter().map(|arg| arg.to_string()).collect(), args))
}

/// Calls `syn::parse2::<syn::ItemEnum>` on the item, with, for each variant,
/// the name of its identifier, `Fields::is_empty` and its attributes.  As for
/// the arguments, a success is the named result.
#[verifier::external_body]
fn parse_enum(item: TokenStream) -> (res: Result<
    (syn::ItemEnum, Vec<(String, bool, Vec<syn::Attribute>)>),
    syn::Error,
>)
    ensures
        parsed_enum(item) == match res {
            Ok((e, raw)) => Some((e, raw_view(raw@))),
            Err(_) => None,
        },
{
    let e: syn::ItemEnum = syn::parse2(item)?;
    let raw = e.variants.iter().map(|v| (v.ident.to_string(), v.fields.is_empty(), v.attrs.clone()));
    let raw = raw.collect();
    Ok((e, raw))
}

/// The variants as the parser hands them over, by their views.
pub open spec fn raw_view(raw: Seq<(String, bool, Vec<syn::Attribute>)>) -> Seq<
    (Seq<char>, bool, Seq<syn::Attribute>),
> {
    raw.map_values(|t: (String, bool, Vec<syn::Attribute>)| (t.0@, t.1, t.2@))
}

/// Whether `vs` is the model of the variants `raw`: same names, fields
/// where the parser found them, and each attribute read in the model.
pub open spec fn read_as(
    raw: Seq<(Seq<char>, bool, Seq<syn::Attribute>)>,
    vs: Seq<Variant<syn::Attribute>>,
) -> bool {
    &&& vs.len() == raw.len()
    &&& forall|k: int|
        0 <= k < raw.len() ==> {
            &&& (#[trigger] vs[k]).name@ == raw[k].0
            &&& vs[k].has_fields == !raw[k].1
            &&& vs[k].attrs@ == raw[k].2.map_values(|a: syn::Attribute| attribute_read(a))
        }
}

/// Reads each variant in the model, in order.
fn read_variants(raw: Vec<(String, bool, Vec<syn::Attribute>)>) -> (res: Vec<Variant<syn::Attribute>>)
    ensures
        read_as(raw_view(raw@), res@),
{
    let ghost all = raw@;
    let ghost rv = raw_view(all);
    let mut rest = raw;
    let mut out: Vec<Variant<syn::Attribute>> = Vec::new();
    proof {
        assert(rest@ =~= all.skip(0));
    }
    while rest.len() > 0
        invariant
            out.len() + rest@.len() == all.len(),
            rest@ == all.skip(out.len() as int),
            rv == raw_view(all),
            forall|k: int|
                0 <= k < out.len() ==> {
                    &&& (#[trigger] out@[k]).name@ == rv[k].0
                    &&& out@[k].has_fields == !rv[k].1
                    &&& out@[k].attrs@ == rv[k].2.map_values(|a: syn::Attribute| attribute_read(a))
                },
        decreases rest.len(),
    {
        let ghost k = out.len() as int;
        let (name, fields_empty, attrs) = rest.remove(0);
        assert((name, fields_empty, attrs) == all[k]);
        let attrs = read_attributes(attrs);
        out.push(Variant { name, has_fields: !fields_empty, attrs });
        assert(rest@ =~= all.skip(k + 1));
    }
    out
}

/// The plan part of a result, for the enum `e`: the plan where the result
/// holds `e` and a plan, the variant error where it refuses `e` for one.
pub open spec fn plan_part(
    e: syn::ItemEnum,
    res: Result<(syn::ItemEnum, Plan<syn::Attribute>), StringsFailure>,
) -> Option<Result<Plan<syn::Attribute>, VariantError<syn::Attribute>>> {
    match res {
        Ok((e2, p)) => if e2 == e {
            Some(Ok(p))
        } else {
            None
        },
        Err(StringsFailure::Variant { error, item }) => if item == e {
            Some(Err(error))
        } else {
            None
        },
        _ => None,
    }
}

/// What the `strings` attribute makes of its arguments `attr` and its item
/// `item`: a syntax error where the arguments are no comma-separated
/// identifiers; else the options error where their names are refused; else
/// a syntax error where the item is no enum; else the enum and the plan of
/// its variants under those options, or the first variant error.
pub open spec fn strings_outcome(
    attr: TokenStream,
    item: TokenStream,
    res: Result<(syn::ItemEnum, Plan<syn::Attribute>), StringsFailure>,
) -> bool {
    match parsed_words(attr) {
        None => res matches Err(StringsFailure::Syntax(_)),
        Some((words, args)) => match options_outcome(words) {
            Err(error) => res == Err::<(syn::ItemEnum, Plan<syn::Attribute>), StringsFailure>(
                StringsFailure::Options { error, args },
            ),
            Ok(opts) => match parsed_enum(item) {
                None => res matches Err(StringsFailure::Syntax(_)),
                Some((e, raw)) => exists|vs: Seq<Variant<syn::Attribute>>|
                    #[trigger] read_as(raw, vs) && (plan_part(e, res) matches Some(r)
                        && plan_outcome(opts, vs, default_names(opts, vs), r)),
            },
        },
    }
}

/// Reads the `strings` attribute's arguments and the enum it stands on, and
/// plans the strings of its variants: the enum and the plan, or why the
/// input is refused.
pub fn read_and_plan(attr: TokenStream, item: TokenStream) -> (res: Result<
    (syn::ItemEnum, Plan<syn::Attribute>),
    StringsFailure,
>)
    ensures
        strings_outcome(attr, item, res),
        res matches Ok((_, p)) ==> (parsed_words(attr) matches Some((w, _)) && (options_outcome(
            w,
        ) matches Ok(o) && p.display == (o.display && p.total))),
{
    let (words, args) = match parse_words(attr) {
        Ok(parsed) => parsed,
        Err(e) => return Err(StringsFailure::Syntax(e)),
    };
    let opts = match Options::parse(&words) {
        Ok(opts) => opts,
        Err(error) => return Err(StringsFailure::Options { error, args }),
    };
    let (parsed, raw) = match parse_enum(item) {
        Ok(read) => read,
        Err(e) => return Err(StringsFailure::Syntax(e)),
    };
    let variants = read_variants(raw);
    let ghost vs = variants@;
    let res = match plan(opts, variants) {
        Ok(p) => Ok((parsed, p)),
        Err(error) => Err(StringsFailure::Variant { error, item: parsed }),
    };
    assert(read_as(parsed_enum(item).unwrap().1, vs));
    res
}

/// A plan read from tokens comes with a `Display` impl exactly when the
/// arguments name `display` and every variant has a string, whatever else
/// the arguments name.
pub proof fn lemma_read_display(
    attr: TokenStream,
    item: TokenStream,
    res: Result<(syn::ItemEnum, Plan<syn::Attribute>), StringsFailure>,
)
    requires
        strings_outcome(attr, item, res),
        res is Ok,
    ensures
        parsed_words(attr) matches Some((w, _)) && (options_outcome(w) matches Ok(o) && res->Ok_0.1.display
            == (o.display && res->Ok_0.1.total)),
{
    let (w, a) = parsed_words(attr)->Some_0;
    let o = options_outcome(w)->Ok_0;
    let (e, raw) = parsed_enum(item)->Some_0;
    let vs = choose|vs: Seq<Variant<syn::Attribute>>|
        #[trigger] read_as(raw, vs) && (plan_part(e, res) matches Some(r) && plan_outcome(
            o,
            vs,
            default_names(o, vs),
            r,
        ));
    assert(plan_outcome(o, vs, default_names(o, vs), Ok(res->Ok_0.1)));
}

} // verus!
