use crate::attribute::{
    remove_name_value, remove_path, selects, Attr, ExprValue, Kind, Meta,
};
use crate::case::{case_converted, to_case};
use crate::expr::as_lit_str;
use crate::options::Options;
use crate::seqs::{
    first_match, lemma_filter_all, lemma_filter_none, lemma_first_match_facts,
    lemma_remove_first_match, without_first,
};
use vstd::prelude::*;

verus! {

broadcast use vstd::seq_lib::group_seq_properties;

/// A variant of the enum under the `strings` attribute, as the logic reads it.
#[derive(Clone, Debug, PartialEq, Eq)]
pub struct Variant<R> {
    /// The variant's identifier.
    pub name: String,
    /// Whether the variant has fields.
    pub has_fields: bool,
    /// Its attributes, in order.
    pub attrs: Vec<Attr<R>>,
}

/// What becomes of a variant.
#[derive(Clone, Debug, PartialEq, Eq)]
pub enum Form<R> {
    /// `#[omit]`: the variant has no string.  `marker` is the removed
    /// attribute; where `warn` holds (no `defaults` option), the attribute was
    /// not needed and the variant is marked to say so.
    Omitted { marker: Attr<R>, warn: bool },
    /// Neither `#[string = ..]` nor `defaults`: the variant has no string.
    Unnamed,
    /// The variant's string and, in order, its alternative spellings.
    Named { string: String, alts: Vec<String> },
}

/// A variant's outcome: the attributes it keeps, and its form.
#[derive(Clone, Debug, PartialEq, Eq)]
pub struct VariantPlan<R> {
    pub attrs: Vec<Attr<R>>,
    pub form: Form<R>,
}

/// What the `strings` attribute generates for an enum.
#[derive(Clone, Debug, PartialEq, Eq)]
pub struct Plan<R> {
    /// One outcome per variant, in order.
    pub variants: Vec<VariantPlan<R>>,
    /// Every variant has a string: `as_str` returns `&'static str` rather
    /// than an `Option`.
    pub total: bool,
    /// A `Display` impl is generated.
    pub display: bool,
}

/// Where a string came from.
#[derive(Clone, Debug, PartialEq, Eq)]
pub enum Site<R> {
    /// The variant's identifier (`defaults`).
    Name,
    /// The value of this attribute (`string` or `alt`).
    Value(Attr<R>),
}

/// Why the `strings` attribute refuses an enum.  `variant` is the position
/// of the variant at fault.
#[derive(Clone, Debug, PartialEq, Eq)]
pub enum VariantError<R> {
    /// A variant that is not omitted (`#[omit]`) has fields.
    FieldsNotAllowed { variant: usize },
    /// The value of a `string` or `alt` attribute is no string literal.
    ExpectedStringLiteral { variant: usize, attr: Attr<R> },
    /// A string that an earlier variant or attribute already claimed.
    DuplicateString { variant: usize, site: Site<R> },
}

/// One check made while reading the variants, in the order it is made.
pub enum Step<R> {
    /// A check that fails outright.
    Fault(VariantError<R>),
    /// A string claimed for a variant, and the error if it was claimed before.
    Claim(Seq<char>, VariantError<R>),
}

/// `#[omit]`.
pub open spec fn omit_sel<R>() -> spec_fn(Attr<R>) -> bool {
    selects::<R>("omit"@, Kind::Path)
}

/// `#[string = ..]`.
pub open spec fn string_sel<R>() -> spec_fn(Attr<R>) -> bool {
    selects::<R>("string"@, Kind::NameValue)
}

/// `#[alt = ..]`.
pub open spec fn alt_sel<R>() -> spec_fn(Attr<R>) -> bool {
    selects::<R>("alt"@, Kind::NameValue)
}

/// Anything but `#[alt = ..]`.
pub open spec fn not_alt_sel<R>() -> spec_fn(Attr<R>) -> bool {
    |a: Attr<R>| !selects::<R>("alt"@, Kind::NameValue)(a)
}

/// The string literal that an attribute's value is, if it is one.
pub open spec fn literal<R>(a: Attr<R>) -> Option<Seq<char>> {
    match a.meta {
        Meta::NameValue(ExprValue::LitStr(s)) => Some(s@),
        _ => None,
    }
}

/// The string that `defaults` gives a variant.
pub open spec fn default_string(opts: Options, name: Seq<char>) -> Seq<char> {
    match opts.case {
        Some(c) => case_converted(name, c),
        None => name,
    }
}

/// The strings that `defaults` would give the variants.
pub open spec fn default_names<R>(opts: Options, vs: Seq<Variant<R>>) -> Seq<Seq<char>> {
    Seq::new(vs.len(), |k: int| default_string(opts, vs[k].name@))
}

/// The check of a `string` or `alt` attribute of variant `k`.
pub open spec fn value_step<R>(k: int, a: Attr<R>) -> Step<R> {
    match literal(a) {
        Some(s) => Step::Claim(
            s,
            VariantError::DuplicateString { variant: k as usize, site: Site::Value(a) },
        ),
        None => Step::Fault(VariantError::ExpectedStringLiteral { variant: k as usize, attr: a }),
    }
}

/// The attributes left once `#[string = ..]` is taken out.
pub open spec fn after_string<R>(attrs: Seq<Attr<R>>) -> Seq<Attr<R>> {
    without_first(attrs, string_sel::<R>()).0
}

/// The `#[alt = ..]` attributes, in order.
pub open spec fn alt_attrs<R>(attrs: Seq<Attr<R>>) -> Seq<Attr<R>> {
    after_string(attrs).filter(alt_sel::<R>())
}

/// The check of a variant's own string, if it gets one; `dflt` is the
/// string that `defaults` would give it.
pub open spec fn primary_step<R>(opts: Options, k: int, v: Variant<R>, dflt: Seq<char>) -> Option<
    Step<R>,
> {
    match without_first(v.attrs@, string_sel::<R>()).1 {
        Some(a) => Some(value_step(k, a)),
        None => if opts.defaults {
            Some(
                Step::Claim(
                    dflt,
                    VariantError::DuplicateString { variant: k as usize, site: Site::Name },
                ),
            )
        } else {
            None
        },
    }
}

/// The checks made for variant `k`, in order; `dflt` is the string that
/// `defaults` would give it.
#[verifier::opaque]
pub open spec fn variant_steps<R>(opts: Options, k: int, v: Variant<R>, dflt: Seq<char>) -> Seq<
    Step<R>,
> {
    if first_match(v.attrs@, omit_sel::<R>()) is Some {
        Seq::empty()
    } else if v.has_fields {
        seq![Step::Fault(VariantError::FieldsNotAllowed { variant: k as usize })]
    } else {
        match primary_step(opts, k, v, dflt) {
            None => Seq::empty(),
            Some(st) => seq![st] + alt_attrs(v.attrs@).map_values(|a: Attr<R>| value_step(k, a)),
        }
    }
}

/// The checks made for the first `n` variants, in order; `names[k]` is the
/// string that `defaults` would give variant `k`.
pub open spec fn steps_upto<R>(
    opts: Options,
    vs: Seq<Variant<R>>,
    names: Seq<Seq<char>>,
    n: int,
) -> Seq<Step<R>>
    decreases n,
{
    if n <= 0 {
        Seq::empty()
    } else {
        steps_upto(opts, vs, names, n - 1) + variant_steps(opts, n - 1, vs[n - 1], names[n - 1])
    }
}

/// The strings claimed by a run of checks, in order.
pub open spec fn claimed<R>(s: Seq<Step<R>>) -> Seq<Seq<char>>
    decreases s.len(),
{
    if s.len() == 0 {
        Seq::empty()
    } else {
        match s.last() {
            Step::Claim(x, _) => claimed(s.drop_last()).push(x),
            Step::Fault(_) => claimed(s.drop_last()),
        }
    }
}

/// The error of a check made after the checks `before`, if it fails.
pub open spec fn step_error<R>(st: Step<R>, before: Seq<Step<R>>) -> Option<VariantError<R>> {
    match st {
        Step::Fault(e) => Some(e),
        Step::Claim(x, e) => if claimed(before).contains(x) {
            Some(e)
        } else {
            None
        },
    }
}

/// The error of the first failing check of a run.
pub open spec fn first_failure<R>(s: Seq<Step<R>>) -> Option<VariantError<R>>
    decreases s.len(),
{
    if s.len() == 0 {
        None
    } else {
        match first_failure(s.drop_last()) {
            Some(e) => Some(e),
            None => step_error(s.last(), s.drop_last()),
        }
    }
}

/// The strings of a variant's outcome: its own, then its alternatives.
pub open spec fn strings_of<R>(p: VariantPlan<R>) -> Seq<Seq<char>> {
    match p.form {
        Form::Named { string, alts } => seq![string@] + alts.deep_view(),
        _ => Seq::empty(),
    }
}

/// The strings of the first `n` outcomes, in order.
pub open spec fn all_strings<R>(ps: Seq<VariantPlan<R>>, n: int) -> Seq<Seq<char>>
    decreases n,
{
    if n <= 0 {
        Seq::empty()
    } else {
        all_strings(ps, n - 1) + strings_of(ps[n - 1])
    }
}

/// What becomes of variant `v` when no check fails; `dflt` is the string
/// that `defaults` would give it.
#[verifier::opaque]
pub open spec fn planned<R>(opts: Options, v: Variant<R>, dflt: Seq<char>, p: VariantPlan<R>) -> bool {
    let attrs = v.attrs@;
    match first_match(attrs, omit_sel::<R>()) {
        Some(i) => {
            &&& p.attrs@ == attrs.remove(i)
            &&& p.form matches Form::Omitted { marker, warn } && marker == attrs[i] && warn
                == !opts.defaults
        },
        None => {
            let string = match without_first(attrs, string_sel::<R>()).1 {
                Some(a) => Some(literal(a)->Some_0),
                None => if opts.defaults {
                    Some(dflt)
                } else {
                    None
                },
            };
            match string {
                None => p.attrs@ == attrs && p.form is Unnamed,
                Some(s) => {
                    &&& p.attrs@ == after_string(attrs).filter(not_alt_sel::<R>())
                    &&& p.form matches Form::Named { string, alts } && string@ == s
                        && alts.deep_view() == alt_attrs(attrs).map_values(
                        |a: Attr<R>| literal(a)->Some_0,
                    )
                },
            }
        },
    }
}

/// A plan that the `strings` attribute can produce: no string names two
/// variants or one variant twice, `as_str` is total exactly when every
/// variant has a string, and `Display` comes only with a total `as_str`.
pub open spec fn plan_wf<R>(p: Plan<R>) -> bool {
    &&& all_strings(p.variants@, p.variants@.len() as int).no_duplicates()
    &&& p.total == forall|k: int| 0 <= k < p.variants@.len() ==> (#[trigger] p.variants@[k]).form is Named
    &&& p.display ==> p.total
}


/// Adding one check to a run.
pub proof fn lemma_push_step<R>(s: Seq<Step<R>>, st: Step<R>)
    ensures
        claimed(s.push(st)) == (match st {
            Step::Claim(x, _) => claimed(s).push(x),
            Step::Fault(_) => claimed(s),
        }),
        first_failure(s.push(st)) == (match first_failure(s) {
            Some(e) => Some(e),
            None => step_error(st, s),
        }),
{
    assert(s.push(st).drop_last() =~= s);
}

/// A failure stays the first one however many checks follow.
pub proof fn lemma_failure_stays<R>(s: Seq<Step<R>>, t: Seq<Step<R>>)
    requires
        first_failure(s) is Some,
    ensures
        first_failure(s + t) == first_failure(s),
    decreases t.len(),
{
    if t.len() == 0 {
        assert(s + t =~= s);
    } else {
        lemma_failure_stays(s, t.drop_last());
        assert(s + t =~= (s + t.drop_last()).push(t.last()));
        lemma_push_step(s + t.drop_last(), t.last());
    }
}

/// A failure among the checks of the first `m` variants is the first one of all.
pub proof fn lemma_failure_stays_upto<R>(
    opts: Options,
    vs: Seq<Variant<R>>,
    names: Seq<Seq<char>>,
    m: int,
    n: int,
)
    requires
        0 <= m <= n,
        first_failure(steps_upto(opts, vs, names, m)) is Some,
    ensures
        first_failure(steps_upto(opts, vs, names, n)) == first_failure(
            steps_upto(opts, vs, names, m),
        ),
    decreases n - m,
{
    if m < n {
        lemma_failure_stays_upto(opts, vs, names, m, n - 1);
        lemma_failure_stays(
            steps_upto(opts, vs, names, n - 1),
            variant_steps(opts, n - 1, vs[n - 1], names[n - 1]),
        );
    }
}

/// The strings of the first `n` outcomes depend on those outcomes alone.
pub proof fn lemma_all_strings_prefix<R>(ps: Seq<VariantPlan<R>>, qs: Seq<VariantPlan<R>>, n: int)
    requires
        0 <= n <= ps.len(),
        n <= qs.len(),
        forall|j: int| 0 <= j < n ==> ps[j] == qs[j],
    ensures
        all_strings(ps, n) == all_strings(qs, n),
    decreases n,
{
    if n > 0 {
        lemma_all_strings_prefix(ps, qs, n - 1);
    }
}

/// Whether a string list holds `x`.
fn holds(seen: &Vec<String>, x: &String) -> (res: bool)
    ensures
        res == seen.deep_view().contains(x@),
{
    let mut i: usize = 0;
    while i < seen.len()
        invariant
            0 <= i <= seen.len(),
            forall|j: int| 0 <= j < i ==> seen.deep_view()[j] != x@,
        decreases seen.len() - i,
    {
        if seen[i] == *x {
            assert(seen.deep_view()[i as int] == x@);
            return true;
        }
        i = i + 1;
    }
    false
}

/// Claims `x` for a variant, refusing with `err` a string claimed before.
fn claim<R>(
    x: String,
    err: VariantError<R>,
    seen: &mut Vec<String>,
    Ghost(before): Ghost<Seq<Step<R>>>,
) -> (res: Result<String, VariantError<R>>)
    requires
        old(seen).deep_view() == claimed(before),
        first_failure(before) is None,
        old(seen).deep_view().no_duplicates(),
    ensures
        ({
            let after = before.push(Step::Claim(x@, err));
            match res {
                Ok(t) => {
                    &&& t@ == x@
                    &&& first_failure(after) is None
                    &&& final(seen).deep_view() == claimed(after)
                    &&& final(seen).deep_view() == old(seen).deep_view().push(x@)
                    &&& final(seen).deep_view().no_duplicates()
                },
                Err(e) => e == err && first_failure(after) == Some(e),
            }
        }),
{
    proof {
        lemma_push_step(before, Step::Claim(x@, err));
    }
    if holds(seen, &x) {
        return Err(err);
    }
    let ghost old_seen = seen.deep_view();
    seen.push(x.clone());
    assert(seen.deep_view() =~= old_seen.push(x@));
    Ok(x)
}

/// Claims the string literal of a `string` or `alt` attribute of variant `k`.
fn claim_value<R>(
    k: usize,
    attr: Attr<R>,
    seen: &mut Vec<String>,
    Ghost(before): Ghost<Seq<Step<R>>>,
) -> (res: Result<String, VariantError<R>>)
    requires
        old(seen).deep_view() == claimed(before),
        first_failure(before) is None,
        old(seen).deep_view().no_duplicates(),
    ensures
        ({
            let after = before.push(value_step(k as int, attr));
            match res {
                Ok(t) => {
                    &&& literal(attr) == Some(t@)
                    &&& first_failure(after) is None
                    &&& final(seen).deep_view() == claimed(after)
                    &&& final(seen).deep_view() == old(seen).deep_view().push(t@)
                    &&& final(seen).deep_view().no_duplicates()
                },
                Err(e) => first_failure(after) == Some(e),
            }
        }),
{
    let lit: Option<String> = match &attr.meta {
        Meta::NameValue(e) => match as_lit_str(e) {
            Some(x) => Some(x.clone()),
            None => None,
        },
        _ => None,
    };
    match lit {
        Some(x) => {
            claim(
                x,
                VariantError::DuplicateString { variant: k, site: Site::Value(attr) },
                seen,
                Ghost(before),
            )
        },
        None => {
            proof {
                lemma_push_step(before, value_step(k as int, attr));
            }
            Err(VariantError::ExpectedStringLiteral { variant: k, attr })
        },
    }
}


/// Reads variant `k` after the checks `before` have passed.
fn plan_variant<R>(
    opts: Options,
    k: usize,
    v: Variant<R>,
    dflt: String,
    seen: &mut Vec<String>,
    Ghost(before): Ghost<Seq<Step<R>>>,
) -> (res: Result<VariantPlan<R>, VariantError<R>>)
    requires
        old(seen).deep_view() == claimed(before),
        first_failure(before) is None,
        old(seen).deep_view().no_duplicates(),
    ensures
        ({
            let after = before + variant_steps(opts, k as int, v, dflt@);
            match res {
                Ok(p) => {
                    &&& first_failure(after) is None
                    &&& final(seen).deep_view() == claimed(after)
                    &&& final(seen).deep_view() == old(seen).deep_view() + strings_of(p)
                    &&& final(seen).deep_view().no_duplicates()
                    &&& planned(opts, v, dflt@, p)
                },
                Err(e) => first_failure(after) == Some(e),
            }
        }),
{
    reveal(planned);
    reveal(variant_steps);
    let ghost vv = v;
    let ghost a0 = v.attrs@;
    let ghost seen0 = seen.deep_view();
    let Variant { name: _, has_fields, attrs } = v;
    let mut attrs = attrs;
    proof {
        lemma_first_match_facts(a0, omit_sel::<R>());
    }
    match remove_path(&mut attrs, "omit") {
        Some(marker) => {
            assert(before + variant_steps(opts, k as int, vv, dflt@) =~= before);
            return Ok(VariantPlan { attrs, form: Form::Omitted { marker, warn: !opts.defaults } });
        },
        None => {},
    }
    assert(attrs@ == a0);
    if has_fields {
        let ghost st = Step::<R>::Fault(VariantError::FieldsNotAllowed { variant: k });
        proof {
            lemma_push_step(before, st);
            assert(before + variant_steps(opts, k as int, vv, dflt@) =~= before.push(st));
        }
        return Err(VariantError::FieldsNotAllowed { variant: k });
    }
    let string_attr = remove_name_value(&mut attrs, "string");
    assert(attrs@ == after_string(a0));
    let ghost prim: Step<R>;
    let string = match string_attr {
        Some(attr) => {
            proof {
                prim = value_step(k as int, attr);
            }
            match claim_value(k, attr, seen, Ghost(before)) {
                Ok(x) => x,
                Err(e) => {
                    proof {
                        let rest = alt_attrs(a0).map_values(|a: Attr<R>| value_step(k as int, a));
                        assert(before + variant_steps(opts, k as int, vv, dflt@) =~= before.push(prim) + rest);
                        lemma_failure_stays(before.push(prim), rest);
                    }
                    return Err(e);
                },
            }
        },
        None => {
            if opts.defaults {
                let x = dflt;
                let err = VariantError::DuplicateString { variant: k, site: Site::Name };
                proof {
                    prim = Step::Claim(x@, err);
                }
                match claim(x, err, seen, Ghost(before)) {
                    Ok(x) => x,
                    Err(e) => {
                        proof {
                            let rest = alt_attrs(a0).map_values(
                                |a: Attr<R>| value_step(k as int, a),
                            );
                            assert(before + variant_steps(opts, k as int, vv, dflt@) =~= before.push(prim)
                                + rest);
                            lemma_failure_stays(before.push(prim), rest);
                        }
                        return Err(e);
                    },
                }
            } else {
                assert(before + variant_steps(opts, k as int, vv, dflt@) =~= before);
                return Ok(VariantPlan { attrs, form: Form::Unnamed });
            }
        },
    };
    assert(primary_step(opts, k as int, vv, dflt@) == Some(prim));
    let ghost m = alt_attrs(a0).map_values(|a: Attr<R>| value_step(k as int, a));
    assert(variant_steps(opts, k as int, vv, dflt@) == seq![prim] + m);
    assert(before + variant_steps(opts, k as int, vv, dflt@) =~= before.push(prim) + m);
    let alts = match claim_alts(k, &mut attrs, seen, Ghost(before.push(prim))) {
        Ok(alts) => alts,
        Err(e) => return Err(e),
    };
    let p = VariantPlan { attrs, form: Form::Named { string, alts } };
    assert(seen.deep_view() =~= seen0 + strings_of(p));
    Ok(p)
}

/// Takes the `alt` attributes of variant `k` out, in order, and claims their
/// strings after the checks `before`.
fn claim_alts<R>(
    k: usize,
    attrs: &mut Vec<Attr<R>>,
    seen: &mut Vec<String>,
    Ghost(before): Ghost<Seq<Step<R>>>,
) -> (res: Result<Vec<String>, VariantError<R>>)
    requires
        old(seen).deep_view() == claimed(before),
        first_failure(before) is None,
        old(seen).deep_view().no_duplicates(),
    ensures
        ({
            let alt_list = old(attrs)@.filter(alt_sel::<R>());
            let after = before + alt_list.map_values(|a: Attr<R>| value_step(k as int, a));
            match res {
                Ok(alts) => {
                    &&& first_failure(after) is None
                    &&& final(seen).deep_view() == claimed(after)
                    &&& final(seen).deep_view() == old(seen).deep_view() + alts.deep_view()
                    &&& final(seen).deep_view().no_duplicates()
                    &&& alts.deep_view() == alt_list.map_values(|a: Attr<R>| literal(a)->Some_0)
                    &&& final(attrs)@ == old(attrs)@.filter(not_alt_sel::<R>())
                },
                Err(e) => first_failure(after) == Some(e),
            }
        }),
{
    let ghost alt_list = old(attrs)@.filter(alt_sel::<R>());
    let ghost rest_list = old(attrs)@.filter(not_alt_sel::<R>());
    let ghost f = |a: Attr<R>| value_step(k as int, a);
    let ghost g = |a: Attr<R>| literal(a)->Some_0;
    let ghost seen0 = seen.deep_view();
    let ghost mut cur = before;
    let ghost mut j: int = 0;
    let mut alts: Vec<String> = Vec::new();
    proof {
        assert(alt_list.take(0).map_values(f) =~= Seq::<Step<R>>::empty());
        assert(cur =~= before + alt_list.take(0).map_values(f));
        assert(alts.deep_view() =~= alt_list.take(0).map_values(g));
        assert(alt_list.skip(0) =~= alt_list);
        assert(seen.deep_view() =~= seen0 + alts.deep_view());
    }
    loop
        invariant
            0 <= j <= alt_list.len(),
            alt_list == old(attrs)@.filter(alt_sel::<R>()),
            rest_list == old(attrs)@.filter(not_alt_sel::<R>()),
            f == (|a: Attr<R>| value_step(k as int, a)),
            g == (|a: Attr<R>| literal(a)->Some_0),
            attrs@.filter(alt_sel::<R>()) == alt_list.skip(j),
            attrs@.filter(not_alt_sel::<R>()) == rest_list,
            alts.deep_view() == alt_list.take(j).map_values(g),
            cur == before + alt_list.take(j).map_values(f),
            seen.deep_view() == claimed(cur),
            first_failure(cur) is None,
            seen.deep_view().no_duplicates(),
            seen.deep_view() == seen0 + alts.deep_view(),
        ensures
            attrs@ == rest_list,
            alts.deep_view() == alt_list.map_values(g),
            cur == before + alt_list.map_values(f),
            seen.deep_view() == claimed(cur),
            first_failure(cur) is None,
            seen.deep_view().no_duplicates(),
            seen.deep_view() == seen0 + alts.deep_view(),
        decreases attrs@.len(),
    {
        let ghost old_attrs = attrs@;
        proof {
            lemma_first_match_facts(old_attrs, alt_sel::<R>());
        }
        match remove_name_value(attrs, "alt") {
            None => {
                proof {
                    lemma_filter_none(old_attrs, alt_sel::<R>());
                    assert(alt_list.skip(j).len() == 0);
                    lemma_filter_all(old_attrs, not_alt_sel::<R>());
                    assert(alt_list.take(j) =~= alt_list);
                }
                break;
            },
            Some(alt) => {
                let ghost i = first_match(old_attrs, alt_sel::<R>())->Some_0;
                proof {
                    lemma_remove_first_match(old_attrs, alt_sel::<R>(), not_alt_sel::<R>(), i);
                    assert(alt_list.skip(j) =~= seq![alt] + attrs@.filter(alt_sel::<R>()));
                    assert(alt_list.skip(j)[0] == alt);
                    assert(alt_list[j] == alt);
                    assert(attrs@.filter(alt_sel::<R>()) =~= alt_list.skip(j + 1));
                }
                match claim_value(k, alt, seen, Ghost(cur)) {
                    Ok(x) => {
                        let ghost old_alts = alts.deep_view();
                        alts.push(x);
                        proof {
                            assert(alts.deep_view() =~= old_alts.push(x@));
                            assert(alt_list.take(j + 1).map_values(g) =~= alt_list.take(
                                j,
                            ).map_values(g).push(x@));
                            lemma_take_push(alt_list, f, j);
                            lemma_concat_push(before, alt_list.take(j).map_values(f), f(alt));
                            cur = cur.push(f(alt));
                            j = j + 1;
                        }
                    },
                    Err(e) => {
                        proof {
                            lemma_split_at(before, alt_list, f, j);
                            lemma_failure_stays(cur.push(f(alt)), alt_list.skip(j + 1).map_values(f));
                        }
                        return Err(e);
                    },
                }
            },
        }
    }
    Ok(alts)
}

/// Taking one more element before mapping.
proof fn lemma_take_push<A, B>(s: Seq<A>, f: spec_fn(A) -> B, j: int)
    requires
        0 <= j < s.len(),
    ensures
        s.take(j + 1).map_values(f) == s.take(j).map_values(f).push(f(s[j])),
{
    assert(s.take(j + 1).map_values(f) =~= s.take(j).map_values(f).push(f(s[j])));
}

/// Pushing onto the right of a concatenation.
proof fn lemma_concat_push<A>(a: Seq<A>, b: Seq<A>, x: A)
    ensures
        (a + b).push(x) == a + b.push(x),
{
    assert((a + b).push(x) =~= a + b.push(x));
}

/// Splitting a mapped sequence around position `j`.
proof fn lemma_split_at<A, B>(pre: Seq<B>, s: Seq<A>, f: spec_fn(A) -> B, j: int)
    requires
        0 <= j < s.len(),
    ensures
        pre + s.map_values(f) == (pre + s.take(j).map_values(f)).push(f(s[j])) + s.skip(
            j + 1,
        ).map_values(f),
{
    assert(pre + s.map_values(f) =~= (pre + s.take(j).map_values(f)).push(f(s[j])) + s.skip(
        j + 1,
    ).map_values(f));
}

/// What `plan_with_names` promises: the outcome of reading `vs` with the
/// given options, where `names[k]` is the string that `defaults` would give
/// variant `k`.
pub open spec fn plan_outcome<R>(
    opts: Options,
    vs: Seq<Variant<R>>,
    names: Seq<Seq<char>>,
    res: Result<Plan<R>, VariantError<R>>,
) -> bool {
    let steps = steps_upto(opts, vs, names, vs.len() as int);
    match res {
        Ok(p) => {
            &&& first_failure(steps) is None
            &&& p.variants@.len() == vs.len()
            &&& forall|k: int|
                0 <= k < vs.len() ==> planned(opts, vs[k], names[k], #[trigger] p.variants@[k])
            &&& p.total == forall|k: int|
                0 <= k < p.variants@.len() ==> (#[trigger] p.variants@[k]).form is Named
            &&& p.display == (opts.display && p.total)
            &&& all_strings(p.variants@, p.variants@.len() as int) == claimed(steps)
            &&& plan_wf(p)
        },
        Err(e) => first_failure(steps) == Some(e),
    }
}

/// Reads the variants of an enum under the `strings` attribute with the
/// given options, `names[k]` being the string that `defaults` gives variant
/// `k`: what each variant keeps of its attributes and which strings it gets,
/// or the first check that fails.
pub fn plan_with_names<R>(opts: Options, variants: Vec<Variant<R>>, names: Vec<String>) -> (res:
    Result<Plan<R>, VariantError<R>>)
    requires
        names.len() == variants.len(),
    ensures
        plan_outcome(opts, variants@, names.deep_view(), res),
{
    let ghost vs0 = variants@;
    let ghost ns0 = names.deep_view();
    let n = variants.len();
    let mut rest = variants;
    let mut rest_names = names;
    let mut out: Vec<VariantPlan<R>> = Vec::new();
    let mut seen: Vec<String> = Vec::new();
    let mut total = true;
    let mut k: usize = 0;
    proof {
        assert(rest@.skip(0) =~= rest@);
        assert(rest_names.deep_view().skip(0) =~= rest_names.deep_view());
        assert(seen.deep_view() =~= Seq::<Seq<char>>::empty());
    }
    while k < n
        invariant
            n == vs0.len(),
            n == ns0.len(),
            vs0 == variants@,
            ns0 == names.deep_view(),
            0 <= k <= n,
            rest@ == vs0.skip(k as int),
            rest_names.deep_view() == ns0.skip(k as int),
            rest_names.len() == n - k,
            out@.len() == k,
            forall|j: int| 0 <= j < k ==> planned(opts, vs0[j], ns0[j], #[trigger] out@[j]),
            seen.deep_view() == claimed(steps_upto(opts, vs0, ns0, k as int)),
            first_failure(steps_upto(opts, vs0, ns0, k as int)) is None,
            seen.deep_view() == all_strings(out@, k as int),
            seen.deep_view().no_duplicates(),
            total == forall|j: int| 0 <= j < k ==> (#[trigger] out@[j]).form is Named,
        decreases n - k,
    {
        let v = rest.remove(0);
        let ghost rn = rest_names.deep_view();
        let ghost rv = rest_names@;
        assert(rn[0] == rv[0]@);
        let dflt = rest_names.remove(0);
        assert(v == vs0[k as int]);
        assert(rest@ =~= vs0.skip(k + 1));
        assert(dflt@ == rn[0]);
        assert(dflt@ == ns0[k as int]);
        assert(rest_names.deep_view() =~= ns0.skip(k + 1));
        let ghost steps_k = steps_upto(opts, vs0, ns0, k as int);
        match plan_variant(opts, k, v, dflt, &mut seen, Ghost(steps_k)) {
            Ok(p) => {
                let named = match &p.form {
                    Form::Named { .. } => true,
                    _ => false,
                };
                assert(named == p.form is Named);
                let ghost out0 = out@;
                out.push(p);
                proof {
                    lemma_all_strings_prefix(out0, out@, k as int);
                    assert(out@[k as int] == p);
                    assert(forall|j: int| 0 <= j < k ==> out@[j] == out0[j]);
                }
                if !named {
                    total = false;
                }
            },
            Err(e) => {
                proof {
                    assert(steps_upto(opts, vs0, ns0, k + 1) == steps_k + variant_steps(
                        opts,
                        k as int,
                        vs0[k as int],
                        ns0[k as int],
                    ));
                    lemma_failure_stays_upto(opts, vs0, ns0, k + 1, n as int);
                }
                return Err(e);
            },
        }
        k = k + 1;
    }
    let display = opts.display && total;
    Ok(Plan { variants: out, total, display })
}

/// An attribute that the `strings` attribute does not read: neither
/// `#[omit]`, `#[string = ..]` nor `#[alt = ..]`.
pub open spec fn foreign_attr<R>() -> spec_fn(Attr<R>) -> bool {
    |a: Attr<R>| !omit_sel::<R>()(a) && !string_sel::<R>()(a) && !alt_sel::<R>()(a)
}

/// Filtering by `p` first changes nothing where `q` is filtered after and
/// implies `p`.
proof fn lemma_filter_absorb<A>(s: Seq<A>, p: spec_fn(A) -> bool, q: spec_fn(A) -> bool)
    requires
        forall|a: A| #[trigger] q(a) ==> p(a),
    ensures
        s.filter(p).filter(q) == s.filter(q),
    decreases s.len(),
{
    if s.len() > 0 {
        let init = s.drop_last();
        lemma_filter_absorb(init, p, q);
        assert(init.push(s.last()) =~= s);
        init.lemma_filter_push(s.last(), p);
        init.lemma_filter_push(s.last(), q);
        init.filter(p).lemma_filter_push(s.last(), q);
    } else {
        reveal(Seq::filter);
    }
}

/// What becomes of one variant keeps its foreign attributes, in order.
proof fn lemma_planned_keeps_foreign<R>(opts: Options, v: Variant<R>, dflt: Seq<char>, p: VariantPlan<R>)
    requires
        planned(opts, v, dflt, p),
    ensures
        p.attrs@.filter(foreign_attr::<R>()) == v.attrs@.filter(foreign_attr::<R>()),
{
    reveal(planned);
    let attrs = v.attrs@;
    let f = foreign_attr::<R>();
    lemma_first_match_facts(attrs, omit_sel::<R>());
    lemma_first_match_facts(attrs, string_sel::<R>());
    match first_match(attrs, omit_sel::<R>()) {
        Some(i) => {
            assert(!f(attrs[i]));
            lemma_remove_first_match(attrs, omit_sel::<R>(), f, i);
        },
        None => {
            let after = after_string(attrs);
            match first_match(attrs, string_sel::<R>()) {
                Some(i) => {
                    assert(!f(attrs[i]));
                    lemma_remove_first_match(attrs, string_sel::<R>(), f, i);
                },
                None => {},
            }
            assert(after.filter(f) == attrs.filter(f));
            lemma_filter_absorb(after, not_alt_sel::<R>(), f);
        },
    }
}

/// Whatever becomes of a variant, it keeps every attribute that the
/// `strings` attribute does not read, in their order: only `#[omit]`,
/// `#[string = ..]` and `#[alt = ..]` are ever taken out of a variant.
pub proof fn lemma_plan_keeps_foreign_attrs<R>(
    opts: Options,
    vs: Seq<Variant<R>>,
    names: Seq<Seq<char>>,
    p: Plan<R>,
)
    requires
        plan_outcome(opts, vs, names, Ok(p)),
    ensures
        p.variants@.len() == vs.len(),
        forall|k: int|
            0 <= k < vs.len() ==> (#[trigger] p.variants@[k]).attrs@.filter(foreign_attr::<R>())
                == vs[k].attrs@.filter(foreign_attr::<R>()),
{
    assert forall|k: int| 0 <= k < vs.len() implies (#[trigger] p.variants@[k]).attrs@.filter(
        foreign_attr::<R>(),
    ) == vs[k].attrs@.filter(foreign_attr::<R>()) by {
        lemma_planned_keeps_foreign(opts, vs[k], names[k], p.variants@[k]);
    }
}

/// Reads the variants of an enum under the `strings` attribute with the
/// given options: what each variant keeps of its attributes and which
/// strings it gets, or the first check that fails.  The string that
/// `defaults` gives a variant is its name, converted to the chosen case.
pub fn plan<R>(opts: Options, variants: Vec<Variant<R>>) -> (res: Result<Plan<R>, VariantError<R>>)
    ensures
        plan_outcome(opts, variants@, default_names(opts, variants@), res),
        res matches Ok(p) ==> p.display == (opts.display && p.total),
        res matches Ok(p) ==> forall|k: int|
            0 <= k < variants@.len() ==> (#[trigger] p.variants@[k]).attrs@.filter(
                foreign_attr::<R>(),
            ) == variants@[k].attrs@.filter(foreign_attr::<R>()),
{
    let mut names: Vec<String> = Vec::new();
    let mut k: usize = 0;
    while k < variants.len()
        invariant
            0 <= k <= variants.len(),
            names.len() == k,
            forall|j: int|
                0 <= j < k ==> (#[trigger] names.deep_view()[j]) == default_string(
                    opts,
                    variants@[j].name@,
                ),
        decreases variants.len() - k,
    {
        let name = &variants[k].name;
        let converted = match opts.case {
            Some(c) => to_case(name.as_str(), c),
            None => name.clone(),
        };
        let ghost before = names.deep_view();
        names.push(converted);
        assert(names.deep_view() =~= before.push(converted@));
        k = k + 1;
    }
    assert(names.deep_view() =~= default_names(opts, variants@));
    let ghost vs = variants@;
    let res = plan_with_names(opts, variants, names);
    proof {
        if res is Ok {
            lemma_plan_keeps_foreign_attrs(opts, vs, default_names(opts, vs), res->Ok_0);
        }
    }
    res
}

/// The string that the generated `as_str` gives variant `k`, if any.
pub open spec fn as_str_of<R>(p: Plan<R>, k: int) -> Option<Seq<char>> {
    match p.variants@[k].form {
        Form::Named { string, .. } => Some(string@),
        _ => None,
    }
}

/// The arms for the variants' own strings, in variant order: `(string, k)`
/// for each of the first `n` variants `k` that has a string.  The generated
/// `as_str` matches on these, and `from_str` tries them first.
pub open spec fn primary_arms<R>(ps: Seq<VariantPlan<R>>, n: int) -> Seq<(Seq<char>, int)>
    decreases n,
{
    if n <= 0 {
        Seq::empty()
    } else {
        primary_arms(ps, n - 1) + match ps[n - 1].form {
            Form::Named { string, .. } => seq![(string@, n - 1)],
            _ => Seq::empty(),
        }
    }
}

/// The arms for the alternative strings, in variant order and then in order
/// of the attributes: `(alt, k)` for each alternative of the first `n` variants.
pub open spec fn alt_arms<R>(ps: Seq<VariantPlan<R>>, n: int) -> Seq<(Seq<char>, int)>
    decreases n,
{
    if n <= 0 {
        Seq::empty()
    } else {
        alt_arms(ps, n - 1) + match ps[n - 1].form {
            Form::Named { alts, .. } => alts.deep_view().map_values(|a: Seq<char>| (a, n - 1)),
            _ => Seq::empty(),
        }
    }
}

/// The arms of the generated `from_str`, in order.
pub open spec fn arms<R>(p: Plan<R>) -> Seq<(Seq<char>, int)> {
    primary_arms(p.variants@, p.variants@.len() as int) + alt_arms(
        p.variants@,
        p.variants@.len() as int,
    )
}

/// Whether an arm is for the string `s`.
pub open spec fn arm_for(s: Seq<char>) -> spec_fn((Seq<char>, int)) -> bool {
    |arm: (Seq<char>, int)| arm.0 == s
}

/// The variant that the generated `from_str` gives for `s`: that of the first
/// arm for `s`, if there is one.
pub open spec fn from_str_of<R>(p: Plan<R>, s: Seq<char>) -> Option<int> {
    match first_match(arms(p), arm_for(s)) {
        Some(i) => Some(arms(p)[i].1),
        None => None,
    }
}

/// Each arm of the first `n` variants is for one of the strings of its variant.
proof fn lemma_arms_sound<R>(ps: Seq<VariantPlan<R>>, n: int)
    requires
        0 <= n <= ps.len(),
    ensures
        forall|i: int|
            0 <= i < primary_arms(ps, n).len() ==> {
                let arm = #[trigger] primary_arms(ps, n)[i];
                0 <= arm.1 < n && strings_of(ps[arm.1]).contains(arm.0)
            },
        forall|i: int|
            0 <= i < alt_arms(ps, n).len() ==> {
                let arm = #[trigger] alt_arms(ps, n)[i];
                0 <= arm.1 < n && strings_of(ps[arm.1]).contains(arm.0)
            },
    decreases n,
{
    if n > 0 {
        lemma_arms_sound(ps, n - 1);
        let pa = primary_arms(ps, n - 1);
        let aa = alt_arms(ps, n - 1);
        match ps[n - 1].form {
            Form::Named { string, alts } => {
                let ss = strings_of(ps[n - 1]);
                assert(ss[0] == string@);
                assert forall|i: int| 0 <= i < primary_arms(ps, n).len() implies {
                    let arm = #[trigger] primary_arms(ps, n)[i];
                    0 <= arm.1 < n && strings_of(ps[arm.1]).contains(arm.0)
                } by {
                    if i < pa.len() {
                        assert(primary_arms(ps, n)[i] == pa[i]);
                    }
                }
                assert forall|i: int| 0 <= i < alt_arms(ps, n).len() implies {
                    let arm = #[trigger] alt_arms(ps, n)[i];
                    0 <= arm.1 < n && strings_of(ps[arm.1]).contains(arm.0)
                } by {
                    if i < aa.len() {
                        assert(alt_arms(ps, n)[i] == aa[i]);
                    } else {
                        let j = i - aa.len();
                        assert(ss[j + 1] == alts.deep_view()[j]);
                    }
                }
            },
            _ => {
                assert(primary_arms(ps, n) =~= pa);
                assert(alt_arms(ps, n) =~= aa);
            },
        }
    }
}

/// Each string of one of the first `n` variants has an arm.
proof fn lemma_arms_complete<R>(ps: Seq<VariantPlan<R>>, n: int, k: int, s: Seq<char>)
    requires
        0 <= k < n <= ps.len(),
        strings_of(ps[k]).contains(s),
    ensures
        primary_arms(ps, n).contains((s, k)) || alt_arms(ps, n).contains((s, k)),
    decreases n,
{
    let pa = primary_arms(ps, n - 1);
    let aa = alt_arms(ps, n - 1);
    if k < n - 1 {
        lemma_arms_complete(ps, n - 1, k, s);
        if pa.contains((s, k)) {
            let i = choose|i: int| 0 <= i < pa.len() && pa[i] == (s, k);
            assert(primary_arms(ps, n)[i] == (s, k));
        } else {
            let i = choose|i: int| 0 <= i < aa.len() && aa[i] == (s, k);
            assert(alt_arms(ps, n)[i] == (s, k));
        }
    } else {
        match ps[k].form {
            Form::Named { string, alts } => {
                let ss = strings_of(ps[k]);
                let j = choose|j: int| 0 <= j < ss.len() && ss[j] == s;
                if j == 0 {
                    assert(primary_arms(ps, n)[pa.len() as int] == (s, k));
                } else {
                    assert(ss[j] == alts.deep_view()[j - 1]);
                    assert(alt_arms(ps, n)[aa.len() + j - 1] == (s, k));
                }
            },
            _ => {},
        }
    }
}

/// The alternative strings of a variant's outcome, in order; none where it
/// has no string.
pub open spec fn alts_of<R>(v: VariantPlan<R>) -> Seq<Seq<char>> {
    match v.form {
        Form::Named { alts, .. } => alts.deep_view(),
        _ => Seq::empty(),
    }
}

/// The own string of a variant's outcome, if it has one.
pub open spec fn own_string<R>(v: VariantPlan<R>) -> Option<Seq<char>> {
    match v.form {
        Form::Named { string, .. } => Some(string@),
        _ => None,
    }
}

/// Over the first `n` outcomes: the `as_str` arms are exactly the own
/// strings, each with its variant, and the other arms of `from_str` are
/// exactly the alternatives, each with its variant.
proof fn lemma_arms_exact<R>(ps: Seq<VariantPlan<R>>, n: int)
    requires
        0 <= n <= ps.len(),
    ensures
        forall|k: int|
            0 <= k < n && (#[trigger] own_string(ps[k])) is Some ==> primary_arms(ps, n).contains(
                (own_string(ps[k])->Some_0, k),
            ),
        forall|i: int|
            0 <= i < primary_arms(ps, n).len() ==> {
                let arm = #[trigger] primary_arms(ps, n)[i];
                0 <= arm.1 < n && own_string(ps[arm.1]) == Some(arm.0)
            },
        forall|k: int, a: Seq<char>|
            0 <= k < n && #[trigger] alts_of(ps[k]).contains(a) ==> alt_arms(ps, n).contains(
                (a, k),
            ),
        forall|i: int|
            0 <= i < alt_arms(ps, n).len() ==> {
                let arm = #[trigger] alt_arms(ps, n)[i];
                0 <= arm.1 < n && alts_of(ps[arm.1]).contains(arm.0)
            },
    decreases n,
{
    if n > 0 {
        lemma_arms_exact(ps, n - 1);
        let pa = primary_arms(ps, n - 1);
        let aa = alt_arms(ps, n - 1);
        let pn = primary_arms(ps, n);
        let an = alt_arms(ps, n);
        let new_p: Seq<(Seq<char>, int)> = match ps[n - 1].form {
            Form::Named { string, .. } => seq![(string@, n - 1)],
            _ => Seq::empty(),
        };
        let new_a: Seq<(Seq<char>, int)> = match ps[n - 1].form {
            Form::Named { alts, .. } => alts.deep_view().map_values(|a: Seq<char>| (a, n - 1)),
            _ => Seq::empty(),
        };
        assert(pn == pa + new_p);
        assert(an == aa + new_a);
        assert forall|k: int|
            0 <= k < n && (#[trigger] own_string(ps[k])) is Some implies pn.contains(
                (own_string(ps[k])->Some_0, k),
            ) by {
            if k < n - 1 {
                let i = choose|i: int| 0 <= i < pa.len() && pa[i] == (own_string(ps[k])->Some_0, k);
                assert(pn[i] == pa[i]);
            } else {
                assert(pn[pa.len() as int] == (own_string(ps[k])->Some_0, k));
            }
        }
        assert forall|i: int| 0 <= i < pn.len() implies {
            let arm = #[trigger] pn[i];
            0 <= arm.1 < n && own_string(ps[arm.1]) == Some(arm.0)
        } by {
            if i < pa.len() {
                assert(pn[i] == pa[i]);
            }
        }
        assert forall|k: int, a: Seq<char>|
            0 <= k < n && #[trigger] alts_of(ps[k]).contains(a) implies an.contains((a, k)) by {
            if k < n - 1 {
                let i = choose|i: int| 0 <= i < aa.len() && aa[i] == (a, k);
                assert(an[i] == aa[i]);
            } else {
                let j = choose|j: int| 0 <= j < alts_of(ps[k]).len() && alts_of(ps[k])[j] == a;
                assert(an[aa.len() + j] == new_a[j]);
            }
        }
        assert forall|i: int| 0 <= i < an.len() implies {
            let arm = #[trigger] an[i];
            0 <= arm.1 < n && alts_of(ps[arm.1]).contains(arm.0)
        } by {
            if i < aa.len() {
                assert(an[i] == aa[i]);
            } else {
                let j = i - aa.len();
                assert(an[i] == new_a[j]);
                assert(alts_of(ps[n - 1])[j] == an[i].0);
            }
        }
    }
}

/// What the arms of the generated `as_str` and `from_str` are: every
/// variant with a string has an `as_str` arm with that string, and every
/// such arm is the own string of its variant; every alternative of a variant
/// has a further `from_str` arm, and every such arm is an alternative of its
/// variant.
pub proof fn lemma_arms_meaning<R>(p: Plan<R>)
    ensures
        forall|k: int|
            0 <= k < p.variants@.len() && (#[trigger] as_str_of(p, k)) is Some ==> primary_arms(
                p.variants@,
                p.variants@.len() as int,
            ).contains((as_str_of(p, k)->Some_0, k)),
        forall|i: int|
            0 <= i < primary_arms(p.variants@, p.variants@.len() as int).len() ==> {
                let arm = #[trigger] primary_arms(p.variants@, p.variants@.len() as int)[i];
                0 <= arm.1 < p.variants@.len() && as_str_of(p, arm.1) == Some(arm.0)
            },
        forall|k: int, a: Seq<char>|
            0 <= k < p.variants@.len() && #[trigger] alts_of(p.variants@[k]).contains(a)
                ==> alt_arms(p.variants@, p.variants@.len() as int).contains((a, k)),
        forall|i: int|
            0 <= i < alt_arms(p.variants@, p.variants@.len() as int).len() ==> {
                let arm = #[trigger] alt_arms(p.variants@, p.variants@.len() as int)[i];
                0 <= arm.1 < p.variants@.len() && alts_of(p.variants@[arm.1]).contains(arm.0)
            },
{
    let ps = p.variants@;
    lemma_arms_exact(ps, ps.len() as int);
    assert forall|k: int| 0 <= k < ps.len() implies #[trigger] as_str_of(p, k) == own_string(ps[k]) by {}
    assert forall|k: int|
        0 <= k < ps.len() && (#[trigger] as_str_of(p, k)) is Some implies primary_arms(
            ps,
            ps.len() as int,
        ).contains((as_str_of(p, k)->Some_0, k)) by {
        assert(own_string(ps[k]) is Some);
    }
    assert forall|i: int| 0 <= i < primary_arms(ps, ps.len() as int).len() implies {
        let arm = #[trigger] primary_arms(ps, ps.len() as int)[i];
        0 <= arm.1 < ps.len() && as_str_of(p, arm.1) == Some(arm.0)
    } by {
        let arm = primary_arms(ps, ps.len() as int)[i];
        assert(as_str_of(p, arm.1) == own_string(ps[arm.1]));
    }
}

/// A list without repeats splits into two parts without repeats that share nothing.
proof fn lemma_no_duplicates_split<A>(a: Seq<A>, b: Seq<A>)
    requires
        (a + b).no_duplicates(),
    ensures
        a.no_duplicates(),
        b.no_duplicates(),
        forall|x: A| a.contains(x) ==> !b.contains(x),
{
    let ab = a + b;
    assert forall|i: int, j: int| 0 <= i < a.len() && 0 <= j < a.len() && i != j implies a[i] != a[j] by {
        assert(ab[i] == a[i] && ab[j] == a[j]);
    }
    assert forall|i: int, j: int| 0 <= i < b.len() && 0 <= j < b.len() && i != j implies b[i] != b[j] by {
        assert(ab[a.len() + i] == b[i] && ab[a.len() + j] == b[j]);
    }
    assert forall|x: A| a.contains(x) implies !b.contains(x) by {
        if b.contains(x) {
            let i = choose|i: int| 0 <= i < a.len() && a[i] == x;
            let j = choose|j: int| 0 <= j < b.len() && b[j] == x;
            assert(ab[i] == x && ab[a.len() + j] == x);
        }
    }
}

/// The strings of each of the first `n` outcomes are among their strings.
proof fn lemma_strings_within<R>(ps: Seq<VariantPlan<R>>, n: int, k: int, s: Seq<char>)
    requires
        0 <= k < n <= ps.len(),
        strings_of(ps[k]).contains(s),
    ensures
        all_strings(ps, n).contains(s),
    decreases n,
{
    let j = choose|j: int| 0 <= j < strings_of(ps[k]).len() && strings_of(ps[k])[j] == s;
    if k == n - 1 {
        let a = all_strings(ps, n - 1);
        assert(all_strings(ps, n)[a.len() + j] == s);
    } else {
        lemma_strings_within(ps, n - 1, k, s);
        let a = all_strings(ps, n - 1);
        let i = choose|i: int| 0 <= i < a.len() && a[i] == s;
        assert(all_strings(ps, n)[i] == s);
    }
}

/// Without repeats among all strings, no string is shared by two of the first
/// `n` outcomes, and none is repeated within one.
proof fn lemma_strings_disjoint<R>(ps: Seq<VariantPlan<R>>, n: int, k1: int, k2: int, s: Seq<char>)
    requires
        0 <= k1 < n,
        0 <= k2 < n,
        n <= ps.len(),
        all_strings(ps, n).no_duplicates(),
        strings_of(ps[k1]).contains(s),
        strings_of(ps[k2]).contains(s),
    ensures
        k1 == k2,
        strings_of(ps[k1]).no_duplicates(),
    decreases n,
{
    lemma_no_duplicates_split(all_strings(ps, n - 1), strings_of(ps[n - 1]));
    if k1 == n - 1 && k2 == n - 1 {
    } else if k1 == n - 1 {
        lemma_strings_within(ps, n - 1, k2, s);
    } else if k2 == n - 1 {
        lemma_strings_within(ps, n - 1, k1, s);
    } else {
        lemma_strings_disjoint(ps, n - 1, k1, k2, s);
    }
}

/// Every string of a plan belongs to one variant only, and is listed once
/// for it: the generated `match` in `from_str` has no two arms for one string.
pub proof fn lemma_string_names_one_variant<R>(p: Plan<R>, k1: int, k2: int, s: Seq<char>)
    requires
        plan_wf(p),
        0 <= k1 < p.variants@.len(),
        0 <= k2 < p.variants@.len(),
        strings_of(p.variants@[k1]).contains(s),
        strings_of(p.variants@[k2]).contains(s),
    ensures
        k1 == k2,
        strings_of(p.variants@[k1]).no_duplicates(),
{
    lemma_strings_disjoint(p.variants@, p.variants@.len() as int, k1, k2, s);
}

/// `from_str` gives back the variant of any of its strings: its own, as
/// `as_str` returns it, and each alternative.
pub proof fn lemma_from_str_finds_variant<R>(p: Plan<R>, k: int, s: Seq<char>)
    requires
        plan_wf(p),
        0 <= k < p.variants@.len(),
        strings_of(p.variants@[k]).contains(s),
    ensures
        from_str_of(p, s) == Some(k),
{
    let ps = p.variants@;
    let n = ps.len() as int;
    let all = arms(p);
    lemma_arms_sound(ps, n);
    lemma_arms_complete(ps, n, k, s);
    let pa = primary_arms(ps, n);
    let aa = alt_arms(ps, n);
    let w = if pa.contains((s, k)) {
        choose|i: int| 0 <= i < pa.len() && pa[i] == (s, k)
    } else {
        let i = choose|i: int| 0 <= i < aa.len() && aa[i] == (s, k);
        pa.len() + i
    };
    assert(all[w] == (s, k));
    assert(arm_for(s)(all[w]));
    lemma_first_match_facts(all, arm_for(s));
    let i = first_match(all, arm_for(s))->Some_0;
    let arm = all[i];
    if i < pa.len() {
        assert(arm == pa[i]);
    } else {
        assert(arm == aa[i - pa.len()]);
    }
    lemma_string_names_one_variant(p, k, arm.1, s);
}

/// A string that no variant has is refused by `from_str`.
pub proof fn lemma_from_str_refuses_other<R>(p: Plan<R>, s: Seq<char>)
    requires
        forall|k: int| 0 <= k < p.variants@.len() ==> !(#[trigger] strings_of(p.variants@[k])).contains(s),
    ensures
        from_str_of(p, s) is None,
{
    let ps = p.variants@;
    let n = ps.len() as int;
    let all = arms(p);
    lemma_arms_sound(ps, n);
    let pa = primary_arms(ps, n);
    let aa = alt_arms(ps, n);
    assert forall|i: int| 0 <= i < all.len() implies !arm_for(s)(all[i]) by {
        if i < pa.len() {
            assert(all[i] == pa[i]);
        } else {
            assert(all[i] == aa[i - pa.len()]);
        }
    }
    lemma_first_match_facts(all, arm_for(s));
}

/// `from_str` undoes `as_str`: the string of a variant parses back to it.
pub proof fn lemma_as_str_round_trip<R>(p: Plan<R>, k: int)
    requires
        plan_wf(p),
        0 <= k < p.variants@.len(),
        as_str_of(p, k) is Some,
    ensures
        from_str_of(p, as_str_of(p, k)->Some_0) == Some(k),
{
    let s = as_str_of(p, k)->Some_0;
    assert(strings_of(p.variants@[k])[0] == s);
    lemma_from_str_finds_variant(p, k, s);
}

/// `as_str` is total exactly when every variant has a string, and a
/// `Display` impl comes only with a total `as_str`.
pub proof fn lemma_total_as_str<R>(p: Plan<R>)
    requires
        plan_wf(p),
    ensures
        p.total <==> forall|k: int| 0 <= k < p.variants@.len() ==> as_str_of(p, k) is Some,
        p.display ==> p.total,
{
    assert forall|k: int| 0 <= k < p.variants@.len() implies (as_str_of(p, k) is Some
        <==> (#[trigger] p.variants@[k]).form is Named) by {}
}

/// Whether an exec list of arms is the spec list.
pub open spec fn arms_are(res: Seq<(String, usize)>, spec: Seq<(Seq<char>, int)>) -> bool {
    &&& res.len() == spec.len()
    &&& forall|i: int|
        0 <= i < res.len() ==> (#[trigger] res[i]).0@ == spec[i].0 && res[i].1 == spec[i].1
}

impl<R> Plan<R> {
    /// The arms of the generated `as_str`, which `from_str` tries first:
    /// `(string, k)` for each variant `k` that has a string, in order.
    pub fn primary_arms(&self) -> (res: Vec<(String, usize)>)
        ensures
            arms_are(res@, primary_arms(self.variants@, self.variants@.len() as int)),
            forall|k: int|
                0 <= k < self.variants@.len() && (#[trigger] as_str_of(*self, k)) is Some
                    ==> exists|i: int|
                    0 <= i < res@.len() && res@[i].0@ == as_str_of(*self, k)->Some_0 && res@[i].1
                        == k,
            forall|i: int|
                0 <= i < res@.len() ==> (#[trigger] res@[i]).1 < self.variants@.len()
                    && as_str_of(*self, res@[i].1 as int) == Some(res@[i].0@),
    {
        let ghost ps = self.variants@;
        let mut res: Vec<(String, usize)> = Vec::new();
        let mut k: usize = 0;
        while k < self.variants.len()
            invariant
                ps == self.variants@,
                0 <= k <= ps.len(),
                arms_are(res@, primary_arms(ps, k as int)),
            decreases ps.len() - k,
        {
            let ghost before = res@;
            match &self.variants[k].form {
                Form::Named { string, .. } => {
                    res.push((string.clone(), k));
                },
                _ => {},
            }
            assert(arms_are(res@, primary_arms(ps, k + 1))) by {
                let pa = primary_arms(ps, k as int);
                assert forall|i: int| 0 <= i < res@.len() implies (#[trigger] res@[i]).0@
                    == primary_arms(ps, k + 1)[i].0 && res@[i].1 == primary_arms(ps, k + 1)[i].1 by {
                    if i < before.len() {
                        assert(res@[i] == before[i]);
                        assert(primary_arms(ps, k + 1)[i] == pa[i]);
                    }
                }
            }
            k = k + 1;
        }
        proof {
            lemma_arms_meaning(*self);
            let pa = primary_arms(ps, ps.len() as int);
            assert forall|kk: int|
                0 <= kk < ps.len() && (#[trigger] as_str_of(*self, kk)) is Some implies exists|i: int|
                0 <= i < res@.len() && res@[i].0@ == as_str_of(*self, kk)->Some_0 && res@[i].1 == kk by {
                let j = choose|j: int| 0 <= j < pa.len() && pa[j] == (as_str_of(*self, kk)->Some_0, kk);
                assert(res@[j].0@ == pa[j].0 && res@[j].1 == pa[j].1);
            }
            assert forall|i: int| 0 <= i < res@.len() implies (#[trigger] res@[i]).1 < ps.len()
                && as_str_of(*self, res@[i].1 as int) == Some(res@[i].0@) by {
                assert(res@[i].0@ == pa[i].0 && res@[i].1 == pa[i].1);
            }
        }
        res
    }

    /// The remaining arms of the generated `from_str`: `(alt, k)` for each
    /// alternative of each variant `k`, in order.
    pub fn alt_arms(&self) -> (res: Vec<(String, usize)>)
        ensures
            arms_are(res@, alt_arms(self.variants@, self.variants@.len() as int)),
            forall|k: int, a: Seq<char>|
                0 <= k < self.variants@.len() && #[trigger] alts_of(self.variants@[k]).contains(a)
                    ==> exists|i: int| 0 <= i < res@.len() && res@[i].0@ == a && res@[i].1 == k,
            forall|i: int|
                0 <= i < res@.len() ==> (#[trigger] res@[i]).1 < self.variants@.len()
                    && alts_of(self.variants@[res@[i].1 as int]).contains(res@[i].0@),
    {
        let ghost ps = self.variants@;
        let mut res: Vec<(String, usize)> = Vec::new();
        let mut k: usize = 0;
        while k < self.variants.len()
            invariant
                ps == self.variants@,
                0 <= k <= ps.len(),
                arms_are(res@, alt_arms(ps, k as int)),
            decreases ps.len() - k,
        {
            match &self.variants[k].form {
                Form::Named { alts, .. } => {
                    let ghost base = res@;
                    let ghost tail = alts.deep_view().map_values(|a: Seq<char>| (a, k as int));
                    let mut j: usize = 0;
                    while j < alts.len()
                        invariant
                            0 <= j <= alts.len(),
                            tail == alts.deep_view().map_values(|a: Seq<char>| (a, k as int)),
                            res@.len() == base.len() + j,
                            forall|i: int| 0 <= i < base.len() ==> res@[i] == base[i],
                            forall|i: int|
                                0 <= i < j ==> (#[trigger] res@[base.len() + i]).0@ == tail[i].0
                                    && res@[base.len() + i].1 == tail[i].1,
                        decreases alts.len() - j,
                    {
                        let ghost prev = res@;
                        res.push((alts[j].clone(), k));
                        assert(alts.deep_view()[j as int] == alts@[j as int]@);
                        assert forall|i: int| 0 <= i < j + 1 implies (#[trigger] res@[base.len()
                            + i]).0@ == tail[i].0 && res@[base.len() + i].1 == tail[i].1 by {
                            if i < j {
                                assert(res@[base.len() + i] == prev[base.len() + i]);
                            }
                        }
                        j = j + 1;
                    }
                    assert(arms_are(res@, alt_arms(ps, k + 1))) by {
                        let aa = alt_arms(ps, k as int);
                        assert(aa.len() == base.len());
                        assert(tail.len() == alts@.len());
                        assert(alt_arms(ps, k + 1) == aa + tail);
                        assert forall|i: int| 0 <= i < res@.len() implies (#[trigger] res@[i]).0@
                            == alt_arms(ps, k + 1)[i].0 && res@[i].1 == alt_arms(ps, k + 1)[i].1 by {
                            if i < base.len() {
                                assert(alt_arms(ps, k + 1)[i] == aa[i]);
                                assert(res@[i] == base[i]);
                                assert(base[i].0@ == aa[i].0);
                                assert(base[i].1 == aa[i].1);
                            } else {
                                let i2 = i - base.len();
                                assert(alt_arms(ps, k + 1)[i] == tail[i2]);
                                assert(0 <= i2 < j);
                                assert(res@[base.len() + i2].0@ == tail[i2].0);
                                assert(res@[base.len() + i2].1 == tail[i2].1);
                            }
                        }
                    }
                },
                _ => {
                    assert(alt_arms(ps, k + 1) =~= alt_arms(ps, k as int));
                },
            }
            k = k + 1;
        }
        proof {
            lemma_arms_meaning(*self);
            let aa = alt_arms(ps, ps.len() as int);
            assert forall|kk: int, a: Seq<char>|
                0 <= kk < ps.len() && #[trigger] alts_of(ps[kk]).contains(a) implies exists|i: int|
                0 <= i < res@.len() && res@[i].0@ == a && res@[i].1 == kk by {
                let j = choose|j: int| 0 <= j < aa.len() && aa[j] == (a, kk);
                assert(res@[j].0@ == aa[j].0 && res@[j].1 == aa[j].1);
            }
            assert forall|i: int| 0 <= i < res@.len() implies (#[trigger] res@[i]).1 < ps.len()
                && alts_of(ps[res@[i].1 as int]).contains(res@[i].0@) by {
                assert(res@[i].0@ == aa[i].0 && res@[i].1 == aa[i].1);
            }
        }
        res
    }
}

} // verus!
