use proc_macro2::TokenStream;
use quote::ToTokens;
use vstd::prelude::*;

verus! {

broadcast use vstd::seq_lib::group_seq_properties;

/// The kind of a generic parameter.
#[derive(Clone, Copy, Debug, PartialEq, Eq, Structural)]
pub enum ParamKind {
    Lifetime,
    Type,
    Const,
}

/// A generic parameter as the logic reads it: its kind, and the parameter
/// itself carried along untouched.
#[derive(Clone, Debug, PartialEq, Eq)]
pub struct Param<R> {
    pub kind: ParamKind,
    pub raw: R,
}

/// The parameters that are no lifetimes.
pub open spec fn not_lifetime<R>() -> spec_fn(Param<R>) -> bool {
    |p: Param<R>| !(p.kind is Lifetime)
}

/// Drops the lifetime parameters, keeping the others in order.
pub fn remove_lifetimes<R>(params: &mut Vec<Param<R>>)
    ensures
        final(params)@ == old(params)@.filter(not_lifetime::<R>()),
{
    let ghost orig = params@;
    let mut rest: Vec<Param<R>> = Vec::new();
    std::mem::swap(&mut rest, params);
    let ghost total = rest@;
    assert(total == orig);
    let mut kept: Vec<Param<R>> = Vec::new();
    let ghost mut done: int = 0;
    proof {
        assert(orig.take(0).filter(not_lifetime::<R>()) =~= Seq::<Param<R>>::empty()) by {
            reveal(Seq::filter);
        }
        assert(orig.skip(0) =~= orig);
    }
    while rest.len() > 0
        invariant
            0 <= done <= orig.len(),
            rest@ == orig.skip(done),
            kept@ == orig.take(done).filter(not_lifetime::<R>()),
        decreases rest.len(),
    {
        let p = rest.remove(0);
        proof {
            assert(orig.take(done + 1) =~= orig.take(done).push(p));
            orig.take(done).lemma_filter_push(p, not_lifetime::<R>());
        }
        let is_lifetime = match p.kind {
            ParamKind::Lifetime => true,
            _ => false,
        };
        if !is_lifetime {
            kept.push(p);
        }
        proof {
            assert(rest@ =~= orig.skip(done + 1));
            done = done + 1;
        }
    }
    proof {
        assert(orig.take(done) =~= orig);
    }
    *params = kept;
}

/// The parameters of `g`, in order, each with its kind.
pub uninterp spec fn params_read(g: syn::Generics) -> Seq<Param<syn::GenericParam>>;

/// Whether `tokens` is what `syn::TypeGenerics::as_turbofish` prints for `g`
/// with its parameters replaced by `params` (through
/// `syn::Generics::split_for_impl`): `::<`, the parameters without their
/// bounds or defaults (lifetimes first), then `>`; nothing where there is no
/// parameter.  The `::` and the commas of the rebuilt list carry the call
/// site's span, so this is a relation.
pub uninterp spec fn turbofish_for(g: syn::Generics, params: Seq<syn::GenericParam>, tokens: TokenStream) -> bool;

/// Reads the parameters of `g` (clones of `g.params`), each with its kind.
#[verifier::external_body]
fn read_params(g: &syn::Generics) -> (res: Vec<Param<syn::GenericParam>>)
    ensures
        res@ == params_read(*g),
{
    let kind = |p: &syn::GenericParam| match p {
        syn::GenericParam::Lifetime(_) => ParamKind::Lifetime,
        syn::GenericParam::Type(_) => ParamKind::Type,
        syn::GenericParam::Const(_) => ParamKind::Const,
    };
    g.params.iter().map(|p| Param { kind: kind(p), raw: p.clone() }).collect()
}

/// Prints, through `split_for_impl` and `as_turbofish`, the turbofish of a
/// copy of `g` whose parameters are `params`.
#[verifier::external_body]
fn turbofish_with(g: &syn::Generics, params: Vec<Param<syn::GenericParam>>) -> (res: TokenStream)
    ensures
        turbofish_for(*g, params@.map_values(|p: Param<syn::GenericParam>| p.raw), res),
{
    let mut g = g.clone();
    g.params = params.into_iter().map(|p| p.raw).collect();
    g.split_for_impl().1.as_turbofish().into_token_stream()
}

/// The turbofish that names the type parameters of `g` (`::<T, N>` for
/// `<'a, T: Clone, const N: usize>`): its parameters but the lifetimes, in
/// order, without their bounds.
pub fn to_types_turbofish(g: &syn::Generics) -> (res: TokenStream)
    ensures
        turbofish_for(
            *g,
            params_read(*g).filter(not_lifetime::<syn::GenericParam>()).map_values(
                |p: Param<syn::GenericParam>| p.raw,
            ),
            res,
        ),
{
    let mut params = read_params(g);
    remove_lifetimes(&mut params);
    turbofish_with(g, params)
}

} // verus!
