use crate::fallible::tokens_empty;
use proc_macro2::TokenStream;
use quote::ToTokens;
use syn::punctuated::Punctuated;
use syn::token::Comma;
use syn::visit_mut::VisitMut;
use vstd::prelude::*;

verus! {

/// What `syn::Macro::parse_body_with(Punctuated::<syn::Expr, Comma>::parse_terminated)`
/// makes of a macro's body: its comma-separated expressions, each with the
/// comma that follows it (the last one may have none), or `None` where the
/// body does not read so.
pub uninterp spec fn parsed_exprs(mac: syn::Macro) -> Option<Seq<(syn::Expr, Option<Comma>)>>;

/// What `syn::Macro::parse_body_with(syn::Block::parse_within)` makes of a
/// macro's body: its statements, or `None` where the body does not read so.
pub uninterp spec fn parsed_stmts(mac: syn::Macro) -> Option<Seq<syn::Stmt>>;

/// The body of a macro invocation: its `tokens` field.
pub uninterp spec fn macro_body(mac: syn::Macro) -> TokenStream;

/// All of a macro invocation but its body: the path, the `!` and the
/// delimiter.
pub uninterp spec fn macro_frame(mac: syn::Macro) -> (syn::Path, syn::token::Not, syn::MacroDelimiter);

/// Whether `after` is `before` with the tokens of an expression appended
/// (`ToTokens::to_tokens`).  Printing may add grouping parentheses whose
/// spans are the call site's, so this is a relation.
pub uninterp spec fn expr_printed(before: TokenStream, e: syn::Expr, after: TokenStream) -> bool;

/// `tokens` with a comma appended (`ToTokens::to_tokens`).
pub uninterp spec fn comma_appended(tokens: TokenStream, c: Comma) -> TokenStream;

/// Whether `after` is `before` with the tokens of a statement appended
/// (`ToTokens::to_tokens`); a relation, as for expressions.
pub uninterp spec fn stmt_printed(before: TokenStream, s: syn::Stmt, after: TokenStream) -> bool;

/// Whether `after` is what a call of `VisitMut::visit_expr_mut` left of the
/// expression `before`.
pub uninterp spec fn expr_visited(before: syn::Expr, after: syn::Expr) -> bool;

/// Whether `after` is what a call of `VisitMut::visit_stmt_mut` left of the
/// statement `before`.
pub uninterp spec fn stmt_visited(before: syn::Stmt, after: syn::Stmt) -> bool;

/// Whether `end` is `start` followed by each expression and, where it has
/// one, its comma, in order.
pub open spec fn exprs_printed(
    start: TokenStream,
    items: Seq<(syn::Expr, Option<Comma>)>,
    end: TokenStream,
) -> bool
    decreases items.len(),
{
    if items.len() == 0 {
        end == start
    } else {
        exists|mid: TokenStream, t: TokenStream|
            #![trigger expr_printed(mid, items.last().0, t)]
            exprs_printed(start, items.drop_last(), mid) && expr_printed(mid, items.last().0, t)
                && end == match items.last().1 {
                Some(c) => comma_appended(t, c),
                None => t,
            }
    }
}

/// Whether `end` is `start` followed by each statement, in order.
pub open spec fn stmts_printed(start: TokenStream, items: Seq<syn::Stmt>, end: TokenStream) -> bool
    decreases items.len(),
{
    if items.len() == 0 {
        end == start
    } else {
        exists|mid: TokenStream|
            #![trigger stmt_printed(mid, items.last(), end)]
            stmts_printed(start, items.drop_last(), mid) && stmt_printed(mid, items.last(), end)
    }
}

/// Calls `syn::Macro::parse_body_with` with
/// `Punctuated::<syn::Expr, Comma>::parse_terminated`, as (expression,
/// following comma) pairs in order; the result is the named one.
#[verifier::external_body]
fn parse_body_exprs(mac: &syn::Macro) -> (res: Option<Vec<(syn::Expr, Option<Comma>)>>)
    ensures
        parsed_exprs(*mac) == match res {
            Some(pairs) => Some(pairs@),
            None => None,
        },
{
    mac.parse_body_with(Punctuated::<syn::Expr, Comma>::parse_terminated).ok().map(
        |p| p.into_pairs().map(|pair| pair.into_tuple()).collect(),
    )
}

/// Calls `syn::Macro::parse_body_with` with `syn::Block::parse_within`; the
/// result is the named one.
#[verifier::external_body]
fn parse_body_stmts(mac: &syn::Macro) -> (res: Option<Vec<syn::Stmt>>)
    ensures
        parsed_stmts(*mac) == match res {
            Some(stmts) => Some(stmts@),
            None => None,
        },
{
    mac.parse_body_with(syn::Block::parse_within).ok()
}

/// Calls `VisitMut::visit_expr_mut` of the caller's visitor on an
/// expression.  What the visitor does is its own; the contract claims only
/// that the expression afterwards is what that call left of it.
#[verifier::external_body]
fn visit_expr<V: VisitMut>(v: &mut V, e: &mut syn::Expr)
    ensures
        expr_visited(*old(e), *final(e)),
{
    v.visit_expr_mut(e)
}

/// Calls `VisitMut::visit_stmt_mut` of the caller's visitor on a
/// statement.  What the visitor does is its own; the contract claims only
/// that the statement afterwards is what that call left of it.
#[verifier::external_body]
fn visit_stmt<V: VisitMut>(v: &mut V, s: &mut syn::Stmt)
    ensures
        stmt_visited(*old(s), *final(s)),
{
    v.visit_stmt_mut(s)
}

/// Calls `proc_macro2::TokenStream::new`, which returns an empty stream.
#[verifier::external_body]
fn empty_tokens() -> (res: TokenStream)
    ensures
        tokens_empty(res),
{
    TokenStream::new()
}

/// Calls `ToTokens::to_tokens` of an expression, appending it to `tokens`.
#[verifier::external_body]
fn append_expr(tokens: &mut TokenStream, e: &syn::Expr)
    ensures
        expr_printed(*old(tokens), *e, *final(tokens)),
{
    e.to_tokens(tokens)
}

/// Calls `ToTokens::to_tokens` of a comma, appending it to `tokens`.
#[verifier::external_body]
fn append_comma(tokens: &mut TokenStream, c: &Comma)
    ensures
        *final(tokens) == comma_appended(*old(tokens), *c),
{
    c.to_tokens(tokens)
}

/// Calls `ToTokens::to_tokens` of a statement, appending it to `tokens`.
#[verifier::external_body]
fn append_stmt(tokens: &mut TokenStream, s: &syn::Stmt)
    ensures
        stmt_printed(*old(tokens), *s, *final(tokens)),
{
    s.to_tokens(tokens)
}

/// Sets the body of a macro invocation (its `tokens` field), which keeps
/// its path, `!` and delimiter.
#[verifier::external_body]
fn set_body(mac: &mut syn::Macro, tokens: TokenStream)
    ensures
        macro_frame(*final(mac)) == macro_frame(*old(mac)),
        macro_body(*final(mac)) == tokens,
{
    mac.tokens = tokens
}

/// Visits the body of a macro invocation with `v`.  Where the body reads as
/// comma-separated expressions, each is visited in order and the body
/// becomes the visited expressions with their commas; otherwise, where it
/// reads as statements, each is visited in order and the body becomes the
/// visited statements.  A body that reads as neither is left as it is, and
/// so is the visitor; so is the visitor where the body holds no item.  The
/// path, `!` and delimiter of the macro are always kept.
///
/// What the visitor makes of each item is the caller's own impl; the
/// contract says that each item of the new body is what the visitor left
/// of the item at that place, with every comma kept, but not what it is.
pub fn visit_macro_body<V: VisitMut>(v: &mut V, mac: &mut syn::Macro)
    ensures
        macro_frame(*final(mac)) == macro_frame(*old(mac)),
        match parsed_exprs(*old(mac)) {
            Some(pairs) => {
                &&& exists|start: TokenStream, visited: Seq<(syn::Expr, Option<Comma>)>|
                    #![trigger exprs_printed(start, visited, macro_body(*final(mac)))]
                    {
                        &&& tokens_empty(start)
                        &&& visited.len() == pairs.len()
                        &&& forall|i: int|
                            0 <= i < pairs.len() ==> (#[trigger] visited[i]).1 == pairs[i].1
                                && expr_visited(pairs[i].0, visited[i].0)
                        &&& exprs_printed(start, visited, macro_body(*final(mac)))
                    }
                &&& pairs.len() == 0 ==> *final(v) == *old(v)
            },
            None => match parsed_stmts(*old(mac)) {
                Some(stmts) => {
                    &&& exists|start: TokenStream, visited: Seq<syn::Stmt>|
                        #![trigger stmts_printed(start, visited, macro_body(*final(mac)))]
                        {
                            &&& tokens_empty(start)
                            &&& visited.len() == stmts.len()
                            &&& forall|i: int|
                                0 <= i < stmts.len() ==> stmt_visited(
                                    stmts[i],
                                    #[trigger] visited[i],
                                )
                            &&& stmts_printed(start, visited, macro_body(*final(mac)))
                        }
                    &&& stmts.len() == 0 ==> *final(v) == *old(v)
                },
                None => *final(mac) == *old(mac) && *final(v) == *old(v),
            },
        },
{
    let ghost mac0 = *mac;
    let ghost v0 = *v;
    match parse_body_exprs(mac) {
        Some(pairs) => {
            let ghost all = pairs@;
            let mut rest = pairs;
            let mut tokens = empty_tokens();
            let ghost start = tokens;
            let ghost mut done: Seq<(syn::Expr, Option<Comma>)> = Seq::empty();
            proof {
                assert(rest@ =~= all.skip(0));
            }
            while rest.len() > 0
                invariant
                    *mac == mac0,
                    parsed_exprs(mac0) == Some(all),
                    tokens_empty(start),
                    done.len() + rest@.len() == all.len(),
                    rest@ == all.skip(done.len() as int),
                    forall|i: int|
                        0 <= i < done.len() ==> (#[trigger] done[i]).1 == all[i].1
                            && expr_visited(all[i].0, done[i].0),
                    exprs_printed(start, done, tokens),
                    done.len() == 0 ==> *v == v0,
                decreases rest.len(),
            {
                let ghost k = done.len() as int;
                let ghost mid = tokens;
                let (mut e, comma) = rest.remove(0);
                assert(comma == all[k].1 && e == all[k].0);
                visit_expr(v, &mut e);
                append_expr(&mut tokens, &e);
                let ghost t = tokens;
                match &comma {
                    Some(c) => append_comma(&mut tokens, c),
                    None => {},
                }
                proof {
                    let next = done.push((e, comma));
                    assert(next.drop_last() =~= done);
                    assert(expr_printed(mid, next.last().0, t));
                    assert(exprs_printed(start, next, tokens));
                    assert(rest@ =~= all.skip(k + 1));
                    done = next;
                }
            }
            set_body(mac, tokens);
            assert(done.len() == all.len());
            assert(exprs_printed(start, done, macro_body(*mac)));
            return ;
        },
        None => {},
    }
    match parse_body_stmts(mac) {
        Some(stmts) => {
            let ghost all = stmts@;
            let mut rest = stmts;
            let mut tokens = empty_tokens();
            let ghost start = tokens;
            let ghost mut done: Seq<syn::Stmt> = Seq::empty();
            proof {
                assert(rest@ =~= all.skip(0));
            }
            while rest.len() > 0
                invariant
                    *mac == mac0,
                    tokens_empty(start),
                    done.len() + rest@.len() == all.len(),
                    rest@ == all.skip(done.len() as int),
                    forall|i: int| 0 <= i < done.len() ==> stmt_visited(all[i], #[trigger] done[i]),
                    stmts_printed(start, done, tokens),
                    done.len() == 0 ==> *v == v0,
                decreases rest.len(),
            {
                let ghost k = done.len() as int;
                let ghost mid = tokens;
                let mut s = rest.remove(0);
                assert(s == all[k]);
                visit_stmt(v, &mut s);
                append_stmt(&mut tokens, &s);
                proof {
                    let next = done.push(s);
                    assert(next.drop_last() =~= done);
                    assert(stmt_printed(mid, next.last(), tokens));
                    assert(stmts_printed(start, next, tokens));
                    assert(rest@ =~= all.skip(k + 1));
                    done = next;
                }
            }
            set_body(mac, tokens);
            assert(done.len() == all.len());
            assert(stmts_printed(start, done, macro_body(*mac)));
        },
        None => {},
    }
}

} // verus!
