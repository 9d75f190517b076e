use proc_macro2::TokenStream;
use vstd::prelude::*;

verus! {

/// Whether `tokens` is a rendering of `err` by `syn::Error::to_compile_error`:
/// one `compile_error!` invocation per message, in order.  The spans in it
/// depend on the thread that renders the error, so this is a relation and
/// not a function of the error.
pub uninterp spec fn compile_error_for(err: syn::Error, tokens: TokenStream) -> bool;

/// Calls `syn::Error::to_compile_error`; the contract claims only that the
/// result is a rendering of that error.
#[verifier::external_body]
fn error_tokens(err: syn::Error) -> (res: TokenStream)
    ensures
        compile_error_for(err, res),
{
    err.to_compile_error()
}

/// Runs a fallible expansion once: its tokens when it succeeds, else the
/// `compile_error!` tokens of its error.
pub fn try_expand<F>(func: F) -> (res: TokenStream) where
    F: FnOnce() -> syn::Result<TokenStream>,

    requires
        func.requires(()),
    ensures
        exists|r: syn::Result<TokenStream>|
            func.ensures((), r) && match r {
                Ok(tokens) => res == tokens,
                Err(e) => compile_error_for(e, res),
            },
{
    let r = func();
    match r {
        Ok(tokens) => tokens,
        Err(err) => error_tokens(err),
    }
}

/// Whether `err` is an error that `syn::Error::new_spanned` made of `tokens`
/// and the message "Unexpected tokens": that message, spanned on the stream.
/// The error also records the thread that made it, so this is a relation
/// and not a function of the stream.
pub uninterp spec fn unexpected_tokens_for(tokens: TokenStream, err: syn::Error) -> bool;

/// Whether a token stream holds no token trees (`TokenStream::is_empty`).
pub uninterp spec fn tokens_empty(tokens: TokenStream) -> bool;

/// Calls `proc_macro2::TokenStream::is_empty`.
#[verifier::external_body]
fn is_empty(tokens: &TokenStream) -> (res: bool)
    ensures
        res == tokens_empty(*tokens),
{
    tokens.is_empty()
}

/// Calls `syn::Error::new_spanned(tokens, "Unexpected tokens")`.
#[verifier::external_body]
fn unexpected_tokens(tokens: &TokenStream) -> (res: syn::Error)
    ensures
        unexpected_tokens_for(*tokens, res),
{
    syn::Error::new_spanned(tokens, "Unexpected tokens")
}

/// Accepts an empty token stream and refuses any other with an
/// "Unexpected tokens" error spanned on it.
pub fn require_empty(tokens: &TokenStream) -> (res: syn::Result<()>)
    ensures
        tokens_empty(*tokens) ==> res is Ok,
        !tokens_empty(*tokens) ==> (res matches Err(e) && unexpected_tokens_for(*tokens, e)),
{
    if is_empty(tokens) {
        Ok(())
    } else {
        Err(unexpected_tokens(tokens))
    }
}

} // verus!
