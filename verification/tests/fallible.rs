use proc_macro2::{Span, TokenStream};
use xx_macros::fallible::try_expand;

#[test]
fn success_gives_its_tokens() {
    let tokens: TokenStream = "struct S ;".parse().unwrap();
    let expected = tokens.to_string();
    let out = try_expand(move || Ok(tokens));
    assert_eq!(out.to_string(), expected);
}

#[test]
fn failure_gives_a_compile_error() {
    let out = try_expand(|| Err(syn::Error::new(Span::call_site(), "boom")));
    let text = out.to_string();
    assert!(text.contains("compile_error"));
    assert!(text.contains("boom"));
}

#[test]
fn failure_keeps_every_message() {
    let mut e = syn::Error::new(Span::call_site(), "first");
    e.combine(syn::Error::new(Span::call_site(), "second"));
    let expected = e.to_compile_error().to_string();
    let out = try_expand(move || Err(e)).to_string();
    assert_eq!(out, expected);
    assert!(out.find("first").unwrap() < out.find("second").unwrap());
}

#[test]
fn empty_stream_is_required() {
    let empty = TokenStream::new();
    assert!(xx_macros::fallible::require_empty(&empty).is_ok());
    let full: TokenStream = "x".parse().unwrap();
    let err = xx_macros::fallible::require_empty(&full).unwrap_err();
    assert_eq!(err.to_string(), "Unexpected tokens");
}
