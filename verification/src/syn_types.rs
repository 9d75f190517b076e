//! The outside types that the library carries through without looking inside.
use vstd::prelude::*;

verus! {

/// `proc_macro2::TokenStream`, carried through opaque.
#[verifier::external_type_specification]
#[verifier::external_body]
pub struct ExTokenStream(proc_macro2::TokenStream);

/// `syn::Error`, carried through opaque.
#[verifier::external_type_specification]
#[verifier::external_body]
pub struct ExSynError(syn::Error);

/// `syn::Macro`, carried through opaque.
#[verifier::external_type_specification]
#[verifier::external_body]
pub struct ExMacro(syn::Macro);

/// `syn::Expr`, carried through opaque.
#[verifier::external_type_specification]
#[verifier::external_body]
pub struct ExSynExpr(syn::Expr);

/// `syn::Stmt`, carried through opaque.
#[verifier::external_type_specification]
#[verifier::external_body]
pub struct ExStmt(syn::Stmt);

/// `syn::token::Comma`, carried through opaque.
#[verifier::external_type_specification]
#[verifier::external_body]
pub struct ExComma(syn::token::Comma);

/// `syn::Path`, carried through opaque.
#[verifier::external_type_specification]
#[verifier::external_body]
pub struct ExPath(syn::Path);

/// `syn::token::Not`, the `!` of a macro invocation, carried through opaque.
#[verifier::external_type_specification]
#[verifier::external_body]
pub struct ExNot(syn::token::Not);

/// `syn::MacroDelimiter`, carried through opaque.
#[verifier::external_type_specification]
#[verifier::external_body]
pub struct ExMacroDelimiter(syn::MacroDelimiter);

/// `proc_macro2::Ident`, carried through opaque.
#[verifier::external_type_specification]
#[verifier::external_body]
pub struct ExIdent(proc_macro2::Ident);

/// `syn::punctuated::Punctuated`, carried through opaque.
#[verifier::external_type_specification]
#[verifier::external_body]
#[verifier::reject_recursive_types(T)]
#[verifier::reject_recursive_types(P)]
pub struct ExPunctuated<T, P>(syn::punctuated::Punctuated<T, P>);

/// `syn::ItemEnum`, carried through opaque.
#[verifier::external_type_specification]
#[verifier::external_body]
pub struct ExItemEnum(syn::ItemEnum);

/// `syn::Attribute`, carried through opaque.
#[verifier::external_type_specification]
#[verifier::external_body]
pub struct ExSynAttribute(syn::Attribute);

/// `syn::Generics`, carried through opaque.
#[verifier::external_type_specification]
#[verifier::external_body]
pub struct ExGenerics(syn::Generics);

/// `syn::GenericParam`, carried through opaque.
#[verifier::external_type_specification]
#[verifier::external_body]
pub struct ExGenericParam(syn::GenericParam);

} // verus!
