use proc_macro2::TokenStream;
use xx_macros::options::OptionsError;
use xx_macros::strings::{Form, Plan, VariantError};
use xx_macros::strings_input::{read_and_plan, StringsFailure};

fn tokens(src: &str) -> TokenStream {
    src.parse().unwrap()
}

fn read(attr: &str, item: &str) -> Result<(syn::ItemEnum, Plan<syn::Attribute>), StringsFailure> {
    read_and_plan(tokens(attr), tokens(item))
}

fn named(p: &Plan<syn::Attribute>, k: usize) -> Option<(String, Vec<String>)> {
    match &p.variants[k].form {
        Form::Named { string, alts } => Some((string.clone(), alts.clone())),
        _ => None,
    }
}

#[test]
fn defaults_name_every_variant() {
    let (item, p) = read("defaults, display", "enum Mode { Fast, Slow }").unwrap();
    assert_eq!(item.ident.to_string(), "Mode");
    assert_eq!(named(&p, 0), Some(("Fast".to_string(), vec![])));
    assert_eq!(named(&p, 1), Some(("Slow".to_string(), vec![])));
    assert!(p.total);
    assert!(p.display);
}

#[test]
fn case_option_converts_the_names() {
    let (_, p) = read("defaults, snake", "enum Mode { FastLane, SlowLane }").unwrap();
    assert_eq!(named(&p, 0), Some(("fast_lane".to_string(), vec![])));
    assert_eq!(named(&p, 1), Some(("slow_lane".to_string(), vec![])));
    assert!(!p.display);
}

#[test]
fn string_and_alt_attributes_are_read() {
    let (_, p) = read(
        "",
        r#"enum E { #[doc = "x"] #[string = "one"] #[alt = "uno"] A, B }"#,
    )
    .unwrap();
    assert_eq!(named(&p, 0), Some(("one".to_string(), vec!["uno".to_string()])));
    assert_eq!(named(&p, 1), None);
    assert!(!p.total);
    assert_eq!(p.variants[0].attrs.len(), 1);
    assert!(p.variants[0].attrs[0].raw.path().is_ident("doc"));
}

#[test]
fn omitted_variant_with_fields_is_read() {
    let (_, p) = read("defaults", "enum E { A, #[omit] B(u8) }").unwrap();
    assert_eq!(named(&p, 0), Some(("A".to_string(), vec![])));
    assert!(matches!(p.variants[1].form, Form::Omitted { warn: false, .. }));
    assert!(p.variants[1].attrs.is_empty());
}

#[test]
fn arguments_that_are_no_identifiers_are_a_syntax_error() {
    assert!(matches!(read("1", "enum E { A }"), Err(StringsFailure::Syntax(_))));
}

#[test]
fn item_that_is_no_enum_is_a_syntax_error() {
    assert!(matches!(read("defaults", "struct S;"), Err(StringsFailure::Syntax(_))));
}

#[test]
fn options_error_comes_before_the_item_is_read() {
    match read("defaults, defaults", "struct S;") {
        Err(StringsFailure::Options { error, args }) => {
            assert_eq!(error, OptionsError::DuplicateOption { arg: 1 });
            assert_eq!(args.len(), 2);
        }
        _ => panic!("expected an options error"),
    }
    assert!(matches!(
        read("snake", "enum E { A }"),
        Err(StringsFailure::Options { error: OptionsError::CaseWithoutDefault, .. })
    ));
    assert!(matches!(
        read("upper", "enum E { A }"),
        Err(StringsFailure::Options { error: OptionsError::UnknownOption { arg: 0 }, .. })
    ));
}

#[test]
fn variant_with_fields_is_refused() {
    match read("defaults", "enum E { A, B(u8) }") {
        Err(StringsFailure::Variant { error, item }) => {
            assert_eq!(error, VariantError::FieldsNotAllowed { variant: 1 });
            assert_eq!(item.variants.len(), 2);
        }
        _ => panic!("expected a variant error"),
    }
}

#[test]
fn value_that_is_no_string_literal_is_refused() {
    match read("", "enum E { #[string = 1] A }") {
        Err(StringsFailure::Variant { error: VariantError::ExpectedStringLiteral { variant, attr }, .. }) => {
            assert_eq!(variant, 0);
            assert!(attr.raw.path().is_ident("string"));
        }
        _ => panic!("expected a variant error"),
    }
}

#[test]
fn duplicate_string_is_refused() {
    assert!(matches!(
        read("defaults, lowercase", "enum E { Ab, AB }"),
        Err(StringsFailure::Variant { error: VariantError::DuplicateString { variant: 1, .. }, .. })
    ));
}
