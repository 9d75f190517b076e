use xx_macros::attribute::{Attr, ExprValue, Meta};
use xx_macros::case::Case;
use xx_macros::options::Options;
use xx_macros::strings::{plan, plan_with_names, Form, Plan, Site, Variant, VariantError};

fn string_attr(name: &str, value: &str, raw: u32) -> Attr<u32> {
    Attr {
        ident: Some(name.to_string()),
        meta: Meta::NameValue(ExprValue::LitStr(value.to_string())),
        raw,
    }
}

fn path_attr(name: &str, raw: u32) -> Attr<u32> {
    Attr { ident: Some(name.to_string()), meta: Meta::Path, raw }
}

fn variant(name: &str, attrs: Vec<Attr<u32>>) -> Variant<u32> {
    Variant { name: name.to_string(), has_fields: false, attrs }
}

fn opts(defaults: bool, display: bool, case: Option<Case>) -> Options {
    Options { defaults, display, case }
}

fn strings(p: &Plan<u32>) -> Vec<(usize, String)> {
    let mut out = Vec::new();
    for (k, v) in p.variants.iter().enumerate() {
        if let Form::Named { string, alts } = &v.form {
            out.push((k, string.clone()));
            for a in alts {
                out.push((k, a.clone()));
            }
        }
    }
    out
}

fn from_str(p: &Plan<u32>, s: &str) -> Option<usize> {
    let mut arms = p.primary_arms();
    arms.extend(p.alt_arms());
    arms.into_iter().find(|(t, _)| t == s).map(|(_, k)| k)
}

fn as_str(p: &Plan<u32>, k: usize) -> Option<String> {
    match &p.variants[k].form {
        Form::Named { string, .. } => Some(string.clone()),
        _ => None,
    }
}

#[test]
fn explicit_strings_and_alts() {
    let vs = vec![
        variant("Alpha", vec![
            path_attr("doc", 9),
            string_attr("string", "a", 1),
            string_attr("alt", "first", 2),
            string_attr("alt", "one", 3),
        ]),
        variant("Beta", vec![string_attr("string", "b", 4)]),
    ];
    let p = plan(opts(false, true, None), vs).unwrap();
    assert!(p.total);
    assert!(p.display);
    assert_eq!(
        p.variants[0].form,
        Form::Named { string: "a".to_string(), alts: vec!["first".to_string(), "one".to_string()] }
    );
    assert_eq!(p.variants[0].attrs.iter().map(|a| a.raw).collect::<Vec<_>>(), vec![9]);
    assert_eq!(p.variants[1].form, Form::Named { string: "b".to_string(), alts: vec![] });
    assert!(p.variants[1].attrs.is_empty());
}

#[test]
fn from_str_inverts_as_str() {
    let vs = vec![
        variant("Alpha", vec![string_attr("string", "a", 1), string_attr("alt", "x", 2)]),
        variant("Beta", vec![]),
        variant("Gamma", vec![path_attr("omit", 3)]),
    ];
    let p = plan(opts(true, false, None), vs).unwrap();
    for k in 0..p.variants.len() {
        if let Some(s) = as_str(&p, k) {
            assert_eq!(from_str(&p, &s), Some(k));
        }
    }
    assert_eq!(from_str(&p, "x"), Some(0));
    assert_eq!(from_str(&p, "Beta"), Some(1));
    assert_eq!(from_str(&p, "Gamma"), None);
    assert!(!p.total);
    let all = strings(&p);
    for i in 0..all.len() {
        for j in 0..all.len() {
            if i != j {
                assert_ne!(all[i].1, all[j].1);
            }
        }
    }
}

#[test]
fn default_strings_follow_the_case() {
    let names = || vec![variant("FooBar", vec![]), variant("HttpRequest2", vec![])];
    let p = plan(opts(true, false, Some(Case::Snake)), names()).unwrap();
    assert_eq!(as_str(&p, 0), Some("foo_bar".to_string()));
    assert_eq!(as_str(&p, 1), Some("http_request_2".to_string()));
    let p = plan(opts(true, false, Some(Case::Kebab)), names()).unwrap();
    assert_eq!(as_str(&p, 0), Some("foo-bar".to_string()));
    let p = plan(opts(true, false, Some(Case::Flat)), names()).unwrap();
    assert_eq!(as_str(&p, 0), Some("foobar".to_string()));
    let p = plan(opts(true, false, None), names()).unwrap();
    assert_eq!(as_str(&p, 0), Some("FooBar".to_string()));
}

#[test]
fn explicit_string_wins_over_default() {
    let vs = vec![variant("FooBar", vec![string_attr("string", "fb", 1)])];
    let p = plan(opts(true, false, Some(Case::Snake)), vs).unwrap();
    assert_eq!(as_str(&p, 0), Some("fb".to_string()));
}

#[test]
fn omit_removes_the_variant() {
    let vs = vec![variant("A", vec![path_attr("doc", 1), path_attr("omit", 2), string_attr("string", "a", 3)])];
    let p = plan(opts(false, true, None), vs.clone()).unwrap();
    assert_eq!(p.variants[0].form, Form::Omitted { marker: path_attr("omit", 2), warn: true });
    assert_eq!(p.variants[0].attrs, vec![path_attr("doc", 1), string_attr("string", "a", 3)]);
    assert!(!p.total);
    assert!(!p.display);
    let p = plan(opts(true, true, None), vs).unwrap();
    assert_eq!(p.variants[0].form, Form::Omitted { marker: path_attr("omit", 2), warn: false });
}

#[test]
fn omitted_variant_may_have_fields() {
    let mut v = variant("A", vec![path_attr("omit", 1)]);
    v.has_fields = true;
    let p = plan(opts(true, false, None), vec![v]).unwrap();
    assert!(matches!(p.variants[0].form, Form::Omitted { .. }));
}

#[test]
fn unnamed_variant_keeps_its_attributes() {
    let attrs = vec![string_attr("alt", "x", 1), path_attr("doc", 2)];
    let p = plan(opts(false, false, None), vec![variant("A", attrs.clone())]).unwrap();
    assert_eq!(p.variants[0].form, Form::Unnamed);
    assert_eq!(p.variants[0].attrs, attrs);
    assert!(!p.total);
}

#[test]
fn no_variants_gives_total_plan() {
    let p = plan(opts(false, true, None), Vec::<Variant<u32>>::new()).unwrap();
    assert!(p.total);
    assert!(p.display);
    assert!(p.variants.is_empty());
}

#[test]
fn fields_are_refused() {
    let mut v = variant("B", vec![]);
    v.has_fields = true;
    let r = plan(opts(true, false, None), vec![variant("A", vec![]), v]);
    assert_eq!(r, Err(VariantError::FieldsNotAllowed { variant: 1 }));
}

#[test]
fn fields_without_string_are_refused_too() {
    let mut v = variant("B", vec![]);
    v.has_fields = true;
    assert_eq!(plan(opts(false, false, None), vec![v]), Err(VariantError::FieldsNotAllowed { variant: 0 }));
}

#[test]
fn non_literal_is_refused() {
    let bad = Attr { ident: Some("string".to_string()), meta: Meta::NameValue(ExprValue::Other), raw: 7 };
    let r = plan(opts(false, false, None), vec![variant("A", vec![bad.clone()])]);
    assert_eq!(r, Err(VariantError::ExpectedStringLiteral { variant: 0, attr: bad }));
    let bad_alt = Attr { ident: Some("alt".to_string()), meta: Meta::NameValue(ExprValue::Other), raw: 8 };
    let r = plan(opts(true, false, None), vec![variant("A", vec![bad_alt.clone()])]);
    assert_eq!(r, Err(VariantError::ExpectedStringLiteral { variant: 0, attr: bad_alt }));
}

#[test]
fn duplicate_explicit_string_is_refused() {
    let r = plan(
        opts(false, false, None),
        vec![variant("A", vec![string_attr("string", "s", 1)]), variant("B", vec![string_attr("string", "s", 2)])],
    );
    assert_eq!(
        r,
        Err(VariantError::DuplicateString { variant: 1, site: Site::Value(string_attr("string", "s", 2)) })
    );
}

#[test]
fn duplicate_default_string_is_refused() {
    let r = plan(
        opts(true, false, None),
        vec![variant("A", vec![string_attr("string", "B", 1)]), variant("B", vec![])],
    );
    assert_eq!(r, Err(VariantError::DuplicateString { variant: 1, site: Site::Name }));
}

#[test]
fn alt_repeating_own_string_is_refused() {
    let r = plan(
        opts(false, false, None),
        vec![variant("A", vec![string_attr("alt", "a", 2), string_attr("string", "a", 1)])],
    );
    assert_eq!(
        r,
        Err(VariantError::DuplicateString { variant: 0, site: Site::Value(string_attr("alt", "a", 2)) })
    );
}

#[test]
fn first_failure_is_reported() {
    let bad = Attr { ident: Some("alt".to_string()), meta: Meta::NameValue(ExprValue::Other), raw: 5 };
    let mut fields = variant("C", vec![]);
    fields.has_fields = true;
    let r = plan(
        opts(false, false, None),
        vec![
            variant("A", vec![string_attr("string", "a", 1), bad.clone(), string_attr("alt", "a", 6)]),
            fields,
        ],
    );
    assert_eq!(r, Err(VariantError::ExpectedStringLiteral { variant: 0, attr: bad }));
}

#[test]
fn given_names_serve_as_defaults() {
    let vs = vec![variant("A", vec![]), variant("B", vec![string_attr("string", "b", 1)])];
    let names = vec!["first".to_string(), "unused".to_string()];
    let p = plan_with_names(opts(true, false, Some(Case::Snake)), vs, names).unwrap();
    assert_eq!(as_str(&p, 0), Some("first".to_string()));
    assert_eq!(as_str(&p, 1), Some("b".to_string()));
}

#[test]
fn given_names_can_collide() {
    let vs = vec![variant("A", vec![]), variant("B", vec![])];
    let names = vec!["same".to_string(), "same".to_string()];
    let r = plan_with_names(opts(true, false, None), vs, names);
    assert_eq!(r, Err(VariantError::DuplicateString { variant: 1, site: Site::Name }));
}

#[test]
fn case_without_defaults_leaves_variants_unnamed() {
    let p = plan(opts(false, false, Some(Case::Snake)), vec![variant("FooBar", vec![])]).unwrap();
    assert_eq!(p.variants[0].form, Form::Unnamed);
}

#[test]
fn arms_follow_variant_and_attribute_order() {
    let vs = vec![
        variant("A", vec![string_attr("string", "a", 1), string_attr("alt", "a1", 2), string_attr("alt", "a2", 3)]),
        variant("B", vec![path_attr("omit", 4)]),
        variant("C", vec![string_attr("alt", "c1", 5)]),
    ];
    let p = plan(opts(true, false, None), vs).unwrap();
    assert_eq!(p.primary_arms(), vec![("a".to_string(), 0), ("C".to_string(), 2)]);
    assert_eq!(
        p.alt_arms(),
        vec![("a1".to_string(), 0), ("a2".to_string(), 0), ("c1".to_string(), 2)]
    );
}
