use xx_macros::attribute::{
    remove_any, remove_ident_if, remove_if, remove_list, remove_name_value, remove_path,
    Attr, ExprValue, Meta,
};
use xx_macros::expr::as_lit_str;

fn attr(name: &str, meta: Meta, raw: u32) -> Attr<u32> {
    Attr { ident: Some(name.to_string()), meta, raw }
}

fn lit(s: &str) -> Meta {
    Meta::NameValue(ExprValue::LitStr(s.to_string()))
}

fn sample() -> Vec<Attr<u32>> {
    vec![
        attr("doc", lit("docs"), 0),
        attr("omit", lit("x"), 1),
        attr("omit", Meta::List, 2),
        attr("omit", Meta::Path, 3),
        Attr { ident: None, meta: Meta::Path, raw: 4 },
        attr("omit", Meta::Path, 5),
    ]
}

fn raws(v: &[Attr<u32>]) -> Vec<u32> {
    v.iter().map(|a| a.raw).collect()
}

#[test]
fn remove_path_takes_first_path_form() {
    let mut v = sample();
    let got = remove_path(&mut v, "omit").unwrap();
    assert_eq!(got.raw, 3);
    assert_eq!(raws(&v), vec![0, 1, 2, 4, 5]);
    let got = remove_path(&mut v, "omit").unwrap();
    assert_eq!(got.raw, 5);
    assert!(remove_path(&mut v, "omit").is_none());
    assert_eq!(raws(&v), vec![0, 1, 2, 4]);
}

#[test]
fn remove_any_takes_first_of_name() {
    let mut v = sample();
    assert_eq!(remove_any(&mut v, "omit").unwrap().raw, 1);
    assert_eq!(raws(&v), vec![0, 2, 3, 4, 5]);
    assert!(remove_any(&mut v, "missing").is_none());
    assert_eq!(raws(&v), vec![0, 2, 3, 4, 5]);
}

#[test]
fn remove_name_value_and_list() {
    let mut v = sample();
    assert_eq!(remove_name_value(&mut v, "omit").unwrap().raw, 1);
    assert!(remove_name_value(&mut v, "omit").is_none());
    assert_eq!(remove_list(&mut v, "omit").unwrap().raw, 2);
    assert_eq!(remove_name_value(&mut v, "doc").unwrap().raw, 0);
    assert_eq!(raws(&v), vec![3, 4, 5]);
}

#[test]
fn remove_if_uses_closure() {
    let mut v = sample();
    let got = remove_if(&mut v, |a: &Attr<u32>| a.ident.is_none());
    assert_eq!(got.unwrap().raw, 4);
    assert_eq!(raws(&v), vec![0, 1, 2, 3, 5]);
    assert!(remove_if(&mut v, |a: &Attr<u32>| a.raw > 10).is_none());
    assert_eq!(raws(&v), vec![0, 1, 2, 3, 5]);
}

#[test]
fn remove_ident_if_checks_kind_and_name() {
    let mut v = sample();
    let got = remove_ident_if(&mut v, "omit", |a: &Attr<u32>| matches!(a.meta, Meta::List));
    assert_eq!(got.unwrap().raw, 2);
    let got = remove_ident_if(&mut v, "doc", |a: &Attr<u32>| matches!(a.meta, Meta::Path));
    assert!(got.is_none());
    assert_eq!(raws(&v), vec![0, 1, 3, 4, 5]);
}

#[test]
fn as_lit_str_reads_string_literals_only() {
    let e = ExprValue::LitStr("abc".to_string());
    assert_eq!(as_lit_str(&e).map(|s| s.as_str()), Some("abc"));
    assert_eq!(as_lit_str(&ExprValue::Other), None);
}

#[test]
fn syn_attributes_are_read_in_order() {
    let item: syn::ItemStruct = syn::parse_str(
        r#"#[omit] #[string = "a\"b"] #[alt = 1] #[derive(Debug)] #[a::b] struct S;"#,
    )
    .unwrap();
    let read = xx_macros::attribute::read_attributes(item.attrs.clone());
    assert_eq!(read.len(), 5);
    assert_eq!(read[0].ident, Some("omit".to_string()));
    assert_eq!(read[0].meta, Meta::Path);
    assert_eq!(read[1].meta, Meta::NameValue(ExprValue::LitStr("a\"b".to_string())));
    assert_eq!(read[2].meta, Meta::NameValue(ExprValue::Other));
    assert_eq!(read[3].ident, Some("derive".to_string()));
    assert_eq!(read[3].meta, Meta::List);
    assert_eq!(read[4].ident, None);
    assert_eq!(read[4].raw, item.attrs[4]);
}
