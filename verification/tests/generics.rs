use xx_macros::generics::{remove_lifetimes, Param, ParamKind};

#[test]
fn lifetimes_are_dropped_in_order() {
    let mut ps = vec![
        Param { kind: ParamKind::Lifetime, raw: "'a" },
        Param { kind: ParamKind::Type, raw: "T" },
        Param { kind: ParamKind::Lifetime, raw: "'b" },
        Param { kind: ParamKind::Const, raw: "N" },
    ];
    remove_lifetimes(&mut ps);
    let kept: Vec<&str> = ps.iter().map(|p| p.raw).collect();
    assert_eq!(kept, vec!["T", "N"]);
}

#[test]
fn only_lifetimes_leave_nothing() {
    let mut ps = vec![Param { kind: ParamKind::Lifetime, raw: 1 }];
    remove_lifetimes(&mut ps);
    assert!(ps.is_empty());
    remove_lifetimes(&mut ps);
    assert!(ps.is_empty());
}

fn turbofish(src: &str) -> String {
    let g: syn::Generics = syn::parse_str(src).unwrap();
    xx_macros::generics::to_types_turbofish(&g).to_string()
}

#[test]
fn turbofish_names_the_type_parameters() {
    assert_eq!(turbofish("<'a, T: Clone + 'a, const N: usize>"), ":: < T , N >");
}

#[test]
fn turbofish_drops_bounds_and_defaults() {
    assert_eq!(turbofish("<T: Default = u8, U>"), ":: < T , U >");
}

#[test]
fn turbofish_of_lifetimes_only_is_empty() {
    assert_eq!(turbofish("<'a, 'b>"), "");
    assert_eq!(turbofish(""), "");
}
