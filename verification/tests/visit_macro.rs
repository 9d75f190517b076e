use proc_macro2::Ident;
use syn::visit_mut::VisitMut;
use xx_macros::visit_macro::visit_macro_body;

struct Renamer {
    exprs: usize,
    stmts: usize,
}

impl VisitMut for Renamer {
    fn visit_ident_mut(&mut self, i: &mut Ident) {
        if i == "a" {
            *i = Ident::new("z", i.span());
        }
    }

    fn visit_expr_mut(&mut self, e: &mut syn::Expr) {
        self.exprs += 1;
        syn::visit_mut::visit_expr_mut(self, e);
    }

    fn visit_stmt_mut(&mut self, s: &mut syn::Stmt) {
        self.stmts += 1;
        syn::visit_mut::visit_stmt_mut(self, s);
    }
}

fn body_of(src: &str) -> (String, usize, usize) {
    let mut mac: syn::Macro = syn::parse_str(src).unwrap();
    let mut v = Renamer { exprs: 0, stmts: 0 };
    visit_macro_body(&mut v, &mut mac);
    (mac.tokens.to_string(), v.exprs, v.stmts)
}

#[test]
fn comma_separated_expressions_are_visited() {
    let (body, exprs, stmts) = body_of("m!(a, b + a,)");
    assert_eq!(body, "z , b + z ,");
    assert_eq!(stmts, 0);
    assert!(exprs >= 2);
}

#[test]
fn statements_are_visited_when_not_expressions() {
    let (body, _, stmts) = body_of("m! { let x = a; x }");
    assert_eq!(body, "let x = z ; x");
    assert_eq!(stmts, 2);
}

#[test]
fn unreadable_body_is_left_alone() {
    let (body, exprs, stmts) = body_of("m!(=> a)");
    assert_eq!(body, "=> a");
    assert_eq!((exprs, stmts), (0, 0));
}

struct Zero;

impl VisitMut for Zero {
    fn visit_expr_mut(&mut self, e: &mut syn::Expr) {
        *e = syn::parse_str("0").unwrap();
    }
}

fn zeroed(src: &str) -> syn::Macro {
    let mut mac: syn::Macro = syn::parse_str(src).unwrap();
    visit_macro_body(&mut Zero, &mut mac);
    mac
}

#[test]
fn expressions_are_replaced_with_commas_kept() {
    assert_eq!(zeroed("m!(1 + 2, x,)").tokens.to_string(), "0 , 0 ,");
}

#[test]
fn statements_are_rebuilt_with_semicolons() {
    assert_eq!(zeroed("m!{ a; b }").tokens.to_string(), "0 ; 0");
}

#[test]
fn empty_body_stays_empty() {
    let mac = zeroed("m![]");
    assert!(mac.tokens.is_empty());
    assert!(matches!(mac.delimiter, syn::MacroDelimiter::Bracket(_)));
    assert!(mac.path.is_ident("m"));
}

#[test]
fn unreadable_body_is_untouched() {
    let before: syn::Macro = syn::parse_str("m!(=>)").unwrap();
    let after = zeroed("m!(=>)");
    assert_eq!(before, after);
}

struct StmtOnly;

impl VisitMut for StmtOnly {
    fn visit_stmt_mut(&mut self, s: &mut syn::Stmt) {
        *s = syn::parse_str("s;").unwrap();
    }
}

#[test]
fn expression_body_is_not_visited_as_statements() {
    let mut mac: syn::Macro = syn::parse_str("m!(a)").unwrap();
    visit_macro_body(&mut StmtOnly, &mut mac);
    assert_eq!(mac.tokens.to_string(), "a");
}

#[test]
fn empty_body_leaves_the_visitor_alone() {
    let (body, exprs, stmts) = body_of("m![]");
    assert_eq!(body, "");
    assert_eq!((exprs, stmts), (0, 0));
}

#[test]
fn path_and_delimiter_are_kept() {
    let mut mac: syn::Macro = syn::parse_str("a::b!{ 1, 2 }").unwrap();
    visit_macro_body(&mut Zero, &mut mac);
    assert_eq!(mac.tokens.to_string(), "0 , 0");
    assert!(matches!(mac.delimiter, syn::MacroDelimiter::Brace(_)));
    assert_eq!(mac.path.segments.len(), 2);
}
