use xx_macros::case::Case;
use xx_macros::options::{Options, OptionsError};

fn words(ws: &[&str]) -> Vec<String> {
    ws.iter().map(|w| w.to_string()).collect()
}

#[test]
fn parse_no_options() {
    assert_eq!(
        Options::parse(&words(&[])),
        Ok(Options { defaults: false, display: false, case: None })
    );
}

#[test]
fn parse_defaults_display_snake() {
    assert_eq!(
        Options::parse(&words(&["defaults", "display", "snake"])),
        Ok(Options { defaults: true, display: true, case: Some(Case::Snake) })
    );
}

#[test]
fn parse_case_words() {
    assert_eq!(
        Options::parse(&words(&["lowercase", "defaults"])),
        Ok(Options { defaults: true, display: false, case: Some(Case::Flat) })
    );
    assert_eq!(
        Options::parse(&words(&["defaults", "kebab"])),
        Ok(Options { defaults: true, display: false, case: Some(Case::Kebab) })
    );
}

#[test]
fn duplicate_flag_is_refused() {
    assert_eq!(
        Options::parse(&words(&["display", "defaults", "display"])),
        Err(OptionsError::DuplicateOption { arg: 2 })
    );
    assert_eq!(
        Options::parse(&words(&["defaults", "defaults"])),
        Err(OptionsError::DuplicateOption { arg: 1 })
    );
}

#[test]
fn second_case_is_refused() {
    assert_eq!(
        Options::parse(&words(&["defaults", "snake", "kebab"])),
        Err(OptionsError::DuplicateCase { arg: 2 })
    );
    assert_eq!(
        Options::parse(&words(&["defaults", "snake", "snake"])),
        Err(OptionsError::DuplicateCase { arg: 2 })
    );
}

#[test]
fn unknown_word_is_refused() {
    assert_eq!(
        Options::parse(&words(&["defaults", "upper"])),
        Err(OptionsError::UnknownOption { arg: 1 })
    );
    assert_eq!(
        Options::parse(&words(&["Defaults"])),
        Err(OptionsError::UnknownOption { arg: 0 })
    );
}

#[test]
fn first_fault_is_reported() {
    assert_eq!(
        Options::parse(&words(&["bogus", "display", "display"])),
        Err(OptionsError::UnknownOption { arg: 0 })
    );
    assert_eq!(
        Options::parse(&words(&["kebab", "nope"])),
        Err(OptionsError::UnknownOption { arg: 1 })
    );
}

#[test]
fn case_needs_defaults() {
    assert_eq!(
        Options::parse(&words(&["lowercase"])),
        Err(OptionsError::CaseWithoutDefault)
    );
    assert_eq!(
        Options::parse(&words(&["display", "snake"])),
        Err(OptionsError::CaseWithoutDefault)
    );
}

#[test]
fn set_bool_refuses_second_time() {
    let mut flag = false;
    assert_eq!(Options::set_bool(&mut flag, 3), Ok(()));
    assert!(flag);
    assert_eq!(Options::set_bool(&mut flag, 4), Err(OptionsError::DuplicateOption { arg: 4 }));
    assert!(flag);
}

#[test]
fn set_case_keeps_first() {
    let mut o = Options::default();
    assert_eq!(o.set_case(0, Case::Snake), Ok(()));
    assert_eq!(o.set_case(1, Case::Kebab), Err(OptionsError::DuplicateCase { arg: 1 }));
    assert_eq!(o.case, Some(Case::Snake));
    assert_eq!(o.set_default(2), Ok(()));
    assert_eq!(o.set_display(3), Ok(()));
    assert_eq!(o.set_display(4), Err(OptionsError::DuplicateOption { arg: 4 }));
    assert_eq!(o, Options { defaults: true, display: true, case: Some(Case::Snake) });
}

#[test]
fn order_of_options_does_not_matter() {
    let a = Options::parse(&words(&["defaults", "display", "kebab"]));
    let b = Options::parse(&words(&["kebab", "defaults", "display"]));
    let c = Options::parse(&words(&["display", "kebab", "defaults"]));
    assert!(a.is_ok());
    assert_eq!(a, b);
    assert_eq!(a, c);
}
