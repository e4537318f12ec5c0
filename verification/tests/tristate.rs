use cbz_thumbnailer::TriState;

#[test]
fn tristate_defaults_to_auto() {
    assert_eq!(TriState::default(), TriState::Auto);
}

#[test]
fn or_takes_the_value_only_for_auto() {
    assert!(TriState::Always.or(true));
    assert!(TriState::Always.or(false));
    assert!(!TriState::Never.or(true));
    assert!(!TriState::Never.or(false));
    assert!(TriState::Auto.or(true));
    assert!(!TriState::Auto.or(false));
}

#[test]
fn or_else_calls_the_function_only_for_auto() {
    assert!(TriState::Always.or_else(|| panic!("not to be called")));
    assert!(!TriState::Never.or_else(|| panic!("not to be called")));
    assert!(TriState::Auto.or_else(|| true));
    assert!(!TriState::Auto.or_else(|| false));
}

#[test]
fn then_some_gives_a_value_when_true() {
    assert_eq!(TriState::Always.then_some(|| panic!("not to be called"), || 7), Some(7));
    assert_eq!(
        TriState::Never.then_some(|| panic!("not to be called"), || -> u8 { panic!("nor this") }),
        None
    );
    assert_eq!(TriState::Auto.then_some(|| true, || 7), Some(7));
    assert_eq!(TriState::Auto.then_some(|| false, || -> u8 { panic!("not to be called") }), None);
}

#[test]
fn else_some_gives_a_value_when_false() {
    assert_eq!(
        TriState::Always.else_some(|| panic!("not to be called"), || -> u8 { panic!("nor this") }),
        None
    );
    assert_eq!(TriState::Never.else_some(|| panic!("not to be called"), || 7), Some(7));
    assert_eq!(TriState::Auto.else_some(|| true, || -> u8 { panic!("not to be called") }), None);
    assert_eq!(TriState::Auto.else_some(|| false, || 7), Some(7));
}
