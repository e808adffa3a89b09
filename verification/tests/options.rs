use layout_helpers::test_options::{mono_test_options, AttrArg};

fn arg(name: &str, value: &str) -> AttrArg {
    AttrArg { name: name.to_owned(), value: value.to_owned() }
}

#[test]
fn options_by_default() {
    let options = mono_test_options(&[]);
    assert_eq!(options.mode, "exec");
    assert!(!options.no_check);
}

#[test]
fn mode_is_taken_from_the_arguments() {
    let options = mono_test_options(&[arg("mode", "test")]);
    assert_eq!(options.mode, "test");
    assert!(!options.no_check);
}

#[test]
fn last_mode_wins() {
    let options = mono_test_options(&[arg("mode", "test"), arg("other", "x"), arg("mode", "dev")]);
    assert_eq!(options.mode, "dev");
}

#[test]
fn no_check_counts_whatever_its_value() {
    let options = mono_test_options(&[arg("no_check", "because")]);
    assert!(options.no_check);
    assert_eq!(options.mode, "exec");
    let options = mono_test_options(&[arg("no_check", ""), arg("mode", "test")]);
    assert!(options.no_check);
    assert_eq!(options.mode, "test");
}

#[test]
fn other_names_are_passed_over() {
    let options = mono_test_options(&[arg("Mode", "test"), arg("nocheck", "x"), arg("", "")]);
    assert_eq!(options.mode, "exec");
    assert!(!options.no_check);
}
