use rudo::cli::{command_from_options, validate_visibility_args, wants_version, AppCommand, CommandOptions};

fn options(names: &[&str]) -> CommandOptions {
    let mut options = CommandOptions::new();
    for name in names {
        options.insert(name, true);
    }
    options
}

#[test]
fn no_visibility_option_means_show() {
    assert_eq!(
        command_from_options(&options(&[])).unwrap(),
        AppCommand::Show
    );
}

#[test]
fn toggle_option_is_recognized() {
    assert_eq!(
        command_from_options(&options(&["toggle"])).unwrap(),
        AppCommand::Toggle
    );
}

#[test]
fn visibility_options_are_mutually_exclusive() {
    let args = ["rudo", "--show", "--hide"].map(str::to_string).to_vec();
    assert!(validate_visibility_args(&args).is_err());
    assert!(command_from_options(&options(&["show", "hide"])).is_err());
}

#[test]
fn single_visibility_options_select_their_command() {
    assert_eq!(command_from_options(&options(&["hide"])).unwrap(), AppCommand::Hide);
    assert_eq!(command_from_options(&options(&["show"])).unwrap(), AppCommand::Show);
    let mut off = CommandOptions::new();
    off.insert("toggle", true);
    off.insert("toggle", false);
    assert!(!off.option_enabled("toggle"));
    assert_eq!(command_from_options(&off).unwrap(), AppCommand::Show);
    assert_eq!(
        command_from_options(&options(&["toggle", "show", "hide"])).unwrap_err(),
        "visibility options are mutually exclusive"
    );
}

#[test]
fn argument_checks() {
    let ok = ["rudo", "-t", "--other"].map(str::to_string).to_vec();
    assert!(validate_visibility_args(&ok).is_ok());
    let bad = ["rudo", "-s", "-H"].map(str::to_string).to_vec();
    assert_eq!(
        validate_visibility_args(&bad).unwrap_err(),
        "visibility options are mutually exclusive"
    );
    assert!(wants_version(&["rudo", "-V"].map(str::to_string).to_vec()));
    assert!(wants_version(&["rudo", "--version"].map(str::to_string).to_vec()));
    assert!(!wants_version(&["rudo", "-v"].map(str::to_string).to_vec()));
}
