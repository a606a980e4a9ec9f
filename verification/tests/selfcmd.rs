use sluuz::commands::selfcmd::{checked, is_yes, latest_of, newer, run, Checked, Cmd, Step, UpdateArgs};

/// The check compares field by field, because a plain string compare puts
/// `0.9.9` above `0.10.0` and would tell everyone they are up to date.
#[test]
fn a_newer_release_is_recognised_field_by_field() {
    assert!(newer("0.10.0", "0.9.9"));
    assert!(newer("1.0.0", "0.9.9"));
    assert!(newer("0.4.2", "0.4.1"));
    assert!(!newer("0.4.1", "0.4.1"));
    assert!(!newer("0.4.0", "0.4.1"));
    assert!(!newer("0.9.9", "0.10.0"));
}

#[test]
fn a_longer_version_with_the_same_start_is_newer() {
    assert!(newer("1.2.0-1", "1.2.0"));
    assert!(!newer("1.2", "1.2.0"));
    assert!(newer("1.x.3", "1.0.2"));
}

#[test]
fn the_registry_listing_names_the_version() {
    let text = "other = \"9.9.9\"\nsluuz = \"0.7.1\"    # git superset\n";
    assert_eq!(latest_of(text), Ok("0.7.1".to_string()));
    assert_eq!(
        latest_of("nothing = \"1\"\n"),
        Err("the registry did not list `sluuz`".to_string())
    );
}

#[test]
fn an_update_asks_unless_told_yes() {
    assert_eq!(run(&Cmd::Update(UpdateArgs { yes: false })), Step::Confirm);
    assert_eq!(run(&Cmd::Update(UpdateArgs { yes: true })), Step::Install);
    assert_eq!(run(&Cmd::Check), Step::Check);
    assert!(is_yes(" Y \n"));
    assert!(is_yes("yes"));
    assert!(!is_yes(""));
    assert!(!is_yes("yep"));
}

#[test]
fn a_check_says_what_it_found() {
    assert!(matches!(checked(Ok("0.2.0".into()), "0.1.9"), Checked::Newer(v) if v == "0.2.0"));
    assert!(matches!(checked(Ok("0.1.9".into()), "0.1.9"), Checked::Latest));
    assert!(matches!(checked(Err("offline".into()), "0.1.9"), Checked::Unreachable(e) if e == "offline"));
}
