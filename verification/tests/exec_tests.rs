use viddy::config::validate_interval;
use viddy::exec::{is_pwsh, prepare_command};
use viddy::store::Timestamp;

fn words(parts: &[&str]) -> Vec<String> {
    parts.iter().map(|s| s.to_string()).collect()
}

#[test]
fn direct_execution_splits_program_and_arguments() {
    let (program, args) = prepare_command(words(&["ls", "-l", "/tmp"]), None);
    assert_eq!(program, "ls");
    assert_eq!(args, words(&["-l", "/tmp"]));
}

#[test]
fn shell_execution_appends_dash_c_and_joined_command() {
    let (program, args) = prepare_command(
        words(&["ls", "-l"]),
        Some(("sh".to_string(), Vec::new())),
    );
    assert_eq!(program, "sh");
    assert_eq!(args, words(&["-c", "ls -l"]));
}

#[test]
fn shell_options_keep_existing_dash_c() {
    let (program, args) = prepare_command(
        words(&["date"]),
        Some(("bash".to_string(), words(&["--norc", "-c"]))),
    );
    assert_eq!(program, "bash");
    assert_eq!(args, words(&["--norc", "-c", "date"]));
}

#[test]
fn is_pwsh_only_for_powershell() {
    assert!(is_pwsh(&Some(("pwsh".to_string(), Vec::new()))));
    assert!(!is_pwsh(&Some(("sh".to_string(), Vec::new()))));
    assert!(!is_pwsh(&None));
}

#[test]
fn interval_floor_is_100ms() {
    assert!(!validate_interval(99));
    assert!(validate_interval(100));
    assert!(validate_interval(2000));
}

#[test]
fn timestamps_outside_range_are_rejected() {
    assert!(Timestamp::from_millis(-1).is_none());
    assert_eq!(
        Timestamp::from_millis(1700000000123).map(|t| t.millis),
        Some(1700000000123)
    );
}

#[test]
fn general_settings_carry_over_from_old_format() {
    let old = viddy::old_config::General {
        no_shell: Some(true),
        shell: Some("zsh".to_string()),
        shell_options: None,
        skip_empty_diffs: Some(true),
        disable_mouse: Some(true),
    };
    let general = viddy::config::General::from(old);
    assert_eq!(general.no_shell, Some(true));
    assert_eq!(general.shell, Some("zsh".to_string()));
    assert_eq!(general.shell_options, None);
    assert_eq!(general.skip_empty_diffs, Some(true));
}
