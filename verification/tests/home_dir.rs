use firefam::home_dir::agents_home_env_value;
use firefam::home_dir::canonicalize_error;
use firefam::home_dir::check_home_env_path;
use firefam::home_dir::IoError;
use firefam::home_dir::HomePathStatus;
use firefam::home_dir::IoErrorKind;
use firefam::home_dir::AGENTS_HOME_ENV_VAR;
use firefam::home_dir::DEFAULT_HOME_DIR_NAME;

#[test]
fn empty_or_missing_variable_gives_no_override() {
    assert_eq!(agents_home_env_value(None), None);
    assert_eq!(agents_home_env_value(Some(String::new())), None);
    assert_eq!(
        agents_home_env_value(Some("/srv/agents".to_string())),
        Some("/srv/agents".to_string())
    );
}

#[test]
fn names_of_variable_and_default_dir() {
    assert_eq!(AGENTS_HOME_ENV_VAR, "AGENTS_HOME");
    assert_eq!(DEFAULT_HOME_DIR_NAME, ".agents");
}

#[test]
fn missing_path_is_not_found_with_quoted_value() {
    let err = check_home_env_path(
        "AGENTS_HOME",
        "/tmp/missing-agents-home",
        HomePathStatus::MetadataFailed {
            kind: IoErrorKind::NotFound,
            error: "No such file or directory (os error 2)".to_string(),
        },
    )
    .unwrap_err();
    assert_eq!(err.kind, IoErrorKind::NotFound);
    assert_eq!(
        err.message,
        "AGENTS_HOME points to \"/tmp/missing-agents-home\", but that path does not exist"
    );
}

#[test]
fn file_path_is_invalid_input() {
    let err = check_home_env_path("AGENTS_HOME", "/tmp/agents-home.txt", HomePathStatus::NotDirectory)
        .unwrap_err();
    assert_eq!(err.kind, IoErrorKind::InvalidInput);
    assert!(err.message.contains("not a directory"));
    assert_eq!(
        err.message,
        "AGENTS_HOME points to \"/tmp/agents-home.txt\", but that path is not a directory"
    );
}

#[test]
fn other_metadata_failure_keeps_its_kind() {
    let err = check_home_env_path(
        "AGENTS_HOME",
        "/root/x",
        HomePathStatus::MetadataFailed {
            kind: IoErrorKind::PermissionDenied,
            error: "Permission denied (os error 13)".to_string(),
        },
    )
    .unwrap_err();
    assert_eq!(
        err,
        IoError {
            kind: IoErrorKind::PermissionDenied,
            message: "failed to read AGENTS_HOME \"/root/x\": Permission denied (os error 13)"
                .to_string(),
        }
    );
}

#[test]
fn directory_is_accepted() {
    assert_eq!(check_home_env_path("AGENTS_HOME", "/srv", HomePathStatus::Directory), Ok(()));
}

#[test]
fn quoting_escapes_special_characters() {
    let err = check_home_env_path("AGENTS_HOME", "a\"b\n", HomePathStatus::NotDirectory).unwrap_err();
    assert_eq!(
        err.message,
        "AGENTS_HOME points to \"a\\\"b\\n\", but that path is not a directory"
    );
}

#[test]
fn canonicalize_failure_message() {
    let err = canonicalize_error("AGENTS_HOME", "/srv", IoErrorKind::Other, "loop");
    assert_eq!(err.kind, IoErrorKind::Other);
    assert_eq!(err.message, "failed to canonicalize AGENTS_HOME \"/srv\": loop");
}
