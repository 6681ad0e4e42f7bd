use firefam::home_dir::IoError;
use firefam::home_dir::IoErrorKind;
use firefam::thread_store::persistence_unavailable_error;
use firefam::thread_store::recorder_init_error;
use firefam::thread_store::require_self_exe;
use firefam::thread_store::rollout_config_for;
use firefam::thread_store::RolloutConfig;
use firefam::thread_store::ThreadMemoryMode;
use firefam::thread_store::ThreadStoreError;

#[test]
fn rollout_config_requires_cwd() {
    let r = rollout_config_for(
        "/home/u/.agents".to_string(),
        "/home/u/.agents".to_string(),
        None,
        "openai".to_string(),
        ThreadMemoryMode::Enabled,
    );
    assert_eq!(
        r,
        Err(ThreadStoreError::InvalidRequest {
            message: "local thread store requires a cwd".to_string()
        })
    );
}

#[test]
fn rollout_config_generates_memories_only_when_enabled() {
    let enabled = rollout_config_for(
        "/h".to_string(),
        "/s".to_string(),
        Some("/work".to_string()),
        "openai".to_string(),
        ThreadMemoryMode::Enabled,
    );
    assert_eq!(
        enabled,
        Ok(RolloutConfig {
            firefam_home: "/h".to_string(),
            sqlite_home: "/s".to_string(),
            cwd: "/work".to_string(),
            model_provider_id: "openai".to_string(),
            generate_memories: true,
        })
    );
    let disabled = rollout_config_for(
        "/h".to_string(),
        "/s".to_string(),
        Some("/work".to_string()),
        "openai".to_string(),
        ThreadMemoryMode::Disabled,
    )
    .unwrap();
    assert!(!disabled.generate_memories);
}

#[test]
fn store_error_messages() {
    assert_eq!(
        recorder_init_error("disk full"),
        ThreadStoreError::Internal {
            message: "failed to initialize local thread recorder: disk full".to_string()
        }
    );
    assert_eq!(
        persistence_unavailable_error("gone".to_string()),
        ThreadStoreError::Internal { message: "gone".to_string() }
    );
}

#[test]
fn self_exe_must_be_configured() {
    assert_eq!(require_self_exe(Some("/bin/firefam")), Ok("/bin/firefam"));
    assert_eq!(
        require_self_exe::<&str>(None),
        Err(IoError {
            kind: IoErrorKind::InvalidInput,
            message: "Firefam executable path is not configured".to_string(),
        })
    );
}
