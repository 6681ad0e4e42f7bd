//! Settings of the local thread store: the rollout configuration of a new
//! thread, and the errors the store reports.
use vstd::prelude::*;

use crate::home_dir::IoError;
use crate::home_dir::IoErrorKind;

verus! {

/// Whether a thread may feed future memory generation.
#[derive(Clone, Copy, Debug, PartialEq, Eq, Structural)]
pub enum ThreadMemoryMode {
    Enabled,
    Disabled,
}

/// Errors of the thread store.
#[derive(Debug, PartialEq, Eq)]
pub enum ThreadStoreError {
    InvalidRequest { message: String },
    Internal { message: String },
}

/// Where and how a new thread's rollout is recorded.
#[derive(Debug, PartialEq, Eq)]
pub struct RolloutConfig {
    pub firefam_home: String,
    pub sqlite_home: String,
    pub cwd: String,
    pub model_provider_id: String,
    pub generate_memories: bool,
}

/// The message of the error for a new thread without a working directory.
pub open spec fn missing_cwd_text() -> Seq<char> {
    "local thread store requires a cwd"@
}

/// The rollout configuration of a new local thread: the store's homes, the
/// thread's working directory (which the local store requires) and model
/// provider, and memory generation exactly when the thread's memory mode is
/// enabled.
pub fn rollout_config_for(
    firefam_home: String,
    sqlite_home: String,
    cwd: Option<String>,
    model_provider_id: String,
    memory_mode: ThreadMemoryMode,
) -> (r: Result<RolloutConfig, ThreadStoreError>)
    ensures
        match cwd {
            None => r matches Err(ThreadStoreError::InvalidRequest { message }) && message@
                == missing_cwd_text(),
            Some(c) => r == Ok::<RolloutConfig, ThreadStoreError>(
                RolloutConfig {
                    firefam_home,
                    sqlite_home,
                    cwd: c,
                    model_provider_id,
                    generate_memories: memory_mode == ThreadMemoryMode::Enabled,
                },
            ),
        },
{
    let cwd: String = match cwd {
        Some(c) => c,
        None => {
            return Err(
                ThreadStoreError::InvalidRequest {
                    message: String::from_str("local thread store requires a cwd"),
                },
            );
        },
    };
    Ok(
        RolloutConfig {
            firefam_home,
            sqlite_home,
            cwd,
            model_provider_id,
            generate_memories: match memory_mode {
                ThreadMemoryMode::Enabled => true,
                ThreadMemoryMode::Disabled => false,
            },
        },
    )
}

/// The error for a recorder that failed to start, with the failure's text.
pub fn recorder_init_error(err: &str) -> (r: ThreadStoreError)
    ensures
        r matches ThreadStoreError::Internal { message } && message@
            == "failed to initialize local thread recorder: "@ + err@,
{
    let mut m: String = String::from_str("failed to initialize local thread recorder: ");
    m.append(err);
    ThreadStoreError::Internal { message: m }
}

/// The error for a thread whose live persistence is unavailable, with the
/// failure's text.
pub fn persistence_unavailable_error(err: String) -> (r: ThreadStoreError)
    ensures
        r == (ThreadStoreError::Internal { message: err }),
{
    ThreadStoreError::Internal { message: err }
}

/// The message of the error for a runtime without a configured executable.
pub open spec fn missing_executable_text() -> Seq<char> {
    "Firefam executable path is not configured"@
}

/// The executable path that helper processes are launched from, which must
/// be configured; the error is invalid input with this message.
pub fn require_self_exe<P>(firefam_self_exe: Option<P>) -> (r: Result<P, IoError>)
    ensures
        match firefam_self_exe {
            Some(p) => r == Ok::<P, IoError>(p),
            None => r matches Err(e) && e.kind == IoErrorKind::InvalidInput && e.message@
                == missing_executable_text(),
        },
{
    match firefam_self_exe {
        Some(p) => Ok(p),
        None => Err(
            IoError {
                kind: IoErrorKind::InvalidInput,
                message: String::from_str("Firefam executable path is not configured"),
            },
        ),
    }
}

} // verus!
