//! Where the configuration home lives: the `AGENTS_HOME` environment
//! variable when it is set and non-empty, `~/.agents` otherwise, and the
//! errors for a home that the variable points to but that is unusable.
//!
//! Reading the environment and the file system is the caller's part; the
//! library decides from what was read.
use vstd::prelude::*;

verus! {

/// The environment variable that overrides the configuration home.
pub const AGENTS_HOME_ENV_VAR: &'static str = "AGENTS_HOME";

/// The directory under the user's home used when the variable is unset.
pub const DEFAULT_HOME_DIR_NAME: &'static str = ".agents";

/// The override from the environment: the variable's value, unless it is
/// unset or empty.
pub open spec fn home_override(raw: Option<String>) -> Option<String> {
    match raw {
        Some(v) => if v@.len() > 0 {
            Some(v)
        } else {
            None
        },
        None => None,
    }
}

/// The override from the raw value of `AGENTS_HOME`.
pub fn agents_home_env_value(raw: Option<String>) -> (r: Option<String>)
    ensures
        r == home_override(raw),
{
    match raw {
        Some(v) => if v.as_str().unicode_len() > 0 {
            Some(v)
        } else {
            None
        },
        None => None,
    }
}

/// The kinds of I/O error the home resolution distinguishes.
#[derive(Clone, Copy, Debug, PartialEq, Eq, Structural)]
pub enum IoErrorKind {
    NotFound,
    PermissionDenied,
    InvalidInput,
    InvalidData,
    Interrupted,
    Unsupported,
    Other,
}

/// An I/O error: its kind and its message.
#[derive(Debug, PartialEq, Eq)]
pub struct IoError {
    pub kind: IoErrorKind,
    pub message: String,
}

/// What reading the metadata of the overriding path gave.
#[derive(Debug, PartialEq, Eq)]
pub enum HomePathStatus {
    /// Reading the metadata failed, with this kind and displayed error.
    MetadataFailed { kind: IoErrorKind, error: String },
    /// The path exists but is no directory.
    NotDirectory,
    /// The path is a directory.
    Directory,
}

/// How `{:?}` renders a string: quoted, with escapes.
pub uninterp spec fn debug_str_of(s: Seq<char>) -> Seq<char>;

/// Renders `s` with `str`'s `Debug` implementation. Its result is named, not
/// stated: the escaping rules of `char::escape_debug` decide it, as a
/// function of `s` alone.
#[verifier::external_body]
fn debug_str(s: &str) -> (r: String)
    ensures
        r@ == debug_str_of(s@),
{
    format!("{s:?}")
}

/// The error for an overriding path, by what reading its metadata gave:
/// a missing path is "not found", another failure keeps its kind, a path
/// that is no directory is invalid input. A directory gives none.
pub open spec fn home_path_error(env_var: Seq<char>, val: Seq<char>, status: HomePathStatus) -> Option<
    (IoErrorKind, Seq<char>),
> {
    match status {
        HomePathStatus::MetadataFailed { kind, error } => if kind == IoErrorKind::NotFound {
            Some(
                (
                    IoErrorKind::NotFound,
                    env_var + " points to "@ + debug_str_of(val)
                        + ", but that path does not exist"@,
                ),
            )
        } else {
            Some((kind, "failed to read "@ + env_var + " "@ + debug_str_of(val) + ": "@ + error@))
        },
        HomePathStatus::NotDirectory => Some(
            (
                IoErrorKind::InvalidInput,
                env_var + " points to "@ + debug_str_of(val) + ", but that path is not a directory"@,
            ),
        ),
        HomePathStatus::Directory => None,
    }
}

/// Check the path that `env_var` (with value `val`) points to.
pub fn check_home_env_path(env_var: &str, val: &str, status: HomePathStatus) -> (r: Result<
    (),
    IoError,
>)
    ensures
        match home_path_error(env_var@, val@, status) {
            Some((kind, message)) => r matches Err(e) && e.kind == kind && e.message@ == message,
            None => r is Ok,
        },
{
    match status {
        HomePathStatus::MetadataFailed { kind, error } => {
            let quoted: String = debug_str(val);
            if kind == IoErrorKind::NotFound {
                let mut m: String = String::from_str(env_var);
                m.append(" points to ");
                m.append(quoted.as_str());
                m.append(", but that path does not exist");
                Err(IoError { kind: IoErrorKind::NotFound, message: m })
            } else {
                let mut m: String = String::from_str("failed to read ");
                m.append(env_var);
                m.append(" ");
                m.append(quoted.as_str());
                m.append(": ");
                m.append(error.as_str());
                Err(IoError { kind, message: m })
            }
        },
        HomePathStatus::NotDirectory => {
            let quoted: String = debug_str(val);
            let mut m: String = String::from_str(env_var);
            m.append(" points to ");
            m.append(quoted.as_str());
            m.append(", but that path is not a directory");
            Err(IoError { kind: IoErrorKind::InvalidInput, message: m })
        },
        HomePathStatus::Directory => Ok(()),
    }
}

/// The error when the overriding directory cannot be canonicalized: the
/// failure's kind, and a message naming the variable and its value.
pub fn canonicalize_error(env_var: &str, val: &str, kind: IoErrorKind, error: &str) -> (r:
    IoError)
    ensures
        r.kind == kind,
        r.message@ == "failed to canonicalize "@ + env_var@ + " "@ + debug_str_of(val@) + ": "@
            + error@,
{
    let quoted: String = debug_str(val);
    let mut m: String = String::from_str("failed to canonicalize ");
    m.append(env_var);
    m.append(" ");
    m.append(quoted.as_str());
    m.append(": ");
    m.append(error);
    IoError { kind, message: m }
}

} // verus!
