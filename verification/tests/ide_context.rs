use firefam::ide_context::context_skipped_notice;
use firefam::ide_context::IdeContextOutcome;
use firefam::ide_context::IdeContextState;

#[test]
fn disabled_context_is_never_fetched_or_warned() {
    let mut st = IdeContextState::new();
    assert!(!st.is_enabled());
    assert_eq!(st.on_context_fetched(false), IdeContextOutcome::Disabled);
    assert_eq!(st, IdeContextState::new());
}

#[test]
fn failures_warn_once_until_a_fetch_succeeds() {
    let mut st = IdeContextState::new();
    st.set_enabled(true);
    assert_eq!(st.on_context_fetched(false), IdeContextOutcome::SkipWithWarning);
    assert_eq!(st.on_context_fetched(false), IdeContextOutcome::SkipSilently);
    assert_eq!(st.on_context_fetched(true), IdeContextOutcome::ApplyContext);
    assert_eq!(st.on_context_fetched(false), IdeContextOutcome::SkipWithWarning);
}

#[test]
fn mark_available_rearms_the_warning() {
    let mut st = IdeContextState { enabled: true, prompt_fetch_warned: true };
    st.mark_available();
    assert!(!st.prompt_fetch_warned);
    assert!(st.enabled);
}

#[test]
fn status_indicator_follows_enabled() {
    let mut st = IdeContextState::new();
    assert!(!st.sync_ide_context_status_indicator());
    st.set_enabled(true);
    assert!(st.sync_ide_context_status_indicator());
}

#[test]
fn skipped_notice_text() {
    assert_eq!(context_skipped_notice(), "IDE context was skipped for this message.");
}
