//! Whether IDE context is folded into outgoing prompts, and when the user is
//! told that it was skipped.
use vstd::prelude::*;

verus! {

/// IDE context settings of the chat widget.
#[derive(Debug, Default, PartialEq, Eq)]
pub struct IdeContextState {
    pub enabled: bool,
    pub prompt_fetch_warned: bool,
}

/// What to do with an outgoing user turn once IDE context was fetched (or
/// failed to be).
#[derive(Clone, Copy, Debug, PartialEq, Eq, Structural)]
pub enum IdeContextOutcome {
    /// IDE context is off: leave the turn as it is and fetch nothing.
    Disabled,
    /// Fold the fetched context into the turn.
    ApplyContext,
    /// The fetch failed: send the turn without context and tell the user.
    SkipWithWarning,
    /// The fetch failed again: send the turn without context, silently.
    SkipSilently,
}

/// The state and outcome after a fetch that succeeded (`fetched`) or failed.
pub open spec fn context_step(st: IdeContextState, fetched: bool) -> (IdeContextState, IdeContextOutcome) {
    if !st.enabled {
        (st, IdeContextOutcome::Disabled)
    } else if fetched {
        (IdeContextState { enabled: true, prompt_fetch_warned: false }, IdeContextOutcome::ApplyContext)
    } else if !st.prompt_fetch_warned {
        (IdeContextState { enabled: true, prompt_fetch_warned: true }, IdeContextOutcome::SkipWithWarning)
    } else {
        (st, IdeContextOutcome::SkipSilently)
    }
}

impl IdeContextState {
    /// IDE context off, no warning given yet.
    pub fn new() -> (r: Self)
        ensures
            !r.enabled,
            !r.prompt_fetch_warned,
    {
        IdeContextState { enabled: false, prompt_fetch_warned: false }
    }

    /// Whether IDE context is folded into prompts.
    pub fn is_enabled(&self) -> (r: bool)
        ensures
            r == self.enabled,
    {
        self.enabled
    }

    /// Turn IDE context on or off.
    pub fn set_enabled(&mut self, enabled: bool)
        ensures
            final(self).enabled == enabled,
            final(self).prompt_fetch_warned == old(self).prompt_fetch_warned,
    {
        self.enabled = enabled;
    }

    /// Context was fetched: a later failure is worth a warning again.
    pub fn mark_available(&mut self)
        ensures
            final(self).enabled == old(self).enabled,
            !final(self).prompt_fetch_warned,
    {
        self.prompt_fetch_warned = false;
    }

    /// The value the status line's IDE context indicator is set to: active
    /// exactly while IDE context is enabled.
    pub fn sync_ide_context_status_indicator(&self) -> (r: bool)
        ensures
            r == self.enabled,
    {
        self.is_enabled()
    }

    /// Decide what to do with an outgoing turn after fetching IDE context.
    pub fn on_context_fetched(&mut self, fetched: bool) -> (r: IdeContextOutcome)
        ensures
            (*final(self), r) == context_step(*old(self), fetched),
    {
        if !self.is_enabled() {
            return IdeContextOutcome::Disabled;
        }
        if fetched {
            self.mark_available();
            IdeContextOutcome::ApplyContext
        } else if !self.prompt_fetch_warned {
            self.prompt_fetch_warned = true;
            IdeContextOutcome::SkipWithWarning
        } else {
            IdeContextOutcome::SkipSilently
        }
    }
}

/// The notice shown when IDE context was skipped for a message.
pub fn context_skipped_notice() -> (r: String)
    ensures
        r@ == "IDE context was skipped for this message."@,
{
    String::from_str("IDE context was skipped for this message.")
}

/// Two failed fetches in a row warn once: the second failure is silent.
pub proof fn lemma_warns_once_per_outage(st: IdeContextState)
    requires
        st.enabled,
    ensures
        context_step(context_step(st, false).0, false).1 == IdeContextOutcome::SkipSilently,
{
}

/// After a successful fetch, the next failure warns again.
pub proof fn lemma_success_rearms_warning(st: IdeContextState)
    requires
        st.enabled,
    ensures
        context_step(context_step(st, true).0, false).1 == IdeContextOutcome::SkipWithWarning,
{
}

/// With IDE context off, nothing is applied, nothing warned, nothing changes.
pub proof fn lemma_disabled_changes_nothing(st: IdeContextState, fetched: bool)
    requires
        !st.enabled,
    ensures
        context_step(st, fetched) == (st, IdeContextOutcome::Disabled),
{
}

/// With IDE context on, a successful fetch always folds the context into
/// the turn and re-arms the warning, whatever happened before; a failed
/// fetch never applies context, warns exactly when no warning was given
/// since the last success, and leaves the warning given.
pub proof fn lemma_fetch_outcomes(st: IdeContextState, fetched: bool)
    requires
        st.enabled,
    ensures
        fetched ==> context_step(st, fetched).1 == IdeContextOutcome::ApplyContext,
        fetched ==> !context_step(st, fetched).0.prompt_fetch_warned,
        !fetched ==> context_step(st, fetched).1 != IdeContextOutcome::ApplyContext,
        !fetched ==> (context_step(st, fetched).1 == IdeContextOutcome::SkipWithWarning
            <==> !st.prompt_fetch_warned),
        !fetched ==> context_step(st, fetched).0.prompt_fetch_warned,
        context_step(st, fetched).0.enabled,
{
}

} // verus!
