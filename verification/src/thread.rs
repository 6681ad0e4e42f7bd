//! Decisions a thread makes around its session: the errors it reports, how
//! messages become pending input, and the out-of-band elicitation counter
//! that pauses the session while elicitations are open.
use vstd::prelude::*;

verus! {

/// Errors a thread reports to its callers.
#[derive(Debug, PartialEq, Eq)]
pub enum FirefamErr {
    /// The request was invalid; the message says why.
    InvalidRequest(String),
    /// An unrecoverable error.
    Fatal(String),
    /// The operation is not supported in this state.
    UnsupportedOperation(String),
}

/// The text an error displays.
pub open spec fn err_display(err: FirefamErr) -> Seq<char> {
    match err {
        FirefamErr::InvalidRequest(m) => m@,
        FirefamErr::Fatal(m) => "Fatal error: "@ + m@,
        FirefamErr::UnsupportedOperation(m) => "unsupported operation: "@ + m@,
    }
}

impl FirefamErr {
    /// The text this error displays.
    pub fn to_display_string(&self) -> (r: String)
        ensures
            r@ == err_display(*self),
    {
        match self {
            FirefamErr::InvalidRequest(m) => m.clone(),
            FirefamErr::Fatal(m) => {
                let mut s: String = String::from_str("Fatal error: ");
                s.append(m.as_str());
                s
            },
            FirefamErr::UnsupportedOperation(m) => {
                let mut s: String = String::from_str("unsupported operation: ");
                s.append(m.as_str());
                s
            },
        }
    }
}

/// The message shown when choosing an environment failed: the bare message
/// of an invalid request, the displayed error otherwise.
pub open spec fn environment_selection_message(err: FirefamErr) -> Seq<char> {
    match err {
        FirefamErr::InvalidRequest(m) => m@,
        _ => err_display(err),
    }
}

/// The message shown when choosing an environment failed.
pub fn environment_selection_error_message(err: FirefamErr) -> (r: String)
    ensures
        r@ == environment_selection_message(err),
{
    match err {
        FirefamErr::InvalidRequest(message) => message,
        err => err.to_display_string(),
    }
}

/// The phase of an assistant message.
#[derive(Clone, Copy, Debug, PartialEq, Eq, Structural)]
pub enum MessagePhase {
    Commentary,
    FinalAnswer,
}

/// One piece of a message's content.
#[derive(Debug, PartialEq, Eq)]
pub enum ContentItem {
    InputText { text: String },
    OutputText { text: String },
}

impl Clone for ContentItem {
    fn clone(&self) -> (r: Self)
        ensures
            r == *self,
    {
        match self {
            ContentItem::InputText { text } => ContentItem::InputText { text: text.clone() },
            ContentItem::OutputText { text } => ContentItem::OutputText { text: text.clone() },
        }
    }
}

/// An item of a thread's model-visible history.
#[derive(Debug, PartialEq, Eq)]
pub enum ResponseItem {
    /// A message from one role.
    Message {
        id: Option<String>,
        role: String,
        content: Vec<ContentItem>,
        phase: Option<MessagePhase>,
    },
    /// Any other kind of item (tool calls, reasoning, ...), by kind.
    Other { kind: String },
}

/// An item queued as input for the next turn.
#[derive(Debug, PartialEq, Eq)]
pub enum ResponseInputItem {
    Message { role: String, content: Vec<ContentItem>, phase: Option<MessagePhase> },
}

/// A copy of a message's content.
pub fn clone_content(v: &Vec<ContentItem>) -> (r: Vec<ContentItem>)
    ensures
        r@ == v@,
{
    let mut out: Vec<ContentItem> = Vec::new();
    let mut i: usize = 0;
    while i < v.len()
        invariant
            i <= v@.len(),
            out@ == v@.take(i as int),
        decreases v@.len() - i,
    {
        out.push(v[i].clone());
        i = i + 1;
        assert(out@ =~= v@.take(i as int));
    }
    assert(v@.take(i as int) =~= v@);
    out
}

/// The message `pending_message_input_item` refuses other items with.
pub open spec fn only_messages_text() -> Seq<char> {
    "append_message only supports ResponseItem::Message"@
}

/// A history message as pending input: its role, content and phase.
pub fn pending_message_input_item(message: &ResponseItem) -> (r: Result<
    ResponseInputItem,
    FirefamErr,
>)
    ensures
        match *message {
            ResponseItem::Message { role, content, phase, .. } => r matches Ok(
                ResponseInputItem::Message { role: r_role, content: r_content, phase: r_phase },
            ) && r_role == role && r_content@ == content@ && r_phase == phase,
            ResponseItem::Other { .. } => r matches Err(FirefamErr::InvalidRequest(m)) && m@
                == only_messages_text(),
        },
{
    match message {
        ResponseItem::Message { role, content, phase, .. } => Ok(
            ResponseInputItem::Message {
                role: role.clone(),
                content: clone_content(content),
                phase: *phase,
            },
        ),
        _ => Err(
            FirefamErr::InvalidRequest(
                String::from_str("append_message only supports ResponseItem::Message"),
            ),
        ),
    }
}

/// The user-role message recorded as a session prefix, outside any turn.
pub fn session_prefix_user_message(message: String) -> (r: ResponseItem)
    ensures
        r matches ResponseItem::Message { id, role, content, phase } && id is None && role@
            == "user"@ && content@.len() == 1 && content@[0] == (ContentItem::InputText {
            text: message,
        }) && phase is None,
{
    let mut content: Vec<ContentItem> = Vec::new();
    content.push(ContentItem::InputText { text: message });
    ResponseItem::Message { id: None, role: String::from_str("user"), content, phase: None }
}

/// The message `check_injected_items` refuses an empty list with.
pub open spec fn empty_items_text() -> Seq<char> {
    "items must not be empty"@
}

/// Raw items injected into a thread's history must not be an empty list.
pub fn check_injected_items(items: &Vec<ResponseItem>) -> (r: Result<(), FirefamErr>)
    ensures
        items@.len() == 0 <==> r is Err,
        r matches Err(e) ==> e matches FirefamErr::InvalidRequest(m) && m@ == empty_items_text(),
{
    if items.len() == 0 {
        return Err(FirefamErr::InvalidRequest(String::from_str("items must not be empty")));
    }
    Ok(())
}

/// How one step of the out-of-band elicitation counter went: the new count,
/// and whether the session must now be paused (`Some(true)`), resumed
/// (`Some(false)`), or left as it is (`None`).
#[derive(Clone, Copy, Debug, PartialEq, Eq)]
pub struct ElicitationStep {
    pub count: u64,
    pub pause: Option<bool>,
}

/// The message of the error that an increment past `u64::MAX` gives.
pub open spec fn overflow_text() -> Seq<char> {
    "out-of-band elicitation count overflowed"@
}

/// The message of the error that a decrement of zero gives.
pub open spec fn already_zero_text() -> Seq<char> {
    "out-of-band elicitation count is already zero"@
}

/// Count of the out-of-band elicitations open on a thread. The session is
/// paused exactly while the count is above zero.
#[derive(Debug, Default, PartialEq, Eq)]
pub struct ElicitationCounter {
    pub count: u64,
}

/// The step an increment of `count` takes: none past `u64::MAX`; otherwise
/// one more, pausing the session when the count leaves zero.
pub open spec fn increment_step(count: u64) -> Option<ElicitationStep> {
    if count == u64::MAX {
        None
    } else {
        Some(
            ElicitationStep {
                count: (count + 1) as u64,
                pause: if count == 0 {
                    Some(true)
                } else {
                    None
                },
            },
        )
    }
}

/// The step a decrement of `count` takes: none at zero; otherwise one less,
/// resuming the session when the count reaches zero.
pub open spec fn decrement_step(count: u64) -> Option<ElicitationStep> {
    if count == 0 {
        None
    } else {
        Some(
            ElicitationStep {
                count: (count - 1) as u64,
                pause: if count == 1 {
                    Some(false)
                } else {
                    None
                },
            },
        )
    }
}

impl ElicitationCounter {
    /// A counter at zero.
    pub fn new() -> (r: Self)
        ensures
            r.count == 0,
    {
        ElicitationCounter { count: 0 }
    }

    /// Count one more open elicitation. Going from zero to one pauses the
    /// session; counting past `u64::MAX` is a fatal error that leaves the
    /// count as it was.
    pub fn increment(&mut self) -> (r: Result<ElicitationStep, FirefamErr>)
        ensures
            match increment_step(old(self).count) {
                Some(step) => r == Ok::<ElicitationStep, FirefamErr>(step) && final(self).count
                    == step.count,
                None => final(self).count == old(self).count && (r matches Err(
                    FirefamErr::Fatal(m),
                ) && m@ == overflow_text()),
            },
    {
        let was_zero: bool = self.count == 0;
        if self.count == u64::MAX {
            return Err(
                FirefamErr::Fatal(String::from_str("out-of-band elicitation count overflowed")),
            );
        }
        self.count = self.count + 1;
        Ok(ElicitationStep { count: self.count, pause: if was_zero { Some(true) } else { None } })
    }

    /// Count one open elicitation less. Going from one to zero resumes the
    /// session; a count that is already zero is an invalid request and
    /// stays zero.
    pub fn decrement(&mut self) -> (r: Result<ElicitationStep, FirefamErr>)
        ensures
            match decrement_step(old(self).count) {
                Some(step) => r == Ok::<ElicitationStep, FirefamErr>(step) && final(self).count
                    == step.count,
                None => final(self).count == 0 && (r matches Err(FirefamErr::InvalidRequest(m))
                    && m@ == already_zero_text()),
            },
    {
        if self.count == 0 {
            return Err(
                FirefamErr::InvalidRequest(
                    String::from_str("out-of-band elicitation count is already zero"),
                ),
            );
        }
        self.count = self.count - 1;
        let now_zero: bool = self.count == 0;
        Ok(ElicitationStep { count: self.count, pause: if now_zero { Some(false) } else { None } })
    }
}

/// Whether a session whose elicitation count is `count` is paused.
pub open spec fn paused_for(count: u64) -> bool {
    count > 0
}

/// The pause state after a step: the one the step asks for, or the one
/// before where it asks for none.
pub open spec fn pause_after(before: bool, step: ElicitationStep) -> bool {
    match step.pause {
        Some(p) => p,
        None => before,
    }
}

/// Following the pause changes that the steps ask for keeps the session
/// paused exactly while elicitations are open.
pub proof fn lemma_pause_follows_count(count: u64)
    ensures
        increment_step(count) matches Some(up) ==> pause_after(paused_for(count), up)
            == paused_for(up.count),
        decrement_step(count) matches Some(down) ==> pause_after(paused_for(count), down)
            == paused_for(down.count),
{
}

/// An increment followed by a decrement returns the count to where it was,
/// and the two pause changes cancel.
pub proof fn lemma_increment_then_decrement_restores(count: u64)
    requires
        count < u64::MAX,
    ensures
        increment_step(count) matches Some(up) && decrement_step(up.count) matches Some(down)
            && down.count == count && pause_after(pause_after(paused_for(count), up), down)
            == paused_for(count),
{
}

/// A decrement followed by an increment returns the count to where it was,
/// and the two pause changes cancel.
pub proof fn lemma_decrement_then_increment_restores(count: u64)
    requires
        count > 0,
    ensures
        decrement_step(count) matches Some(down) && increment_step(down.count) matches Some(up)
            && up.count == count && pause_after(pause_after(paused_for(count), down), up)
            == paused_for(count),
{
}

/// The count, the pause state and the net number of successful increments
/// after running `ops` (`true` an increment, `false` a decrement) on a
/// counter at `count` with pause state `paused`. A refused step changes
/// nothing.
pub open spec fn run_ops(count: u64, paused: bool, ops: Seq<bool>) -> (u64, bool, int)
    decreases ops.len(),
{
    if ops.len() == 0 {
        (count, paused, 0)
    } else {
        let (c, p, net) = run_ops(count, paused, ops.drop_last());
        let step = if ops.last() {
            increment_step(c)
        } else {
            decrement_step(c)
        };
        match step {
            Some(st) => (st.count, pause_after(p, st), if ops.last() {
                net + 1
            } else {
                net - 1
            }),
            None => (c, p, net),
        }
    }
}

/// Over any run of increments and decrements from a counter whose pause
/// state matches it (such as a new counter, at zero and not paused), the
/// session is paused exactly while the count is above zero, and the count
/// moves by the successful increments less the successful decrements.
pub proof fn lemma_pause_follows_count_over_runs(count: u64, ops: Seq<bool>)
    ensures
        run_ops(count, paused_for(count), ops).1 == paused_for(run_ops(count, paused_for(count), ops).0),
        run_ops(count, paused_for(count), ops).0 == count + run_ops(count, paused_for(count), ops).2,
    decreases ops.len(),
{
    if ops.len() > 0 {
        lemma_pause_follows_count_over_runs(count, ops.drop_last());
        let c = run_ops(count, paused_for(count), ops.drop_last()).0;
        lemma_pause_follows_count(c);
    }
}

/// What recording a session-prefix message does next, once injecting it as
/// pending input of the active turn was tried.
#[derive(Clone, Copy, Debug, PartialEq, Eq, Structural)]
pub enum PrefixMessageStep {
    /// It was queued as pending input of the active turn: nothing more.
    Queued,
    /// There is no active turn: record it in a new default turn.
    RecordInNewTurn,
}

/// The step after trying to inject a session-prefix message.
pub fn prefix_message_step(injected: bool) -> (r: PrefixMessageStep)
    ensures
        r == (if injected {
            PrefixMessageStep::Queued
        } else {
            PrefixMessageStep::RecordInNewTurn
        }),
{
    if injected {
        PrefixMessageStep::Queued
    } else {
        PrefixMessageStep::RecordInNewTurn
    }
}

/// What appending a prebuilt message does next, once injecting it as
/// pending input of the active turn was tried.
#[derive(Clone, Copy, Debug, PartialEq, Eq, Structural)]
pub enum AppendMessageStep {
    /// It joined the active turn's pending input: nothing more.
    Injected,
    /// No turn is active: queue it for the next turn and start a turn for
    /// the pending work if none is running.
    QueueAndStartTurn,
}

/// The step after trying to inject an appended message into the active turn.
pub fn append_message_step(injected: bool) -> (r: AppendMessageStep)
    ensures
        r == (if injected {
            AppendMessageStep::Injected
        } else {
            AppendMessageStep::QueueAndStartTurn
        }),
{
    if injected {
        AppendMessageStep::Injected
    } else {
        AppendMessageStep::QueueAndStartTurn
    }
}

/// How raw items are injected into a thread's history.
#[derive(Clone, Copy, Debug, PartialEq, Eq, Structural)]
pub struct InjectionPlan {
    /// Record the context updates, and set the reference context item,
    /// before the items.
    pub record_context_first: bool,
}

/// The plan for injecting `items`: refused for an empty list; otherwise the
/// context updates are recorded first exactly when the session has no
/// reference context item yet.
pub fn injection_plan(items: &Vec<ResponseItem>, has_reference_context: bool) -> (r: Result<
    InjectionPlan,
    FirefamErr,
>)
    ensures
        items@.len() == 0 ==> (r matches Err(FirefamErr::InvalidRequest(m)) && m@ == empty_items_text()),
        items@.len() > 0 ==> r == Ok::<InjectionPlan, FirefamErr>(
            InjectionPlan { record_context_first: !has_reference_context },
        ),
{
    match check_injected_items(items) {
        Err(e) => Err(e),
        Ok(()) => Ok(InjectionPlan { record_context_first: !has_reference_context }),
    }
}

} // verus!
