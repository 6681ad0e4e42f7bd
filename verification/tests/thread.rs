use firefam::thread::check_injected_items;
use firefam::thread::environment_selection_error_message;
use firefam::thread::pending_message_input_item;
use firefam::thread::session_prefix_user_message;
use firefam::thread::ContentItem;
use firefam::thread::ElicitationCounter;
use firefam::thread::ElicitationStep;
use firefam::thread::append_message_step;
use firefam::thread::injection_plan;
use firefam::thread::AppendMessageStep;
use firefam::thread::prefix_message_step;
use firefam::thread::InjectionPlan;
use firefam::thread::PrefixMessageStep;
use firefam::thread::FirefamErr;
use firefam::thread::MessagePhase;
use firefam::thread::ResponseInputItem;
use firefam::thread::ResponseItem;

#[test]
fn environment_selection_uses_bare_invalid_request_message() {
    let msg = environment_selection_error_message(FirefamErr::InvalidRequest(
        "unknown environment `gpu`".to_string(),
    ));
    assert_eq!(msg, "unknown environment `gpu`");
}

#[test]
fn environment_selection_displays_other_errors() {
    assert_eq!(
        environment_selection_error_message(FirefamErr::Fatal("boom".to_string())),
        "Fatal error: boom"
    );
    assert_eq!(
        environment_selection_error_message(FirefamErr::UnsupportedOperation(
            "thread manager dropped".to_string()
        )),
        "unsupported operation: thread manager dropped"
    );
}

#[test]
fn display_string_of_each_error() {
    assert_eq!(FirefamErr::InvalidRequest("bad".to_string()).to_display_string(), "bad");
    assert_eq!(FirefamErr::Fatal("x".to_string()).to_display_string(), "Fatal error: x");
}

#[test]
fn pending_input_keeps_role_content_and_phase() {
    let message = ResponseItem::Message {
        id: Some("msg-1".to_string()),
        role: "assistant".to_string(),
        content: vec![ContentItem::OutputText { text: "done".to_string() }],
        phase: Some(MessagePhase::FinalAnswer),
    };
    let item = pending_message_input_item(&message).expect("message converts");
    assert_eq!(
        item,
        ResponseInputItem::Message {
            role: "assistant".to_string(),
            content: vec![ContentItem::OutputText { text: "done".to_string() }],
            phase: Some(MessagePhase::FinalAnswer),
        }
    );
}

#[test]
fn pending_input_rejects_non_messages() {
    let other = ResponseItem::Other { kind: "function_call".to_string() };
    assert_eq!(
        pending_message_input_item(&other),
        Err(FirefamErr::InvalidRequest(
            "append_message only supports ResponseItem::Message".to_string()
        ))
    );
}

#[test]
fn session_prefix_message_is_a_plain_user_message() {
    let item = session_prefix_user_message("hello".to_string());
    assert_eq!(
        item,
        ResponseItem::Message {
            id: None,
            role: "user".to_string(),
            content: vec![ContentItem::InputText { text: "hello".to_string() }],
            phase: None,
        }
    );
}

#[test]
fn injected_items_must_not_be_empty() {
    assert_eq!(
        check_injected_items(&Vec::new()),
        Err(FirefamErr::InvalidRequest("items must not be empty".to_string()))
    );
    let items = vec![ResponseItem::Other { kind: "reasoning".to_string() }];
    assert_eq!(check_injected_items(&items), Ok(()));
}

#[test]
fn first_elicitation_pauses_and_last_resumes() {
    let mut counter = ElicitationCounter::new();
    assert_eq!(counter.increment(), Ok(ElicitationStep { count: 1, pause: Some(true) }));
    assert_eq!(counter.increment(), Ok(ElicitationStep { count: 2, pause: None }));
    assert_eq!(counter.decrement(), Ok(ElicitationStep { count: 1, pause: None }));
    assert_eq!(counter.decrement(), Ok(ElicitationStep { count: 0, pause: Some(false) }));
    assert_eq!(counter.count, 0);
}

#[test]
fn decrement_at_zero_is_invalid() {
    let mut counter = ElicitationCounter::new();
    assert_eq!(
        counter.decrement(),
        Err(FirefamErr::InvalidRequest(
            "out-of-band elicitation count is already zero".to_string()
        ))
    );
    assert_eq!(counter.count, 0);
}

#[test]
fn increment_past_max_is_fatal_and_keeps_count() {
    let mut counter = ElicitationCounter { count: u64::MAX };
    assert_eq!(
        counter.increment(),
        Err(FirefamErr::Fatal("out-of-band elicitation count overflowed".to_string()))
    );
    assert_eq!(counter.count, u64::MAX);
}

#[test]
fn increment_then_decrement_restores_count() {
    let mut counter = ElicitationCounter { count: 7 };
    counter.increment().unwrap();
    counter.decrement().unwrap();
    assert_eq!(counter.count, 7);
}

#[test]
fn prefix_message_falls_back_to_a_new_turn() {
    assert_eq!(prefix_message_step(true), PrefixMessageStep::Queued);
    assert_eq!(prefix_message_step(false), PrefixMessageStep::RecordInNewTurn);
}

#[test]
fn injection_records_context_first_without_reference() {
    let items = vec![ResponseItem::Other { kind: "reasoning".to_string() }];
    assert_eq!(
        injection_plan(&items, false),
        Ok(InjectionPlan { record_context_first: true })
    );
    assert_eq!(
        injection_plan(&items, true),
        Ok(InjectionPlan { record_context_first: false })
    );
    assert_eq!(
        injection_plan(&Vec::new(), true),
        Err(FirefamErr::InvalidRequest("items must not be empty".to_string()))
    );
}

#[test]
fn pause_state_tracks_count_over_a_run() {
    let mut counter = ElicitationCounter::new();
    let mut paused = false;
    let ops = [true, true, false, false, false, true, false, true, true, false];
    for op in ops {
        let step = if op { counter.increment() } else { counter.decrement() };
        if let Ok(ElicitationStep { pause: Some(p), .. }) = step {
            paused = p;
        }
        assert_eq!(paused, counter.count > 0);
    }
    assert_eq!(counter.count, 1);
}

#[test]
fn appended_message_is_queued_without_active_turn() {
    assert_eq!(append_message_step(true), AppendMessageStep::Injected);
    assert_eq!(append_message_step(false), AppendMessageStep::QueueAndStartTurn);
}
