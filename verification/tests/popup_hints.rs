use firefam::popup_hints::accept_cancel_hint_line;
use firefam::popup_hints::standard_popup_hint_line;
use firefam::popup_hints::standard_popup_hint_line_for_keymap;
use firefam::popup_hints::HintSpan;

fn text(s: &str) -> HintSpan<&'static str> {
    HintSpan::Text(s.to_string())
}

#[test]
fn accept_and_cancel_both_named() {
    let line = accept_cancel_hint_line(Some("enter"), "to confirm", Some("esc"), "to go back");
    assert_eq!(
        line,
        vec![
            text("Press "),
            HintSpan::Key("enter"),
            text(" to confirm or "),
            HintSpan::Key("esc"),
            text(" to go back"),
        ]
    );
}

#[test]
fn only_accept_named() {
    let line = accept_cancel_hint_line(Some("enter"), "to confirm", None, "to go back");
    assert_eq!(line, vec![text("Press "), HintSpan::Key("enter"), text(" to confirm")]);
}

#[test]
fn only_cancel_named() {
    let line = accept_cancel_hint_line(None, "to confirm", Some("esc"), "to go back");
    assert_eq!(line, vec![text("Press "), HintSpan::Key("esc"), text(" to go back")]);
}

#[test]
fn no_keys_gives_empty_line() {
    let line: Vec<HintSpan<&str>> = accept_cancel_hint_line(None, "a", None, "b");
    assert!(line.is_empty());
}

#[test]
fn standard_footer() {
    let line = standard_popup_hint_line("enter", "tab", "esc");
    assert_eq!(
        line,
        vec![
            text("↑/↓ Navigate · "),
            HintSpan::Key("enter"),
            text(" Select · "),
            HintSpan::Key("tab"),
            text(" Complete · "),
            HintSpan::Key("esc"),
            text(" to cancel"),
        ]
    );
}

#[test]
fn keymap_footer_prefers_keymap_bindings() {
    let custom = standard_popup_hint_line_for_keymap(Some("ctrl-y"), Some("ctrl-g"), "enter", "tab", "esc");
    assert_eq!(custom[1], HintSpan::Key("ctrl-y"));
    assert_eq!(custom[5], HintSpan::Key("ctrl-g"));
    let fallback = standard_popup_hint_line_for_keymap(None, None, "enter", "tab", "esc");
    assert_eq!(fallback, standard_popup_hint_line("enter", "tab", "esc"));
}
