use firefam::command_popup::CommandItem;
use firefam::command_popup::CommandPopup;
use firefam::command_popup::CommandPopupFlags;
use firefam::mention::MentionItem;
use firefam::slash_command::SlashCommand;

fn skill(display_name: &str, name: &str) -> MentionItem {
    MentionItem {
        display_name: display_name.to_string(),
        description: Some("a skill".to_string()),
        insert_text: format!("${name}"),
        search_terms: vec![name.to_string()],
        path: None,
        category_tag: Some("[Skill]".to_string()),
        sort_rank: 1,
    }
}

fn selected_name(popup: &CommandPopup) -> Option<String> {
    popup.selected_item().map(|item| item.command().to_string())
}

#[test]
fn uppercase_filter_matches_ignoring_case() {
    let mut popup = CommandPopup::new(CommandPopupFlags::default(), Vec::new(), Vec::new());
    popup.on_composer_text_change("/IN".to_string());
    let names: Vec<String> =
        popup.filtered_items().iter().map(|i| i.command().to_string()).collect();
    assert_eq!(names, vec!["init".to_string()]);
}

#[test]
fn exact_match_comes_before_prefix_matches() {
    let mut popup = CommandPopup::new(CommandPopupFlags::default(), Vec::new(), Vec::new());
    popup.on_composer_text_change("/new".to_string());
    assert_eq!(selected_name(&popup), Some("new".to_string()));
}

#[test]
fn apps_hidden_even_with_connectors() {
    let flags = CommandPopupFlags { connectors_enabled: true, ..CommandPopupFlags::default() };
    let mut popup = CommandPopup::new(flags, Vec::new(), Vec::new());
    popup.on_composer_text_change("/ap".to_string());
    assert!(popup
        .filtered_items()
        .iter()
        .all(|i| *i != CommandItem::Builtin(SlashCommand::Apps)));
}

#[test]
fn moving_selection_wraps_around() {
    let mut popup = CommandPopup::new(CommandPopupFlags::default(), Vec::new(), Vec::new());
    popup.on_composer_text_change("/re".to_string());
    let names: Vec<String> =
        popup.filtered_items().iter().map(|i| i.command().to_string()).collect();
    assert_eq!(names, vec!["review".to_string(), "rename".to_string(), "resume".to_string()]);
    assert_eq!(selected_name(&popup), Some("review".to_string()));
    popup.move_down();
    assert_eq!(selected_name(&popup), Some("rename".to_string()));
    popup.move_up();
    popup.move_up();
    assert_eq!(selected_name(&popup), Some("resume".to_string()));
    popup.move_down();
    assert_eq!(selected_name(&popup), Some("review".to_string()));
}

#[test]
fn no_match_selects_nothing() {
    let mut popup = CommandPopup::new(CommandPopupFlags::default(), Vec::new(), Vec::new());
    popup.on_composer_text_change("/zzzz".to_string());
    assert!(popup.filtered_items().is_empty());
    assert_eq!(popup.selected_item(), None);
}

#[test]
fn text_without_slash_clears_filter() {
    let mut popup = CommandPopup::new(CommandPopupFlags::default(), Vec::new(), Vec::new());
    popup.on_composer_text_change("/init".to_string());
    popup.on_composer_text_change("hello".to_string());
    assert_eq!(selected_name(&popup), Some("model".to_string()));
}

#[test]
fn rows_show_slash_names_and_shifted_highlights() {
    let mut popup = CommandPopup::new(CommandPopupFlags::default(), Vec::new(), Vec::new());
    popup.on_composer_text_change("/ini".to_string());
    let rows = popup.rows_from_matches(popup.filtered());
    assert_eq!(rows.len(), 1);
    assert_eq!(rows[0].name, "/init");
    assert_eq!(rows[0].name_prefix, "");
    assert_eq!(rows[0].match_indices, Some(vec![1, 2, 3]));
    assert_eq!(
        rows[0].description,
        Some("create an AGENTS.md file with instructions for the agent".to_string())
    );
    assert_eq!(rows[0].category_tag, None);
    assert!(!rows[0].is_disabled);
}

#[test]
fn skill_rows_keep_highlights_and_show_tag() {
    let mut popup =
        CommandPopup::new(CommandPopupFlags::default(), Vec::new(), vec![skill("Zed Tools", "zed")]);
    popup.on_composer_text_change("/zed".to_string());
    let rows = popup.rows_from_matches(popup.filtered());
    assert_eq!(rows.len(), 1);
    assert_eq!(rows[0].name, "Zed Tools");
    assert_eq!(rows[0].name_prefix, "$");
    assert_eq!(rows[0].match_indices, Some(vec![0, 1, 2]));
    assert_eq!(rows[0].category_tag, Some("[Skill]".to_string()));
}

#[test]
fn set_skills_keeps_selection_in_range() {
    let mut popup = CommandPopup::new(
        CommandPopupFlags::default(),
        Vec::new(),
        vec![skill("Alpha", "alpha"), skill("Alps", "alps")],
    );
    popup.on_composer_text_change("/alp".to_string());
    popup.move_down();
    assert_eq!(selected_name(&popup), Some("alps".to_string()));
    popup.set_skills(vec![skill("Alpha", "alpha")]);
    assert_eq!(selected_name(&popup), Some("alpha".to_string()));
}

#[test]
fn item_accessors() {
    let builtin = CommandItem::Builtin(SlashCommand::Init);
    assert_eq!(builtin.slash_command_name(), Some("init"));
    assert_eq!(builtin.display_name(), "/init");
    assert_eq!(builtin.category_tag(), None);
    assert_eq!(builtin.match_indices(Some(vec![0, 2])), Some(vec![1, 3]));
    let sk = CommandItem::Skill(skill("Zed Tools", "zed"));
    assert_eq!(sk.command(), "zed");
    assert_eq!(sk.slash_command_name(), None);
    assert_eq!(sk.match_indices(Some(vec![0, 2])), Some(vec![0, 2]));
    assert_eq!(sk.description(), Some("a skill".to_string()));
}

#[test]
fn filtered_skills_rank_by_score() {
    let popup = CommandPopup::new(
        CommandPopupFlags::default(),
        Vec::new(),
        vec![skill("Hello World", "hw"), skill("Howdy", "howdy")],
    );
    let r = popup.filtered_skills("ho");
    let names: Vec<&str> = r.iter().map(|m| m.0.display_name.as_str()).collect();
    assert_eq!(names, vec!["Howdy", "Hello World"]);
    assert_eq!(r[1].2, -97);
    assert_eq!(r[0].1, Some(vec![0, 1]));
    assert_eq!(r[0].2, -100);
}

#[test]
fn upper_and_lower_case_filters_list_the_same() {
    let mut lower = CommandPopup::new(CommandPopupFlags::default(), Vec::new(), vec![skill("Review Helper", "rh")]);
    let mut upper = CommandPopup::new(CommandPopupFlags::default(), Vec::new(), vec![skill("Review Helper", "rh")]);
    lower.on_composer_text_change("/re".to_string());
    upper.on_composer_text_change("/RE".to_string());
    assert_eq!(lower.filtered(), upper.filtered());
}

#[test]
fn only_first_token_of_first_line_counts() {
    let mut a = CommandPopup::new(CommandPopupFlags::default(), Vec::new(), Vec::new());
    let mut b = CommandPopup::new(CommandPopupFlags::default(), Vec::new(), Vec::new());
    a.on_composer_text_change("/clear now\nx".to_string());
    b.on_composer_text_change("/clear".to_string());
    assert_eq!(a.filtered(), b.filtered());
    assert_eq!(a.selected_item(), b.selected_item());
    let mut c = CommandPopup::new(CommandPopupFlags::default(), Vec::new(), Vec::new());
    let mut d = CommandPopup::new(CommandPopupFlags::default(), Vec::new(), Vec::new());
    c.on_composer_text_change("hi /in".to_string());
    d.on_composer_text_change("/".to_string());
    assert_eq!(c.filtered(), d.filtered());
    assert_eq!(c.selected_item().is_some(), !c.filtered_items().is_empty());
}

#[test]
fn fresh_popup_lists_what_slash_lists() {
    let fresh = CommandPopup::new(CommandPopupFlags::default(), Vec::new(), Vec::new());
    let mut slashed = CommandPopup::new(CommandPopupFlags::default(), Vec::new(), Vec::new());
    slashed.on_composer_text_change("/".to_string());
    assert_eq!(fresh.selected_item(), None);
    assert_eq!(fresh.filtered(), slashed.filtered());
}

#[test]
fn new_skills_keep_command_part() {
    let mut popup = CommandPopup::new(CommandPopupFlags::default(), Vec::new(), vec![skill("Review Helper", "rh")]);
    popup.on_composer_text_change("/re".to_string());
    let before = popup.filtered_items();
    popup.set_skills(Vec::new());
    let after = popup.filtered_items();
    let commands: Vec<CommandItem> =
        before.into_iter().filter(|i| !matches!(i, CommandItem::Skill(_))).collect();
    assert_eq!(after, commands);
    assert_eq!(popup.selected_item().is_some(), !after.is_empty());
}

#[test]
fn down_then_up_restores_selected_item() {
    let mut popup = CommandPopup::new(CommandPopupFlags::default(), Vec::new(), Vec::new());
    popup.on_composer_text_change("/re".to_string());
    popup.move_down();
    let before = popup.selected_item();
    popup.move_down();
    popup.move_up();
    assert_eq!(popup.selected_item(), before);
}

#[test]
fn move_up_from_first_row_wraps_to_last() {
    let mut popup = CommandPopup::new(CommandPopupFlags::default(), Vec::new(), Vec::new());
    popup.on_composer_text_change("/re".to_string());
    let items = popup.filtered_items();
    assert_eq!(popup.selected_item(), Some(items[0].clone()));
    popup.move_up();
    assert_eq!(popup.filtered_items(), items);
    assert_eq!(popup.selected_item(), Some(items[items.len() - 1].clone()));
}
