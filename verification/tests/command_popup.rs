use firefam::command_popup::CommandItem;
use firefam::command_popup::CommandPopup;
use firefam::command_popup::CommandPopupFlags;
use firefam::mention::MentionItem;
use firefam::slash_command::ServiceTierCommand;
use firefam::slash_command::SlashCommand;

fn skill_item(display_name: &str, skill_name: &str) -> MentionItem {
    MentionItem {
        display_name: display_name.to_string(),
        description: Some(format!("{display_name} skill")),
        insert_text: format!("${skill_name}"),
        search_terms: vec![skill_name.to_string(), display_name.to_string()],
        path: Some(format!("/tmp/{skill_name}/SKILL.md")),
        category_tag: Some("[Skill]".to_string()),
        sort_rank: 1,
    }
}

fn command_names(popup: &CommandPopup) -> Vec<String> {
    popup
        .filtered_items()
        .into_iter()
        .map(|item| match item {
            CommandItem::Builtin(cmd) => cmd.command().to_string(),
            CommandItem::ServiceTier(command) => command.name,
            CommandItem::Skill(skill) => skill.display_name,
        })
        .collect()
}

#[test]
fn filter_includes_init_when_typing_prefix() {
    let mut popup = CommandPopup::new(CommandPopupFlags::default(), Vec::new(), Vec::new());
    popup.on_composer_text_change("/in".to_string());

    let matches = popup.filtered_items();
    let has_init = matches.iter().any(|item| match item {
        CommandItem::Builtin(cmd) => cmd.command() == "init",
        CommandItem::ServiceTier(_) => false,
        CommandItem::Skill(_) => false,
    });
    assert!(
        has_init,
        "expected '/init' to appear among filtered commands"
    );
}

#[test]
fn selecting_init_by_exact_match() {
    let mut popup = CommandPopup::new(CommandPopupFlags::default(), Vec::new(), Vec::new());
    popup.on_composer_text_change("/init".to_string());

    let selected = popup.selected_item();
    match selected {
        Some(CommandItem::Builtin(cmd)) => assert_eq!(cmd.command(), "init"),
        Some(CommandItem::ServiceTier(command)) => {
            panic!("expected init command, got service tier {command:?}")
        }
        Some(CommandItem::Skill(skill)) => panic!("expected init command, got skill {skill:?}"),
        None => panic!("expected a selected command for exact match"),
    }
}

#[test]
fn model_is_first_suggestion_for_mo() {
    let mut popup = CommandPopup::new(CommandPopupFlags::default(), Vec::new(), Vec::new());
    popup.on_composer_text_change("/mo".to_string());
    let matches = popup.filtered_items();
    match matches.first() {
        Some(CommandItem::Builtin(cmd)) => assert_eq!(cmd.command(), "model"),
        Some(CommandItem::ServiceTier(command)) => {
            panic!("expected model command, got service tier {command:?}")
        }
        Some(CommandItem::Skill(skill)) => {
            panic!("expected model command, got skill {skill:?}")
        }
        None => panic!("expected at least one match for '/mo'"),
    }
}

#[test]
fn service_tier_command_uses_catalog_name_and_description() {
    let mut popup = CommandPopup::new(
        CommandPopupFlags {
            service_tier_commands_enabled: true,
            ..CommandPopupFlags::default()
        },
        vec![ServiceTierCommand {
            id: "priority".to_string(),
            name: "fast".to_string(),
            description: "Fastest inference with increased plan usage".to_string(),
        }],
        Vec::new(),
    );
    popup.on_composer_text_change("/fa".to_string());

    match popup.selected_item() {
        Some(CommandItem::ServiceTier(command)) => assert_eq!(
            command,
            ServiceTierCommand {
                id: "priority".to_string(),
                name: "fast".to_string(),
                description: "Fastest inference with increased plan usage".to_string(),
            }
        ),
        Some(CommandItem::Skill(skill)) => {
            panic!("expected fast service tier to be selected, got skill {skill:?}")
        }
        other => panic!("expected fast service tier to be selected, got {other:?}"),
    }
    let rows = popup.rows_from_matches(popup.filtered());
    assert_eq!(
        rows.first().and_then(|row| row.description.as_deref()),
        Some("Fastest inference with increased plan usage")
    );
}

#[test]
fn empty_filter_appends_skills_after_commands() {
    let mut popup = CommandPopup::new(
        CommandPopupFlags::default(),
        Vec::new(),
        vec![
            skill_item("Zed Skill", "zed"),
            skill_item("Alpha Skill", "alpha"),
        ],
    );
    popup.on_composer_text_change("/".to_string());

    let items = popup.filtered_items();
    let first_skill_idx = items
        .iter()
        .position(|item| matches!(item, CommandItem::Skill(_)))
        .expect("expected at least one skill item");

    assert!(first_skill_idx > 0);
    assert!(
        items[..first_skill_idx]
            .iter()
            .all(|item| !matches!(item, CommandItem::Skill(_))),
        "expected skills to be appended after commands, got {items:?}"
    );

    let skill_names = items[first_skill_idx..]
        .iter()
        .map(|item| match item {
            CommandItem::Skill(skill) => skill.display_name.clone(),
            other => panic!("expected only skill items after first skill, got {other:?}"),
        })
        .collect::<Vec<_>>();
    assert_eq!(
        skill_names,
        vec!["Alpha Skill".to_string(), "Zed Skill".to_string()]
    );
}

#[test]
fn skill_matches_are_available_in_slash_filter() {
    let mut popup = CommandPopup::new(
        CommandPopupFlags::default(),
        Vec::new(),
        vec![skill_item("Firefam Debugger", "firefam-debugger")],
    );
    popup.on_composer_text_change("/fire".to_string());

    match popup.selected_item() {
        Some(CommandItem::Skill(skill)) => {
            assert_eq!(skill.insert_text, "$firefam-debugger");
        }
        other => panic!("expected matching skill to be selected, got {other:?}"),
    }

    let rows = popup.rows_from_matches(popup.filtered());
    let row = rows.first().expect("expected one matching row");
    assert_eq!(row.name, "Firefam Debugger");
    assert_eq!(row.category_tag.as_deref(), Some("[Skill]"));
}

#[test]
fn filtered_commands_keep_presentation_order_for_prefix() {
    let mut popup = CommandPopup::new(CommandPopupFlags::default(), Vec::new(), Vec::new());
    popup.on_composer_text_change("/m".to_string());

    let cmds = command_names(&popup);
    assert_eq!(
        cmds,
        vec![
            "model".to_string(),
            "memories".to_string(),
            "mention".to_string(),
            "mcp".to_string()
        ]
    );
}

#[test]
fn prefix_filter_limits_matches_for_ac() {
    let mut popup = CommandPopup::new(CommandPopupFlags::default(), Vec::new(), Vec::new());
    popup.on_composer_text_change("/ac".to_string());

    let cmds = command_names(&popup);
    assert!(
        !cmds.iter().any(|cmd| cmd == "compact"),
        "expected prefix search for '/ac' to exclude 'compact', got {cmds:?}"
    );
}

#[test]
fn quit_hidden_in_empty_filter_but_shown_for_prefix() {
    let mut popup = CommandPopup::new(CommandPopupFlags::default(), Vec::new(), Vec::new());
    popup.on_composer_text_change("/".to_string());
    let items = popup.filtered_items();
    assert!(!items.contains(&CommandItem::Builtin(SlashCommand::Quit)));

    popup.on_composer_text_change("/qu".to_string());
    let items = popup.filtered_items();
    assert!(items.contains(&CommandItem::Builtin(SlashCommand::Quit)));
}

#[test]
fn plan_command_hidden_when_collaboration_modes_disabled() {
    let mut popup = CommandPopup::new(CommandPopupFlags::default(), Vec::new(), Vec::new());
    popup.on_composer_text_change("/".to_string());

    let cmds = command_names(&popup);
    assert!(
        !cmds.iter().any(|cmd| cmd == "plan"),
        "expected '/plan' to be hidden when collaboration modes are disabled, got {cmds:?}"
    );
}

#[test]
fn plan_command_visible_when_collaboration_modes_enabled() {
    let mut popup = CommandPopup::new(
        CommandPopupFlags {
            collaboration_modes_enabled: true,
            connectors_enabled: false,
            plugins_command_enabled: false,
            service_tier_commands_enabled: false,
            goal_command_enabled: false,
            personality_command_enabled: true,
            realtime_conversation_enabled: false,
            audio_device_selection_enabled: false,
            windows_degraded_sandbox_active: false,
            side_conversation_active: false,
        },
        Vec::new(),
        Vec::new(),
    );
    popup.on_composer_text_change("/plan".to_string());

    match popup.selected_item() {
        Some(CommandItem::Builtin(cmd)) => assert_eq!(cmd.command(), "plan"),
        Some(CommandItem::ServiceTier(command)) => {
            panic!("expected plan command, got service tier {command:?}")
        }
        Some(CommandItem::Skill(skill)) => panic!("expected plan command, got skill {skill:?}"),
        other => panic!("expected plan to be selected for exact match, got {other:?}"),
    }
}

#[test]
fn personality_command_hidden_when_disabled() {
    let mut popup = CommandPopup::new(
        CommandPopupFlags {
            collaboration_modes_enabled: true,
            connectors_enabled: false,
            plugins_command_enabled: false,
            service_tier_commands_enabled: false,
            goal_command_enabled: false,
            personality_command_enabled: false,
            realtime_conversation_enabled: false,
            audio_device_selection_enabled: false,
            windows_degraded_sandbox_active: false,
            side_conversation_active: false,
        },
        Vec::new(),
        Vec::new(),
    );
    popup.on_composer_text_change("/pers".to_string());

    let cmds = command_names(&popup);
    assert!(
        !cmds.iter().any(|cmd| cmd == "personality"),
        "expected '/personality' to be hidden when disabled, got {cmds:?}"
    );
}

#[test]
fn personality_command_visible_when_enabled() {
    let mut popup = CommandPopup::new(
        CommandPopupFlags {
            collaboration_modes_enabled: true,
            connectors_enabled: false,
            plugins_command_enabled: false,
            service_tier_commands_enabled: false,
            goal_command_enabled: false,
            personality_command_enabled: true,
            realtime_conversation_enabled: false,
            audio_device_selection_enabled: false,
            windows_degraded_sandbox_active: false,
            side_conversation_active: false,
        },
        Vec::new(),
        Vec::new(),
    );
    popup.on_composer_text_change("/personality".to_string());

    match popup.selected_item() {
        Some(CommandItem::Builtin(cmd)) => assert_eq!(cmd.command(), "personality"),
        Some(CommandItem::ServiceTier(command)) => {
            panic!("expected personality command, got service tier {command:?}")
        }
        Some(CommandItem::Skill(skill)) => {
            panic!("expected personality command, got skill {skill:?}")
        }
        other => panic!("expected personality to be selected for exact match, got {other:?}"),
    }
}

#[test]
fn settings_command_hidden_when_audio_device_selection_is_disabled() {
    let mut popup = CommandPopup::new(
        CommandPopupFlags {
            collaboration_modes_enabled: false,
            connectors_enabled: false,
            plugins_command_enabled: false,
            service_tier_commands_enabled: false,
            goal_command_enabled: false,
            personality_command_enabled: true,
            realtime_conversation_enabled: true,
            audio_device_selection_enabled: false,
            windows_degraded_sandbox_active: false,
            side_conversation_active: false,
        },
        Vec::new(),
        Vec::new(),
    );
    popup.on_composer_text_change("/aud".to_string());

    let cmds = command_names(&popup);
    assert!(
        !cmds.iter().any(|cmd| cmd == "settings"),
        "expected '/settings' to be hidden when audio device selection is disabled, got {cmds:?}"
    );
}

#[test]
fn debug_commands_are_hidden_from_popup() {
    let popup = CommandPopup::new(CommandPopupFlags::default(), Vec::new(), Vec::new());
    let cmds = command_names(&popup);

    assert!(
        !cmds.iter().any(|name| name.starts_with("debug")),
        "expected no /debug* command in popup menu, got {cmds:?}"
    );
}
