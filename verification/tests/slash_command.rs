use firefam::slash_command::all_builtin_commands;
use firefam::slash_command::commands_for_input;
use firefam::slash_command::BuiltinCommandFlags;
use firefam::slash_command::ServiceTierCommand;
use firefam::slash_command::SlashCommand;
use firefam::slash_command::SlashCommandItem;

fn names(items: &[SlashCommandItem]) -> Vec<String> {
    items
        .iter()
        .map(|item| match item {
            SlashCommandItem::Builtin(cmd) => cmd.command().to_string(),
            SlashCommandItem::ServiceTier(tier) => tier.name.clone(),
        })
        .collect()
}

#[test]
fn builtin_commands_start_with_model_and_include_every_command_once() {
    let all = all_builtin_commands();
    assert_eq!(all.len(), 39);
    assert_eq!(all[0], SlashCommand::Model);
    let mut seen: Vec<&str> = all.iter().map(|c| c.command()).collect();
    seen.sort();
    seen.dedup();
    assert_eq!(seen.len(), 39);
}

#[test]
fn command_names_and_descriptions() {
    assert_eq!(SlashCommand::ElevateSandbox.command(), "setup-default-sandbox");
    assert_eq!(SlashCommand::DebugMemoryDrop.command(), "debug-m-drop");
    assert_eq!(SlashCommand::Quit.description(), "exit Firefam");
    assert_eq!(SlashCommand::Mention.description(), "mention a file");
}

#[test]
fn availability_follows_flags() {
    let off = BuiltinCommandFlags::default();
    assert!(!SlashCommand::Plan.is_available(&off));
    assert!(!SlashCommand::Apps.is_available(&off));
    assert!(!SlashCommand::Settings.is_available(&off));
    assert!(SlashCommand::Side.is_available(&off));
    assert!(SlashCommand::Init.is_available(&off));
    let on = BuiltinCommandFlags {
        collaboration_modes_enabled: true,
        realtime_conversation_enabled: true,
        audio_device_selection_enabled: true,
        side_conversation_active: true,
        ..BuiltinCommandFlags::default()
    };
    assert!(SlashCommand::Plan.is_available(&on));
    assert!(SlashCommand::Settings.is_available(&on));
    assert!(!SlashCommand::Side.is_available(&on));
}

#[test]
fn settings_needs_both_realtime_and_audio_selection() {
    let only_realtime = BuiltinCommandFlags {
        realtime_conversation_enabled: true,
        ..BuiltinCommandFlags::default()
    };
    assert!(!SlashCommand::Settings.is_available(&only_realtime));
}

#[test]
fn service_tiers_follow_model_when_enabled() {
    let tiers = vec![ServiceTierCommand {
        id: "priority".to_string(),
        name: "fast".to_string(),
        description: "Fastest inference".to_string(),
    }];
    let flags = BuiltinCommandFlags {
        service_tier_commands_enabled: true,
        ..BuiltinCommandFlags::default()
    };
    let items = commands_for_input(flags, &tiers);
    let n = names(&items);
    assert_eq!(n[0], "model");
    assert_eq!(n[1], "fast");
    assert_eq!(n[2], "permissions");
}

#[test]
fn service_tiers_hidden_when_disabled() {
    let tiers = vec![ServiceTierCommand {
        id: "priority".to_string(),
        name: "fast".to_string(),
        description: "Fastest inference".to_string(),
    }];
    let items = commands_for_input(BuiltinCommandFlags::default(), &tiers);
    let n = names(&items);
    assert!(!n.contains(&"fast".to_string()));
    assert_eq!(n[0], "model");
    assert!(!n.contains(&"plan".to_string()));
    assert!(!n.contains(&"setup-default-sandbox".to_string()));
}
