//! Built-in slash commands and which of them a given session offers.
use vstd::prelude::*;

verus! {

/// A built-in slash command. The order of the variants is the order in
/// which the command popup presents them.
#[derive(Clone, Copy, Debug, PartialEq, Eq, Hash, Structural)]
pub enum SlashCommand {
    Model,
    Permissions,
    ElevateSandbox,
    Experimental,
    Skills,
    Memories,
    Review,
    Rename,
    New,
    Resume,
    Fork,
    Side,
    Init,
    Compact,
    Plan,
    Collab,
    Goal,
    Agent,
    Diff,
    Copy,
    Mention,
    Status,
    DebugConfig,
    Statusline,
    Theme,
    Mcp,
    Apps,
    Plugins,
    Logout,
    Quit,
    Exit,
    Feedback,
    Ps,
    Clear,
    Personality,
    Realtime,
    Settings,
    DebugMemoryDrop,
    DebugMemoryUpdate,
}

/// The name typed after `/` to invoke a command.
pub open spec fn command_name(cmd: SlashCommand) -> Seq<char> {
    match cmd {
            SlashCommand::Model => "model"@,
            SlashCommand::Permissions => "permissions"@,
            SlashCommand::ElevateSandbox => "setup-default-sandbox"@,
            SlashCommand::Experimental => "experimental"@,
            SlashCommand::Skills => "skills"@,
            SlashCommand::Memories => "memories"@,
            SlashCommand::Review => "review"@,
            SlashCommand::Rename => "rename"@,
            SlashCommand::New => "new"@,
            SlashCommand::Resume => "resume"@,
            SlashCommand::Fork => "fork"@,
            SlashCommand::Side => "side"@,
            SlashCommand::Init => "init"@,
            SlashCommand::Compact => "compact"@,
            SlashCommand::Plan => "plan"@,
            SlashCommand::Collab => "collab"@,
            SlashCommand::Goal => "goal"@,
            SlashCommand::Agent => "agent"@,
            SlashCommand::Diff => "diff"@,
            SlashCommand::Copy => "copy"@,
            SlashCommand::Mention => "mention"@,
            SlashCommand::Status => "status"@,
            SlashCommand::DebugConfig => "debug-config"@,
            SlashCommand::Statusline => "statusline"@,
            SlashCommand::Theme => "theme"@,
            SlashCommand::Mcp => "mcp"@,
            SlashCommand::Apps => "apps"@,
            SlashCommand::Plugins => "plugins"@,
            SlashCommand::Logout => "logout"@,
            SlashCommand::Quit => "quit"@,
            SlashCommand::Exit => "exit"@,
            SlashCommand::Feedback => "feedback"@,
            SlashCommand::Ps => "ps"@,
            SlashCommand::Clear => "clear"@,
            SlashCommand::Personality => "personality"@,
            SlashCommand::Realtime => "realtime"@,
            SlashCommand::Settings => "settings"@,
            SlashCommand::DebugMemoryDrop => "debug-m-drop"@,
            SlashCommand::DebugMemoryUpdate => "debug-m-update"@,
    }
}

/// The one-line description shown beside a command.
pub open spec fn command_description(cmd: SlashCommand) -> Seq<char> {
    match cmd {
            SlashCommand::Model => "choose what model and reasoning effort to use"@,
            SlashCommand::Permissions => "choose what the agent is allowed to do"@,
            SlashCommand::ElevateSandbox => "set up the elevated agent sandbox"@,
            SlashCommand::Experimental => "toggle experimental features"@,
            SlashCommand::Skills => "use skills to improve how the agent performs specific tasks"@,
            SlashCommand::Memories => "configure memory generation and use"@,
            SlashCommand::Review => "review my current changes and find issues"@,
            SlashCommand::Rename => "rename the current thread"@,
            SlashCommand::New => "start a new chat during a conversation"@,
            SlashCommand::Resume => "resume a saved chat"@,
            SlashCommand::Fork => "fork the current chat"@,
            SlashCommand::Side => "start a side conversation"@,
            SlashCommand::Init => "create an AGENTS.md file with instructions for the agent"@,
            SlashCommand::Compact => "summarize conversation to prevent hitting the context limit"@,
            SlashCommand::Plan => "switch to Plan mode"@,
            SlashCommand::Collab => "change collaboration mode"@,
            SlashCommand::Goal => "set or clear the thread goal"@,
            SlashCommand::Agent => "switch the active agent thread"@,
            SlashCommand::Diff => "show git diff (including untracked files)"@,
            SlashCommand::Copy => "copy the latest agent output to your clipboard"@,
            SlashCommand::Mention => "mention a file"@,
            SlashCommand::Status => "show current session configuration and token usage"@,
            SlashCommand::DebugConfig => "show config layers and requirement sources for debugging"@,
            SlashCommand::Statusline => "configure which items appear in the status line"@,
            SlashCommand::Theme => "choose a syntax highlighting theme"@,
            SlashCommand::Mcp => "list configured MCP tools"@,
            SlashCommand::Apps => "manage apps"@,
            SlashCommand::Plugins => "browse and manage plugins"@,
            SlashCommand::Logout => "log out of Firefam"@,
            SlashCommand::Quit => "exit Firefam"@,
            SlashCommand::Exit => "exit Firefam"@,
            SlashCommand::Feedback => "send logs to maintainers"@,
            SlashCommand::Ps => "list background terminals"@,
            SlashCommand::Clear => "clear the terminal and start a new chat"@,
            SlashCommand::Personality => "choose a communication style for the agent"@,
            SlashCommand::Realtime => "toggle realtime voice mode"@,
            SlashCommand::Settings => "configure realtime microphone and speaker"@,
            SlashCommand::DebugMemoryDrop => "drop all stored memories (debugging only)"@,
            SlashCommand::DebugMemoryUpdate => "refresh stored memories now (debugging only)"@,
    }
}

/// Every built-in command, in presentation order.
pub open spec fn all_builtins() -> Seq<SlashCommand> {
    seq![
        SlashCommand::Model,
        SlashCommand::Permissions,
        SlashCommand::ElevateSandbox,
        SlashCommand::Experimental,
        SlashCommand::Skills,
        SlashCommand::Memories,
        SlashCommand::Review,
        SlashCommand::Rename,
        SlashCommand::New,
        SlashCommand::Resume,
        SlashCommand::Fork,
        SlashCommand::Side,
        SlashCommand::Init,
        SlashCommand::Compact,
        SlashCommand::Plan,
        SlashCommand::Collab,
        SlashCommand::Goal,
        SlashCommand::Agent,
        SlashCommand::Diff,
        SlashCommand::Copy,
        SlashCommand::Mention,
        SlashCommand::Status,
        SlashCommand::DebugConfig,
        SlashCommand::Statusline,
        SlashCommand::Theme,
        SlashCommand::Mcp,
        SlashCommand::Apps,
        SlashCommand::Plugins,
        SlashCommand::Logout,
        SlashCommand::Quit,
        SlashCommand::Exit,
        SlashCommand::Feedback,
        SlashCommand::Ps,
        SlashCommand::Clear,
        SlashCommand::Personality,
        SlashCommand::Realtime,
        SlashCommand::Settings,
        SlashCommand::DebugMemoryDrop,
        SlashCommand::DebugMemoryUpdate
    ]
}

/// The place of `cmd` in `all_builtins()`.
pub open spec fn builtin_position(cmd: SlashCommand) -> int {
    match cmd {
        SlashCommand::Model => 0,
        SlashCommand::Permissions => 1,
        SlashCommand::ElevateSandbox => 2,
        SlashCommand::Experimental => 3,
        SlashCommand::Skills => 4,
        SlashCommand::Memories => 5,
        SlashCommand::Review => 6,
        SlashCommand::Rename => 7,
        SlashCommand::New => 8,
        SlashCommand::Resume => 9,
        SlashCommand::Fork => 10,
        SlashCommand::Side => 11,
        SlashCommand::Init => 12,
        SlashCommand::Compact => 13,
        SlashCommand::Plan => 14,
        SlashCommand::Collab => 15,
        SlashCommand::Goal => 16,
        SlashCommand::Agent => 17,
        SlashCommand::Diff => 18,
        SlashCommand::Copy => 19,
        SlashCommand::Mention => 20,
        SlashCommand::Status => 21,
        SlashCommand::DebugConfig => 22,
        SlashCommand::Statusline => 23,
        SlashCommand::Theme => 24,
        SlashCommand::Mcp => 25,
        SlashCommand::Apps => 26,
        SlashCommand::Plugins => 27,
        SlashCommand::Logout => 28,
        SlashCommand::Quit => 29,
        SlashCommand::Exit => 30,
        SlashCommand::Feedback => 31,
        SlashCommand::Ps => 32,
        SlashCommand::Clear => 33,
        SlashCommand::Personality => 34,
        SlashCommand::Realtime => 35,
        SlashCommand::Settings => 36,
        SlashCommand::DebugMemoryDrop => 37,
        SlashCommand::DebugMemoryUpdate => 38,
    }
}

/// Every built-in command is listed, at its position.
pub proof fn lemma_every_command_listed(cmd: SlashCommand)
    ensures
        0 <= builtin_position(cmd) < all_builtins().len(),
        all_builtins()[builtin_position(cmd)] == cmd,
        all_builtins().contains(cmd),
{
    assert(all_builtins()[builtin_position(cmd)] == cmd);
}


impl SlashCommand {
    /// The name typed after `/` to invoke this command.
    pub fn command(&self) -> (r: &'static str)
        ensures
            r@ == command_name(*self),
    {
        match self {
            SlashCommand::Model => "model",
            SlashCommand::Permissions => "permissions",
            SlashCommand::ElevateSandbox => "setup-default-sandbox",
            SlashCommand::Experimental => "experimental",
            SlashCommand::Skills => "skills",
            SlashCommand::Memories => "memories",
            SlashCommand::Review => "review",
            SlashCommand::Rename => "rename",
            SlashCommand::New => "new",
            SlashCommand::Resume => "resume",
            SlashCommand::Fork => "fork",
            SlashCommand::Side => "side",
            SlashCommand::Init => "init",
            SlashCommand::Compact => "compact",
            SlashCommand::Plan => "plan",
            SlashCommand::Collab => "collab",
            SlashCommand::Goal => "goal",
            SlashCommand::Agent => "agent",
            SlashCommand::Diff => "diff",
            SlashCommand::Copy => "copy",
            SlashCommand::Mention => "mention",
            SlashCommand::Status => "status",
            SlashCommand::DebugConfig => "debug-config",
            SlashCommand::Statusline => "statusline",
            SlashCommand::Theme => "theme",
            SlashCommand::Mcp => "mcp",
            SlashCommand::Apps => "apps",
            SlashCommand::Plugins => "plugins",
            SlashCommand::Logout => "logout",
            SlashCommand::Quit => "quit",
            SlashCommand::Exit => "exit",
            SlashCommand::Feedback => "feedback",
            SlashCommand::Ps => "ps",
            SlashCommand::Clear => "clear",
            SlashCommand::Personality => "personality",
            SlashCommand::Realtime => "realtime",
            SlashCommand::Settings => "settings",
            SlashCommand::DebugMemoryDrop => "debug-m-drop",
            SlashCommand::DebugMemoryUpdate => "debug-m-update",
        }
    }

    /// The one-line description shown beside this command.
    pub fn description(&self) -> (r: &'static str)
        ensures
            r@ == command_description(*self),
    {
        match self {
            SlashCommand::Model => "choose what model and reasoning effort to use",
            SlashCommand::Permissions => "choose what the agent is allowed to do",
            SlashCommand::ElevateSandbox => "set up the elevated agent sandbox",
            SlashCommand::Experimental => "toggle experimental features",
            SlashCommand::Skills => "use skills to improve how the agent performs specific tasks",
            SlashCommand::Memories => "configure memory generation and use",
            SlashCommand::Review => "review my current changes and find issues",
            SlashCommand::Rename => "rename the current thread",
            SlashCommand::New => "start a new chat during a conversation",
            SlashCommand::Resume => "resume a saved chat",
            SlashCommand::Fork => "fork the current chat",
            SlashCommand::Side => "start a side conversation",
            SlashCommand::Init => "create an AGENTS.md file with instructions for the agent",
            SlashCommand::Compact => "summarize conversation to prevent hitting the context limit",
            SlashCommand::Plan => "switch to Plan mode",
            SlashCommand::Collab => "change collaboration mode",
            SlashCommand::Goal => "set or clear the thread goal",
            SlashCommand::Agent => "switch the active agent thread",
            SlashCommand::Diff => "show git diff (including untracked files)",
            SlashCommand::Copy => "copy the latest agent output to your clipboard",
            SlashCommand::Mention => "mention a file",
            SlashCommand::Status => "show current session configuration and token usage",
            SlashCommand::DebugConfig => "show config layers and requirement sources for debugging",
            SlashCommand::Statusline => "configure which items appear in the status line",
            SlashCommand::Theme => "choose a syntax highlighting theme",
            SlashCommand::Mcp => "list configured MCP tools",
            SlashCommand::Apps => "manage apps",
            SlashCommand::Plugins => "browse and manage plugins",
            SlashCommand::Logout => "log out of Firefam",
            SlashCommand::Quit => "exit Firefam",
            SlashCommand::Exit => "exit Firefam",
            SlashCommand::Feedback => "send logs to maintainers",
            SlashCommand::Ps => "list background terminals",
            SlashCommand::Clear => "clear the terminal and start a new chat",
            SlashCommand::Personality => "choose a communication style for the agent",
            SlashCommand::Realtime => "toggle realtime voice mode",
            SlashCommand::Settings => "configure realtime microphone and speaker",
            SlashCommand::DebugMemoryDrop => "drop all stored memories (debugging only)",
            SlashCommand::DebugMemoryUpdate => "refresh stored memories now (debugging only)",
        }
    }
}

/// Every built-in command, in presentation order.
pub fn all_builtin_commands() -> (v: Vec<SlashCommand>)
    ensures
        v@ == all_builtins(),
{
    let mut v: Vec<SlashCommand> = Vec::new();
    v.push(SlashCommand::Model);
    v.push(SlashCommand::Permissions);
    v.push(SlashCommand::ElevateSandbox);
    v.push(SlashCommand::Experimental);
    v.push(SlashCommand::Skills);
    v.push(SlashCommand::Memories);
    v.push(SlashCommand::Review);
    v.push(SlashCommand::Rename);
    v.push(SlashCommand::New);
    v.push(SlashCommand::Resume);
    v.push(SlashCommand::Fork);
    v.push(SlashCommand::Side);
    v.push(SlashCommand::Init);
    v.push(SlashCommand::Compact);
    v.push(SlashCommand::Plan);
    v.push(SlashCommand::Collab);
    v.push(SlashCommand::Goal);
    v.push(SlashCommand::Agent);
    v.push(SlashCommand::Diff);
    v.push(SlashCommand::Copy);
    v.push(SlashCommand::Mention);
    v.push(SlashCommand::Status);
    v.push(SlashCommand::DebugConfig);
    v.push(SlashCommand::Statusline);
    v.push(SlashCommand::Theme);
    v.push(SlashCommand::Mcp);
    v.push(SlashCommand::Apps);
    v.push(SlashCommand::Plugins);
    v.push(SlashCommand::Logout);
    v.push(SlashCommand::Quit);
    v.push(SlashCommand::Exit);
    v.push(SlashCommand::Feedback);
    v.push(SlashCommand::Ps);
    v.push(SlashCommand::Clear);
    v.push(SlashCommand::Personality);
    v.push(SlashCommand::Realtime);
    v.push(SlashCommand::Settings);
    v.push(SlashCommand::DebugMemoryDrop);
    v.push(SlashCommand::DebugMemoryUpdate);
    assert(v@ =~= all_builtins());
    v
}


/// Feature switches that decide which built-in commands a session offers.
#[derive(Clone, Copy, Debug, Default, PartialEq, Eq)]
pub struct BuiltinCommandFlags {
    pub collaboration_modes_enabled: bool,
    pub connectors_enabled: bool,
    pub plugins_command_enabled: bool,
    pub service_tier_commands_enabled: bool,
    pub goal_command_enabled: bool,
    pub personality_command_enabled: bool,
    pub realtime_conversation_enabled: bool,
    pub audio_device_selection_enabled: bool,
    pub allow_elevate_sandbox: bool,
    pub side_conversation_active: bool,
}

/// Whether a session with `flags` offers `cmd`.
pub open spec fn is_available(cmd: SlashCommand, flags: BuiltinCommandFlags) -> bool {
    match cmd {
        SlashCommand::Plan | SlashCommand::Collab => flags.collaboration_modes_enabled,
        SlashCommand::Apps => flags.connectors_enabled,
        SlashCommand::Plugins => flags.plugins_command_enabled,
        SlashCommand::Goal => flags.goal_command_enabled,
        SlashCommand::Personality => flags.personality_command_enabled,
        SlashCommand::Realtime => flags.realtime_conversation_enabled,
        SlashCommand::Settings => flags.realtime_conversation_enabled
            && flags.audio_device_selection_enabled,
        SlashCommand::ElevateSandbox => flags.allow_elevate_sandbox,
        SlashCommand::Side => !flags.side_conversation_active,
        _ => true,
    }
}

impl SlashCommand {
    /// Whether a session with `flags` offers this command.
    pub fn is_available(&self, flags: &BuiltinCommandFlags) -> (r: bool)
        ensures
            r == is_available(*self, *flags),
    {
        match self {
            SlashCommand::Plan | SlashCommand::Collab => flags.collaboration_modes_enabled,
            SlashCommand::Apps => flags.connectors_enabled,
            SlashCommand::Plugins => flags.plugins_command_enabled,
            SlashCommand::Goal => flags.goal_command_enabled,
            SlashCommand::Personality => flags.personality_command_enabled,
            SlashCommand::Realtime => flags.realtime_conversation_enabled,
            SlashCommand::Settings => flags.realtime_conversation_enabled
                && flags.audio_device_selection_enabled,
            SlashCommand::ElevateSandbox => flags.allow_elevate_sandbox,
            SlashCommand::Side => !flags.side_conversation_active,
            _ => true,
        }
    }
}

/// A service tier offered as a slash command, with the name and description
/// that the model catalog gives it.
#[derive(Debug, PartialEq, Eq)]
pub struct ServiceTierCommand {
    pub id: String,
    pub name: String,
    pub description: String,
}

impl Clone for ServiceTierCommand {
    fn clone(&self) -> (r: Self)
        ensures
            r == *self,
    {
        ServiceTierCommand {
            id: self.id.clone(),
            name: self.name.clone(),
            description: self.description.clone(),
        }
    }
}

/// A command that the composer accepts after `/`.
#[derive(Debug, PartialEq, Eq)]
pub enum SlashCommandItem {
    Builtin(SlashCommand),
    ServiceTier(ServiceTierCommand),
}

/// The commands of `s` that `flags` offers, in order.
pub open spec fn available_builtins(s: Seq<SlashCommand>, flags: BuiltinCommandFlags) -> Seq<
    SlashCommandItem,
>
    decreases s.len(),
{
    if s.len() == 0 {
        seq![]
    } else {
        let rest = available_builtins(s.drop_last(), flags);
        if is_available(s.last(), flags) {
            rest.push(SlashCommandItem::Builtin(s.last()))
        } else {
            rest
        }
    }
}

/// The service tiers as command items, in catalog order.
pub open spec fn tier_items(tiers: Seq<ServiceTierCommand>) -> Seq<SlashCommandItem> {
    tiers.map_values(|t: ServiceTierCommand| SlashCommandItem::ServiceTier(t))
}

/// The commands a session with `flags` offers: the available built-ins in
/// presentation order, with the catalog's service tiers, when enabled,
/// right after the first built-in (`/model`).
pub open spec fn commands_for(flags: BuiltinCommandFlags, tiers: Seq<ServiceTierCommand>) -> Seq<
    SlashCommandItem,
> {
    available_builtins(all_builtins().take(1), flags) + (if flags.service_tier_commands_enabled {
        tier_items(tiers)
    } else {
        seq![]
    }) + available_builtins(all_builtins().skip(1), flags)
}

/// The commands that the composer accepts for a session with `flags`.
pub fn commands_for_input(
    flags: BuiltinCommandFlags,
    service_tier_commands: &Vec<ServiceTierCommand>,
) -> (r: Vec<SlashCommandItem>)
    ensures
        r@ == commands_for(flags, service_tier_commands@),
{
    let all: Vec<SlashCommand> = all_builtin_commands();
    let n: usize = all.len();
    let mut out: Vec<SlashCommandItem> = Vec::new();
    let first: SlashCommand = all[0];
    if first.is_available(&flags) {
        out.push(SlashCommandItem::Builtin(first));
    }
    proof {
        let s1 = all_builtins().take(1);
        assert(s1 =~= seq![SlashCommand::Model]);
        assert(first == SlashCommand::Model);
        assert(s1.drop_last() =~= Seq::<SlashCommand>::empty());
        assert(available_builtins(s1.drop_last(), flags) =~= Seq::<SlashCommandItem>::empty());
        assert(out@ =~= available_builtins(s1, flags));
    }
    let ghost head = out@;
    if flags.service_tier_commands_enabled {
        let mut t: usize = 0;
        while t < service_tier_commands.len()
            invariant
                t <= service_tier_commands@.len(),
                out@ == head + tier_items(service_tier_commands@.take(t as int)),
            decreases service_tier_commands@.len() - t,
        {
            out.push(SlashCommandItem::ServiceTier(service_tier_commands[t].clone()));
            t = t + 1;
            assert(out@ =~= head + tier_items(service_tier_commands@.take(t as int)));
        }
        assert(service_tier_commands@.take(t as int) =~= service_tier_commands@);
    }
    let ghost mid = out@;
    assert(mid == available_builtins(all_builtins().take(1), flags) + (
    if flags.service_tier_commands_enabled {
        tier_items(service_tier_commands@)
    } else {
        seq![]
    }));
    let mut i: usize = 1;
    assert(all@.subrange(1, 1) =~= Seq::<SlashCommand>::empty());
    while i < n
        invariant
            n == all@.len(),
            all@ == all_builtins(),
            1 <= i <= n,
            out@ == mid + available_builtins(all@.subrange(1, i as int), flags),
        decreases n - i,
    {
        let cmd: SlashCommand = all[i];
        let ghost prev = all@.subrange(1, i as int);
        assert(all@.subrange(1, i + 1).drop_last() =~= prev);
        if cmd.is_available(&flags) {
            out.push(SlashCommandItem::Builtin(cmd));
        }
        i = i + 1;
        assert(out@ =~= mid + available_builtins(all@.subrange(1, i as int), flags));
    }
    assert(all@.subrange(1, n as int) =~= all_builtins().skip(1));
    out
}

/// The commands a session offers start with `/model`; when service tier
/// commands are enabled the catalog's tiers follow it, in catalog order,
/// and otherwise no tier is offered.
pub proof fn lemma_commands_start_with_model_then_tiers(
    flags: BuiltinCommandFlags,
    tiers: Seq<ServiceTierCommand>,
)
    ensures
        commands_for(flags, tiers)[0] == SlashCommandItem::Builtin(SlashCommand::Model),
        flags.service_tier_commands_enabled ==> forall|k: int|
            0 <= k < tiers.len() ==> commands_for(flags, tiers)[1 + k] == SlashCommandItem::ServiceTier(
                #[trigger] tiers[k],
            ),
        !flags.service_tier_commands_enabled ==> forall|k: int|
            0 <= k < commands_for(flags, tiers).len() ==> (#[trigger] commands_for(flags, tiers)[k]) is Builtin,
{
    let first = all_builtins().take(1);
    assert(first =~= seq![SlashCommand::Model]);
    assert(first.drop_last() =~= Seq::<SlashCommand>::empty());
    assert(first.last() == SlashCommand::Model);
    assert(available_builtins(first.drop_last(), flags) =~= Seq::<SlashCommandItem>::empty());
    assert(is_available(SlashCommand::Model, flags));
    let a = available_builtins(first, flags);
    assert(a =~= seq![SlashCommandItem::Builtin(SlashCommand::Model)]);
    let b = available_builtins(all_builtins().skip(1), flags);
    lemma_available_builtins_are_builtins(all_builtins().skip(1), flags);
    let s = commands_for(flags, tiers);
    if flags.service_tier_commands_enabled {
        assert(s == a + tier_items(tiers) + b);
        assert forall|k: int| 0 <= k < tiers.len() implies s[1 + k] == SlashCommandItem::ServiceTier(
            #[trigger] tiers[k],
        ) by {
            assert((a + tier_items(tiers))[1 + k] == tier_items(tiers)[k]);
        }
        assert(s[0] == a[0]);
    } else {
        assert(s =~= a + b);
        assert(s[0] == a[0]);
        assert forall|k: int| 0 <= k < s.len() implies (#[trigger] s[k]) is Builtin by {
            if k >= 1 {
                assert(s[k] == b[k - 1]);
            }
        }
    }
}

proof fn lemma_available_builtins_are_builtins(s: Seq<SlashCommand>, flags: BuiltinCommandFlags)
    ensures
        forall|k: int|
            0 <= k < available_builtins(s, flags).len() ==> (#[trigger] available_builtins(s, flags)[k]) is Builtin,
    decreases s.len(),
{
    if s.len() > 0 {
        lemma_available_builtins_are_builtins(s.drop_last(), flags);
        let r = available_builtins(s, flags);
        let rr = available_builtins(s.drop_last(), flags);
        assert forall|k: int| 0 <= k < r.len() implies (#[trigger] r[k]) is Builtin by {
            if k < rr.len() {
                assert(r[k] == rr[k]);
            }
        }
    }
}

} // verus!
