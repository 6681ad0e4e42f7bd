//! The slash-command popup: which commands and skills it lists for the text
//! in the composer, in which order, and which of them is selected.
use vstd::prelude::*;

use crate::mention::MentionItem;
use crate::mention::MentionMatch;
use crate::mention::MentionMatchView;
use crate::mention::MentionView;
use crate::mention::match_mention_item;
use crate::mention::mention_match;
use crate::mention::opt_indices_view;
use crate::mention::sort_mention_matches;
use crate::mention::sorted_by_rank;
use crate::scroll_state::ScrollState;
use crate::scroll_state::clamped_selection;
use crate::scroll_state::selection_down;
use crate::scroll_state::selection_up;
use crate::scroll_state::visible_top;
use crate::slash_command::SlashCommandItem;
use crate::slash_command::all_builtins;
use crate::slash_command::available_builtins;
use crate::slash_command::is_available;
use crate::slash_command::tier_items;
use crate::slash_command::commands_for;
use crate::slash_command::commands_for_input;
use crate::text::composer_filter;
use crate::text::composer_filter_of;
use crate::text::lowercase_of;
use crate::text::str_equal;
use crate::text::to_lowercase;
use crate::text::trim_of;
use crate::text::trim_str;
use crate::text::ascii_lower_char;
use crate::text::ascii_lowercase;
use crate::text::is_ascii_seq;
use crate::slash_command::BuiltinCommandFlags;
use crate::slash_command::ServiceTierCommand;
use crate::slash_command::SlashCommand;
use crate::slash_command::command_description;
use crate::slash_command::command_name;
use crate::text::str_starts_with;

verus! {

/// Maximum number of rows any popup should attempt to display.
pub const MAX_POPUP_ROWS: usize = 8;

/// A selectable item in the popup.
#[derive(Debug, PartialEq, Eq)]
pub enum CommandItem {
    Builtin(SlashCommand),
    ServiceTier(ServiceTierCommand),
    Skill(MentionItem),
}

/// A popup item with its skill seen through the skill's view.
pub enum CommandItemView {
    Builtin(SlashCommand),
    ServiceTier(ServiceTierCommand),
    Skill(MentionView),
}

impl View for CommandItem {
    type V = CommandItemView;

    open spec fn view(&self) -> CommandItemView {
        match self {
            CommandItem::Builtin(cmd) => CommandItemView::Builtin(*cmd),
            CommandItem::ServiceTier(command) => CommandItemView::ServiceTier(*command),
            CommandItem::Skill(skill) => CommandItemView::Skill(skill@),
        }
    }
}

impl Clone for CommandItem {
    fn clone(&self) -> (r: Self)
        ensures
            r@ == self@,
    {
        match self {
            CommandItem::Builtin(cmd) => CommandItem::Builtin(*cmd),
            CommandItem::ServiceTier(command) => CommandItem::ServiceTier(command.clone()),
            CommandItem::Skill(skill) => CommandItem::Skill(skill.clone()),
        }
    }
}

/// `s` without a leading `$`.
pub open spec fn strip_dollar(s: Seq<char>) -> Seq<char> {
    if s.len() > 0 && s[0] == '$' {
        s.drop_first()
    } else {
        s
    }
}

/// The text an item is matched by: the command name, the service tier's
/// name, or the skill's insert text without its leading `$`.
pub open spec fn item_command(item: CommandItemView) -> Seq<char> {
    match item {
        CommandItemView::Builtin(cmd) => command_name(cmd),
        CommandItemView::ServiceTier(command) => command.name@,
        CommandItemView::Skill(skill) => strip_dollar(skill.insert_text@),
    }
}

/// The name shown in the popup's row for an item.
pub open spec fn item_display_name(item: CommandItemView) -> Seq<char> {
    match item {
        CommandItemView::Builtin(cmd) => seq!['/'] + command_name(cmd),
        CommandItemView::ServiceTier(command) => seq!['/'] + command.name@,
        CommandItemView::Skill(skill) => skill.display_name@,
    }
}

/// The description shown in the popup's row for an item.
pub open spec fn item_description(item: CommandItemView) -> Option<Seq<char>> {
    match item {
        CommandItemView::Builtin(cmd) => Some(command_description(cmd)),
        CommandItemView::ServiceTier(command) => Some(command.description@),
        CommandItemView::Skill(skill) => match skill.description {
            Some(d) => Some(d@),
            None => None,
        },
    }
}

/// The view of an optional string.
pub open spec fn opt_string_view(o: Option<String>) -> Option<Seq<char>> {
    match o {
        Some(s) => Some(s@),
        None => None,
    }
}

/// Highlighted character positions in a row's name: shifted by one past the
/// leading `/` for commands, as given for skills.
pub open spec fn item_match_indices(item: CommandItemView, indices: Option<Seq<usize>>) -> Option<
    Seq<usize>,
> {
    match item {
        CommandItemView::Skill(_) => indices,
        _ => match indices {
            Some(v) => Some(v.map_values(|i: usize| (i + 1) as usize)),
            None => None,
        },
    }
}

impl CommandItem {
    /// The text this item is matched by.
    pub fn command(&self) -> (r: &str)
        ensures
            r@ == item_command(self@),
    {
        match self {
            CommandItem::Builtin(cmd) => cmd.command(),
            CommandItem::ServiceTier(command) => command.name.as_str(),
            CommandItem::Skill(skill) => {
                let text: &str = skill.insert_text.as_str();
                let n: usize = text.unicode_len();
                if n > 0 && text.get_char(0) == '$' {
                    let stripped: &str = text.substring_char(1, n);
                    assert(stripped@ =~= text@.drop_first());
                    stripped
                } else {
                    text
                }
            },
        }
    }

    /// The name typed after `/` to run this item; skills have none.
    pub fn slash_command_name(&self) -> (r: Option<&str>)
        ensures
            match self@ {
                CommandItemView::Skill(_) => r is None,
                _ => r matches Some(name) && name@ == item_command(self@),
            },
    {
        match self {
            CommandItem::Builtin(cmd) => Some(cmd.command()),
            CommandItem::ServiceTier(command) => Some(command.name.as_str()),
            CommandItem::Skill(_) => None,
        }
    }

    /// The name shown in this item's row: `/name` for commands, the display
    /// name for skills.
    pub fn display_name(&self) -> (r: String)
        ensures
            r@ == item_display_name(self@),
    {
        proof {
            reveal_strlit("/");
        }
        match self {
            CommandItem::Builtin(cmd) => {
                let mut s: String = String::from_str("/");
                s.append(cmd.command());
                s
            },
            CommandItem::ServiceTier(command) => {
                let mut s: String = String::from_str("/");
                s.append(command.name.as_str());
                s
            },
            CommandItem::Skill(skill) => skill.display_name.clone(),
        }
    }

    /// The text shown before the name: `$` for skills, nothing for commands.
    pub fn name_prefix(&self) -> (r: String)
        ensures
            r@ == match self@ {
                CommandItemView::Skill(_) => seq!['$'],
                _ => Seq::<char>::empty(),
            },
    {
        match self {
            CommandItem::Skill(_) => {
                let r: String = String::from_str("$");
                proof {
                    reveal_strlit("$");
                }
                r
            },
            _ => String::new(),
        }
    }

    /// Highlighted positions in this item's row name.
    pub fn match_indices(&self, indices: Option<Vec<usize>>) -> (r: Option<Vec<usize>>)
        requires
            shiftable((self@, opt_indices_view(indices))),
        ensures
            crate::mention::opt_indices_view(r) == item_match_indices(
                self@,
                crate::mention::opt_indices_view(indices),
            ),
    {
        match self {
            CommandItem::Skill(_) => indices,
            _ => match indices {
                Some(v) => {
                    let mut out: Vec<usize> = Vec::new();
                    let mut i: usize = 0;
                    while i < v.len()
                        invariant
                            i <= v@.len(),
                            forall|q: int| 0 <= q < v@.len() ==> v@[q] < usize::MAX,
                            out@ == v@.take(i as int).map_values(|x: usize| (x + 1) as usize),
                        decreases v@.len() - i,
                    {
                        out.push(v[i] + 1);
                        i = i + 1;
                        assert(out@ =~= v@.take(i as int).map_values(|x: usize| (x + 1) as usize));
                    }
                    assert(v@.take(i as int) =~= v@);
                    Some(out)
                },
                None => None,
            },
        }
    }

    /// The description shown in this item's row.
    pub fn description(&self) -> (r: Option<String>)
        ensures
            opt_string_view(r) == item_description(self@),
    {
        match self {
            CommandItem::Builtin(cmd) => Some(String::from_str(cmd.description())),
            CommandItem::ServiceTier(command) => Some(command.description.clone()),
            CommandItem::Skill(skill) => crate::mention::clone_opt_string(&skill.description),
        }
    }

    /// The tag shown at the end of this item's row: `[Skill]` for skills.
    pub fn category_tag(&self) -> (r: Option<String>)
        ensures
            match self@ {
                CommandItemView::Skill(_) => r matches Some(t) && t@ == "[Skill]"@,
                _ => r is None,
            },
    {
        match self {
            CommandItem::Skill(_) => Some(String::from_str("[Skill]")),
            _ => None,
        }
    }
}

/// Feature switches of the session that decide which commands the popup
/// offers.
#[derive(Clone, Copy, Debug, Default, PartialEq, Eq)]
pub struct CommandPopupFlags {
    pub collaboration_modes_enabled: bool,
    pub connectors_enabled: bool,
    pub plugins_command_enabled: bool,
    pub service_tier_commands_enabled: bool,
    pub goal_command_enabled: bool,
    pub personality_command_enabled: bool,
    pub realtime_conversation_enabled: bool,
    pub audio_device_selection_enabled: bool,
    pub windows_degraded_sandbox_active: bool,
    pub side_conversation_active: bool,
}

/// The command flags for a popup: the same switches, with the degraded
/// Windows sandbox allowing the sandbox elevation command.
pub open spec fn builtin_flags_of(value: CommandPopupFlags) -> BuiltinCommandFlags {
    BuiltinCommandFlags {
        collaboration_modes_enabled: value.collaboration_modes_enabled,
        connectors_enabled: value.connectors_enabled,
        plugins_command_enabled: value.plugins_command_enabled,
        service_tier_commands_enabled: value.service_tier_commands_enabled,
        goal_command_enabled: value.goal_command_enabled,
        personality_command_enabled: value.personality_command_enabled,
        realtime_conversation_enabled: value.realtime_conversation_enabled,
        audio_device_selection_enabled: value.audio_device_selection_enabled,
        allow_elevate_sandbox: value.windows_degraded_sandbox_active,
        side_conversation_active: value.side_conversation_active,
    }
}

impl From<CommandPopupFlags> for BuiltinCommandFlags {
    fn from(value: CommandPopupFlags) -> (r: Self) {
        BuiltinCommandFlags {
            collaboration_modes_enabled: value.collaboration_modes_enabled,
            connectors_enabled: value.connectors_enabled,
            plugins_command_enabled: value.plugins_command_enabled,
            service_tier_commands_enabled: value.service_tier_commands_enabled,
            goal_command_enabled: value.goal_command_enabled,
            personality_command_enabled: value.personality_command_enabled,
            realtime_conversation_enabled: value.realtime_conversation_enabled,
            audio_device_selection_enabled: value.audio_device_selection_enabled,
            allow_elevate_sandbox: value.windows_degraded_sandbox_active,
            side_conversation_active: value.side_conversation_active,
        }
    }
}

impl vstd::std_specs::convert::FromSpecImpl<CommandPopupFlags> for BuiltinCommandFlags {
    open spec fn obeys_from_spec() -> bool {
        true
    }

    open spec fn from_spec(v: CommandPopupFlags) -> Self {
        builtin_flags_of(v)
    }
}


/// The commands that the popup lists, from the commands the composer accepts:
/// every service tier, and every built-in but `/apps` and the debugging
/// commands (those whose name starts with `debug`).
pub open spec fn popup_items(s: Seq<SlashCommandItem>) -> Seq<CommandItemView>
    decreases s.len(),
{
    if s.len() == 0 {
        seq![]
    } else {
        let rest = popup_items(s.drop_last());
        match s.last() {
            SlashCommandItem::Builtin(cmd) => if !"debug"@.is_prefix_of(command_name(cmd)) && cmd
                != SlashCommand::Apps {
                rest.push(CommandItemView::Builtin(cmd))
            } else {
                rest
            },
            SlashCommandItem::ServiceTier(command) => rest.push(
                CommandItemView::ServiceTier(command),
            ),
        }
    }
}

/// The views of a list of popup items.
pub open spec fn items_view(s: Seq<CommandItem>) -> Seq<CommandItemView> {
    s.map_values(|c: CommandItem| c@)
}

/// A listed item with the character positions of its text that the filter
/// matched.
pub type CommandEntry = (CommandItem, Option<Vec<usize>>);

/// A listed item seen through its view.
pub type CommandEntryView = (CommandItemView, Option<Seq<usize>>);

/// The view of a listed item.
pub open spec fn entry_view(e: CommandEntry) -> CommandEntryView {
    (e.0@, opt_indices_view(e.1))
}

/// The views of a list of listed items.
pub open spec fn entries_view(s: Seq<CommandEntry>) -> Seq<CommandEntryView> {
    s.map_values(|e: CommandEntry| entry_view(e))
}

/// Commands that only alias another command (`/quit` for `/exit`); the
/// unfiltered list leaves them out.
pub open spec fn is_alias(item: CommandItemView) -> bool {
    item == CommandItemView::Builtin(SlashCommand::Quit)
}

/// The commands listed for an empty filter: all but the aliases, in order,
/// with nothing highlighted.
pub open spec fn unfiltered_entries(cmds: Seq<CommandItemView>) -> Seq<CommandEntryView>
    decreases cmds.len(),
{
    if cmds.len() == 0 {
        seq![]
    } else {
        let rest = unfiltered_entries(cmds.drop_last());
        if is_alias(cmds.last()) {
            rest
        } else {
            rest.push((cmds.last(), None))
        }
    }
}

/// The positions `0..n`: a match of the whole filter at the start of the text.
pub open spec fn leading_indices(n: nat) -> Seq<usize> {
    Seq::new(n, |i: int| i as usize)
}

/// Whether the lowercased text of `item` equals the lowercased filter `fl`
/// (`exact`), or else starts with it (not `exact`).
pub open spec fn entry_hits(item: CommandItemView, fl: Seq<char>, exact: bool) -> bool {
    let lowered = lowercase_of(item_command(item));
    if exact {
        lowered == fl
    } else {
        lowered != fl && fl.is_prefix_of(lowered)
    }
}

/// The commands whose lowercased text equals the lowercased filter `fl`
/// (`exact`), or else starts with it (not `exact`), in order, each with the
/// first `count` positions highlighted.
pub open spec fn matching_entries(
    cmds: Seq<CommandItemView>,
    fl: Seq<char>,
    count: nat,
    exact: bool,
) -> Seq<CommandEntryView>
    decreases cmds.len(),
{
    if cmds.len() == 0 {
        seq![]
    } else {
        let rest = matching_entries(cmds.drop_last(), fl, count, exact);
        if entry_hits(cmds.last(), fl, exact) {
            rest.push((cmds.last(), Some(leading_indices(count))))
        } else {
            rest
        }
    }
}

/// The commands listed for a (trimmed) filter: for an empty filter every
/// command but the aliases; otherwise the exact matches, then the prefix
/// matches, case-insensitively and in presentation order.
pub open spec fn command_entries(cmds: Seq<CommandItemView>, filter: Seq<char>) -> Seq<
    CommandEntryView,
> {
    if filter.len() == 0 {
        unfiltered_entries(cmds)
    } else {
        let fl = lowercase_of(filter);
        matching_entries(cmds, fl, filter.len(), true) + matching_entries(
            cmds,
            fl,
            filter.len(),
            false,
        )
    }
}

/// The skills that match `filter`, in skill order, with their index, the
/// highlighted positions of their name and their score.
pub open spec fn skill_matches(skills: Seq<MentionItem>, filter: Seq<char>) -> Seq<MentionMatchView>
    decreases skills.len(),
{
    if skills.len() == 0 {
        seq![]
    } else {
        let rest = skill_matches(skills.drop_last(), filter);
        match mention_match(skills.last()@, filter) {
            Some((ix, sc)) => rest.push(((skills.len() - 1) as usize, ix, sc)),
            None => rest,
        }
    }
}

/// A skill match as a listed skill with its score.
pub open spec fn skill_triple(skills: Seq<MentionItem>, m: MentionMatchView) -> (
    MentionView,
    Option<Seq<usize>>,
    i32,
) {
    (skills[m.0 as int]@, m.1, m.2)
}

/// The listed skills for a sequence of matches.
pub open spec fn triples_of(skills: Seq<MentionItem>, ms: Seq<MentionMatchView>) -> Seq<
    (MentionView, Option<Seq<usize>>, i32),
> {
    ms.map_values(|m: MentionMatchView| skill_triple(skills, m))
}

/// The views of listed skills with their scores.
pub open spec fn triples_view(s: Seq<(MentionItem, Option<Vec<usize>>, i32)>) -> Seq<
    (MentionView, Option<Seq<usize>>, i32),
> {
    s.map_values(|t: (MentionItem, Option<Vec<usize>>, i32)| skill_triple_view(t))
}

/// Listed skills as popup entries.
pub open spec fn skill_entries(t: Seq<(MentionView, Option<Seq<usize>>, i32)>) -> Seq<
    CommandEntryView,
> {
    t.map_values(|x: (MentionView, Option<Seq<usize>>, i32)| skill_entry(x))
}

/// `out` lists the skills that match `filter`, each once, ordered by
/// `ranks_before`.
pub open spec fn is_skill_listing(
    out: Seq<(MentionView, Option<Seq<usize>>, i32)>,
    skills: Seq<MentionItem>,
    filter: Seq<char>,
) -> bool {
    exists|ms: Seq<MentionMatchView>|
        {
            &&& #[trigger] ms.to_multiset() == skill_matches(skills, filter).to_multiset()
            &&& sorted_by_rank(ms, skills, filter.len() > 0)
            &&& out == triples_of(skills, ms)
        }
}

/// A listed skill as a popup entry.
pub open spec fn skill_entry(t: (MentionView, Option<Seq<usize>>, i32)) -> CommandEntryView {
    (CommandItemView::Skill(t.0), t.1)
}

/// The popup's entries for `filter`: the command entries followed by the
/// matching skills in rank order.
pub open spec fn is_popup_listing(
    out: Seq<CommandEntryView>,
    cmds: Seq<CommandItemView>,
    skills: Seq<MentionItem>,
    filter: Seq<char>,
) -> bool {
    let c = command_entries(cmds, filter);
    &&& out.len() == c.len() + skill_matches(skills, filter).len()
    &&& out.take(c.len() as int) == c
    &&& exists|t: Seq<(MentionView, Option<Seq<usize>>, i32)>|
        {
            &&& #[trigger] is_skill_listing(t, skills, filter)
            &&& out.skip(c.len() as int) == skill_entries(t)
        }
}

/// The view of a listed skill with its score.
pub open spec fn skill_triple_view(t: (MentionItem, Option<Vec<usize>>, i32)) -> (
    MentionView,
    Option<Seq<usize>>,
    i32,
) {
    (t.0@, opt_indices_view(t.1), t.2)
}


/// The items of a listing, without their highlights.
pub open spec fn entry_items(e: Seq<CommandEntryView>) -> Seq<CommandItemView> {
    e.map_values(|x: CommandEntryView| x.0)
}

/// The number of rows a popup shows at most for a list of `len` items.
pub open spec fn visible_rows(len: nat) -> usize {
    if MAX_POPUP_ROWS < len {
        MAX_POPUP_ROWS
    } else {
        len as usize
    }
}

/// The selection and scroll position after the list changed to `len`
/// items: the selection clamped into the list, then scrolled into view.
pub open spec fn refreshed_state(st: ScrollState, len: nat) -> ScrollState {
    let sel = clamped_selection(st.selected_idx, len as usize);
    let top = if len == 0 {
        0
    } else {
        st.scroll_top
    };
    ScrollState {
        selected_idx: sel,
        scroll_top: visible_top(top, sel, len as usize, visible_rows(len)),
    }
}

/// The selection and scroll position after a wrapping move (`up` or down)
/// in a list of `len` items.
pub open spec fn moved_state(st: ScrollState, len: nat, up: bool) -> ScrollState {
    let sel = if up {
        selection_up(st.selected_idx, len as usize)
    } else {
        selection_down(st.selected_idx, len as usize)
    };
    let top = if len == 0 {
        0
    } else {
        st.scroll_top
    };
    ScrollState {
        selected_idx: sel,
        scroll_top: visible_top(top, sel, len as usize, visible_rows(len)),
    }
}

/// The item at the selection, if the selection lies within `items`.
pub open spec fn selected_of(items: Seq<CommandItemView>, sel: Option<usize>) -> Option<
    CommandItemView,
> {
    match sel {
        Some(i) => if i < items.len() {
            Some(items[i as int])
        } else {
            None
        },
        None => None,
    }
}

/// The view of an optional item.
pub open spec fn opt_item_view(o: Option<CommandItem>) -> Option<CommandItemView> {
    match o {
        Some(item) => Some(item@),
        None => None,
    }
}

/// A row of the popup as the renderer draws it.
#[derive(Debug, PartialEq, Eq)]
pub struct CommandRow {
    pub name: String,
    pub name_prefix: String,
    pub match_indices: Option<Vec<usize>>,
    pub description: Option<String>,
    pub category_tag: Option<String>,
    pub is_disabled: bool,
    pub disabled_reason: Option<String>,
}

/// The row drawn for a listed item.
pub open spec fn row_matches_entry(row: CommandRow, e: CommandEntryView) -> bool {
    &&& row.name@ == item_display_name(e.0)
    &&& row.name_prefix@ == match e.0 {
        CommandItemView::Skill(_) => seq!['$'],
        _ => Seq::<char>::empty(),
    }
    &&& opt_indices_view(row.match_indices) == item_match_indices(e.0, e.1)
    &&& opt_string_view(row.description) == item_description(e.0)
    &&& opt_string_view(row.category_tag) == match e.0 {
        CommandItemView::Skill(_) => Some("[Skill]"@),
        _ => None,
    }
    &&& !row.is_disabled
    &&& row.disabled_reason is None
}

/// Highlights that can be shifted past the leading `/` of a command row.
pub open spec fn shiftable(e: CommandEntryView) -> bool {
    match e.0 {
        CommandItemView::Skill(_) => true,
        _ => match e.1 {
            Some(v) => forall|i: int| 0 <= i < v.len() ==> v[i] < usize::MAX,
            None => true,
        },
    }
}

/// The command popup: the commands it offers, the skills it may list, the
/// current filter and the selection.
pub struct CommandPopup {
    command_filter: String,
    commands: Vec<CommandItem>,
    skills: Vec<MentionItem>,
    state: ScrollState,
}

/// Whether no item of `items` is a skill.
pub open spec fn no_skills(items: Seq<CommandItemView>) -> bool {
    forall|k: int| 0 <= k < items.len() ==> !(#[trigger] items[k] is Skill)
}

/// The items listed for `cmds`, `skills` and `filter`: those of the one
/// listing `is_popup_listing` allows (see `lemma_popup_listing_is_unique`).
pub open spec fn listing_of(
    cmds: Seq<CommandItemView>,
    skills: Seq<MentionItem>,
    filter: Seq<char>,
) -> Seq<CommandItemView> {
    entry_items(choose|e: Seq<CommandEntryView>| is_popup_listing(e, cmds, skills, filter))
}

/// The items of `items` that are not skills, in order.
pub open spec fn non_skill_items(items: Seq<CommandItemView>) -> Seq<CommandItemView>
    decreases items.len(),
{
    if items.len() == 0 {
        seq![]
    } else if items.last() is Skill {
        non_skill_items(items.drop_last())
    } else {
        non_skill_items(items.drop_last()).push(items.last())
    }
}

/// The row after row `i` of `n` rows, wrapping from the last to the first.
pub open spec fn next_row(i: int, n: int) -> int {
    if i + 1 < n {
        i + 1
    } else {
        0
    }
}

/// The row before row `i` of `n` rows, wrapping from the first to the last.
pub open spec fn prev_row(i: int, n: int) -> int {
    if i > 0 {
        i - 1
    } else {
        n - 1
    }
}

/// Listed skills as popup items.
pub open spec fn skill_items_of(t: Seq<(MentionView, Option<Seq<usize>>, i32)>) -> Seq<
    CommandItemView,
> {
    t.map_values(|x: (MentionView, Option<Seq<usize>>, i32)| CommandItemView::Skill(x.0))
}

/// A copy of optional positions.
fn clone_indices(o: &Option<Vec<usize>>) -> (r: Option<Vec<usize>>)
    ensures
        opt_indices_view(r) == opt_indices_view(*o),
{
    match o {
        Some(v) => {
            let mut out: Vec<usize> = Vec::new();
            let mut i: usize = 0;
            while i < v.len()
                invariant
                    i <= v@.len(),
                    out@ == v@.take(i as int),
                decreases v@.len() - i,
            {
                out.push(v[i]);
                i = i + 1;
                assert(out@ =~= v@.take(i as int));
            }
            assert(v@.take(i as int) =~= v@);
            Some(out)
        },
        None => None,
    }
}

/// The positions `0..n`.
fn leading_range(n: usize) -> (r: Vec<usize>)
    ensures
        r@ == leading_indices(n as nat),
{
    let mut v: Vec<usize> = Vec::new();
    let mut i: usize = 0;
    while i < n
        invariant
            i <= n,
            v@ == leading_indices(i as nat),
        decreases n - i,
    {
        v.push(i);
        i = i + 1;
        assert(v@ =~= leading_indices(i as nat));
    }
    v
}

impl CommandPopup {
    /// A popup offers commands only, never skills, and holds no more skills
    /// than a `usize` counts.
    #[verifier::type_invariant]
    spec fn popup_invariant(self) -> bool {
        &&& self.skills@.len() <= usize::MAX
        &&& no_skills(items_view(self.commands@))
    }

    /// The items the popup lists for its current filter.
    pub closed spec fn listed_items(&self) -> Seq<CommandItemView> {
        listing_of(self.commands_view(), self.skills_view(), trim_of(self.filter_text()))
    }

    /// The text after `/` that narrows the list.
    pub closed spec fn filter_text(&self) -> Seq<char> {
        self.command_filter@
    }

    /// The commands the popup offers, in presentation order.
    pub closed spec fn commands_view(&self) -> Seq<CommandItemView> {
        items_view(self.commands@)
    }

    /// The skills the popup may list.
    pub closed spec fn skills_view(&self) -> Seq<MentionItem> {
        self.skills@
    }

    /// Selection and scroll position.
    pub closed spec fn scroll(&self) -> ScrollState {
        self.state
    }

    /// The number of entries listed for the current filter.
    pub open spec fn listed_len(&self) -> nat {
        let f = trim_of(self.filter_text());
        command_entries(self.commands_view(), f).len() + skill_matches(self.skills_view(), f).len()
    }

    /// A popup for a session with `flags`: it offers the commands the composer
    /// accepts, without `/apps` and the debugging commands, and lists
    /// `skills` where they match. The filter is empty and nothing is selected.
    pub fn new(
        flags: CommandPopupFlags,
        service_tier_commands: Vec<ServiceTierCommand>,
        skills: Vec<MentionItem>,
    ) -> (r: Self)
        ensures
            r.commands_view() == popup_items(
                commands_for(builtin_flags_of(flags), service_tier_commands@),
            ),
            r.skills_view() == skills@,
            r.skills_view().len() <= usize::MAX,
            r.filter_text() == Seq::<char>::empty(),
            r.scroll() == (ScrollState { selected_idx: None, scroll_top: 0 }),
    {
        let skill_count: usize = skills.len();
        assert(skills@.len() == skill_count);
        let builtin_flags: BuiltinCommandFlags = BuiltinCommandFlags::from(flags);
        let items: Vec<SlashCommandItem> = commands_for_input(builtin_flags, &service_tier_commands);
        let mut commands: Vec<CommandItem> = Vec::new();
        let mut i: usize = 0;
        while i < items.len()
            invariant
                i <= items@.len(),
                items_view(commands@) == popup_items(items@.take(i as int)),
            decreases items@.len() - i,
        {
            proof {
                assert(items@.take(i + 1).drop_last() =~= items@.take(i as int));
            }
            match &items[i] {
                SlashCommandItem::Builtin(cmd) => {
                    if !str_starts_with(cmd.command(), "debug") && *cmd != SlashCommand::Apps {
                        commands.push(CommandItem::Builtin(*cmd));
                    }
                },
                SlashCommandItem::ServiceTier(command) => {
                    commands.push(CommandItem::ServiceTier(command.clone()));
                },
            }
            i = i + 1;
            assert(items_view(commands@) =~= popup_items(items@.take(i as int)));
        }
        assert(items@.take(i as int) =~= items@);
        proof {
            lemma_popup_items_come_from(items@);
        }
        CommandPopup {
            command_filter: String::new(),
            commands,
            skills,
            state: ScrollState::new(),
        }
    }

    /// The skills that match `filter`, in rank order, with the highlighted
    /// positions of their names and their scores.
    pub fn filtered_skills(&self, filter: &str) -> (r: Vec<(MentionItem, Option<Vec<usize>>, i32)>)
        ensures
            is_skill_listing(triples_view(r@), self.skills_view(), filter@),
    {
        let skills: &Vec<MentionItem> = &self.skills;
        let mut matches: Vec<MentionMatch> = Vec::new();
        let mut idx: usize = 0;
        while idx < skills.len()
            invariant
                skills@ == self.skills_view(),
                idx <= skills@.len(),
                crate::mention::matches_view(matches@) == skill_matches(
                    skills@.take(idx as int),
                    filter@,
                ),
                forall|q: int| 0 <= q < matches@.len() ==> #[trigger] matches@[q].0 < idx,
            decreases skills@.len() - idx,
        {
            proof {
                assert(skills@.take(idx + 1).drop_last() =~= skills@.take(idx as int));
            }
            match match_mention_item(&skills[idx], filter) {
                Some((indices, score)) => {
                    matches.push((idx, indices, score));
                },
                None => {},
            }
            idx = idx + 1;
            assert(crate::mention::matches_view(matches@) =~= skill_matches(
                skills@.take(idx as int),
                filter@,
            ));
        }
        assert(skills@.take(idx as int) =~= skills@);
        sort_mention_matches(&mut matches, skills, filter);
        let ghost ms = crate::mention::matches_view(matches@);
        let mut out: Vec<(MentionItem, Option<Vec<usize>>, i32)> = Vec::new();
        let mut i: usize = 0;
        while i < matches.len()
            invariant
                skills@ == self.skills_view(),
                i <= matches@.len(),
                ms == crate::mention::matches_view(matches@),
                forall|q: int| 0 <= q < matches@.len() ==> #[trigger] matches@[q].0 < skills@.len(),
                out@.len() == i,
                triples_view(out@) == triples_of(skills@, ms.take(i as int)),
            decreases matches@.len() - i,
        {
            let m: &MentionMatch = &matches[i];
            let item: MentionItem = skills[m.0].clone();
            let indices: Option<Vec<usize>> = clone_indices(&m.1);
            proof {
                assert(ms[i as int] == crate::mention::match_view(matches@[i as int]));
                assert(skill_triple_view((item, indices, m.2)) == skill_triple(
                    skills@,
                    ms[i as int],
                ));
            }
            let ghost prev = out@;
            out.push((item, indices, m.2));
            proof {
                assert(out@ == prev.push((item, indices, m.2)));
                let lhs = triples_view(out@);
                let rhs = triples_of(skills@, ms.take(i + 1));
                let old_l = triples_view(prev);
                let old_r = triples_of(skills@, ms.take(i as int));
                assert(old_l == old_r);
                assert forall|k: int| 0 <= k < lhs.len() implies lhs[k] == rhs[k] by {
                    if k < i {
                        assert(out@[k] == prev[k]);
                        assert(lhs[k] == skill_triple_view(out@[k]));
                        assert(old_l[k] == skill_triple_view(prev[k]));
                        assert(lhs[k] == old_l[k]);
                        assert(rhs[k] == old_r[k]);
                    }
                }
                assert(lhs =~= rhs);
            }
            i = i + 1;
        }
        assert(ms.take(i as int) =~= ms);
        assert(triples_view(out@) == triples_of(skills@, ms));
        out
    }


    /// Whether `items` is the list of items shown for the current filter.
    pub open spec fn lists(&self, items: Seq<CommandItemView>) -> bool {
        exists|e: Seq<CommandEntryView>|
            {
                &&& #[trigger] is_popup_listing(
                    e,
                    self.commands_view(),
                    self.skills_view(),
                    trim_of(self.filter_text()),
                )
                &&& items == entry_items(e)
            }
    }

    /// The items listed for the current filter.
    pub fn filtered_items(&self) -> (r: Vec<CommandItem>)
        ensures
            self.lists(items_view(r@)),
            r@.len() == self.listed_len(),
            items_view(r@) == self.listed_items(),
            non_skill_items(self.listed_items()) == entry_items(
                command_entries(self.commands_view(), trim_of(self.filter_text())),
            ),
    {
        proof {
            use_type_invariant(self);
        }
        let entries: Vec<CommandEntry> = self.filtered();
        let ghost ev = entries_view(entries@);
        let mut out: Vec<CommandItem> = Vec::new();
        let mut i: usize = 0;
        while i < entries.len()
            invariant
                i <= entries@.len(),
                ev == entries_view(entries@),
                out@.len() == i,
                items_view(out@) == entry_items(ev.take(i as int)),
            decreases entries@.len() - i,
        {
            let ghost prev = out@;
            out.push(entries[i].0.clone());
            proof {
                let lhs = items_view(out@);
                let rhs = entry_items(ev.take(i + 1));
                assert forall|k: int| 0 <= k < lhs.len() implies lhs[k] == rhs[k] by {
                    if k < i {
                        assert(out@[k] == prev[k]);
                        assert(lhs[k] == items_view(prev)[k]);
                        assert(rhs[k] == entry_items(ev.take(i as int))[k]);
                    }
                }
                assert(lhs =~= rhs);
            }
            i = i + 1;
        }
        assert(ev.take(i as int) =~= ev);
        proof {
            let f = trim_of(self.filter_text());
            lemma_listing_of_matches(ev, self.commands_view(), self.skills_view(), f);
            lemma_non_skills_of_listing(ev, self.commands_view(), self.skills_view(), f);
        }
        out
    }

    /// The selected item, if the selection lies within the list.
    pub fn selected_item(&self) -> (r: Option<CommandItem>)
        ensures
            exists|items: Seq<CommandItemView>|
                #[trigger] self.lists(items) && opt_item_view(r) == selected_of(
                    items,
                    self.scroll().selected_idx,
                ),
            opt_item_view(r) == selected_of(self.listed_items(), self.scroll().selected_idx),
    {
        let matches: Vec<CommandItem> = self.filtered_items();
        let r: Option<CommandItem> = match self.state.selected_idx {
            Some(idx) => if idx < matches.len() {
                Some(matches[idx].clone())
            } else {
                None
            },
            None => None,
        };
        assert(self.lists(items_view(matches@)) && opt_item_view(r) == selected_of(
            items_view(matches@),
            self.scroll().selected_idx,
        ));
        r
    }

    /// Clamp the selection into a list of `len` items and scroll it into view.
    fn refresh_state(&mut self, len: usize)
        ensures
            final(self).state == refreshed_state(old(self).state, len as nat),
            final(self).command_filter == old(self).command_filter,
            final(self).commands == old(self).commands,
            final(self).skills == old(self).skills,
    {
        proof {
            use_type_invariant(&*self);
        }
        let mut st: ScrollState = self.state;
        st.clamp_selection(len);
        let rows: usize = if MAX_POPUP_ROWS < len {
            MAX_POPUP_ROWS
        } else {
            len
        };
        st.ensure_visible(len, rows);
        self.state = st;
    }

    /// Replace the skills the popup may list, keeping the selection within
    /// the new list.
    pub fn set_skills(&mut self, skills: Vec<MentionItem>)
        ensures
            final(self).skills_view() == skills@,
            final(self).skills_view().len() <= usize::MAX,
            final(self).commands_view() == old(self).commands_view(),
            final(self).filter_text() == old(self).filter_text(),
            final(self).scroll() == refreshed_state(old(self).scroll(), final(self).listed_len()),
            exists|t: Seq<(MentionView, Option<Seq<usize>>, i32)>|
                {
                    &&& #[trigger] is_skill_listing(t, skills@, trim_of(old(self).filter_text()))
                    &&& final(self).listed_items() == entry_items(
                        command_entries(old(self).commands_view(), trim_of(old(self).filter_text())),
                    ) + skill_items_of(t)
                },
            skills@.len() == 0 ==> final(self).listed_items() == entry_items(
                command_entries(old(self).commands_view(), trim_of(old(self).filter_text())),
            ),
            selected_of(final(self).listed_items(), final(self).scroll().selected_idx) is Some
                <==> final(self).listed_items().len() > 0,
    {
        proof {
            use_type_invariant(&*self);
        }
        let skill_count: usize = skills.len();
        assert(skills@.len() == skill_count);
        self.skills = skills;
        let matches_len: usize = self.filtered_items().len();
        self.refresh_state(matches_len);
        proof {
            lemma_selection_exists_iff_listed(old(self).scroll(), self.listed_items());
            lemma_listed_items_split(
                self.commands_view(),
                self.skills_view(),
                trim_of(self.filter_text()),
                self.listed_items(),
            );
        }
    }

    /// Update the filter from the composer text: where its first line starts
    /// with `/`, the first token after the slash; otherwise the empty
    /// filter. The selection is kept within the new list.
    pub fn on_composer_text_change(&mut self, text: String)
        ensures
            final(self).filter_text() == composer_filter_of(text@),
            final(self).commands_view() == old(self).commands_view(),
            final(self).skills_view() == old(self).skills_view(),
            final(self).scroll() == refreshed_state(old(self).scroll(), final(self).listed_len()),
            selected_of(final(self).listed_items(), final(self).scroll().selected_idx) is Some
                <==> final(self).listed_items().len() > 0,
    {
        proof {
            use_type_invariant(&*self);
        }
        self.command_filter = composer_filter(text.as_str());
        let matches_len: usize = self.filtered_items().len();
        self.refresh_state(matches_len);
        proof {
            lemma_selection_exists_iff_listed(old(self).scroll(), self.listed_items());
        }
    }

    /// Move the selection one row up, wrapping to the last row.
    pub fn move_up(&mut self)
        ensures
            final(self).filter_text() == old(self).filter_text(),
            final(self).commands_view() == old(self).commands_view(),
            final(self).skills_view() == old(self).skills_view(),
            final(self).scroll() == moved_state(old(self).scroll(), old(self).listed_len(), true),
            final(self).listed_items() == old(self).listed_items(),
            old(self).listed_items().len() == 0 ==> selected_of(
                final(self).listed_items(),
                final(self).scroll().selected_idx,
            ) is None,
            old(self).scroll().selected_idx is Some && old(self).scroll().selected_idx->0 < old(
                self,
            ).listed_items().len() ==> selected_of(
                final(self).listed_items(),
                final(self).scroll().selected_idx,
            ) == Some(
                old(self).listed_items()[prev_row(
                    old(self).scroll().selected_idx->0 as int,
                    old(self).listed_items().len() as int,
                )],
            ),
    {
        proof {
            use_type_invariant(&*self);
        }
        let len: usize = self.filtered_items().len();
        let mut st: ScrollState = self.state;
        st.move_up_wrap(len);
        let rows: usize = if MAX_POPUP_ROWS < len {
            MAX_POPUP_ROWS
        } else {
            len
        };
        st.ensure_visible(len, rows);
        self.state = st;
    }

    /// Move the selection one row down, wrapping to the first row.
    pub fn move_down(&mut self)
        ensures
            final(self).filter_text() == old(self).filter_text(),
            final(self).commands_view() == old(self).commands_view(),
            final(self).skills_view() == old(self).skills_view(),
            final(self).scroll() == moved_state(old(self).scroll(), old(self).listed_len(), false),
            final(self).listed_items() == old(self).listed_items(),
            old(self).listed_items().len() == 0 ==> selected_of(
                final(self).listed_items(),
                final(self).scroll().selected_idx,
            ) is None,
            old(self).scroll().selected_idx is Some && old(self).scroll().selected_idx->0 < old(
                self,
            ).listed_items().len() ==> selected_of(
                final(self).listed_items(),
                final(self).scroll().selected_idx,
            ) == Some(
                old(self).listed_items()[next_row(
                    old(self).scroll().selected_idx->0 as int,
                    old(self).listed_items().len() as int,
                )],
            ),
    {
        proof {
            use_type_invariant(&*self);
        }
        let len: usize = self.filtered_items().len();
        let mut st: ScrollState = self.state;
        st.move_down_wrap(len);
        let rows: usize = if MAX_POPUP_ROWS < len {
            MAX_POPUP_ROWS
        } else {
            len
        };
        st.ensure_visible(len, rows);
        self.state = st;
    }

    /// The rows drawn for listed items.
    pub fn rows_from_matches(&self, matches: Vec<CommandEntry>) -> (r: Vec<CommandRow>)
        requires
            forall|i: int| 0 <= i < matches@.len() ==> shiftable(#[trigger] entry_view(matches@[i])),
        ensures
            r@.len() == matches@.len(),
            forall|i: int|
                0 <= i < r@.len() ==> row_matches_entry(#[trigger] r@[i], entry_view(matches@[i])),
    {
        let mut rows: Vec<CommandRow> = Vec::new();
        let mut matches = matches;
        let ghost all = matches@;
        let mut i: usize = 0;
        while i < matches.len()
            invariant
                i <= matches@.len(),
                matches@ == all,
                forall|q: int| 0 <= q < all.len() ==> shiftable(#[trigger] entry_view(all[q])),
                rows@.len() == i,
                forall|q: int| 0 <= q < i ==> row_matches_entry(#[trigger] rows@[q], entry_view(all[q])),
            decreases all.len() - i,
        {
            let item: &CommandItem = &matches[i].0;
            let indices: Option<Vec<usize>> = clone_indices(&matches[i].1);
            assert(shiftable(entry_view(all[i as int])));
            let row: CommandRow = CommandRow {
                name: item.display_name(),
                name_prefix: item.name_prefix(),
                match_indices: item.match_indices(indices),
                description: item.description(),
                category_tag: item.category_tag(),
                is_disabled: false,
                disabled_reason: None,
            };
            rows.push(row);
            i = i + 1;
        }
        rows
    }

    /// The entries listed for the current filter, with the highlighted
    /// positions of each: see `is_popup_listing`.
    pub fn filtered(&self) -> (r: Vec<CommandEntry>)
        ensures
            is_popup_listing(
                entries_view(r@),
                self.commands_view(),
                self.skills_view(),
                trim_of(self.filter_text()),
            ),
            forall|k: int| 0 <= k < r@.len() ==> shiftable(#[trigger] entry_view(r@[k])),
            trim_of(self.filter_text()).len() > 0 && is_ascii_seq(trim_of(self.filter_text()))
                ==> lowercase_of(trim_of(self.filter_text())) == ascii_lowercase(
                trim_of(self.filter_text()),
            ),
    {
        let filter: &str = trim_str(self.command_filter.as_str());
        let cmds: &Vec<CommandItem> = &self.commands;
        let mut out: Vec<CommandEntry> = Vec::new();
        if filter.unicode_len() == 0 {
            let mut i: usize = 0;
            while i < cmds.len()
                invariant
                    i <= cmds@.len(),
                    entries_view(out@) == unfiltered_entries(items_view(cmds@.take(i as int))),
                decreases cmds@.len() - i,
            {
                proof {
                    assert(items_view(cmds@.take(i + 1)).drop_last() =~= items_view(
                        cmds@.take(i as int),
                    ));
                }
                match &cmds[i] {
                    CommandItem::Builtin(SlashCommand::Quit) => {},
                    command => {
                        out.push((command.clone(), None));
                    },
                }
                i = i + 1;
                assert(entries_view(out@) =~= unfiltered_entries(
                    items_view(cmds@.take(i as int)),
                ));
            }
            assert(cmds@.take(i as int) =~= cmds@);
        } else {
            let filter_lower: String = to_lowercase(filter);
            assert(is_ascii_seq(filter@) ==> lowercase_of(filter@) == ascii_lowercase(filter@));
            let count: usize = filter.unicode_len();
            let mut exact: Vec<CommandEntry> = Vec::new();
            let mut prefix: Vec<CommandEntry> = Vec::new();
            let mut i: usize = 0;
            while i < cmds.len()
                invariant
                    i <= cmds@.len(),
                    filter_lower@ == lowercase_of(filter@),
                    count == filter@.len(),
                    entries_view(exact@) == matching_entries(
                        items_view(cmds@.take(i as int)),
                        filter_lower@,
                        count as nat,
                        true,
                    ),
                    entries_view(prefix@) == matching_entries(
                        items_view(cmds@.take(i as int)),
                        filter_lower@,
                        count as nat,
                        false,
                    ),
                decreases cmds@.len() - i,
            {
                proof {
                    assert(items_view(cmds@.take(i + 1)).drop_last() =~= items_view(
                        cmds@.take(i as int),
                    ));
                }
                let command: &CommandItem = &cmds[i];
                let display_lower: String = to_lowercase(command.command());
                if str_equal(display_lower.as_str(), filter_lower.as_str()) {
                    exact.push((command.clone(), Some(leading_range(count))));
                } else if str_starts_with(display_lower.as_str(), filter_lower.as_str()) {
                    prefix.push((command.clone(), Some(leading_range(count))));
                }
                i = i + 1;
                assert(entries_view(exact@) =~= matching_entries(
                    items_view(cmds@.take(i as int)),
                    filter_lower@,
                    count as nat,
                    true,
                ));
                assert(entries_view(prefix@) =~= matching_entries(
                    items_view(cmds@.take(i as int)),
                    filter_lower@,
                    count as nat,
                    false,
                ));
            }
            assert(cmds@.take(i as int) =~= cmds@);
            out.append(&mut exact);
            out.append(&mut prefix);
        }
        let ghost head = entries_view(out@);
        assert(head == command_entries(self.commands_view(), trim_of(self.filter_text()))) by {
            if filter@.len() != 0 {
                assert(head =~= matching_entries(
                    self.commands_view(),
                    lowercase_of(filter@),
                    filter@.len(),
                    true,
                ) + matching_entries(
                    self.commands_view(),
                    lowercase_of(filter@),
                    filter@.len(),
                    false,
                ));
            }
        }
        let skills: Vec<(MentionItem, Option<Vec<usize>>, i32)> = self.filtered_skills(filter);
        let ghost t = triples_view(skills@);
        let mut j: usize = 0;
        while j < skills.len()
            invariant
                j <= skills@.len(),
                t == triples_view(skills@),
                out@.len() == head.len() + j,
                entries_view(out@) == head + skill_entries(t.take(j as int)),
            decreases skills@.len() - j,
        {
            let item: MentionItem = skills[j].0.clone();
            let indices: Option<Vec<usize>> = clone_indices(&skills[j].1);
            proof {
                assert(t[j as int] == skill_triple_view(skills@[j as int]));
                assert(entry_view((CommandItem::Skill(item), indices)) == skill_entry(t[j as int]));
                assert(t.take(j + 1) =~= t.take(j as int).push(t[j as int]));
            }
            let ghost prev = out@;
            out.push((CommandItem::Skill(item), indices));
            proof {
                let lhs = entries_view(out@);
                let rhs = head + skill_entries(t.take(j + 1));
                let old_r = head + skill_entries(t.take(j as int));
                assert(entries_view(prev) == old_r);
                assert forall|k: int| 0 <= k < lhs.len() implies lhs[k] == rhs[k] by {
                    if k < prev.len() {
                        assert(lhs[k] == entries_view(prev)[k]);
                        assert(rhs[k] == old_r[k]);
                    }
                }
                assert(lhs =~= rhs);
            }
            j = j + 1;
        }
        proof {
            assert(t.take(j as int) =~= t);
            let c = command_entries(self.commands_view(), trim_of(self.filter_text()));
            let ev = entries_view(out@);
            assert(ev.take(c.len() as int) =~= c);
            assert(ev.skip(c.len() as int) =~= skill_entries(t));
            let ms = choose|ms: Seq<MentionMatchView>|
                {
                    &&& #[trigger] ms.to_multiset() == skill_matches(
                        self.skills_view(),
                        filter@,
                    ).to_multiset()
                    &&& sorted_by_rank(ms, self.skills_view(), filter@.len() > 0)
                    &&& t == triples_of(self.skills_view(), ms)
                };
            vstd::seq_lib::to_multiset_len(ms);
            vstd::seq_lib::to_multiset_len(skill_matches(self.skills_view(), filter@));
        }
        let filter_len: usize = filter.unicode_len();
        proof {
            let ev = entries_view(out@);
            assert(filter@.len() == filter_len);
            lemma_listing_shiftable(ev, self.commands_view(), self.skills_view(), filter@);
            assert forall|k: int| 0 <= k < out@.len() implies shiftable(
                #[trigger] entry_view(out@[k]),
            ) by {
                assert(ev[k] == entry_view(out@[k]));
            }
        }
        out
    }
}


/// Every item of `popup_items(s)` comes from `s`: a built-in that is neither
/// `/apps` nor a debugging command, or a service tier of `s`.
proof fn lemma_popup_items_come_from(s: Seq<SlashCommandItem>)
    ensures
        forall|i: int|
            0 <= i < popup_items(s).len() ==> match #[trigger] popup_items(s)[i] {
                CommandItemView::Builtin(cmd) => {
                    &&& s.contains(SlashCommandItem::Builtin(cmd))
                    &&& !"debug"@.is_prefix_of(command_name(cmd))
                    &&& cmd != SlashCommand::Apps
                },
                CommandItemView::ServiceTier(t) => s.contains(SlashCommandItem::ServiceTier(t)),
                CommandItemView::Skill(_) => false,
            },
    decreases s.len(),
{
    if s.len() > 0 {
        let rest = s.drop_last();
        lemma_popup_items_come_from(rest);
        assert forall|i: int| 0 <= i < popup_items(s).len() implies match #[trigger] popup_items(
            s,
        )[i] {
            CommandItemView::Builtin(cmd) => {
                &&& s.contains(SlashCommandItem::Builtin(cmd))
                &&& !"debug"@.is_prefix_of(command_name(cmd))
                &&& cmd != SlashCommand::Apps
            },
            CommandItemView::ServiceTier(t) => s.contains(SlashCommandItem::ServiceTier(t)),
            CommandItemView::Skill(_) => false,
        } by {
            if i < popup_items(rest).len() {
                assert(popup_items(s)[i] == popup_items(rest)[i]);
                match popup_items(rest)[i] {
                    CommandItemView::Builtin(cmd) => {
                        let j = choose|j: int|
                            0 <= j < rest.len() && rest[j] == SlashCommandItem::Builtin(cmd);
                        assert(s[j] == rest[j]);
                    },
                    CommandItemView::ServiceTier(t) => {
                        let j = choose|j: int|
                            0 <= j < rest.len() && rest[j] == SlashCommandItem::ServiceTier(t);
                        assert(s[j] == rest[j]);
                    },
                    CommandItemView::Skill(_) => {},
                }
            } else {
                assert(s[s.len() - 1] == s.last());
            }
        }
    }
}

/// Every built-in of `available_builtins(s, flags)` is available and comes
/// from `s`.
proof fn lemma_available_builtins_are_available(s: Seq<SlashCommand>, flags: BuiltinCommandFlags)
    ensures
        forall|i: int|
            0 <= i < available_builtins(s, flags).len() ==> (#[trigger] available_builtins(
                s,
                flags,
            )[i] matches SlashCommandItem::Builtin(cmd) && is_available(cmd, flags)),
    decreases s.len(),
{
    if s.len() > 0 {
        lemma_available_builtins_are_available(s.drop_last(), flags);
        assert forall|i: int| 0 <= i < available_builtins(s, flags).len() implies (
        #[trigger] available_builtins(s, flags)[i] matches SlashCommandItem::Builtin(cmd)
            && is_available(cmd, flags)) by {
            if i < available_builtins(s.drop_last(), flags).len() {
                assert(available_builtins(s, flags)[i] == available_builtins(s.drop_last(), flags)[i]);
            }
        }
    }
}

/// The popup offers only commands that the session's flags make available,
/// never `/apps` or a debugging command, and service tiers only where the
/// flags enable them and the catalog lists them.
pub proof fn lemma_popup_offers_only_available_commands(
    flags: CommandPopupFlags,
    tiers: Seq<ServiceTierCommand>,
)
    ensures
        forall|i: int|
            0 <= i < popup_items(commands_for(builtin_flags_of(flags), tiers)).len() ==> match
                #[trigger] popup_items(commands_for(builtin_flags_of(flags), tiers))[i] {
                CommandItemView::Builtin(cmd) => {
                    &&& is_available(cmd, builtin_flags_of(flags))
                    &&& !"debug"@.is_prefix_of(command_name(cmd))
                    &&& cmd != SlashCommand::Apps
                },
                CommandItemView::ServiceTier(t) => flags.service_tier_commands_enabled
                    && tiers.contains(t),
                CommandItemView::Skill(_) => false,
            },
{
    let bf = builtin_flags_of(flags);
    let a = available_builtins(all_builtins().take(1), bf);
    let t = if bf.service_tier_commands_enabled {
        tier_items(tiers)
    } else {
        seq![]
    };
    let b = available_builtins(all_builtins().skip(1), bf);
    let s = commands_for(bf, tiers);
    assert(s == a + t + b);
    lemma_popup_items_come_from(s);
    lemma_available_builtins_are_available(all_builtins().take(1), bf);
    lemma_available_builtins_are_available(all_builtins().skip(1), bf);
    let items = popup_items(s);
    assert forall|i: int| 0 <= i < items.len() implies match #[trigger] items[i] {
        CommandItemView::Builtin(cmd) => {
            &&& is_available(cmd, bf)
            &&& !"debug"@.is_prefix_of(command_name(cmd))
            &&& cmd != SlashCommand::Apps
        },
        CommandItemView::ServiceTier(tc) => flags.service_tier_commands_enabled && tiers.contains(
            tc,
        ),
        CommandItemView::Skill(_) => false,
    } by {
        match items[i] {
            CommandItemView::Builtin(cmd) => {
                let j = choose|j: int| 0 <= j < s.len() && s[j] == SlashCommandItem::Builtin(cmd);
                if j < a.len() {
                    assert(a[j] == s[j]);
                } else if j < a.len() + t.len() {
                    assert(t[j - a.len()] == s[j]);
                } else {
                    assert(b[j - a.len() - t.len()] == s[j]);
                }
            },
            CommandItemView::ServiceTier(tc) => {
                let j = choose|j: int|
                    0 <= j < s.len() && s[j] == SlashCommandItem::ServiceTier(tc);
                if j < a.len() {
                    assert(a[j] == s[j]);
                } else if j < a.len() + t.len() {
                    assert(t[j - a.len()] == s[j]);
                    assert(tiers[j - a.len()] == tc);
                } else {
                    assert(b[j - a.len() - t.len()] == s[j]);
                }
            },
            CommandItemView::Skill(_) => {},
        }
    }
}

/// After the list changes to `len > 0` items, the selection is one of them
/// and lies within the visible window.
pub proof fn lemma_refreshed_selection_is_visible(st: ScrollState, len: nat)
    requires
        0 < len <= usize::MAX,
    ensures
        refreshed_state(st, len).selected_idx matches Some(i) && i < len && refreshed_state(
            st,
            len,
        ).scroll_top <= i < refreshed_state(st, len).scroll_top + visible_rows(len),
{
    crate::scroll_state::lemma_clamp_selects_a_row(st.selected_idx, len as usize);
    let sel = clamped_selection(st.selected_idx, len as usize);
    let i = sel->0;
    crate::scroll_state::lemma_visible_window_contains_selection(
        st.scroll_top,
        i,
        len as usize,
        visible_rows(len),
    );
}

/// With no items, nothing is selected and the list is scrolled to the top.
pub proof fn lemma_refreshed_empty_list(st: ScrollState)
    ensures
        refreshed_state(st, 0) == (ScrollState { selected_idx: None, scroll_top: 0 }),
{
}


/// Every entry of `matching_entries` is a command of `cmds` that hits the
/// filter, with the filter's positions highlighted.
proof fn lemma_matching_entries_members(
    cmds: Seq<CommandItemView>,
    fl: Seq<char>,
    count: nat,
    exact: bool,
)
    ensures
        forall|k: int|
            0 <= k < matching_entries(cmds, fl, count, exact).len() ==> {
                let e = #[trigger] matching_entries(cmds, fl, count, exact)[k];
                &&& cmds.contains(e.0)
                &&& entry_hits(e.0, fl, exact)
                &&& e.1 == Some(leading_indices(count))
            },
    decreases cmds.len(),
{
    if cmds.len() > 0 {
        let rest = cmds.drop_last();
        lemma_matching_entries_members(rest, fl, count, exact);
        let m = matching_entries(cmds, fl, count, exact);
        let mr = matching_entries(rest, fl, count, exact);
        assert forall|k: int| 0 <= k < m.len() implies {
            let e = #[trigger] m[k];
            &&& cmds.contains(e.0)
            &&& entry_hits(e.0, fl, exact)
            &&& e.1 == Some(leading_indices(count))
        } by {
            if k < mr.len() {
                assert(m[k] == mr[k]);
                let j = choose|j: int| 0 <= j < rest.len() && rest[j] == mr[k].0;
                assert(cmds[j] == rest[j]);
            } else {
                assert(cmds[cmds.len() - 1] == cmds.last());
            }
        }
    }
}

/// `matching_entries` lists at least one command where some command hits.
proof fn lemma_matching_entries_nonempty(
    cmds: Seq<CommandItemView>,
    fl: Seq<char>,
    count: nat,
    exact: bool,
    i: int,
)
    requires
        0 <= i < cmds.len(),
        entry_hits(cmds[i], fl, exact),
    ensures
        matching_entries(cmds, fl, count, exact).len() > 0,
    decreases cmds.len(),
{
    if i < cmds.len() - 1 {
        assert(cmds.drop_last()[i] == cmds[i]);
        lemma_matching_entries_nonempty(cmds.drop_last(), fl, count, exact, i);
    }
}

/// For a non-empty filter, every listed command starts with the filter,
/// ignoring case.
pub proof fn lemma_listed_commands_start_with_filter(cmds: Seq<CommandItemView>, filter: Seq<char>)
    requires
        filter.len() > 0,
    ensures
        forall|k: int|
            0 <= k < command_entries(cmds, filter).len() ==> lowercase_of(filter).is_prefix_of(
                lowercase_of(item_command((#[trigger] command_entries(cmds, filter)[k]).0)),
            ),
{
    let fl = lowercase_of(filter);
    let ex = matching_entries(cmds, fl, filter.len(), true);
    let pre = matching_entries(cmds, fl, filter.len(), false);
    lemma_matching_entries_members(cmds, fl, filter.len(), true);
    lemma_matching_entries_members(cmds, fl, filter.len(), false);
    let all = command_entries(cmds, filter);
    assert(all == ex + pre);
    assert forall|k: int| 0 <= k < all.len() implies fl.is_prefix_of(
        lowercase_of(item_command((#[trigger] all[k]).0)),
    ) by {
        if k < ex.len() {
            assert(all[k] == ex[k]);
            let lowered = lowercase_of(item_command(ex[k].0));
            assert(lowered == fl);
            assert(fl.take(fl.len() as int) =~= fl);
        } else {
            assert(all[k] == pre[k - ex.len()]);
        }
    }
}

/// For a non-empty filter that some command matches exactly (ignoring
/// case), the first listed entry is such an exact match.
pub proof fn lemma_exact_match_listed_first(cmds: Seq<CommandItemView>, filter: Seq<char>, i: int)
    requires
        filter.len() > 0,
        0 <= i < cmds.len(),
        lowercase_of(item_command(cmds[i])) == lowercase_of(filter),
    ensures
        command_entries(cmds, filter).len() > 0,
        lowercase_of(item_command(command_entries(cmds, filter)[0].0)) == lowercase_of(filter),
{
    let fl = lowercase_of(filter);
    lemma_matching_entries_nonempty(cmds, fl, filter.len(), true, i);
    lemma_matching_entries_members(cmds, fl, filter.len(), true);
    let ex = matching_entries(cmds, fl, filter.len(), true);
    let pre = matching_entries(cmds, fl, filter.len(), false);
    assert(command_entries(cmds, filter) == ex + pre);
    assert(command_entries(cmds, filter)[0] == ex[0]);
}

/// Each skill matches at most once, under its index among the skills.
proof fn lemma_skill_matches_distinct(skills: Seq<MentionItem>, filter: Seq<char>)
    requires
        skills.len() <= usize::MAX,
    ensures
        forall|k: int|
            0 <= k < skill_matches(skills, filter).len() ==> (#[trigger] skill_matches(
                skills,
                filter,
            )[k]).0 < skills.len(),
        forall|i: int, j: int|
            0 <= i < j < skill_matches(skills, filter).len() ==> (#[trigger] skill_matches(
                skills,
                filter,
            )[i]).0 != (#[trigger] skill_matches(skills, filter)[j]).0,
    decreases skills.len(),
{
    if skills.len() > 0 {
        let rest = skills.drop_last();
        lemma_skill_matches_distinct(rest, filter);
        let sr = skill_matches(rest, filter);
        let sm = skill_matches(skills, filter);
        assert forall|k: int| 0 <= k < sm.len() implies (#[trigger] sm[k]).0 < skills.len() by {
            if k < sr.len() {
                assert(sm[k] == sr[k]);
            }
        }
        assert forall|i: int, j: int| 0 <= i < j < sm.len() implies (#[trigger] sm[i]).0 != (
        #[trigger] sm[j]).0 by {
            assert(sm[i] == sr[i]);
            if j < sr.len() {
                assert(sm[j] == sr[j]);
            }
        }
    }
}

/// A reordering of matches that name each skill once names each skill once.
proof fn lemma_reordered_matches_distinct(sm: Seq<MentionMatchView>, ms: Seq<MentionMatchView>)
    requires
        ms.to_multiset() == sm.to_multiset(),
        forall|i: int, j: int| 0 <= i < j < sm.len() ==> (#[trigger] sm[i]).0 != (#[trigger] sm[j]).0,
    ensures
        forall|i: int, j: int| 0 <= i < j < ms.len() ==> (#[trigger] ms[i]).0 != (#[trigger] ms[j]).0,
{
    broadcast use vstd::seq_lib::group_to_multiset_ensures;

    assert(sm.no_duplicates()) by {
        assert forall|i: int, j: int| 0 <= i < sm.len() && 0 <= j < sm.len() && i != j implies sm[i]
            != sm[j] by {
            if i < j {
                assert(sm[i].0 != sm[j].0);
            } else {
                assert(sm[j].0 != sm[i].0);
            }
        }
    }
    sm.lemma_multiset_has_no_duplicates();
    ms.lemma_multiset_has_no_duplicates_conv();
    assert forall|i: int, j: int| 0 <= i < j < ms.len() implies (#[trigger] ms[i]).0 != (
    #[trigger] ms[j]).0 by {
        if ms[i].0 == ms[j].0 {
            assert(ms[i] != ms[j]);
            assert(ms.to_multiset().count(ms[i]) > 0);
            assert(ms.to_multiset().count(ms[j]) > 0);
            assert(sm.contains(ms[i]));
            assert(sm.contains(ms[j]));
            let a = choose|a: int| 0 <= a < sm.len() && sm[a] == ms[i];
            let b = choose|b: int| 0 <= b < sm.len() && sm[b] == ms[j];
            if a < b {
                assert(sm[a].0 != sm[b].0);
            } else {
                assert(sm[b].0 != sm[a].0);
            }
        }
    }
}

/// The popup's listing is determined by its commands, its skills and the
/// filter: two listings for the same ones are the same.
pub proof fn lemma_popup_listing_is_unique(
    out1: Seq<CommandEntryView>,
    out2: Seq<CommandEntryView>,
    cmds: Seq<CommandItemView>,
    skills: Seq<MentionItem>,
    filter: Seq<char>,
)
    requires
        skills.len() <= usize::MAX,
        is_popup_listing(out1, cmds, skills, filter),
        is_popup_listing(out2, cmds, skills, filter),
    ensures
        out1 == out2,
{
    let c = command_entries(cmds, filter);
    let sm = skill_matches(skills, filter);
    let t1 = choose|t: Seq<(MentionView, Option<Seq<usize>>, i32)>|
        #[trigger] is_skill_listing(t, skills, filter) && out1.skip(c.len() as int)
            == skill_entries(t);
    let t2 = choose|t: Seq<(MentionView, Option<Seq<usize>>, i32)>|
        #[trigger] is_skill_listing(t, skills, filter) && out2.skip(c.len() as int)
            == skill_entries(t);
    let ms1 = choose|ms: Seq<MentionMatchView>|
        {
            &&& #[trigger] ms.to_multiset() == sm.to_multiset()
            &&& sorted_by_rank(ms, skills, filter.len() > 0)
            &&& t1 == triples_of(skills, ms)
        };
    let ms2 = choose|ms: Seq<MentionMatchView>|
        {
            &&& #[trigger] ms.to_multiset() == sm.to_multiset()
            &&& sorted_by_rank(ms, skills, filter.len() > 0)
            &&& t2 == triples_of(skills, ms)
        };
    lemma_skill_matches_distinct(skills, filter);
    lemma_reordered_matches_distinct(sm, ms1);
    crate::mention::lemma_ranking_is_unique(ms1, ms2, skills, filter.len() > 0);
    assert(out1.take(c.len() as int) == out2.take(c.len() as int));
    assert(out1.skip(c.len() as int) == out2.skip(c.len() as int));
    assert(out1 =~= out1.take(c.len() as int) + out1.skip(c.len() as int));
    assert(out2 =~= out2.take(c.len() as int) + out2.skip(c.len() as int));
}

/// The filter that the composer text sets is the token typed after `/`,
/// which trimming leaves unchanged.
pub proof fn lemma_popup_filter_is_trimmed(text: Seq<char>)
    ensures
        trim_of(composer_filter_of(text)) == composer_filter_of(text),
{
    crate::text::lemma_composer_filter_has_no_ws(text);
    crate::text::lemma_trim_without_ws(composer_filter_of(text));
}

/// `available_builtins(s, flags)` lists every available command of `s`.
proof fn lemma_available_builtins_complete(s: Seq<SlashCommand>, flags: BuiltinCommandFlags, cmd: SlashCommand)
    requires
        s.contains(cmd),
        is_available(cmd, flags),
    ensures
        available_builtins(s, flags).contains(SlashCommandItem::Builtin(cmd)),
    decreases s.len(),
{
    let rest = s.drop_last();
    if s.last() == cmd {
        let r = available_builtins(s, flags);
        assert(r[r.len() - 1] == SlashCommandItem::Builtin(cmd));
    } else {
        let j = choose|j: int| 0 <= j < s.len() && s[j] == cmd;
        assert(j < s.len() - 1);
        assert(rest[j] == cmd);
        lemma_available_builtins_complete(rest, flags, cmd);
        let rr = available_builtins(rest, flags);
        let k = choose|k: int| 0 <= k < rr.len() && rr[k] == SlashCommandItem::Builtin(cmd);
        assert(available_builtins(s, flags)[k] == rr[k]);
    }
}

/// `popup_items(s)` lists every built-in of `s` that is neither `/apps` nor
/// a debugging command.
proof fn lemma_popup_items_complete(s: Seq<SlashCommandItem>, cmd: SlashCommand)
    requires
        s.contains(SlashCommandItem::Builtin(cmd)),
        !"debug"@.is_prefix_of(command_name(cmd)),
        cmd != SlashCommand::Apps,
    ensures
        popup_items(s).contains(CommandItemView::Builtin(cmd)),
    decreases s.len(),
{
    let rest = s.drop_last();
    if s.last() == SlashCommandItem::Builtin(cmd) {
        let r = popup_items(s);
        assert(r[r.len() - 1] == CommandItemView::Builtin(cmd));
    } else {
        let j = choose|j: int| 0 <= j < s.len() && s[j] == SlashCommandItem::Builtin(cmd);
        assert(j < s.len() - 1);
        assert(rest[j] == SlashCommandItem::Builtin(cmd));
        lemma_popup_items_complete(rest, cmd);
        let rr = popup_items(rest);
        let k = choose|k: int| 0 <= k < rr.len() && rr[k] == CommandItemView::Builtin(cmd);
        assert(popup_items(s)[k] == rr[k]);
    }
}

/// The popup offers every built-in command that the session's flags make
/// available, except `/apps` and the debugging commands.
pub proof fn lemma_popup_offers_every_available_command(
    flags: CommandPopupFlags,
    tiers: Seq<ServiceTierCommand>,
    cmd: SlashCommand,
)
    requires
        is_available(cmd, builtin_flags_of(flags)),
        !"debug"@.is_prefix_of(command_name(cmd)),
        cmd != SlashCommand::Apps,
    ensures
        popup_items(commands_for(builtin_flags_of(flags), tiers)).contains(
            CommandItemView::Builtin(cmd),
        ),
{
    let bf = builtin_flags_of(flags);
    let all = all_builtins();
    let a = available_builtins(all.take(1), bf);
    let t = if bf.service_tier_commands_enabled {
        tier_items(tiers)
    } else {
        seq![]
    };
    let b = available_builtins(all.skip(1), bf);
    let s = commands_for(bf, tiers);
    assert(s == a + t + b);
    crate::slash_command::lemma_every_command_listed(cmd);
    let j = crate::slash_command::builtin_position(cmd);
    if j == 0 {
        assert(all.take(1)[0] == cmd);
        lemma_available_builtins_complete(all.take(1), bf, cmd);
        let k = choose|k: int| 0 <= k < a.len() && a[k] == SlashCommandItem::Builtin(cmd);
        assert(s[k] == a[k]);
    } else {
        assert(all.skip(1)[j - 1] == cmd);
        lemma_available_builtins_complete(all.skip(1), bf, cmd);
        let k = choose|k: int| 0 <= k < b.len() && b[k] == SlashCommandItem::Builtin(cmd);
        assert(s[a.len() + t.len() + k] == b[k]);
    }
    lemma_popup_items_complete(s, cmd);
}

/// Typing the full name of a command, in any case, into a popup with no
/// selection yet selects that command (or another command of the same name).
pub proof fn lemma_typed_command_is_selected(
    st: ScrollState,
    out: Seq<CommandEntryView>,
    cmds: Seq<CommandItemView>,
    skills: Seq<MentionItem>,
    filter: Seq<char>,
    i: int,
)
    requires
        st.selected_idx is None,
        filter.len() > 0,
        0 <= i < cmds.len(),
        lowercase_of(item_command(cmds[i])) == lowercase_of(filter),
        is_popup_listing(out, cmds, skills, filter),
        out.len() <= usize::MAX,
    ensures
        selected_of(entry_items(out), refreshed_state(st, out.len()).selected_idx) matches Some(
            item,
        ) && lowercase_of(item_command(item)) == lowercase_of(filter),
{
    lemma_exact_match_listed_first(cmds, filter, i);
    let c = command_entries(cmds, filter);
    assert(out.take(c.len() as int)[0] == out[0]);
    assert(entry_items(out)[0] == out[0].0);
}

/// The unfiltered entries are commands of `cmds`, with nothing highlighted.
proof fn lemma_unfiltered_entries_members(cmds: Seq<CommandItemView>)
    ensures
        forall|k: int|
            0 <= k < unfiltered_entries(cmds).len() ==> {
                let e = #[trigger] unfiltered_entries(cmds)[k];
                &&& cmds.contains(e.0)
                &&& e.1 is None
            },
    decreases cmds.len(),
{
    if cmds.len() > 0 {
        let rest = cmds.drop_last();
        lemma_unfiltered_entries_members(rest);
        let u = unfiltered_entries(cmds);
        let ur = unfiltered_entries(rest);
        assert forall|k: int| 0 <= k < u.len() implies {
            let e = #[trigger] u[k];
            &&& cmds.contains(e.0)
            &&& e.1 is None
        } by {
            if k < ur.len() {
                assert(u[k] == ur[k]);
                let j = choose|j: int| 0 <= j < rest.len() && rest[j] == ur[k].0;
                assert(cmds[j] == rest[j]);
            } else {
                assert(cmds[cmds.len() - 1] == cmds.last());
            }
        }
    }
}

/// Every entry of a listing is a skill, or a command of `cmds` that is
/// unhighlighted or highlighted on the first `filter.len()` positions.
proof fn lemma_listing_entries_from(
    out: Seq<CommandEntryView>,
    cmds: Seq<CommandItemView>,
    skills: Seq<MentionItem>,
    filter: Seq<char>,
)
    requires
        is_popup_listing(out, cmds, skills, filter),
    ensures
        forall|k: int|
            0 <= k < out.len() ==> {
                let e = #[trigger] out[k];
                ||| e.0 is Skill
                ||| cmds.contains(e.0) && (e.1 is None || e.1 == Some(
                    leading_indices(filter.len()),
                ))
            },
{
    let c = command_entries(cmds, filter);
    let t = choose|t: Seq<(MentionView, Option<Seq<usize>>, i32)>|
        #[trigger] is_skill_listing(t, skills, filter) && out.skip(c.len() as int)
            == skill_entries(t);
    let ms = choose|ms: Seq<MentionMatchView>|
        {
            &&& #[trigger] ms.to_multiset() == skill_matches(skills, filter).to_multiset()
            &&& sorted_by_rank(ms, skills, filter.len() > 0)
            &&& t == triples_of(skills, ms)
        };
    vstd::seq_lib::to_multiset_len(ms);
    vstd::seq_lib::to_multiset_len(skill_matches(skills, filter));
    let fl = lowercase_of(filter);
    lemma_unfiltered_entries_members(cmds);
    lemma_matching_entries_members(cmds, fl, filter.len(), true);
    lemma_matching_entries_members(cmds, fl, filter.len(), false);
    let ex = matching_entries(cmds, fl, filter.len(), true);
    let pre = matching_entries(cmds, fl, filter.len(), false);
    assert forall|k: int| 0 <= k < out.len() implies {
        let e = #[trigger] out[k];
        ||| e.0 is Skill
        ||| cmds.contains(e.0) && (e.1 is None || e.1 == Some(leading_indices(filter.len())))
    } by {
        if k < c.len() {
            assert(out[k] == out.take(c.len() as int)[k]);
            if filter.len() > 0 {
                assert(c == ex + pre);
                if k < ex.len() {
                    assert(c[k] == ex[k]);
                } else {
                    assert(c[k] == pre[k - ex.len()]);
                }
            }
        } else {
            assert(out[k] == out.skip(c.len() as int)[k - c.len()]);
        }
    }
}

/// The highlights of a listing for a filter of at most `usize::MAX`
/// characters can be shifted past a row's leading `/`.
proof fn lemma_listing_shiftable(
    out: Seq<CommandEntryView>,
    cmds: Seq<CommandItemView>,
    skills: Seq<MentionItem>,
    filter: Seq<char>,
)
    requires
        is_popup_listing(out, cmds, skills, filter),
        filter.len() <= usize::MAX,
    ensures
        forall|k: int| 0 <= k < out.len() ==> shiftable(#[trigger] out[k]),
{
    lemma_listing_entries_from(out, cmds, skills, filter);
    assert forall|k: int| 0 <= k < out.len() implies shiftable(#[trigger] out[k]) by {
        let e = out[k];
        if !(e.0 is Skill) && e.1 is Some {
            let v = e.1->0;
            assert(v == leading_indices(filter.len()));
            assert forall|i: int| 0 <= i < v.len() implies v[i] < usize::MAX by {
                assert(v[i] == i as usize);
            }
        }
    }
}

/// However often a popup's filter, skills or selection change, its listing
/// never shows `/apps` or a debugging command: every command it lists is one
/// of the commands it was made with.
pub proof fn lemma_listing_hides_debug_and_apps(
    out: Seq<CommandEntryView>,
    flags: CommandPopupFlags,
    tiers: Seq<ServiceTierCommand>,
    skills: Seq<MentionItem>,
    filter: Seq<char>,
)
    requires
        is_popup_listing(
            out,
            popup_items(commands_for(builtin_flags_of(flags), tiers)),
            skills,
            filter,
        ),
    ensures
        forall|k: int|
            0 <= k < out.len() ==> ((#[trigger] out[k]).0 matches CommandItemView::Builtin(cmd)
                ==> !"debug"@.is_prefix_of(command_name(cmd)) && cmd != SlashCommand::Apps),
{
    let cmds = popup_items(commands_for(builtin_flags_of(flags), tiers));
    lemma_listing_entries_from(out, cmds, skills, filter);
    lemma_popup_offers_only_available_commands(flags, tiers);
    assert forall|k: int| 0 <= k < out.len() implies ((#[trigger] out[k]).0 matches CommandItemView::Builtin(
        cmd,
    ) ==> !"debug"@.is_prefix_of(command_name(cmd)) && cmd != SlashCommand::Apps) by {
        if out[k].0 is Builtin {
            let j = choose|j: int| 0 <= j < cmds.len() && cmds[j] == out[k].0;
            assert(cmds[j] == out[k].0);
        }
    }
}

/// A popup lists one list: the items of two listings of its state are the
/// same.
pub proof fn lemma_popup_lists_one_list(
    p: CommandPopup,
    items1: Seq<CommandItemView>,
    items2: Seq<CommandItemView>,
)
    requires
        p.skills_view().len() <= usize::MAX,
        p.lists(items1),
        p.lists(items2),
    ensures
        items1 == items2,
{
    let f = trim_of(p.filter_text());
    let e1 = choose|e: Seq<CommandEntryView>|
        #[trigger] is_popup_listing(e, p.commands_view(), p.skills_view(), f) && items1
            == entry_items(e);
    let e2 = choose|e: Seq<CommandEntryView>|
        #[trigger] is_popup_listing(e, p.commands_view(), p.skills_view(), f) && items2
            == entry_items(e);
    lemma_popup_listing_is_unique(e1, e2, p.commands_view(), p.skills_view(), f);
}

/// Listing ignores the case of the filter: filters of the same length that
/// lowercase alike give the same listings.
pub proof fn lemma_listing_ignores_filter_case(
    out: Seq<CommandEntryView>,
    cmds: Seq<CommandItemView>,
    skills: Seq<MentionItem>,
    f1: Seq<char>,
    f2: Seq<char>,
)
    requires
        lowercase_of(f1) == lowercase_of(f2),
        f1.len() == f2.len(),
        is_popup_listing(out, cmds, skills, f1),
    ensures
        is_popup_listing(out, cmds, skills, f2),
{
    lemma_skill_matches_by_lowercase(skills, f1, f2);
    assert(command_entries(cmds, f1) == command_entries(cmds, f2));
    let c = command_entries(cmds, f1);
    let t = choose|t: Seq<(MentionView, Option<Seq<usize>>, i32)>|
        #[trigger] is_skill_listing(t, skills, f1) && out.skip(c.len() as int) == skill_entries(t);
    let ms = choose|ms: Seq<MentionMatchView>|
        {
            &&& #[trigger] ms.to_multiset() == skill_matches(skills, f1).to_multiset()
            &&& sorted_by_rank(ms, skills, f1.len() > 0)
            &&& t == triples_of(skills, ms)
        };
    assert(ms.to_multiset() == skill_matches(skills, f2).to_multiset());
    assert(is_skill_listing(t, skills, f2));
}

proof fn lemma_skill_matches_by_lowercase(skills: Seq<MentionItem>, f1: Seq<char>, f2: Seq<char>)
    requires
        lowercase_of(f1) == lowercase_of(f2),
        f1.len() == f2.len(),
    ensures
        skill_matches(skills, f1) == skill_matches(skills, f2),
    decreases skills.len(),
{
    if skills.len() > 0 {
        lemma_skill_matches_by_lowercase(skills.drop_last(), f1, f2);
        crate::mention::lemma_mention_match_by_lowercase(skills.last()@, f1, f2);
    }
}

/// Replacing the skills keeps the commands part of the listing and lists the
/// matching new skills after it: each a skill of the new list, and none when
/// the new list is empty.
pub proof fn lemma_new_skills_keep_commands(
    out1: Seq<CommandEntryView>,
    out2: Seq<CommandEntryView>,
    cmds: Seq<CommandItemView>,
    s1: Seq<MentionItem>,
    s2: Seq<MentionItem>,
    filter: Seq<char>,
)
    requires
        is_popup_listing(out1, cmds, s1, filter),
        is_popup_listing(out2, cmds, s2, filter),
    ensures
        out1.take(command_entries(cmds, filter).len() as int) == out2.take(
            command_entries(cmds, filter).len() as int,
        ),
        forall|k: int|
            command_entries(cmds, filter).len() <= k < out2.len() ==> ((#[trigger] out2[k]).0 matches CommandItemView::Skill(
                m,
            ) && exists|j: int| 0 <= j < s2.len() && (#[trigger] s2[j])@ == m),
        s2.len() == 0 ==> out2 == command_entries(cmds, filter),
{
    let c = command_entries(cmds, filter);
    let sm = skill_matches(s2, filter);
    let t = choose|t: Seq<(MentionView, Option<Seq<usize>>, i32)>|
        #[trigger] is_skill_listing(t, s2, filter) && out2.skip(c.len() as int) == skill_entries(t);
    let ms = choose|ms: Seq<MentionMatchView>|
        {
            &&& #[trigger] ms.to_multiset() == sm.to_multiset()
            &&& sorted_by_rank(ms, s2, filter.len() > 0)
            &&& t == triples_of(s2, ms)
        };
    vstd::seq_lib::to_multiset_len(ms);
    vstd::seq_lib::to_multiset_len(sm);
    lemma_skill_matches_in_range(s2, filter);
    assert forall|k: int|
        c.len() <= k < out2.len() implies ((#[trigger] out2[k]).0 matches CommandItemView::Skill(m)
        && exists|j: int| 0 <= j < s2.len() && (#[trigger] s2[j])@ == m) by {
        assert(out2[k] == out2.skip(c.len() as int)[k - c.len()]);
        let q = k - c.len();
        assert(out2[k] == skill_entry(t[q]));
        assert(t[q] == skill_triple(s2, ms[q]));
        assert(ms.to_multiset().count(ms[q]) > 0) by {
            broadcast use vstd::seq_lib::group_to_multiset_ensures;

            assert(ms.contains(ms[q]));
        }
        assert(sm.contains(ms[q])) by {
            broadcast use vstd::seq_lib::group_to_multiset_ensures;

        }
        let i = choose|i: int| 0 <= i < sm.len() && sm[i] == ms[q];
        assert(sm[i].0 < s2.len());
        assert(s2[ms[q].0 as int]@ == t[q].0);
    }
    if s2.len() == 0 {
        assert(sm.len() == 0);
        assert(out2 =~= c) by {
            assert(out2.take(c.len() as int) == c);
        }
    }
}

/// Skill matches point into the skills.
proof fn lemma_skill_matches_in_range(skills: Seq<MentionItem>, filter: Seq<char>)
    ensures
        forall|k: int|
            0 <= k < skill_matches(skills, filter).len() ==> (#[trigger] skill_matches(
                skills,
                filter,
            )[k]).0 < skills.len(),
    decreases skills.len(),
{
    if skills.len() > 0 {
        let rest = skills.drop_last();
        lemma_skill_matches_in_range(rest, filter);
        let sr = skill_matches(rest, filter);
        let sm = skill_matches(skills, filter);
        assert forall|k: int| 0 <= k < sm.len() implies (#[trigger] sm[k]).0 < skills.len() by {
            if k < sr.len() {
                assert(sm[k] == sr[k]);
            }
        }
    }
}

/// After the list changes to `items`, something is selected exactly when
/// the list is not empty.
pub proof fn lemma_selection_exists_iff_listed(st: ScrollState, items: Seq<CommandItemView>)
    requires
        items.len() <= usize::MAX,
    ensures
        selected_of(items, refreshed_state(st, items.len()).selected_idx) is Some <==> items.len()
            > 0,
{
    if items.len() > 0 {
        lemma_refreshed_selection_is_visible(st, items.len());
    }
}

/// Moving down selects the next item, wrapping from the last to the first;
/// moving up selects the previous one, wrapping from the first to the last;
/// a move down followed by a move up, or the reverse, restores the selection.
pub proof fn lemma_moves_step_through_items(st: ScrollState, items: Seq<CommandItemView>, i: usize)
    requires
        0 < items.len() <= usize::MAX,
        st.selected_idx == Some(i),
        i < items.len(),
    ensures
        selected_of(items, moved_state(st, items.len(), false).selected_idx) == Some(
            items[if i + 1 < items.len() {
                i + 1
            } else {
                0
            }],
        ),
        selected_of(items, moved_state(st, items.len(), true).selected_idx) == Some(
            items[if i > 0 {
                i - 1
            } else {
                items.len() - 1
            }],
        ),
        moved_state(moved_state(st, items.len(), false), items.len(), true).selected_idx
            == st.selected_idx,
        moved_state(moved_state(st, items.len(), true), items.len(), false).selected_idx
            == st.selected_idx,
{
}

/// Popups with the same commands, skills and filter list the same items;
/// with the same selection they also select the same item.
pub proof fn lemma_popups_alike_list_alike(
    p1: CommandPopup,
    p2: CommandPopup,
    items1: Seq<CommandItemView>,
    items2: Seq<CommandItemView>,
)
    requires
        p1.commands_view() == p2.commands_view(),
        p1.skills_view() == p2.skills_view(),
        p1.filter_text() == p2.filter_text(),
        p1.skills_view().len() <= usize::MAX,
        p1.lists(items1),
        p2.lists(items2),
    ensures
        items1 == items2,
        p1.listed_len() == p2.listed_len(),
        p1.scroll().selected_idx == p2.scroll().selected_idx ==> selected_of(
            items1,
            p1.scroll().selected_idx,
        ) == selected_of(items2, p2.scroll().selected_idx),
{
    let f = trim_of(p1.filter_text());
    let e2 = choose|e: Seq<CommandEntryView>|
        #[trigger] is_popup_listing(e, p2.commands_view(), p2.skills_view(), f) && items2
            == entry_items(e);
    assert(is_popup_listing(e2, p1.commands_view(), p1.skills_view(), f));
    assert(p1.lists(items2));
    lemma_popup_lists_one_list(p1, items1, items2);
}

/// A fresh popup (empty filter) lists what the same popup lists once the
/// composer holds `/` alone.
pub proof fn lemma_fresh_popup_lists_as_after_slash(
    fresh: CommandPopup,
    slashed: CommandPopup,
    items1: Seq<CommandItemView>,
    items2: Seq<CommandItemView>,
)
    requires
        fresh.filter_text() == Seq::<char>::empty(),
        slashed.filter_text() == composer_filter_of(seq!['/']),
        fresh.commands_view() == slashed.commands_view(),
        fresh.skills_view() == slashed.skills_view(),
        fresh.skills_view().len() <= usize::MAX,
        fresh.lists(items1),
        slashed.lists(items2),
    ensures
        items1 == items2,
{
    crate::text::lemma_slash_alone_sets_no_filter();
    lemma_popups_alike_list_alike(fresh, slashed, items1, items2);
}

/// The listing the popup shows is the one listing `is_popup_listing` allows.
proof fn lemma_listing_of_matches(
    e: Seq<CommandEntryView>,
    cmds: Seq<CommandItemView>,
    skills: Seq<MentionItem>,
    filter: Seq<char>,
)
    requires
        skills.len() <= usize::MAX,
        is_popup_listing(e, cmds, skills, filter),
    ensures
        listing_of(cmds, skills, filter) == entry_items(e),
{
    let c = choose|e2: Seq<CommandEntryView>| is_popup_listing(e2, cmds, skills, filter);
    lemma_popup_listing_is_unique(e, c, cmds, skills, filter);
}

/// Dropping the skills of `a + b`, where `a` holds none and `b` only
/// skills, leaves `a`.
proof fn lemma_non_skill_split(a: Seq<CommandItemView>, b: Seq<CommandItemView>)
    requires
        no_skills(a),
        forall|k: int| 0 <= k < b.len() ==> #[trigger] b[k] is Skill,
    ensures
        non_skill_items(a + b) == a,
    decreases a.len() + b.len(),
{
    if b.len() > 0 {
        assert((a + b).drop_last() =~= a + b.drop_last());
        assert((a + b).last() == b[b.len() - 1]);
        lemma_non_skill_split(a, b.drop_last());
    } else if a.len() > 0 {
        assert(a + b =~= a);
        assert(a.drop_last() + b =~= a.drop_last());
        lemma_non_skill_split(a.drop_last(), b);
        assert(!(a[a.len() - 1] is Skill));
        assert(a.drop_last().push(a.last()) =~= a);
    } else {
        assert(a + b =~= Seq::<CommandItemView>::empty());
    }
}

/// The items of a listing are the command part's items followed by listed
/// skills; for commands without skills, dropping the skills leaves the
/// command part.
proof fn lemma_non_skills_of_listing(
    e: Seq<CommandEntryView>,
    cmds: Seq<CommandItemView>,
    skills: Seq<MentionItem>,
    filter: Seq<char>,
)
    requires
        is_popup_listing(e, cmds, skills, filter),
        no_skills(cmds),
    ensures
        non_skill_items(entry_items(e)) == entry_items(command_entries(cmds, filter)),
{
    let c = command_entries(cmds, filter);
    let t = choose|t: Seq<(MentionView, Option<Seq<usize>>, i32)>|
        #[trigger] is_skill_listing(t, skills, filter) && e.skip(c.len() as int) == skill_entries(t);
    lemma_listing_entries_from(e, cmds, skills, filter);
    let a = entry_items(c);
    let b = entry_items(e.skip(c.len() as int));
    assert(entry_items(e) =~= a + b) by {
        assert(e =~= e.take(c.len() as int) + e.skip(c.len() as int));
    }
    let fl = lowercase_of(filter);
    lemma_unfiltered_entries_members(cmds);
    lemma_matching_entries_members(cmds, fl, filter.len(), true);
    lemma_matching_entries_members(cmds, fl, filter.len(), false);
    let ex = matching_entries(cmds, fl, filter.len(), true);
    let pre = matching_entries(cmds, fl, filter.len(), false);
    assert forall|k: int| 0 <= k < a.len() implies !(#[trigger] a[k] is Skill) by {
        assert(a[k] == c[k].0);
        if filter.len() > 0 {
            assert(c == ex + pre);
            if k < ex.len() {
                assert(c[k] == ex[k]);
            } else {
                assert(c[k] == pre[k - ex.len()]);
            }
        }
        assert(cmds.contains(c[k].0));
        let j = choose|j: int| 0 <= j < cmds.len() && cmds[j] == c[k].0;
        assert(!(cmds[j] is Skill));
    }
    assert forall|k: int| 0 <= k < b.len() implies #[trigger] b[k] is Skill by {
        assert(b[k] == skill_entries(t)[k].0);
    }
    lemma_non_skill_split(a, b);
}

/// A listing's items, for a listing of `items`: the command part followed by
/// the items of a skill listing of `skills`.
proof fn lemma_listed_items_split(
    cmds: Seq<CommandItemView>,
    skills: Seq<MentionItem>,
    filter: Seq<char>,
    items: Seq<CommandItemView>,
)
    requires
        exists|e: Seq<CommandEntryView>|
            #[trigger] is_popup_listing(e, cmds, skills, filter) && items == entry_items(e),
    ensures
        exists|t: Seq<(MentionView, Option<Seq<usize>>, i32)>|
            {
                &&& #[trigger] is_skill_listing(t, skills, filter)
                &&& items == entry_items(command_entries(cmds, filter)) + skill_items_of(t)
            },
        skills.len() == 0 ==> items == entry_items(command_entries(cmds, filter)),
{
    let e = choose|e: Seq<CommandEntryView>|
        #[trigger] is_popup_listing(e, cmds, skills, filter) && items == entry_items(e);
    let c = command_entries(cmds, filter);
    let t = choose|t: Seq<(MentionView, Option<Seq<usize>>, i32)>|
        #[trigger] is_skill_listing(t, skills, filter) && e.skip(c.len() as int) == skill_entries(t);
    assert(e =~= e.take(c.len() as int) + e.skip(c.len() as int));
    assert(entry_items(e) =~= entry_items(c) + skill_items_of(t));
    if skills.len() == 0 {
        let ms = choose|ms: Seq<MentionMatchView>|
            {
                &&& #[trigger] ms.to_multiset() == skill_matches(skills, filter).to_multiset()
                &&& sorted_by_rank(ms, skills, filter.len() > 0)
                &&& t == triples_of(skills, ms)
            };
        vstd::seq_lib::to_multiset_len(ms);
        vstd::seq_lib::to_multiset_len(skill_matches(skills, filter));
        assert(skill_items_of(t) =~= Seq::<CommandItemView>::empty());
        assert(items =~= entry_items(c));
    }
}

/// A skill listing is unique: two skill listings of the same skills for the
/// same filter are the same list.
pub proof fn lemma_skill_listing_is_unique(
    t1: Seq<(MentionView, Option<Seq<usize>>, i32)>,
    t2: Seq<(MentionView, Option<Seq<usize>>, i32)>,
    skills: Seq<MentionItem>,
    filter: Seq<char>,
)
    requires
        skills.len() <= usize::MAX,
        is_skill_listing(t1, skills, filter),
        is_skill_listing(t2, skills, filter),
    ensures
        t1 == t2,
{
    let sm = skill_matches(skills, filter);
    let ms1 = choose|ms: Seq<MentionMatchView>|
        {
            &&& #[trigger] ms.to_multiset() == sm.to_multiset()
            &&& sorted_by_rank(ms, skills, filter.len() > 0)
            &&& t1 == triples_of(skills, ms)
        };
    let ms2 = choose|ms: Seq<MentionMatchView>|
        {
            &&& #[trigger] ms.to_multiset() == sm.to_multiset()
            &&& sorted_by_rank(ms, skills, filter.len() > 0)
            &&& t2 == triples_of(skills, ms)
        };
    lemma_skill_matches_distinct(skills, filter);
    lemma_reordered_matches_distinct(sm, ms1);
    crate::mention::lemma_ranking_is_unique(ms1, ms2, skills, filter.len() > 0);
}

/// Matching ignores the case of ASCII letters: two ASCII filters that
/// differ only in the case of their letters give the same listing. The
/// lowercasing of each filter is the documented ASCII one, as `filtered`
/// ensures for the filter it lists.
pub proof fn lemma_ascii_filter_case_ignored(
    out: Seq<CommandEntryView>,
    cmds: Seq<CommandItemView>,
    skills: Seq<MentionItem>,
    f1: Seq<char>,
    f2: Seq<char>,
)
    requires
        f1.len() == f2.len(),
        forall|k: int| 0 <= k < f1.len() ==> ascii_lower_char(#[trigger] f1[k]) == ascii_lower_char(f2[k]),
        lowercase_of(f1) == ascii_lowercase(f1),
        lowercase_of(f2) == ascii_lowercase(f2),
        is_popup_listing(out, cmds, skills, f1),
    ensures
        is_popup_listing(out, cmds, skills, f2),
{
    crate::text::lemma_ascii_case_variants_lower_alike(f1, f2);
    lemma_listing_ignores_filter_case(out, cmds, skills, f1, f2);
}

/// Whether `c` is not the `/quit` alias.
pub open spec fn not_quit(c: CommandItemView) -> bool {
    c != CommandItemView::Builtin(SlashCommand::Quit)
}

/// With an empty filter every offered command but the `/quit` alias is
/// listed, in the order offered, with nothing highlighted.
pub proof fn lemma_unfiltered_lists_every_non_alias(cmds: Seq<CommandItemView>)
    ensures
        entry_items(unfiltered_entries(cmds)) == cmds.filter(|c: CommandItemView| not_quit(c)),
        forall|k: int|
            0 <= k < unfiltered_entries(cmds).len() ==> (#[trigger] unfiltered_entries(cmds)[k]).1 is None,
    decreases cmds.len(),
{
    reveal(Seq::filter);
    if cmds.len() > 0 {
        let rest = cmds.drop_last();
        lemma_unfiltered_lists_every_non_alias(rest);
        let u = unfiltered_entries(cmds);
        let ur = unfiltered_entries(rest);
        if not_quit(cmds.last()) {
            assert(u == ur.push((cmds.last(), None)));
            assert(entry_items(u) =~= entry_items(ur).push(cmds.last()));
            assert forall|k: int| 0 <= k < u.len() implies (#[trigger] u[k]).1 is None by {
                if k < ur.len() {
                    assert(u[k] == ur[k]);
                }
            }
        } else {
            assert(u == ur);
        }
    }
}

/// A popup with an empty filter lists first every command it offers except
/// the `/quit` alias, in the order offered and unhighlighted.
pub proof fn lemma_empty_filter_lists_every_command(
    out: Seq<CommandEntryView>,
    cmds: Seq<CommandItemView>,
    skills: Seq<MentionItem>,
)
    requires
        is_popup_listing(out, cmds, skills, Seq::<char>::empty()),
    ensures
        entry_items(out.take(cmds.filter(|c: CommandItemView| not_quit(c)).len() as int))
            == cmds.filter(|c: CommandItemView| not_quit(c)),
        forall|k: int|
            0 <= k < cmds.filter(|c: CommandItemView| not_quit(c)).len() ==> (#[trigger] out[k]).1 is None,
{
    lemma_unfiltered_lists_every_non_alias(cmds);
    let u = unfiltered_entries(cmds);
    assert(entry_items(u).len() == u.len());
    assert(out.take(u.len() as int) == u);
    assert forall|k: int| 0 <= k < u.len() implies (#[trigger] out[k]).1 is None by {
        assert(out[k] == out.take(u.len() as int)[k]);
        assert(u[k].1 is None);
    }
}

/// Whether the popup of a session with `flags` offers the built-in `cmd`,
/// read off the popup's own switches.
pub open spec fn popup_switch_on(cmd: SlashCommand, flags: CommandPopupFlags) -> bool {
    match cmd {
        SlashCommand::Plan | SlashCommand::Collab => flags.collaboration_modes_enabled,
        SlashCommand::Plugins => flags.plugins_command_enabled,
        SlashCommand::Goal => flags.goal_command_enabled,
        SlashCommand::Personality => flags.personality_command_enabled,
        SlashCommand::Realtime => flags.realtime_conversation_enabled,
        SlashCommand::Settings => flags.realtime_conversation_enabled
            && flags.audio_device_selection_enabled,
        SlashCommand::ElevateSandbox => flags.windows_degraded_sandbox_active,
        SlashCommand::Side => !flags.side_conversation_active,
        _ => true,
    }
}

/// The popup's switches reach the command flags unchanged: each switch
/// keeps its name, and the degraded Windows sandbox allows the sandbox
/// elevation command.
pub proof fn lemma_popup_flags_carry_over(flags: CommandPopupFlags)
    ensures
        builtin_flags_of(flags).collaboration_modes_enabled == flags.collaboration_modes_enabled,
        builtin_flags_of(flags).connectors_enabled == flags.connectors_enabled,
        builtin_flags_of(flags).plugins_command_enabled == flags.plugins_command_enabled,
        builtin_flags_of(flags).service_tier_commands_enabled
            == flags.service_tier_commands_enabled,
        builtin_flags_of(flags).goal_command_enabled == flags.goal_command_enabled,
        builtin_flags_of(flags).personality_command_enabled == flags.personality_command_enabled,
        builtin_flags_of(flags).realtime_conversation_enabled
            == flags.realtime_conversation_enabled,
        builtin_flags_of(flags).audio_device_selection_enabled
            == flags.audio_device_selection_enabled,
        builtin_flags_of(flags).allow_elevate_sandbox == flags.windows_degraded_sandbox_active,
        builtin_flags_of(flags).side_conversation_active == flags.side_conversation_active,
{
}

/// A popup offers a built-in command other than `/apps` and the debugging
/// commands exactly when the popup's switch for it is on.
pub proof fn lemma_popup_offers_by_switch(
    flags: CommandPopupFlags,
    tiers: Seq<ServiceTierCommand>,
    cmd: SlashCommand,
)
    requires
        !"debug"@.is_prefix_of(command_name(cmd)),
        cmd != SlashCommand::Apps,
    ensures
        popup_items(commands_for(builtin_flags_of(flags), tiers)).contains(
            CommandItemView::Builtin(cmd),
        ) <==> popup_switch_on(cmd, flags),
{
    let items = popup_items(commands_for(builtin_flags_of(flags), tiers));
    if popup_switch_on(cmd, flags) {
        lemma_popup_offers_every_available_command(flags, tiers, cmd);
    }
    if items.contains(CommandItemView::Builtin(cmd)) {
        lemma_popup_offers_only_available_commands(flags, tiers);
        let k = choose|k: int| 0 <= k < items.len() && items[k] == CommandItemView::Builtin(cmd);
        assert(items[k] == CommandItemView::Builtin(cmd));
    }
}

proof fn lemma_matching_entries_complete(
    cmds: Seq<CommandItemView>,
    fl: Seq<char>,
    count: nat,
    exact: bool,
    i: int,
)
    requires
        0 <= i < cmds.len(),
        entry_hits(cmds[i], fl, exact),
    ensures
        matching_entries(cmds, fl, count, exact).contains((cmds[i], Some(leading_indices(count)))),
    decreases cmds.len(),
{
    let m = matching_entries(cmds, fl, count, exact);
    if i < cmds.len() - 1 {
        let rest = cmds.drop_last();
        assert(rest[i] == cmds[i]);
        lemma_matching_entries_complete(rest, fl, count, exact, i);
        let mr = matching_entries(rest, fl, count, exact);
        let k = choose|k: int| 0 <= k < mr.len() && mr[k] == (cmds[i], Some(leading_indices(count)));
        assert(m[k] == mr[k]);
    } else {
        assert(m[m.len() - 1] == (cmds[i], Some(leading_indices(count))));
    }
}

/// For a non-empty filter, every offered command whose name starts with the
/// filter, ignoring case, is listed, highlighted on the filter's positions.
pub proof fn lemma_every_prefix_match_listed(cmds: Seq<CommandItemView>, filter: Seq<char>, i: int)
    requires
        filter.len() > 0,
        0 <= i < cmds.len(),
        lowercase_of(filter).is_prefix_of(lowercase_of(item_command(cmds[i]))),
    ensures
        command_entries(cmds, filter).contains((cmds[i], Some(leading_indices(filter.len())))),
{
    let fl = lowercase_of(filter);
    let ex = matching_entries(cmds, fl, filter.len(), true);
    let pre = matching_entries(cmds, fl, filter.len(), false);
    assert(command_entries(cmds, filter) == ex + pre);
    let e = (cmds[i], Some(leading_indices(filter.len())));
    if lowercase_of(item_command(cmds[i])) == fl {
        lemma_matching_entries_complete(cmds, fl, filter.len(), true, i);
        let k = choose|k: int| 0 <= k < ex.len() && ex[k] == e;
        assert((ex + pre)[k] == e);
    } else {
        lemma_matching_entries_complete(cmds, fl, filter.len(), false, i);
        let k = choose|k: int| 0 <= k < pre.len() && pre[k] == e;
        assert((ex + pre)[ex.len() + k] == e);
    }
}

/// The skills listed for a filter are exactly those that match it: each
/// matching skill once, under its index, with its match's highlights and
/// score, and no skill that does not match.
pub proof fn lemma_skill_matches_are_the_matching_skills(
    skills: Seq<MentionItem>,
    filter: Seq<char>,
    j: int,
)
    requires
        skills.len() <= usize::MAX,
        0 <= j < skills.len(),
    ensures
        mention_match(skills[j]@, filter) matches Some((ix, sc)) ==> skill_matches(
            skills,
            filter,
        ).contains((j as usize, ix, sc)),
        forall|k: int|
            0 <= k < skill_matches(skills, filter).len() ==> mention_match(
                skills[(#[trigger] skill_matches(skills, filter)[k]).0 as int]@,
                filter,
            ) == Some((skill_matches(skills, filter)[k].1, skill_matches(skills, filter)[k].2)),
    decreases skills.len(),
{
    let rest = skills.drop_last();
    let sm = skill_matches(skills, filter);
    let sr = skill_matches(rest, filter);
    lemma_skill_matches_in_range(rest, filter);
    if j < skills.len() - 1 {
        assert(rest[j] == skills[j]);
        lemma_skill_matches_are_the_matching_skills(rest, filter, j);
        if mention_match(skills[j]@, filter) is Some {
            let found = mention_match(skills[j]@, filter)->0;
            let m = choose|k: int| 0 <= k < sr.len() && sr[k] == (j as usize, found.0, found.1);
            assert(sm[m] == sr[m]);
        }
    } else {
        if skills.len() > 1 {
            lemma_skill_matches_are_the_matching_skills(rest, filter, 0);
        }
        assert(skills.last() == skills[j]);
        if mention_match(skills[j]@, filter) is Some {
            let found = mention_match(skills[j]@, filter)->0;
            assert(sm == sr.push((j as usize, found.0, found.1)));
            assert(sm[sm.len() - 1] == (j as usize, found.0, found.1));
        }
    }
    assert forall|k: int| 0 <= k < sm.len() implies mention_match(
        skills[(#[trigger] sm[k]).0 as int]@,
        filter,
    ) == Some((sm[k].1, sm[k].2)) by {
        if k < sr.len() {
            assert(sm[k] == sr[k]);
            assert(sr[k].0 < rest.len());
            assert(skills[sr[k].0 as int] == rest[sr[k].0 as int]);
        }
    }
}

} // verus!
