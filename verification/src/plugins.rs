//! Which marketplace plugins are suggested to the model as discoverable
//! tools, and in which order.
use vstd::prelude::*;

use crate::text::lemma_lex_irreflexive;
use crate::text::lemma_lex_total;
use crate::text::lemma_lex_transitive;
use crate::text::seq_lex_lt;
use crate::text::str_equal;
use crate::text::str_lex_less;

verus! {

/// Name of the curated marketplace.
pub const FIREFAMAI_CURATED_MARKETPLACE_NAME: &'static str = "firefamai-curated";

/// Name of the bundled marketplace.
pub const FIREFAMAI_BUNDLED_MARKETPLACE_NAME: &'static str = "firefamai-bundled";

/// Plugins that are suggested without being configured as discoverable.
pub open spec fn plugin_allowlist() -> Seq<Seq<char>> {
    seq![
        "github@firefamai-curated"@,
        "notion@firefamai-curated"@,
        "slack@firefamai-curated"@,
        "gmail@firefamai-curated"@,
        "google-calendar@firefamai-curated"@,
        "google-drive@firefamai-curated"@,
        "firefamai-developers@firefamai-curated"@,
        "canva@firefamai-curated"@,
        "teams@firefamai-curated"@,
        "sharepoint@firefamai-curated"@,
        "outlook-email@firefamai-curated"@,
        "outlook-calendar@firefamai-curated"@,
        "linear@firefamai-curated"@,
        "figma@firefamai-curated"@,
        "chrome@firefamai-bundled"@,
        "computer-use@firefamai-bundled"@
    ]
}

/// The plugins suggested without being configured as discoverable.
pub fn tool_suggest_discoverable_plugin_allowlist() -> (v: Vec<&'static str>)
    ensures
        v@.map_values(|s: &'static str| s@) == plugin_allowlist(),
{
    let mut v: Vec<&'static str> = Vec::new();
    v.push("github@firefamai-curated");
    v.push("notion@firefamai-curated");
    v.push("slack@firefamai-curated");
    v.push("gmail@firefamai-curated");
    v.push("google-calendar@firefamai-curated");
    v.push("google-drive@firefamai-curated");
    v.push("firefamai-developers@firefamai-curated");
    v.push("canva@firefamai-curated");
    v.push("teams@firefamai-curated");
    v.push("sharepoint@firefamai-curated");
    v.push("outlook-email@firefamai-curated");
    v.push("outlook-calendar@firefamai-curated");
    v.push("linear@firefamai-curated");
    v.push("figma@firefamai-curated");
    v.push("chrome@firefamai-bundled");
    v.push("computer-use@firefamai-bundled");
    assert(v@.map_values(|s: &'static str| s@) =~= plugin_allowlist());
    v
}

/// Whether `id` is a plugin suggested without configuration.
pub fn is_allowlisted_plugin(id: &str) -> (r: bool)
    ensures
        r == plugin_allowlist().contains(id@),
{
    let list: Vec<&'static str> = tool_suggest_discoverable_plugin_allowlist();
    let ghost views = list@.map_values(|s: &'static str| s@);
    let mut i: usize = 0;
    while i < list.len()
        invariant
            i <= list@.len(),
            views == list@.map_values(|s: &'static str| s@),
            views == plugin_allowlist(),
            forall|q: int| 0 <= q < i ==> views[q] != id@,
        decreases list@.len() - i,
    {
        if str_equal(list[i], id) {
            assert(views[i as int] == id@);
            return true;
        }
        i = i + 1;
    }
    false
}

/// The marketplaces whose plugins may be suggested.
pub open spec fn allowlisted_marketplace(name: Seq<char>) -> bool {
    name == "firefamai-curated"@ || name == "firefamai-bundled"@
}

/// Whether plugins of marketplace `name` may be suggested.
pub fn is_allowlisted_marketplace(name: &str) -> (r: bool)
    ensures
        r == allowlisted_marketplace(name@),
{
    str_equal(name, FIREFAMAI_CURATED_MARKETPLACE_NAME) || str_equal(
        name,
        FIREFAMAI_BUNDLED_MARKETPLACE_NAME,
    )
}

/// What kind of tool a suggestion setting is about.
#[derive(Clone, Copy, Debug, PartialEq, Eq, Structural)]
pub enum ToolSuggestDiscoverableType {
    Plugin,
    Connector,
}

/// A tool configured as discoverable, or disabled for suggestions.
#[derive(Debug, PartialEq, Eq)]
pub struct ToolSuggestEntry {
    pub kind: ToolSuggestDiscoverableType,
    pub id: String,
}

/// A plugin as a marketplace lists it.
#[derive(Debug, PartialEq, Eq)]
pub struct MarketplacePlugin {
    pub id: String,
    pub installed: bool,
}

/// A configured marketplace and its plugins.
#[derive(Debug, PartialEq, Eq)]
pub struct ConfiguredMarketplace {
    pub name: String,
    pub plugins: Vec<MarketplacePlugin>,
}

/// Whether `entries` holds a plugin entry for `id`.
pub open spec fn has_plugin_entry(entries: Seq<ToolSuggestEntry>, id: Seq<char>) -> bool {
    exists|i: int|
        0 <= i < entries.len() && (#[trigger] entries[i]).kind == ToolSuggestDiscoverableType::Plugin
            && entries[i].id@ == id
}

/// Whether `entries` holds a plugin entry for `id`.
pub fn contains_plugin_entry(entries: &Vec<ToolSuggestEntry>, id: &str) -> (r: bool)
    ensures
        r == has_plugin_entry(entries@, id@),
{
    let mut i: usize = 0;
    while i < entries.len()
        invariant
            i <= entries@.len(),
            forall|q: int|
                0 <= q < i ==> !((#[trigger] entries@[q]).kind
                    == ToolSuggestDiscoverableType::Plugin && entries@[q].id@ == id@),
        decreases entries@.len() - i,
    {
        let e: &ToolSuggestEntry = &entries[i];
        if e.kind == ToolSuggestDiscoverableType::Plugin && str_equal(e.id.as_str(), id) {
            return true;
        }
        i = i + 1;
    }
    false
}

/// Whether a listed plugin is suggested: it is not installed, not disabled
/// for suggestions, and either allowlisted or configured as discoverable.
pub open spec fn wanted_plugin(
    p: MarketplacePlugin,
    discoverables: Seq<ToolSuggestEntry>,
    disabled: Seq<ToolSuggestEntry>,
) -> bool {
    &&& !p.installed
    &&& !has_plugin_entry(disabled, p.id@)
    &&& (plugin_allowlist().contains(p.id@) || has_plugin_entry(discoverables, p.id@))
}

/// A plugin whose details are to be read for a suggestion.
#[derive(Debug, PartialEq, Eq)]
pub struct DiscoverableCandidate {
    pub marketplace_name: String,
    pub plugin_id: String,
}

/// The suggested plugins of one marketplace, as (marketplace, plugin id).
pub open spec fn plugin_candidates(
    name: Seq<char>,
    plugins: Seq<MarketplacePlugin>,
    discoverables: Seq<ToolSuggestEntry>,
    disabled: Seq<ToolSuggestEntry>,
) -> Seq<(Seq<char>, Seq<char>)>
    decreases plugins.len(),
{
    if plugins.len() == 0 {
        seq![]
    } else {
        let rest = plugin_candidates(name, plugins.drop_last(), discoverables, disabled);
        if wanted_plugin(plugins.last(), discoverables, disabled) {
            rest.push((name, plugins.last().id@))
        } else {
            rest
        }
    }
}

/// The suggested plugins of the allowlisted marketplaces, in marketplace and
/// listing order.
pub open spec fn marketplace_candidates(
    marketplaces: Seq<ConfiguredMarketplace>,
    discoverables: Seq<ToolSuggestEntry>,
    disabled: Seq<ToolSuggestEntry>,
) -> Seq<(Seq<char>, Seq<char>)>
    decreases marketplaces.len(),
{
    if marketplaces.len() == 0 {
        seq![]
    } else {
        let rest = marketplace_candidates(marketplaces.drop_last(), discoverables, disabled);
        let m = marketplaces.last();
        if allowlisted_marketplace(m.name@) {
            rest + plugin_candidates(m.name@, m.plugins@, discoverables, disabled)
        } else {
            rest
        }
    }
}

/// The view of a candidate.
pub open spec fn candidate_view(c: DiscoverableCandidate) -> (Seq<char>, Seq<char>) {
    (c.marketplace_name@, c.plugin_id@)
}

/// The views of a list of candidates.
pub open spec fn candidates_view(s: Seq<DiscoverableCandidate>) -> Seq<(Seq<char>, Seq<char>)> {
    s.map_values(|c: DiscoverableCandidate| candidate_view(c))
}

/// The plugins whose details are read for suggestions: none while the
/// plugins feature is off; otherwise the suggested plugins of the
/// allowlisted marketplaces.
pub fn discoverable_plugin_candidates(
    plugins_enabled: bool,
    discoverables: &Vec<ToolSuggestEntry>,
    disabled_tools: &Vec<ToolSuggestEntry>,
    marketplaces: &Vec<ConfiguredMarketplace>,
) -> (r: Vec<DiscoverableCandidate>)
    ensures
        candidates_view(r@) == if plugins_enabled {
            marketplace_candidates(marketplaces@, discoverables@, disabled_tools@)
        } else {
            Seq::empty()
        },
{
    let mut out: Vec<DiscoverableCandidate> = Vec::new();
    if !plugins_enabled {
        assert(candidates_view(out@) =~= Seq::empty());
        return out;
    }
    let mut i: usize = 0;
    assert(candidates_view(out@) =~= Seq::empty());
    while i < marketplaces.len()
        invariant
            i <= marketplaces@.len(),
            candidates_view(out@) == marketplace_candidates(
                marketplaces@.take(i as int),
                discoverables@,
                disabled_tools@,
            ),
        decreases marketplaces@.len() - i,
    {
        proof {
            assert(marketplaces@.take(i + 1).drop_last() =~= marketplaces@.take(i as int));
        }
        let m: &ConfiguredMarketplace = &marketplaces[i];
        if is_allowlisted_marketplace(m.name.as_str()) {
            let ghost base = candidates_view(out@);
            let mut j: usize = 0;
            assert(base + plugin_candidates(
                m.name@,
                m.plugins@.take(0),
                discoverables@,
                disabled_tools@,
            ) =~= base);
            while j < m.plugins.len()
                invariant
                    j <= m.plugins@.len(),
                    candidates_view(out@) == base + plugin_candidates(
                        m.name@,
                        m.plugins@.take(j as int),
                        discoverables@,
                        disabled_tools@,
                    ),
                decreases m.plugins@.len() - j,
            {
                proof {
                    assert(m.plugins@.take(j + 1).drop_last() =~= m.plugins@.take(j as int));
                }
                let p: &MarketplacePlugin = &m.plugins[j];
                let ghost prev = out@;
                if !p.installed && !contains_plugin_entry(disabled_tools, p.id.as_str()) && (
                is_allowlisted_plugin(p.id.as_str()) || contains_plugin_entry(
                    discoverables,
                    p.id.as_str(),
                )) {
                    out.push(
                        DiscoverableCandidate {
                            marketplace_name: m.name.clone(),
                            plugin_id: p.id.clone(),
                        },
                    );
                }
                proof {
                    let pl = m.plugins@.take(j + 1);
                    assert(pl.last() == *p);
                    assert(pl.drop_last() =~= m.plugins@.take(j as int));
                    let w = wanted_plugin(*p, discoverables@, disabled_tools@);
                    let rest = plugin_candidates(
                        m.name@,
                        m.plugins@.take(j as int),
                        discoverables@,
                        disabled_tools@,
                    );
                    let next = plugin_candidates(m.name@, pl, discoverables@, disabled_tools@);
                    assert(next == if w {
                        rest.push((m.name@, p.id@))
                    } else {
                        rest
                    });
                    assert(candidates_view(prev) == base + rest);
                    if w {
                        assert(out@.len() == prev.len() + 1);
                        assert(candidate_view(out@[prev.len() as int]) == (m.name@, p.id@));
                        assert forall|k: int| 0 <= k < prev.len() implies candidates_view(out@)[k]
                            == candidates_view(prev)[k] by {
                            assert(out@[k] == prev[k]);
                        }
                        assert(candidates_view(out@) =~= (base + rest).push((m.name@, p.id@)));
                        assert((base + rest).push((m.name@, p.id@)) =~= base + next);
                    } else {
                        assert(out@ == prev);
                    }
                    let lhs = candidates_view(out@);
                    assert forall|k: int| 0 <= k < prev.len() implies lhs[k]
                        == candidates_view(prev)[k] by {
                        assert(out@[k] == prev[k]);
                    }
                }
                j = j + 1;
                assert(candidates_view(out@) =~= base + plugin_candidates(
                    m.name@,
                    m.plugins@.take(j as int),
                    discoverables@,
                    disabled_tools@,
                ));
            }
            assert(m.plugins@.take(j as int) =~= m.plugins@);
        }
        i = i + 1;
        assert(candidates_view(out@) =~= marketplace_candidates(
            marketplaces@.take(i as int),
            discoverables@,
            disabled_tools@,
        ));
    }
    assert(marketplaces@.take(i as int) =~= marketplaces@);
    out
}


/// Whether plugin `id` of marketplace `name` is one to suggest: the
/// marketplace is allowlisted and lists the plugin, which is wanted.
pub open spec fn offered_plugin(
    marketplaces: Seq<ConfiguredMarketplace>,
    discoverables: Seq<ToolSuggestEntry>,
    disabled: Seq<ToolSuggestEntry>,
    name: Seq<char>,
    id: Seq<char>,
) -> bool {
    exists|i: int, j: int| #[trigger] offered_at(marketplaces, discoverables, disabled, name, id, i, j)
}

/// Whether plugin `j` of marketplace `i` is plugin `id` of marketplace
/// `name`, and one to suggest.
pub open spec fn offered_at(
    marketplaces: Seq<ConfiguredMarketplace>,
    discoverables: Seq<ToolSuggestEntry>,
    disabled: Seq<ToolSuggestEntry>,
    name: Seq<char>,
    id: Seq<char>,
    i: int,
    j: int,
) -> bool {
    &&& 0 <= i < marketplaces.len()
    &&& 0 <= j < marketplaces[i].plugins@.len()
    &&& allowlisted_marketplace(marketplaces[i].name@)
    &&& marketplaces[i].name@ == name
    &&& marketplaces[i].plugins@[j].id@ == id
    &&& wanted_plugin(marketplaces[i].plugins@[j], discoverables, disabled)
}

/// The candidates of one marketplace are its wanted plugins, and all of them.
proof fn lemma_plugin_candidates_exact(
    name: Seq<char>,
    plugins: Seq<MarketplacePlugin>,
    discoverables: Seq<ToolSuggestEntry>,
    disabled: Seq<ToolSuggestEntry>,
)
    ensures
        forall|k: int|
            0 <= k < plugin_candidates(name, plugins, discoverables, disabled).len() ==> {
                let c = #[trigger] plugin_candidates(name, plugins, discoverables, disabled)[k];
                &&& c.0 == name
                &&& exists|j: int|
                    0 <= j < plugins.len() && (#[trigger] plugins[j]).id@ == c.1 && wanted_plugin(
                        plugins[j],
                        discoverables,
                        disabled,
                    )
            },
        forall|j: int|
            0 <= j < plugins.len() && wanted_plugin(#[trigger] plugins[j], discoverables, disabled)
                ==> plugin_candidates(name, plugins, discoverables, disabled).contains(
                (name, plugins[j].id@),
            ),
    decreases plugins.len(),
{
    if plugins.len() > 0 {
        let rest = plugins.drop_last();
        lemma_plugin_candidates_exact(name, rest, discoverables, disabled);
        let pr = plugin_candidates(name, rest, discoverables, disabled);
        let pc = plugin_candidates(name, plugins, discoverables, disabled);
        let last = plugins.len() - 1;
        assert forall|k: int| 0 <= k < pc.len() implies {
            let c = #[trigger] pc[k];
            &&& c.0 == name
            &&& exists|j: int|
                0 <= j < plugins.len() && (#[trigger] plugins[j]).id@ == c.1 && wanted_plugin(
                    plugins[j],
                    discoverables,
                    disabled,
                )
        } by {
            if k < pr.len() {
                assert(pc[k] == pr[k]);
                let c = pr[k];
                let j = choose|j: int|
                    0 <= j < rest.len() && (#[trigger] rest[j]).id@ == c.1 && wanted_plugin(
                        rest[j],
                        discoverables,
                        disabled,
                    );
                assert(plugins[j] == rest[j]);
            } else {
                assert(plugins[last] == plugins.last());
            }
        }
        assert forall|j: int|
            0 <= j < plugins.len() && wanted_plugin(
                #[trigger] plugins[j],
                discoverables,
                disabled,
            ) implies pc.contains((name, plugins[j].id@)) by {
            if j < last {
                assert(rest[j] == plugins[j]);
                let k = choose|k: int| 0 <= k < pr.len() && pr[k] == (name, rest[j].id@);
                assert(pc[k] == pr[k]);
            } else {
                assert(pc[pc.len() - 1] == (name, plugins.last().id@));
            }
        }
    }
}

/// Every candidate is a plugin to suggest, and every plugin to suggest is a
/// candidate: installed plugins, plugins disabled for suggestions, plugins
/// neither allowlisted nor configured as discoverable, and plugins of
/// marketplaces off the allowlist are never read.
pub proof fn lemma_candidates_are_offered_plugins(
    marketplaces: Seq<ConfiguredMarketplace>,
    discoverables: Seq<ToolSuggestEntry>,
    disabled: Seq<ToolSuggestEntry>,
    name: Seq<char>,
    id: Seq<char>,
)
    ensures
        marketplace_candidates(marketplaces, discoverables, disabled).contains((name, id))
            <==> offered_plugin(marketplaces, discoverables, disabled, name, id),
    decreases marketplaces.len(),
{
    let mc = marketplace_candidates(marketplaces, discoverables, disabled);
    if marketplaces.len() > 0 {
        let rest = marketplaces.drop_last();
        let last = marketplaces.len() - 1;
        let m = marketplaces.last();
        assert(marketplaces[last] == m);
        lemma_candidates_are_offered_plugins(rest, discoverables, disabled, name, id);
        let mr = marketplace_candidates(rest, discoverables, disabled);
        let pc = plugin_candidates(m.name@, m.plugins@, discoverables, disabled);
        lemma_plugin_candidates_exact(m.name@, m.plugins@, discoverables, disabled);
        if mc.contains((name, id)) {
            let k = choose|k: int| 0 <= k < mc.len() && mc[k] == (name, id);
            if allowlisted_marketplace(m.name@) && k >= mr.len() {
                assert(mc == mr + pc);
                assert(pc[k - mr.len()] == (name, id));
                let c = pc[k - mr.len()];
                let j = choose|j: int|
                    0 <= j < m.plugins@.len() && (#[trigger] m.plugins@[j]).id@ == c.1
                        && wanted_plugin(m.plugins@[j], discoverables, disabled);
                assert(marketplaces[last].plugins@[j] == m.plugins@[j]);
                assert(offered_at(marketplaces, discoverables, disabled, name, id, last, j));
            } else {
                if allowlisted_marketplace(m.name@) {
                    assert(mc == mr + pc);
                    assert(mc[k] == mr[k]);
                }
                assert(mr.contains((name, id)));
                let (i, j) = choose|i: int, j: int|
                    offered_at(rest, discoverables, disabled, name, id, i, j);
                assert(marketplaces[i] == rest[i]);
                assert(offered_at(marketplaces, discoverables, disabled, name, id, i, j));
            }
        }
        if offered_plugin(marketplaces, discoverables, disabled, name, id) {
            let (i, j) = choose|i: int, j: int|
                offered_at(marketplaces, discoverables, disabled, name, id, i, j);
            if i < last {
                assert(rest[i] == marketplaces[i]);
                assert(offered_at(rest, discoverables, disabled, name, id, i, j));
                assert(offered_plugin(rest, discoverables, disabled, name, id));
                let k = choose|k: int| 0 <= k < mr.len() && mr[k] == (name, id);
                if allowlisted_marketplace(m.name@) {
                    assert(mc == mr + pc);
                    assert(mc[k] == mr[k]);
                } else {
                    assert(mc == mr);
                }
            } else {
                assert(mc == mr + pc);
                assert(m.plugins@[j].id@ == id);
                assert(wanted_plugin(m.plugins@[j], discoverables, disabled));
                assert(pc.contains((m.name@, m.plugins@[j].id@)));
                let k = choose|k: int| 0 <= k < pc.len() && pc[k] == (name, id);
                assert(mc[mr.len() + k] == pc[k]);
            }
        }
    }
}

/// Whether plugin `j` of marketplace `i` is where candidate `c` comes from,
/// and may be suggested: the marketplace is the curated or the bundled one,
/// the plugin is not installed, no disabled-tool entry names it as a plugin,
/// and it is allowlisted or configured as a discoverable plugin.
pub open spec fn candidate_source(
    marketplaces: Seq<ConfiguredMarketplace>,
    discoverables: Seq<ToolSuggestEntry>,
    disabled: Seq<ToolSuggestEntry>,
    c: (Seq<char>, Seq<char>),
    i: int,
    j: int,
) -> bool {
    &&& 0 <= i < marketplaces.len()
    &&& 0 <= j < marketplaces[i].plugins@.len()
    &&& marketplaces[i].name@ == c.0
    &&& marketplaces[i].plugins@[j].id@ == c.1
    &&& (c.0 == "firefamai-curated"@ || c.0 == "firefamai-bundled"@)
    &&& !marketplaces[i].plugins@[j].installed
    &&& forall|q: int|
        0 <= q < disabled.len() ==> !((#[trigger] disabled[q]).kind
            == ToolSuggestDiscoverableType::Plugin && disabled[q].id@ == c.1)
    &&& (plugin_allowlist().contains(c.1) || exists|q: int|
        0 <= q < discoverables.len() && (#[trigger] discoverables[q]).kind
            == ToolSuggestDiscoverableType::Plugin && discoverables[q].id@ == c.1)
}

/// Every candidate is a listed plugin that may be suggested: in particular
/// an installed plugin, or one disabled for suggestions, is never a
/// candidate, however it is configured.
pub proof fn lemma_candidates_are_uninstalled_suggestions(
    marketplaces: Seq<ConfiguredMarketplace>,
    discoverables: Seq<ToolSuggestEntry>,
    disabled: Seq<ToolSuggestEntry>,
    k: int,
)
    requires
        0 <= k < marketplace_candidates(marketplaces, discoverables, disabled).len(),
    ensures
        exists|i: int, j: int|
            #[trigger] candidate_source(
                marketplaces,
                discoverables,
                disabled,
                marketplace_candidates(marketplaces, discoverables, disabled)[k],
                i,
                j,
            ),
{
    let c = marketplace_candidates(marketplaces, discoverables, disabled)[k];
    lemma_candidates_are_offered_plugins(marketplaces, discoverables, disabled, c.0, c.1);
    assert(marketplace_candidates(marketplaces, discoverables, disabled).contains(c));
    let (i, j) = choose|i: int, j: int|
        offered_at(marketplaces, discoverables, disabled, c.0, c.1, i, j);
    let p = marketplaces[i].plugins@[j];
    assert forall|q: int| 0 <= q < disabled.len() implies !((#[trigger] disabled[q]).kind
        == ToolSuggestDiscoverableType::Plugin && disabled[q].id@ == c.1) by {
        if disabled[q].kind == ToolSuggestDiscoverableType::Plugin && disabled[q].id@ == c.1 {
            assert(has_plugin_entry(disabled, p.id@));
        }
    }
    assert(candidate_source(marketplaces, discoverables, disabled, c, i, j));
}

/// The id of an app connector.
#[derive(Debug, PartialEq, Eq)]
pub struct AppConnectorId(pub String);

/// What a plugin's detail says about its capabilities.
#[derive(Debug, PartialEq, Eq)]
pub struct PluginCapabilitySummary {
    pub config_name: String,
    pub display_name: String,
    pub description: Option<String>,
    pub has_skills: bool,
    pub mcp_server_names: Vec<String>,
    pub app_connector_ids: Vec<AppConnectorId>,
}

/// A plugin suggested to the model as a discoverable tool.
#[derive(Debug, PartialEq, Eq)]
pub struct DiscoverablePluginInfo {
    pub id: String,
    pub name: String,
    pub description: Option<String>,
    pub has_skills: bool,
    pub mcp_server_names: Vec<String>,
    pub app_connector_ids: Vec<String>,
}

/// A suggested plugin with its lists seen as sequences.
pub struct DiscoverablePluginView {
    pub id: String,
    pub name: String,
    pub description: Option<String>,
    pub has_skills: bool,
    pub mcp_server_names: Seq<String>,
    pub app_connector_ids: Seq<String>,
}

impl View for DiscoverablePluginInfo {
    type V = DiscoverablePluginView;

    open spec fn view(&self) -> DiscoverablePluginView {
        DiscoverablePluginView {
            id: self.id,
            name: self.name,
            description: self.description,
            has_skills: self.has_skills,
            mcp_server_names: self.mcp_server_names@,
            app_connector_ids: self.app_connector_ids@,
        }
    }
}

/// The connector ids of a summary as strings.
pub open spec fn connector_id_strings(ids: Seq<AppConnectorId>) -> Seq<String> {
    ids.map_values(|c: AppConnectorId| c.0)
}

/// The suggestion built from a plugin's capability summary: its config name
/// as id, its display name as name, and its description, skills, MCP servers
/// and app connectors.
pub open spec fn suggestion_of(p: PluginCapabilitySummary) -> DiscoverablePluginView {
    DiscoverablePluginView {
        id: p.config_name,
        name: p.display_name,
        description: p.description,
        has_skills: p.has_skills,
        mcp_server_names: p.mcp_server_names@,
        app_connector_ids: connector_id_strings(p.app_connector_ids@),
    }
}

/// The suggestion for a plugin whose detail was read.
pub fn discoverable_info_from_summary(plugin: PluginCapabilitySummary) -> (r: DiscoverablePluginInfo)
    ensures
        r@ == suggestion_of(plugin),
{
    let mut ids: Vec<String> = Vec::new();
    let mut i: usize = 0;
    while i < plugin.app_connector_ids.len()
        invariant
            i <= plugin.app_connector_ids@.len(),
            ids@ == connector_id_strings(plugin.app_connector_ids@.take(i as int)),
        decreases plugin.app_connector_ids@.len() - i,
    {
        ids.push(plugin.app_connector_ids[i].0.clone());
        i = i + 1;
        assert(ids@ =~= connector_id_strings(plugin.app_connector_ids@.take(i as int)));
    }
    assert(plugin.app_connector_ids@.take(i as int) =~= plugin.app_connector_ids@);
    DiscoverablePluginInfo {
        id: plugin.config_name,
        name: plugin.display_name,
        description: plugin.description,
        has_skills: plugin.has_skills,
        mcp_server_names: plugin.mcp_server_names,
        app_connector_ids: ids,
    }
}

/// Whether suggestion `a` is listed before `b`: by name, then by id.
pub open spec fn plugin_before(a: DiscoverablePluginView, b: DiscoverablePluginView) -> bool {
    seq_lex_lt(a.name@, b.name@) || (a.name@ == b.name@ && seq_lex_lt(a.id@, b.id@))
}

/// `s` lists its suggestions by name, then by id.
pub open spec fn sorted_by_name_and_id(s: Seq<DiscoverablePluginView>) -> bool {
    forall|i: int, j: int|
        0 <= i < j < s.len() ==> !plugin_before(#[trigger] s[j], #[trigger] s[i])
}

/// The views of a list of suggestions.
pub open spec fn infos_view(s: Seq<DiscoverablePluginInfo>) -> Seq<DiscoverablePluginView> {
    s.map_values(|p: DiscoverablePluginInfo| p@)
}

/// No suggestion comes before itself.
pub proof fn lemma_plugin_before_irreflexive(a: DiscoverablePluginView)
    ensures
        !plugin_before(a, a),
{
    lemma_lex_irreflexive(a.name@);
    lemma_lex_irreflexive(a.id@);
}

/// The order of suggestions is transitive.
pub proof fn lemma_plugin_before_transitive(
    a: DiscoverablePluginView,
    b: DiscoverablePluginView,
    c: DiscoverablePluginView,
)
    requires
        plugin_before(a, b),
        plugin_before(b, c),
    ensures
        plugin_before(a, c),
{
    if seq_lex_lt(a.name@, b.name@) && seq_lex_lt(b.name@, c.name@) {
        lemma_lex_transitive(a.name@, b.name@, c.name@);
    }
    if a.name@ == b.name@ && b.name@ == c.name@ && seq_lex_lt(a.id@, b.id@) && seq_lex_lt(
        b.id@,
        c.id@,
    ) {
        lemma_lex_transitive(a.id@, b.id@, c.id@);
    }
}

/// Of two suggestions with different names or ids, one comes first.
pub proof fn lemma_plugin_before_total(a: DiscoverablePluginView, b: DiscoverablePluginView)
    requires
        a.name@ != b.name@ || a.id@ != b.id@,
    ensures
        plugin_before(a, b) || plugin_before(b, a),
{
    if a.name@ != b.name@ {
        lemma_lex_total(a.name@, b.name@);
    } else {
        lemma_lex_total(a.id@, b.id@);
    }
}

proof fn lemma_insert_keeps_sorted(s: Seq<DiscoverablePluginView>, p: int, x: DiscoverablePluginView)
    requires
        0 <= p <= s.len(),
        sorted_by_name_and_id(s),
        forall|q: int| 0 <= q < p ==> !plugin_before(x, #[trigger] s[q]),
        p < s.len() ==> plugin_before(x, s[p]),
    ensures
        sorted_by_name_and_id(s.insert(p, x)),
{
    let t = s.insert(p, x);
    assert forall|i: int, j: int| 0 <= i < j < t.len() implies !plugin_before(
        #[trigger] t[j],
        #[trigger] t[i],
    ) by {
        if i == p {
            if plugin_before(t[j], x) {
                if j - 1 == p {
                    lemma_plugin_before_transitive(s[p], x, s[p]);
                    lemma_plugin_before_irreflexive(s[p]);
                } else {
                    lemma_plugin_before_transitive(s[j - 1], x, s[p]);
                    assert(!plugin_before(s[j - 1], s[p]));
                }
            }
        } else if j == p {
            assert(t[i] == s[i]);
        } else if i < p && j < p {
            assert(t[i] == s[i] && t[j] == s[j]);
        } else if i < p {
            assert(t[i] == s[i] && t[j] == s[j - 1]);
        } else {
            assert(t[i] == s[i - 1] && t[j] == s[j - 1]);
        }
    }
}

/// The suggestions of `s` with name `name` and id `id`, in the order of `s`.
pub open spec fn with_key(s: Seq<DiscoverablePluginView>, name: Seq<char>, id: Seq<char>) -> Seq<
    DiscoverablePluginView,
>
    decreases s.len(),
{
    if s.len() == 0 {
        seq![]
    } else {
        let rest = with_key(s.drop_last(), name, id);
        if s.last().name@ == name && s.last().id@ == id {
            rest.push(s.last())
        } else {
            rest
        }
    }
}

/// Inserting `x` after every suggestion with its name and id appends `x` to
/// those with its key and leaves the others as they were.
proof fn lemma_with_key_insert(
    s: Seq<DiscoverablePluginView>,
    p: int,
    x: DiscoverablePluginView,
    name: Seq<char>,
    id: Seq<char>,
)
    requires
        0 <= p <= s.len(),
        forall|q: int|
            p <= q < s.len() ==> !((#[trigger] s[q]).name@ == x.name@ && s[q].id@ == x.id@),
    ensures
        with_key(s.insert(p, x), name, id) == if x.name@ == name && x.id@ == id {
            with_key(s, name, id).push(x)
        } else {
            with_key(s, name, id)
        },
    decreases s.len(),
{
    let t = s.insert(p, x);
    if p == s.len() {
        assert(t =~= s.push(x));
        assert(t.drop_last() =~= s);
    } else {
        let sp = s.drop_last();
        assert(t.drop_last() =~= sp.insert(p, x));
        assert(t.last() == s.last());
        assert forall|q: int| p <= q < sp.len() implies !((#[trigger] sp[q]).name@ == x.name@
            && sp[q].id@ == x.id@) by {
            assert(sp[q] == s[q]);
        }
        lemma_with_key_insert(sp, p, x, name, id);
        assert(s.last() == s[s.len() - 1]);
    }
}

/// Whether suggestion `a` is listed before `b`.
fn plugin_before_exec(a: &DiscoverablePluginInfo, b: &DiscoverablePluginInfo) -> (r: bool)
    ensures
        r == plugin_before(a@, b@),
{
    str_lex_less(a.name.as_str(), b.name.as_str()) || (str_equal(a.name.as_str(), b.name.as_str())
        && str_lex_less(a.id.as_str(), b.id.as_str()))
}

/// Order suggestions by name, then by id; suggestions with the same name and
/// id keep their order.
pub fn sort_discoverable_plugins(plugins: &mut Vec<DiscoverablePluginInfo>)
    ensures
        infos_view(final(plugins)@).to_multiset() == infos_view(old(plugins)@).to_multiset(),
        sorted_by_name_and_id(infos_view(final(plugins)@)),
        forall|name: Seq<char>, id: Seq<char>|
            #[trigger] with_key(infos_view(final(plugins)@), name, id) == with_key(
                infos_view(old(plugins)@),
                name,
                id,
            ),
{
    let mut input: Vec<DiscoverablePluginInfo> = Vec::new();
    std::mem::swap(&mut input, plugins);
    let ghost orig = input@;
    let total: usize = input.len();
    let mut out: Vec<DiscoverablePluginInfo> = Vec::new();
    let mut consumed: usize = 0;
    assert(orig.skip(0) =~= orig);
    assert(infos_view(orig.take(0)) =~= Seq::<DiscoverablePluginView>::empty());
    assert(infos_view(out@) =~= Seq::<DiscoverablePluginView>::empty());
    while input.len() > 0
        invariant
            consumed <= orig.len(),
            orig.len() == total,
            input@ == orig.skip(consumed as int),
            infos_view(out@).to_multiset() == infos_view(orig.take(consumed as int)).to_multiset(),
            sorted_by_name_and_id(infos_view(out@)),
            forall|name: Seq<char>, id: Seq<char>|
                #[trigger] with_key(infos_view(out@), name, id) == with_key(
                    infos_view(orig.take(consumed as int)),
                    name,
                    id,
                ),
        decreases input@.len(),
    {
        assert(consumed < orig.len());
        let x: DiscoverablePluginInfo = input.remove(0);
        assert(x == orig[consumed as int]);
        let mut p: usize = 0;
        while p < out.len() && !plugin_before_exec(&x, &out[p])
            invariant
                p <= out@.len(),
                forall|q: int| 0 <= q < p ==> !plugin_before(x@, #[trigger] infos_view(out@)[q]),
            decreases out@.len() - p,
        {
            p = p + 1;
        }
        let ghost before_view = infos_view(out@);
        proof {
            lemma_insert_keeps_sorted(before_view, p as int, x@);
            assert forall|q: int| p <= q < before_view.len() implies !((#[trigger] before_view[q]).name@
                == x@.name@ && before_view[q].id@ == x@.id@) by {
                if before_view[q].name@ == x@.name@ && before_view[q].id@ == x@.id@ {
                    if q == p {
                        lemma_plugin_before_irreflexive(x@);
                    } else {
                        assert(!plugin_before(before_view[q], before_view[p as int]));
                    }
                }
            }
            let prev_in = infos_view(orig.take(consumed as int));
            assert(infos_view(orig.take(consumed + 1)) =~= prev_in.push(x@));
            assert(prev_in.push(x@).drop_last() =~= prev_in);
            assert forall|name: Seq<char>, id: Seq<char>|
                #[trigger] with_key(before_view.insert(p as int, x@), name, id) == with_key(
                    infos_view(orig.take(consumed + 1)),
                    name,
                    id,
                ) by {
                lemma_with_key_insert(before_view, p as int, x@, name, id);
                assert(with_key(before_view, name, id) == with_key(prev_in, name, id));
            }
        }
        out.insert(p, x);
        proof {
            assert(infos_view(out@) =~= before_view.insert(p as int, x@));
            assert(infos_view(orig.take(consumed + 1)) =~= infos_view(orig.take(consumed as int)).push(
                x@,
            ));
            vstd::seq_lib::to_multiset_insert(before_view, p as int, x@);
            vstd::seq_lib::to_multiset_build(infos_view(orig.take(consumed as int)), x@);
        }
        consumed = consumed + 1;
        assert(input@ =~= orig.skip(consumed as int));
    }
    assert(orig.take(consumed as int) =~= orig);
    *plugins = out;
}

/// The suggestions built from the details that could be read, skipping the
/// plugins whose detail failed to load, in detail order.
pub open spec fn suggestions_of(details: Seq<Result<PluginCapabilitySummary, String>>) -> Seq<
    DiscoverablePluginView,
>
    decreases details.len(),
{
    if details.len() == 0 {
        seq![]
    } else {
        let rest = suggestions_of(details.drop_last());
        match details.last() {
            Ok(p) => rest.push(suggestion_of(p)),
            Err(_) => rest,
        }
    }
}

/// The plugins suggested as discoverable tools: one suggestion per plugin
/// whose detail could be read, ordered by name, then by id; suggestions with
/// the same name and id keep the order of their details.
pub fn collect_discoverable_plugins(details: Vec<Result<PluginCapabilitySummary, String>>) -> (r:
    Vec<DiscoverablePluginInfo>)
    ensures
        infos_view(r@).to_multiset() == suggestions_of(details@).to_multiset(),
        sorted_by_name_and_id(infos_view(r@)),
        forall|name: Seq<char>, id: Seq<char>|
            #[trigger] with_key(infos_view(r@), name, id) == with_key(
                suggestions_of(details@),
                name,
                id,
            ),
{
    let mut details = details;
    let ghost orig = details@;
    let total: usize = details.len();
    let mut out: Vec<DiscoverablePluginInfo> = Vec::new();
    let mut consumed: usize = 0;
    assert(orig.skip(0) =~= orig);
    assert(infos_view(out@) =~= suggestions_of(orig.take(0)));
    while details.len() > 0
        invariant
            consumed <= orig.len(),
            orig.len() == total,
            details@ == orig.skip(consumed as int),
            infos_view(out@) == suggestions_of(orig.take(consumed as int)),
        decreases details@.len(),
    {
        assert(consumed < orig.len());
        let d: Result<PluginCapabilitySummary, String> = details.remove(0);
        assert(d == orig[consumed as int]);
        proof {
            assert(orig.take(consumed + 1).drop_last() =~= orig.take(consumed as int));
        }
        match d {
            Ok(summary) => {
                let info: DiscoverablePluginInfo = discoverable_info_from_summary(summary);
                out.push(info);
            },
            Err(_) => {},
        }
        consumed = consumed + 1;
        assert(infos_view(out@) =~= suggestions_of(orig.take(consumed as int)));
        assert(details@ =~= orig.skip(consumed as int));
    }
    assert(orig.take(consumed as int) =~= orig);
    sort_discoverable_plugins(&mut out);
    out
}

/// Suggestions are ordered by name, and by id where the names are equal.
pub proof fn lemma_plugin_order(a: DiscoverablePluginView, b: DiscoverablePluginView)
    ensures
        seq_lex_lt(a.name@, b.name@) ==> plugin_before(a, b),
        a.name@ == b.name@ && seq_lex_lt(a.id@, b.id@) ==> plugin_before(a, b),
        a.name@ == b.name@ && a.id@ == b.id@ ==> !plugin_before(a, b),
{
    lemma_plugin_before_irreflexive(a);
}

} // verus!
