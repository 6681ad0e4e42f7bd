use firefam::plugins::collect_discoverable_plugins;
use firefam::plugins::discoverable_info_from_summary;
use firefam::plugins::discoverable_plugin_candidates;
use firefam::plugins::is_allowlisted_marketplace;
use firefam::plugins::is_allowlisted_plugin;
use firefam::plugins::sort_discoverable_plugins;
use firefam::plugins::tool_suggest_discoverable_plugin_allowlist;
use firefam::plugins::AppConnectorId;
use firefam::plugins::ConfiguredMarketplace;
use firefam::plugins::DiscoverableCandidate;
use firefam::plugins::DiscoverablePluginInfo;
use firefam::plugins::MarketplacePlugin;
use firefam::plugins::PluginCapabilitySummary;
use firefam::plugins::ToolSuggestDiscoverableType;
use firefam::plugins::ToolSuggestEntry;

fn plugin(id: &str, installed: bool) -> MarketplacePlugin {
    MarketplacePlugin { id: id.to_string(), installed }
}

fn entry(kind: ToolSuggestDiscoverableType, id: &str) -> ToolSuggestEntry {
    ToolSuggestEntry { kind, id: id.to_string() }
}

fn summary(config_name: &str, display_name: &str) -> PluginCapabilitySummary {
    PluginCapabilitySummary {
        config_name: config_name.to_string(),
        display_name: display_name.to_string(),
        description: None,
        has_skills: false,
        mcp_server_names: Vec::new(),
        app_connector_ids: Vec::new(),
    }
}

fn info(id: &str, name: &str) -> DiscoverablePluginInfo {
    DiscoverablePluginInfo {
        id: id.to_string(),
        name: name.to_string(),
        description: None,
        has_skills: false,
        mcp_server_names: Vec::new(),
        app_connector_ids: Vec::new(),
    }
}

#[test]
fn allowlists() {
    let list = tool_suggest_discoverable_plugin_allowlist();
    assert_eq!(list.len(), 16);
    assert_eq!(list[0], "github@firefamai-curated");
    assert!(is_allowlisted_plugin("slack@firefamai-curated"));
    assert!(is_allowlisted_plugin("computer-use@firefamai-bundled"));
    assert!(!is_allowlisted_plugin("sample@firefamai-curated"));
    assert!(is_allowlisted_marketplace("firefamai-curated"));
    assert!(is_allowlisted_marketplace("firefamai-bundled"));
    assert!(!is_allowlisted_marketplace("debug"));
}

#[test]
fn no_candidates_while_plugins_are_off() {
    let marketplaces = vec![ConfiguredMarketplace {
        name: "firefamai-curated".to_string(),
        plugins: vec![plugin("slack@firefamai-curated", false)],
    }];
    let r = discoverable_plugin_candidates(false, &Vec::new(), &Vec::new(), &marketplaces);
    assert!(r.is_empty());
}

#[test]
fn candidates_follow_allowlists_installs_and_settings() {
    let marketplaces = vec![
        ConfiguredMarketplace {
            name: "debug".to_string(),
            plugins: vec![plugin("slack@firefamai-curated", false)],
        },
        ConfiguredMarketplace {
            name: "firefamai-curated".to_string(),
            plugins: vec![
                plugin("slack@firefamai-curated", false),
                plugin("github@firefamai-curated", true),
                plugin("sample@firefamai-curated", false),
                plugin("notion@firefamai-curated", false),
                plugin("extra@firefamai-curated", false),
            ],
        },
    ];
    let discoverables = vec![
        entry(ToolSuggestDiscoverableType::Plugin, "sample@firefamai-curated"),
        entry(ToolSuggestDiscoverableType::Connector, "extra@firefamai-curated"),
    ];
    let disabled = vec![
        entry(ToolSuggestDiscoverableType::Plugin, "notion@firefamai-curated"),
    ];
    let r = discoverable_plugin_candidates(true, &discoverables, &disabled, &marketplaces);
    assert_eq!(
        r,
        vec![
            DiscoverableCandidate {
                marketplace_name: "firefamai-curated".to_string(),
                plugin_id: "slack@firefamai-curated".to_string(),
            },
            DiscoverableCandidate {
                marketplace_name: "firefamai-curated".to_string(),
                plugin_id: "sample@firefamai-curated".to_string(),
            },
        ]
    );
}

#[test]
fn connector_disabled_entry_does_not_hide_plugin() {
    let marketplaces = vec![ConfiguredMarketplace {
        name: "firefamai-bundled".to_string(),
        plugins: vec![plugin("chrome@firefamai-bundled", false)],
    }];
    let disabled = vec![entry(ToolSuggestDiscoverableType::Connector, "chrome@firefamai-bundled")];
    let r = discoverable_plugin_candidates(true, &Vec::new(), &disabled, &marketplaces);
    assert_eq!(r.len(), 1);
}

#[test]
fn suggestion_copies_summary_fields() {
    let s = PluginCapabilitySummary {
        config_name: "slack@firefamai-curated".to_string(),
        display_name: "Slack".to_string(),
        description: Some("Team chat".to_string()),
        has_skills: true,
        mcp_server_names: vec!["slack".to_string()],
        app_connector_ids: vec![AppConnectorId("connector_slack".to_string())],
    };
    let i = discoverable_info_from_summary(s);
    assert_eq!(
        i,
        DiscoverablePluginInfo {
            id: "slack@firefamai-curated".to_string(),
            name: "Slack".to_string(),
            description: Some("Team chat".to_string()),
            has_skills: true,
            mcp_server_names: vec!["slack".to_string()],
            app_connector_ids: vec!["connector_slack".to_string()],
        }
    );
}

#[test]
fn sort_by_name_then_id() {
    let mut v = vec![
        info("b@m", "Slack"),
        info("z@m", "Gmail"),
        info("a@m", "Slack"),
        info("c@m", "Canva"),
    ];
    sort_discoverable_plugins(&mut v);
    let ids: Vec<&str> = v.iter().map(|p| p.id.as_str()).collect();
    assert_eq!(ids, vec!["c@m", "z@m", "a@m", "b@m"]);
}

#[test]
fn collect_skips_failed_details_and_sorts() {
    let details = vec![
        Ok(summary("slack@firefamai-curated", "Slack")),
        Err("plugin.json missing".to_string()),
        Ok(summary("canva@firefamai-curated", "Canva")),
    ];
    let r = collect_discoverable_plugins(details);
    let names: Vec<&str> = r.iter().map(|p| p.name.as_str()).collect();
    assert_eq!(names, vec!["Canva", "Slack"]);
}

#[test]
fn collect_of_nothing_is_empty() {
    assert!(collect_discoverable_plugins(Vec::new()).is_empty());
}

#[test]
fn sort_keeps_order_of_equal_suggestions() {
    let mut first = info("a@m", "Slack");
    first.description = Some("first".to_string());
    let mut second = info("a@m", "Slack");
    second.description = Some("second".to_string());
    let mut v = vec![first, info("z@m", "Canva"), second];
    sort_discoverable_plugins(&mut v);
    let descriptions: Vec<Option<String>> = v.iter().map(|p| p.description.clone()).collect();
    assert_eq!(
        descriptions,
        vec![None, Some("first".to_string()), Some("second".to_string())]
    );
}
