use agent_doctor::config::{parse_setting, Config, DesignSystem, RuleSetting, TierDefaults};
use agent_doctor::diagnostics::{Category, Diagnostic, FileContext, RuleMeta, Severity};

fn finding(rule: &'static str, severity: Severity) -> Diagnostic {
    let meta = RuleMeta { id: rule, severity, category: Category::Idiomatic, help: "help" };
    Diagnostic::from_meta(&meta, "message".to_string(), "a.ts".to_string(), FileContext::Production, 2, 5, "x".to_string())
}

fn rules(entries: &[(&str, &str)]) -> Vec<(String, String)> {
    entries.iter().map(|(k, v)| (k.to_string(), v.to_string())).collect()
}

#[test]
fn parse_setting_accepts_known_values() {
    assert_eq!(parse_setting("off"), Some(RuleSetting::Off));
    assert_eq!(parse_setting("false"), Some(RuleSetting::Off));
    assert_eq!(parse_setting("none"), Some(RuleSetting::Off));
    assert_eq!(parse_setting("info"), Some(RuleSetting::Pinned(Severity::Info)));
    assert_eq!(parse_setting("warn"), Some(RuleSetting::Pinned(Severity::Warn)));
    assert_eq!(parse_setting("warning"), Some(RuleSetting::Pinned(Severity::Warn)));
    assert_eq!(parse_setting("error"), Some(RuleSetting::Pinned(Severity::Error)));
}

#[test]
fn parse_setting_trims_and_ignores_case() {
    assert_eq!(parse_setting("  Error \n"), Some(RuleSetting::Pinned(Severity::Error)));
    assert_eq!(parse_setting("OFF"), Some(RuleSetting::Off));
    assert_eq!(parse_setting("\tWarning"), Some(RuleSetting::Pinned(Severity::Warn)));
}

#[test]
fn parse_setting_rejects_unknown_values() {
    assert_eq!(parse_setting("loud"), None);
    assert_eq!(parse_setting(""), None);
    assert_eq!(parse_setting("err or"), None);
}

#[test]
fn pinned_rule_is_restamped() {
    let config = Config::from_parts(rules(&[("no-explicit-any", "error")]), TierDefaults::default(), None);
    let mut diagnostics = vec![finding("no-explicit-any", Severity::Warn), finding("other", Severity::Warn)];
    config.apply(&mut diagnostics);
    assert_eq!(diagnostics.len(), 2);
    assert_eq!(diagnostics[0].severity, Severity::Error);
    assert_eq!(diagnostics[0].rule, "no-explicit-any");
    assert_eq!(diagnostics[1].severity, Severity::Warn);
    assert_eq!(diagnostics[1].rule, "other");
}

#[test]
fn rule_set_off_is_dropped() {
    let config = Config::from_parts(rules(&[("no-explicit-any", "off")]), TierDefaults::default(), None);
    let mut diagnostics = vec![
        finding("a", Severity::Info),
        finding("no-explicit-any", Severity::Warn),
        finding("b", Severity::Error),
        finding("no-explicit-any", Severity::Error),
    ];
    config.apply(&mut diagnostics);
    let left: Vec<&str> = diagnostics.iter().map(|d| d.rule).collect();
    assert_eq!(left, vec!["a", "b"]);
}

#[test]
fn unknown_setting_is_ignored() {
    let config = Config::from_parts(rules(&[("a", "loud")]), TierDefaults::default(), None);
    let mut diagnostics = vec![finding("a", Severity::Warn)];
    config.apply(&mut diagnostics);
    assert_eq!(diagnostics.len(), 1);
    assert_eq!(diagnostics[0].severity, Severity::Warn);
}

#[test]
fn default_config_changes_nothing() {
    let config = Config::default();
    assert!(config.design_system.is_none());
    assert_eq!(config.tiers.agent, None);
    assert_eq!(config.tiers.react, None);
    let mut diagnostics = vec![finding("a", Severity::Warn), finding("b", Severity::Info)];
    config.apply(&mut diagnostics);
    assert_eq!(diagnostics.len(), 2);
    assert_eq!(diagnostics[1].severity, Severity::Info);
}

#[test]
fn applying_overrides_twice_changes_nothing() {
    let config = Config::from_parts(
        rules(&[("a", "off"), ("b", "info"), ("c", "warning")]),
        TierDefaults::default(),
        None,
    );
    let mut once = vec![
        finding("a", Severity::Error),
        finding("b", Severity::Error),
        finding("c", Severity::Info),
        finding("d", Severity::Error),
    ];
    config.apply(&mut once);
    let mut twice = once.clone();
    config.apply(&mut twice);
    let view = |ds: &Vec<Diagnostic>| ds.iter().map(|d| (d.rule, d.severity)).collect::<Vec<_>>();
    assert_eq!(view(&once), vec![("b", Severity::Info), ("c", Severity::Warn), ("d", Severity::Error)]);
    assert_eq!(view(&twice), view(&once));
}

#[test]
fn parts_are_kept() {
    let tiers = TierDefaults { agent: Some(true), agent_strict: None, adopt: Some(false), react: None };
    let ds = DesignSystem { package: "@acme/ui".to_string(), forbid_import_prefixes: vec!["@radix-ui/".to_string()] };
    let config = Config::from_parts(Vec::new(), tiers, Some(ds));
    assert_eq!(config.tiers.agent, Some(true));
    assert_eq!(config.tiers.adopt, Some(false));
    let ds = config.design_system.as_ref().unwrap();
    assert_eq!(ds.package, "@acme/ui");
    assert_eq!(ds.forbid_import_prefixes, vec!["@radix-ui/".to_string()]);
}

#[test]
fn later_entry_for_a_rule_wins() {
    let config = Config::from_parts(rules(&[("a", "off"), ("b", "warn"), ("a", "error"), ("a", "loud")]), TierDefaults::default(), None);
    let mut diagnostics = vec![finding("a", Severity::Info), finding("b", Severity::Info)];
    config.apply(&mut diagnostics);
    let view: Vec<(&str, Severity)> = diagnostics.iter().map(|d| (d.rule, d.severity)).collect();
    assert_eq!(view, vec![("a", Severity::Error), ("b", Severity::Warn)]);
}

fn has_rule(diagnostics: &[Diagnostic], rule: &str) -> bool {
    diagnostics.iter().any(|d| d.rule == rule)
}

#[test]
fn config_pins_severity() {
    let config = Config::from_parts(rules(&[("no-explicit-any", "error")]), TierDefaults::default(), None);
    let mut diagnostics = vec![finding("no-explicit-any", Severity::Warn)];
    config.apply(&mut diagnostics);
    let any = diagnostics.into_iter().find(|d| d.rule == "no-explicit-any").expect("any finding");
    assert_eq!(any.severity, Severity::Error);
}

#[test]
fn config_turns_rule_off() {
    let found = vec![finding("no-explicit-any", Severity::Warn)];
    let mut unconfigured = found.clone();
    Config::default().apply(&mut unconfigured);
    assert!(has_rule(&unconfigured, "no-explicit-any"));
    let config = Config::from_parts(rules(&[("no-explicit-any", "off")]), TierDefaults::default(), None);
    let mut configured = found;
    config.apply(&mut configured);
    assert!(!has_rule(&configured, "no-explicit-any"), "off should drop the rule");
}
