use agent_doctor::config::{Config, DesignSystem};
use agent_doctor::design_system::{
    banned_import_findings, catalog_from_keys, check_file, check_file_with_components, design_system_metas,
    discover_catalog, manifest_names,
};
use agent_doctor::syntax::{kind_or_tsx, ScriptExtension, SourceKind, StatementShape, TopLevel};
use agent_doctor::diagnostics::{Category, Diagnostic, FileContext, Severity};

const ACME_UI: &str = r#"{ "name": "@acme/ui", "exports": { "./select": "./select.tsx", "./button": "./button.tsx" } }"#;

fn acme() -> DesignSystem {
    DesignSystem { package: "@acme/ui".to_string(), forbid_import_prefixes: vec!["@radix-ui/".to_string()] }
}

fn findings_for(config: &Config, path: &str, source: &str) -> Vec<Diagnostic> {
    match &config.design_system {
        Some(ds) => {
            let catalog = discover_catalog(Some(ACME_UI));
            check_file(path, path, source, FileContext::Production, ds, &catalog)
        }
        None => Vec::new(),
    }
}

#[test]
fn flags_banned_import_and_suggests_catalog_component() {
    let ds = acme();
    let catalog = discover_catalog(Some(ACME_UI));
    let source = "import * as Select from \"@radix-ui/react-select\"\nexport const Picker = () => null\n";
    let findings = check_file("src/Picker.tsx", "src/Picker.tsx", source, FileContext::Production, &ds, &catalog);
    assert_eq!(findings.len(), 1);
    assert!(
        findings[0].message.contains("@acme/ui/select"),
        "should suggest the catalog component, got: {}",
        findings[0].message
    );
}

#[test]
fn using_the_design_system_is_clean() {
    let ds = acme();
    let catalog = discover_catalog(Some(ACME_UI));
    let source = "import { Select } from \"@acme/ui/select\"\nexport const Picker = () => null\n";
    assert_eq!(check_file("src/Picker.tsx", "src/Picker.tsx", source, FileContext::Production, &ds, &catalog).len(), 0);
}

#[test]
fn no_config_means_no_design_system_findings() {
    let config = Config::default();
    let source = "import * as Select from \"@radix-ui/react-select\"\n";
    assert_eq!(findings_for(&config, "src/Picker.tsx", source).len(), 0, "feature is opt-in via config");
}

#[test]
fn the_design_system_package_is_not_flagged_against_itself() {
    let ds = acme();
    let catalog = discover_catalog(Some(ACME_UI));
    let source = "import * as Select from \"@radix-ui/react-select\"\n";
    let findings = check_file(
        "packages/ui/src/select.tsx",
        "packages/ui/src/select.tsx",
        source,
        FileContext::Production,
        &ds,
        &catalog,
    );
    assert_eq!(findings.len(), 0, "the DS dir must be exempt");
}

#[test]
fn banned_import_finding_is_exact() {
    let ds = acme();
    let catalog = discover_catalog(Some(ACME_UI));
    let source = "export const a = 1\n\nimport { Slot } from \"@radix-ui/react-slot\"\n  import * as B from \"@radix-ui/react-button\"\n";
    let findings = check_file("src/x.tsx", "src/x.tsx", source, FileContext::Test, &ds, &catalog);
    assert_eq!(findings.len(), 2);
    let first = &findings[0];
    assert_eq!(first.rule, "ds-no-banned-import");
    assert_eq!(first.severity, Severity::Warn);
    assert_eq!(first.category, Category::DesignSystem);
    assert_eq!(
        first.message,
        "`@radix-ui/react-slot` bypasses the design system (@radix-ui/) — import from @acme/ui instead"
    );
    assert_eq!(first.file, "src/x.tsx");
    assert_eq!(first.file_context, FileContext::Test);
    assert_eq!((first.line, first.column), (3, 1));
    assert_eq!(first.snippet, "");
    let second = &findings[1];
    assert_eq!(
        second.message,
        "`@radix-ui/react-button` bypasses the design system (@radix-ui/) — import from @acme/ui/button instead"
    );
    assert_eq!((second.line, second.column), (4, 3));
}

#[test]
fn no_forbidden_prefixes_means_no_findings() {
    let ds = DesignSystem { package: "@acme/ui".to_string(), forbid_import_prefixes: Vec::new() };
    let catalog = discover_catalog(Some(ACME_UI));
    let source = "import * as Select from \"@radix-ui/react-select\"\n";
    assert!(check_file("src/a.tsx", "src/a.tsx", source, FileContext::Production, &ds, &catalog).is_empty());
}

#[test]
fn unparsable_file_gives_no_findings() {
    let ds = acme();
    let catalog = discover_catalog(Some(ACME_UI));
    let source = "import * as Select from \"@radix-ui/react-select\"\nconst x = (\n";
    assert!(check_file("src/a.tsx", "src/a.tsx", source, FileContext::Production, &ds, &catalog).is_empty());
}

#[test]
fn catalog_without_manifest_gives_generic_suggestion() {
    let ds = acme();
    let catalog = discover_catalog(None);
    let source = "import * as Select from \"@radix-ui/react-select\"\n";
    let findings = check_file("src/a.tsx", "src/a.tsx", source, FileContext::Production, &ds, &catalog);
    assert_eq!(findings.len(), 1);
    assert_eq!(
        findings[0].message,
        "`@radix-ui/react-select` bypasses the design system (@radix-ui/) — import from @acme/ui instead"
    );
}

#[test]
fn catalog_keeps_only_single_segment_subpaths() {
    let manifest = r#"{ "name": "@acme/ui", "exports": { ".": "./index.ts", "./dialog": "./d.tsx", "./utils/x": "./x.ts", "./": "./y" } }"#;
    let ds = acme();
    let catalog = discover_catalog(Some(manifest));
    let source = "import * as D from \"@radix-ui/react-dialog\"\nimport * as U from \"@radix-ui/x\"\nimport * as I from \"@radix-ui/index.ts\"\n";
    let findings = check_file("src/a.tsx", "src/a.tsx", source, FileContext::Production, &ds, &catalog);
    assert_eq!(findings.len(), 3);
    assert!(findings[0].message.ends_with("import from @acme/ui/dialog instead"));
    assert!(findings[1].message.ends_with("import from @acme/ui instead"));
    assert!(findings[2].message.ends_with("import from @acme/ui instead"));
}

#[test]
fn manifest_names_matches_the_name_member() {
    assert!(manifest_names(ACME_UI, "@acme/ui"));
    assert!(!manifest_names(ACME_UI, "@acme/other"));
    assert!(!manifest_names("not json", "@acme/ui"));
    assert!(!manifest_names(r#"{ "name": 3 }"#, "3"));
}

#[test]
fn design_system_catalog_has_one_rule() {
    let metas = design_system_metas();
    assert_eq!(metas.len(), 1);
    assert_eq!(metas[0].id, "ds-no-banned-import");
    assert_eq!(metas[0].category, Category::DesignSystem);
}

#[test]
fn exemption_goes_by_path_components() {
    let ds = acme();
    let catalog = discover_catalog(Some(ACME_UI));
    let source = "import * as Select from \"@radix-ui/react-select\"\n";
    let parts = |ps: &[&str]| ps.iter().map(|p| p.to_string()).collect::<Vec<String>>();
    let check = |components: Vec<String>| {
        check_file_with_components(
            &components,
            SourceKind::Tsx,
            "x.tsx",
            source,
            FileContext::Production,
            &ds,
            &catalog,
        )
        .len()
    };
    assert_eq!(check(parts(&["packages", "ui", "src", "select.tsx"])), 0);
    assert_eq!(check(parts(&["vendor", "@acme/ui", "select.tsx"])), 0);
    assert_eq!(check(parts(&["src", "Picker.tsx"])), 1);
    assert_eq!(check(parts(&["src", "uikit", "Picker.tsx"])), 1);
}

#[test]
fn catalog_from_export_keys() {
    let keys: Vec<String> = [".", "./select", "./a/b", "./", "./button", "button"].iter().map(|k| k.to_string()).collect();
    let catalog = catalog_from_keys(&keys);
    let ds = acme();
    let source = "import * as B from \"@radix-ui/react-button\"\nimport * as A from \"@radix-ui/b\"\n";
    let findings = check_file_with_components(&[], SourceKind::TypeScript, "a.ts", source, FileContext::Production, &ds, &catalog);
    assert_eq!(findings.len(), 2);
    assert!(findings[0].message.ends_with("import from @acme/ui/button instead"));
    assert!(findings[1].message.ends_with("import from @acme/ui instead"));
}

#[test]
fn banned_imports_of_given_statements() {
    let source = "x\nimport y from \"@radix-ui/react-select\"\n";
    let statements = vec![
        TopLevel { start: 0, end: 1, raw: "x".to_string(), shape: StatementShape::Other },
        TopLevel {
            start: 2,
            end: 41,
            raw: "import y from \"@radix-ui/react-select\"".to_string(),
            shape: StatementShape::Import("@radix-ui/react-select".to_string()),
        },
        TopLevel { start: 2, end: 3, raw: "i".to_string(), shape: StatementShape::Import("react".to_string()) },
    ];
    let ds = acme();
    let catalog = discover_catalog(Some(ACME_UI));
    let findings = banned_import_findings(&statements, "s.tsx", source, FileContext::Test, &ds, &catalog);
    assert_eq!(findings.len(), 1);
    assert_eq!(
        findings[0].message,
        "`@radix-ui/react-select` bypasses the design system (@radix-ui/) — import from @acme/ui/select instead"
    );
    assert_eq!((findings[0].line, findings[0].column), (2, 1));
    assert_eq!(findings[0].file, "s.tsx");
}

#[test]
fn unknown_file_kinds_parse_as_tsx() {
    assert_eq!(kind_or_tsx(None), SourceKind::Tsx);
    let ts = SourceKind::Extension { extension: ScriptExtension::Ts, declaration: false };
    assert_eq!(kind_or_tsx(Some(ts)), ts);
}

#[test]
fn files_outside_the_package_are_checked_whatever_their_kind() {
    let ds = acme();
    let catalog = discover_catalog(Some(ACME_UI));
    let tsx = "import * as S from \"@radix-ui/react-select\"\nexport const P = () => <div />\n";
    for (path, display) in [("/repo/src/Picker.tsx", "src/Picker.tsx"), ("/repo/app/x.jsx", "app/x.jsx")] {
        let findings = check_file(path, display, tsx, FileContext::Production, &ds, &catalog);
        assert_eq!(findings.len(), 1, "{display}");
    }
}
