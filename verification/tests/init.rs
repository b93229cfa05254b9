use agent_doctor::init::{
    answer_line, answer_yes_no, detect_design_system, detect_forbidden_prefixes, pkg_from_manifest, render_config, Pkg,
};

fn pkg(name: &str, deps: &[&str], component_exports: usize) -> Pkg {
    Pkg { name: name.to_string(), dep_prefixes: deps.iter().map(|d| d.to_string()).collect(), component_exports }
}

#[test]
fn manifest_gives_name_deps_and_component_count() {
    let manifest = r#"{
        "name": "@acme/ui",
        "dependencies": { "@radix-ui/react-select": "1", "react": "18" },
        "devDependencies": { "vitest": "1" },
        "peerDependencies": { "react-dom": "18" },
        "exports": { ".": "./index.ts", "./select": "./s.tsx", "./button": "./b.tsx", "./dialog": "./d.tsx", "./utils/x": "./x.ts", "./": "./y" }
    }"#;
    let p = pkg_from_manifest(manifest).expect("package");
    assert_eq!(p.name, "@acme/ui");
    assert_eq!(p.component_exports, 3);
    assert_eq!(p.dep_prefixes.len(), 4);
    assert!(p.dep_prefixes.contains(&"@radix-ui/react-select".to_string()));
    assert!(p.dep_prefixes.contains(&"vitest".to_string()));
    assert_eq!(p.dep_prefixes[2], "vitest");
    assert_eq!(p.dep_prefixes[3], "react-dom");
}

#[test]
fn manifest_without_name_is_skipped() {
    assert!(pkg_from_manifest(r#"{ "dependencies": { "react": "18" } }"#).is_none());
    assert!(pkg_from_manifest(r#"{ "name": 7 }"#).is_none());
    assert!(pkg_from_manifest("{ not json").is_none());
    let bare = pkg_from_manifest(r#"{ "name": "x", "dependencies": ["a"] }"#).expect("package");
    assert!(bare.dep_prefixes.is_empty());
    assert_eq!(bare.component_exports, 0);
}

#[test]
fn design_system_is_the_qualifying_package_with_most_exports() {
    let packages = vec![
        pkg("@acme/utils", &[], 10),
        pkg("@acme/ui", &["@radix-ui/react-select"], 4),
        pkg("@acme/small-ui", &[], 2),
        pkg("@acme/widgets", &["class-variance-authority"], 3),
    ];
    assert_eq!(detect_design_system(&packages), Some("@acme/ui".to_string()));
}

#[test]
fn ui_like_names_qualify_without_primitives() {
    assert_eq!(detect_design_system(&[pkg("@Acme/Design-System-Core", &[], 3)]), Some("@Acme/Design-System-Core".to_string()));
    assert_eq!(detect_design_system(&[pkg("web-ui", &[], 5)]), Some("web-ui".to_string()));
    assert_eq!(detect_design_system(&[pkg("@x/components-lib", &[], 5)]), Some("@x/components-lib".to_string()));
    assert_eq!(detect_design_system(&[pkg("@x/utils", &["lodash"], 50)]), None);
    assert_eq!(detect_design_system(&[]), None);
}

#[test]
fn design_system_tie_goes_to_the_last() {
    let packages = vec![pkg("first-ui", &[], 5), pkg("second-ui", &[], 5), pkg("third-ui", &[], 4)];
    assert_eq!(detect_design_system(&packages), Some("second-ui".to_string()));
}

#[test]
fn forbidden_prefixes_follow_catalog_order() {
    let packages = vec![
        pkg("app", &["tailwind-variants", "@mui/material"], 0),
        pkg("ui", &["@radix-ui/react-dialog", "react"], 0),
        pkg("other", &["@radix-ui/react-slot"], 0),
    ];
    assert_eq!(
        detect_forbidden_prefixes(&packages),
        vec!["@radix-ui/".to_string(), "@mui/".to_string(), "tailwind-variants".to_string()]
    );
    assert!(detect_forbidden_prefixes(&[pkg("a", &["react"], 0)]).is_empty());
}

#[test]
fn config_with_design_system_renders_exactly() {
    let forbidden = vec!["@radix-ui/".to_string(), "@mui/".to_string()];
    let text = render_config(Some("@acme/ui"), &forbidden, false);
    assert_eq!(
        text,
        "# agent-doctor — https://github.com/JGalbss/agent-doctor\n\
         # Generated by `agent-doctor init`.\n\n\
         [tiers]\n\
         agent = true\n\
         # agent_strict = true  # escalate to errors / non-zero exit (CI gate)\n\
         \n\
         [design-system]\n\
         package = \"@acme/ui\"\n\
         forbid-import-prefixes = [\"@radix-ui/\", \"@mui/\"]\n"
    );
}

#[test]
fn config_without_design_system_renders_exactly() {
    let text = render_config(None, &[], true);
    assert_eq!(
        text,
        "# agent-doctor — https://github.com/JGalbss/agent-doctor\n\
         # Generated by `agent-doctor init`.\n\n\
         [tiers]\n\
         agent = true\n\
         agent_strict = true\n\
         \n\
         # [design-system]\n\
         # package = \"@your-scope/ui\"\n\
         # forbid-import-prefixes = [\"@radix-ui/\", \"@base-ui/\"]\n"
    );
}

#[test]
fn empty_forbidden_list_renders_empty_array() {
    let text = render_config(Some("ui"), &[], true);
    assert!(text.ends_with("[design-system]\npackage = \"ui\"\nforbid-import-prefixes = []\n"));
}

#[test]
fn yes_no_answers() {
    assert!(answer_yes_no("\n", true));
    assert!(!answer_yes_no("   \n", false));
    assert!(answer_yes_no("y\n", false));
    assert!(answer_yes_no("  YES \n", false));
    assert!(answer_yes_no("Yes", false));
    assert!(!answer_yes_no("n\n", true));
    assert!(!answer_yes_no("yep\n", true));
}

#[test]
fn free_text_answers() {
    assert_eq!(answer_line("  @acme/ui \n"), Some("@acme/ui".to_string()));
    assert_eq!(answer_line(" \t\n"), None);
    assert_eq!(answer_line(""), None);
}
