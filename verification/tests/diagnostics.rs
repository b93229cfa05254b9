use agent_doctor::diagnostics::{Category, Diagnostic, FileContext, RuleMeta, Severity};

#[test]
fn category_labels() {
    assert_eq!(Category::Correctness.label(), "Correctness");
    assert_eq!(Category::V4Migration.label(), "v4 Migration");
    assert_eq!(Category::TypeAware.label(), "Type-aware");
    assert_eq!(Category::Adoption.label(), "Effect Adoption");
    assert_eq!(Category::AgentHygiene.label(), "Agent hygiene");
    assert_eq!(Category::TypeSafety.label(), "Type safety");
    assert_eq!(Category::DesignSystem.label(), "Design system");
    assert_eq!(Category::React.label(), "React");
}

#[test]
fn diagnostic_from_meta_copies_every_field() {
    let meta = RuleMeta { id: "r", severity: Severity::Error, category: Category::Performance, help: "h" };
    let d = Diagnostic::from_meta(&meta, "m".to_string(), "f.ts".to_string(), FileContext::Test, 4, 2, "s".to_string());
    assert_eq!(d.rule, "r");
    assert_eq!(d.severity, Severity::Error);
    assert_eq!(d.category, Category::Performance);
    assert_eq!(d.message, "m");
    assert_eq!(d.help, "h");
    assert_eq!(d.file, "f.ts");
    assert_eq!(d.file_context, FileContext::Test);
    assert_eq!((d.line, d.column), (4, 2));
    assert_eq!(d.snippet, "s");
}
