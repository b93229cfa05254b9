use agent_doctor::diagnostics::{Category, FileContext, Severity};
use agent_doctor::single_use::{
    analyze, metas, to_diagnostic, FileSymbols, ImportEdge, SingleUseHit, SymbolDef, SymbolGraph, SymbolKind,
};

fn def(name: &str, kind: SymbolKind, exported: bool, line: u32) -> SymbolDef {
    SymbolDef { name: name.to_string(), kind, exported, line, column: 8 }
}

fn edge(from: &str, to: &str, names: &[&str]) -> ImportEdge {
    ImportEdge { from: from.to_string(), to: to.to_string(), names: names.iter().map(|n| n.to_string()).collect() }
}

fn graph() -> SymbolGraph {
    SymbolGraph {
        files: vec![
            FileSymbols {
                path: "src/z.ts".to_string(),
                defs: vec![def("late", SymbolKind::Function, true, 9), def("early", SymbolKind::Const, true, 2)],
            },
            FileSymbols {
                path: "src/a.ts".to_string(),
                defs: vec![
                    def("helper", SymbolKind::Function, true, 3),
                    def("shared", SymbolKind::Const, true, 1),
                    def("local", SymbolKind::Function, false, 5),
                    def("Widget", SymbolKind::Class, true, 7),
                    def("unused", SymbolKind::Function, true, 11),
                ],
            },
        ],
        edges: vec![
            edge("src/b.ts", "src/a.ts", &["helper", "shared", "local", "Widget"]),
            edge("src/c.ts", "src/a.ts", &["shared"]),
            edge("src/b.ts", "src/a.ts", &["helper"]),
            edge("src/m.ts", "src/z.ts", &["late", "early"]),
        ],
    }
}

#[test]
fn single_importer_exports_are_hits_sorted_by_file_and_line() {
    let hits = analyze(&graph());
    let view: Vec<(&str, &str, u32, &str)> =
        hits.iter().map(|h| (h.file.as_str(), h.name.as_str(), h.line, h.importer.as_str())).collect();
    assert_eq!(
        view,
        vec![
            ("src/a.ts", "helper", 3, "src/b.ts"),
            ("src/z.ts", "early", 2, "src/m.ts"),
            ("src/z.ts", "late", 9, "src/m.ts"),
        ]
    );
}

#[test]
fn empty_graph_has_no_hits() {
    assert!(analyze(&SymbolGraph { files: Vec::new(), edges: Vec::new() }).is_empty());
}

#[test]
fn hit_becomes_an_info_diagnostic() {
    let hit = SingleUseHit {
        file: "src/a.ts".to_string(),
        name: "helper".to_string(),
        line: 3,
        column: 8,
        importer: "src/b.ts".to_string(),
    };
    let d = to_diagnostic(&hit, "export function helper() {".to_string(), false);
    assert_eq!(d.rule, "agent-no-single-use-helper");
    assert_eq!(d.severity, Severity::Info);
    assert_eq!(d.category, Category::AgentHygiene);
    assert_eq!(
        d.message,
        "`helper` is exported but imported by only one module (src/b.ts) — inline or co-locate it unless it's a real reusable boundary"
    );
    assert_eq!(d.file, "src/a.ts");
    assert_eq!(d.file_context, FileContext::Production);
    assert_eq!((d.line, d.column), (3, 8));
    assert_eq!(d.snippet, "export function helper() {");
    assert_eq!(to_diagnostic(&hit, String::new(), true).file_context, FileContext::Test);
}

#[test]
fn single_use_catalog_has_one_rule() {
    let m = metas();
    assert_eq!(m.len(), 1);
    assert_eq!(m[0].id, "agent-no-single-use-helper");
    assert_eq!(m[0].severity, Severity::Info);
}

#[test]
fn hits_on_the_same_line_keep_their_order() {
    let graph = SymbolGraph {
        files: vec![FileSymbols {
            path: "src/a.ts".to_string(),
            defs: vec![
                def("b", SymbolKind::Const, true, 4),
                def("a", SymbolKind::Const, true, 4),
                def("c", SymbolKind::Function, true, 2),
            ],
        }],
        edges: vec![edge("src/x.ts", "src/a.ts", &["a", "b", "c"])],
    };
    let names: Vec<String> = analyze(&graph).into_iter().map(|h| h.name).collect();
    assert_eq!(names, vec!["c", "b", "a"]);
}
