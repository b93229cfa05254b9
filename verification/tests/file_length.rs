use agent_doctor::diagnostics::{Category, FileContext, Severity};
use agent_doctor::file_length::{check, file_length_metas, MAX_FILE_LINES};

fn lines(n: usize) -> String {
    let mut s = String::new();
    for i in 0..n {
        s.push_str(&format!("export const v{i} = {i}\n"));
    }
    s
}

#[test]
fn file_at_the_limit_is_fine() {
    assert_eq!(MAX_FILE_LINES, 650);
    assert!(check("ok.ts", &lines(650), false, FileContext::Production).is_none());
    assert!(check("empty.ts", "", true, FileContext::Production).is_none());
}

#[test]
fn file_over_the_limit_is_flagged() {
    let d = check("src/big.ts", &lines(651), false, FileContext::Production).expect("flagged");
    assert_eq!(d.rule, "agent-max-file-length");
    assert_eq!(d.severity, Severity::Warn);
    assert_eq!(d.category, Category::AgentHygiene);
    assert_eq!(d.message, "file is 651 lines (limit 650) — split it into focused modules");
    assert_eq!(d.file, "src/big.ts");
    assert_eq!(d.file_context, FileContext::Production);
    assert_eq!(d.line, 651);
    assert_eq!(d.column, 1);
    assert_eq!(d.snippet, "// 651 lines total");
    assert!(d.help.starts_with("This file is over 650 lines"));
}

#[test]
fn agent_strict_escalates_length_to_error() {
    let d = check("big.ts", &lines(700), true, FileContext::Test).expect("flagged");
    assert_eq!(d.severity, Severity::Error);
    assert_eq!(d.file_context, FileContext::Test);
    assert_eq!(d.message, "file is 700 lines (limit 650) — split it into focused modules");
    assert_eq!(d.snippet, "// 700 lines total");
}

#[test]
fn last_line_without_newline_counts() {
    let mut source = lines(650);
    source.push_str("export const tail = 1");
    let d = check("t.ts", &source, false, FileContext::Production).expect("flagged");
    assert_eq!(d.message, "file is 651 lines (limit 650) — split it into focused modules");
}

#[test]
fn blank_lines_count_too() {
    let source = "\n".repeat(651);
    let d = check("blank.ts", &source, false, FileContext::Production).expect("flagged");
    assert_eq!(d.snippet, "// 651 lines total");
    assert!(check("blank.ts", &"\n".repeat(650), false, FileContext::Production).is_none());
}

#[test]
fn file_length_catalog_has_one_rule() {
    let metas = file_length_metas();
    assert_eq!(metas.len(), 1);
    assert_eq!(metas[0].id, "agent-max-file-length");
    assert_eq!(metas[0].severity, Severity::Warn);
}
