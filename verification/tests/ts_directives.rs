use agent_doctor::diagnostics::{Severity, Span};
use agent_doctor::ts_directives::{metas, scan};

fn span_of(source: &str, text: &str) -> Span {
    let start = source.find(text).unwrap();
    Span { start: start as u32, end: (start + text.len()) as u32 }
}

#[test]
fn directives_in_comments_are_reported() {
    let source = "// @ts-ignore\nconst x: number = 'a'\n/* @ts-expect-error */\nlet y = 1\n// plain comment\n";
    let comments = vec![
        span_of(source, "// @ts-ignore"),
        span_of(source, "/* @ts-expect-error */"),
        span_of(source, "// plain comment"),
    ];
    let findings = scan(source, &comments, false);
    assert_eq!(findings.len(), 2);
    assert_eq!(findings[0].meta.id, "agent-no-ts-ignore");
    assert_eq!(findings[0].span, comments[0]);
    assert_eq!(findings[0].message, "@ts-ignore — fix the underlying type instead of silencing the checker");
    assert_eq!(findings[0].severity, None);
    assert_eq!(findings[1].span, comments[1]);
    assert_eq!(findings[1].message, "@ts-expect-error — fix the underlying type instead of silencing the checker");
}

#[test]
fn agent_strict_escalates_directives() {
    let source = "// @ts-nocheck\n";
    let comments = vec![span_of(source, "// @ts-nocheck")];
    let findings = scan(source, &comments, true);
    assert_eq!(findings.len(), 1);
    assert_eq!(findings[0].severity, Some(Severity::Error));
    assert_eq!(findings[0].message, "@ts-nocheck — fix the underlying type instead of silencing the checker");
}

#[test]
fn first_directive_in_order_wins() {
    let source = "// @ts-nocheck and @ts-ignore\n";
    let comments = vec![span_of(source, "// @ts-nocheck and @ts-ignore")];
    let findings = scan(source, &comments, false);
    assert_eq!(findings.len(), 1);
    assert_eq!(findings[0].message, "@ts-ignore — fix the underlying type instead of silencing the checker");
}

#[test]
fn spans_past_the_end_are_clamped_and_empty_ones_skipped() {
    let source = "x // @ts-ignore";
    let comments = vec![Span { start: 2, end: 1000 }, Span { start: 5, end: 5 }, Span { start: 900, end: 1000 }];
    let findings = scan(source, &comments, false);
    assert_eq!(findings.len(), 1);
    assert_eq!(findings[0].span, Span { start: 2, end: 1000 });
}

#[test]
fn directive_outside_comments_is_ignored() {
    let source = "const s = \"@ts-ignore\"\n// fine\n";
    let comments = vec![span_of(source, "// fine")];
    assert!(scan(source, &comments, false).is_empty());
}

#[test]
fn ts_directive_catalog_has_one_rule() {
    let m = metas();
    assert_eq!(m.len(), 1);
    assert_eq!(m[0].id, "agent-no-ts-ignore");
    assert_eq!(m[0].severity, Severity::Warn);
}
