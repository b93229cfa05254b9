use agent_doctor::merge::items::{items_from_statements, normalize, Item};
use agent_doctor::merge::{merge, structural_merge};
use agent_doctor::syntax::{DeclShape, StatementShape, TopLevel};

#[test]
fn disjoint_additions_merge_cleanly() {
    let base = "export function a() { return 1 }\n";
    let ours = "export function a() { return 1 }\nexport function b() { return 2 }\n";
    let theirs = "export function a() { return 1 }\nexport function c() { return 3 }\n";
    let result = merge(base, ours, theirs);
    assert!(result.is_clean(), "conflicts: {:?}", result.conflicts);
    assert!(result.merged.contains("function b"));
    assert!(result.merged.contains("function c"));
}

#[test]
fn one_sided_modification_takes_that_side() {
    let base = "export const x = 1\n";
    let ours = "export const x = 42\n";
    let theirs = "export const x = 1\n";
    let result = merge(base, ours, theirs);
    assert!(result.is_clean());
    assert!(result.merged.contains("42"));
    assert_eq!(result.changed_symbols, vec!["x".to_string()]);
}

#[test]
fn same_decl_modified_both_sides_conflicts() {
    let base = "export const x = 1\n";
    let ours = "export const x = 2\n";
    let theirs = "export const x = 3\n";
    let result = merge(base, ours, theirs);
    assert!(!result.is_clean());
    assert_eq!(result.conflicts.len(), 1);
    assert!(result.merged.contains("<<<<<<< ours"));
    assert!(result.merged.contains(">>>>>>> theirs"));
}

#[test]
fn pure_reorder_is_not_a_conflict() {
    let base = "export const a = 1\nexport const b = 2\n";
    let ours = "export const b = 2\nexport const a = 1\n"; // reordered
    let theirs = "export const a = 1\nexport const b = 2\n";
    let result = merge(base, ours, theirs);
    assert!(result.is_clean(), "conflicts: {:?}", result.conflicts);
}

#[test]
fn formatting_only_change_is_not_a_modification() {
    let base = "export const x = 1\n";
    let ours = "export   const    x = 1\n"; // whitespace only
    let theirs = "export const x = 99\n"; // real change
    let result = merge(base, ours, theirs);
    // ours is whitespace-equal to base ⇒ theirs' real change wins, no conflict.
    assert!(result.is_clean(), "conflicts: {:?}", result.conflicts);
    assert!(result.merged.contains("99"));
}

#[test]
fn deletion_vs_unchanged_removes() {
    let base = "export const a = 1\nexport const b = 2\n";
    let ours = "export const a = 1\n"; // deleted b
    let theirs = "export const a = 1\nexport const b = 2\n";
    let result = merge(base, ours, theirs);
    assert!(result.is_clean());
    assert!(!result.merged.contains("b = 2"));
}

#[test]
fn deletion_vs_modification_conflicts() {
    let base = "export const b = 2\n";
    let ours = ""; // deleted
    let theirs = "export const b = 22\n"; // modified
    let result = merge(base, ours, theirs);
    assert!(!result.is_clean());
}

#[test]
fn unparseable_falls_back_safely() {
    let base = "const x = (";
    let ours = "const x = ("; // unchanged
    let theirs = "const x = 1\n"; // theirs fixed it
    let result = merge(base, ours, theirs);
    assert!(result.fell_back);
    assert!(result.is_clean());
    assert!(result.merged.contains("x = 1"));
}

#[test]
fn imports_merge_as_items() {
    let base = "import { a } from './a'\nexport const z = 1\n";
    let ours = "import { a } from './a'\nimport { b } from './b'\nexport const z = 1\n";
    let theirs = "import { a } from './a'\nexport const z = 1\n";
    let result = merge(base, ours, theirs);
    assert!(result.is_clean());
    assert!(result.merged.contains("from './b'"));
}

#[test]
fn merged_output_is_blocks_joined_by_blank_lines() {
    let base = "export const a = 1\n";
    let ours = "export const a = 1\nexport const b = 2\n";
    let theirs = "export const a = 1\n";
    let result = merge(base, ours, theirs);
    assert_eq!(result.merged, "export const a = 1\n\nexport const b = 2\n");
    assert_eq!(result.changed_symbols, vec!["b".to_string()]);
    assert!(!result.fell_back);
}

#[test]
fn conflict_block_and_description_are_exact() {
    let base = "export const x = 1\n";
    let ours = "export const x = 2\n";
    let theirs = "export const x = 3\n";
    let result = merge(base, ours, theirs);
    assert_eq!(
        result.merged,
        "<<<<<<< ours\nexport const x = 2\n=======\nexport const x = 3\n>>>>>>> theirs\n"
    );
    assert_eq!(result.conflicts[0].key, "decl:x");
    assert_eq!(result.conflicts[0].description, "both sides changed declaration `x`");
}

#[test]
fn deletion_conflict_names_the_deleting_side() {
    let result = merge("export const b = 2\n", "", "export const b = 22\n");
    assert_eq!(result.conflicts[0].description, "theirs changed declaration `b` but ours deleted it");
    let result = merge("export const b = 2\n", "export const b = 22\n", "");
    assert_eq!(result.conflicts[0].description, "ours changed declaration `b` but theirs deleted it");
}

#[test]
fn changed_symbols_are_sorted_and_distinct() {
    let base = "export const z = 1\nexport const a = 1\n";
    let ours = "export const z = 2\nexport const a = 2\nexport default 3\n";
    let theirs = base;
    let result = merge(base, ours, theirs);
    assert!(result.is_clean());
    assert_eq!(
        result.changed_symbols,
        vec!["a".to_string(), "default".to_string(), "z".to_string()]
    );
}

#[test]
fn unparseable_both_changed_is_one_file_conflict() {
    let result = merge("const x = (", "const x = ((", "const x = (((");
    assert!(result.fell_back);
    assert_eq!(result.conflicts.len(), 1);
    assert_eq!(result.conflicts[0].key, "<file>");
    assert_eq!(result.conflicts[0].description, "unparseable file changed on both sides");
    assert_eq!(
        result.merged,
        "<<<<<<< ours\nconst x = ((\n=======\nconst x = (((\n>>>>>>> theirs"
    );
    assert!(result.changed_symbols.is_empty());
}

#[test]
fn type_declarations_are_keyed_by_name() {
    let base = "interface A { x: number }\ntype B = string\nenum C { D }\n";
    let ours = "interface A { x: string }\ntype B = string\nenum C { D }\n";
    let theirs = "interface A { x: number }\ntype B = number\nenum C { D }\n";
    let result = merge(base, ours, theirs);
    assert!(result.is_clean(), "conflicts: {:?}", result.conflicts);
    assert_eq!(result.changed_symbols, vec!["A".to_string(), "B".to_string()]);
}

#[test]
fn normalize_collapses_whitespace() {
    assert_eq!(normalize("  export   const\tx =\n 1  "), "export const x = 1");
    assert_eq!(normalize(""), "");
    assert_eq!(normalize(" \n\t "), "");
}

#[test]
fn same_edit_on_both_sides_is_clean() {
    let base = "export const x = 1\nexport const y = 2\n";
    let side = "export const x = 5\nexport const y = 2\nexport function z() { return 0 }\n";
    let result = merge(base, side, side);
    assert!(result.is_clean(), "conflicts: {:?}", result.conflicts);
    assert!(result.merged.contains("x = 5"));
    assert!(result.merged.contains("function z"));
}

#[test]
fn fallback_without_conflict_returns_a_side_verbatim() {
    let base = "const x = (";
    let ours = "const x = (";
    let theirs = "const x = 1\n";
    let result = merge(base, ours, theirs);
    assert!(result.fell_back);
    assert!(result.is_clean());
    assert_eq!(result.merged, theirs);
}

#[test]
fn normalizing_twice_is_normalizing_once() {
    let once = normalize("  export   const\tx =\n 1  ");
    assert_eq!(once, "export const x = 1");
    assert_eq!(normalize(&once), once);
}

#[test]
fn items_come_from_parsed_statements() {
    let statements = vec![
        TopLevel {
            start: 0,
            end: 20,
            raw: "const a = 1, b = 2".to_string(),
            shape: StatementShape::Declaration(DeclShape::Variable(vec![Some("a".to_string()), Some("b".to_string())])),
        },
        TopLevel {
            start: 21,
            end: 40,
            raw: "export const {x} =  o".to_string(),
            shape: StatementShape::Exported(DeclShape::Variable(vec![None, Some("y".to_string())])),
        },
        TopLevel { start: 41, end: 50, raw: "export default 1".to_string(), shape: StatementShape::ExportDefault },
    ];
    let items = items_from_statements(&statements);
    let keys: Vec<&str> = items.iter().map(|i| i.key.as_str()).collect();
    assert_eq!(keys, vec!["decl:a", "other:export const {x} = o", "decl:default"]);
    assert_eq!(items[1].norm, "export const {x} = o");
    assert_eq!(items[1].raw, "export const {x} =  o");
}

#[test]
fn merging_given_items() {
    let item = |key: &str, raw: &str| Item { key: key.to_string(), raw: raw.to_string(), norm: normalize(raw) };
    let base = vec![item("decl:a", "const a = 1"), item("decl:b", "const b = 2")];
    let ours = vec![item("decl:a", "const a = 10"), item("decl:b", "const b = 2")];
    let theirs = vec![item("decl:b", "const b  = 2"), item("decl:c", "const c = 3")];
    let result = structural_merge(&base, &ours, &theirs);
    assert!(!result.fell_back);
    assert_eq!(result.merged, "<<<<<<< ours\nconst a = 10\n=======\n\n>>>>>>> theirs\n\nconst b = 2\n\nconst c = 3\n");
    assert_eq!(result.conflicts.len(), 1);
    assert_eq!(result.conflicts[0].key, "decl:a");
    assert_eq!(result.conflicts[0].description, "ours changed declaration `a` but theirs deleted it");
    assert_eq!(result.changed_symbols, vec!["a".to_string(), "c".to_string()]);
}

#[test]
fn swapping_sides_keeps_fallback_cleanliness_and_conflicts() {
    let cases = [
        ("export const x = 1\nexport const y = 1\n", "export const x = 2\nexport const y = 5\n", "export const x = 3\n"),
        ("export const x = 1\n", "export const x = 2\n", "export const x = 1\nexport const z = 0\n"),
        ("const x = (", "const x = 1\n", "const x = 2\n"),
    ];
    for (base, ours, theirs) in cases {
        let a = merge(base, ours, theirs);
        let b = merge(base, theirs, ours);
        assert_eq!(a.fell_back, b.fell_back);
        assert_eq!(a.is_clean(), b.is_clean());
        let mut ka: Vec<String> = a.conflicts.iter().map(|c| c.key.clone()).collect();
        let mut kb: Vec<String> = b.conflicts.iter().map(|c| c.key.clone()).collect();
        ka.sort();
        kb.sort();
        assert_eq!(ka, kb);
    }
    let a = merge(cases[0].0, cases[0].1, cases[0].2);
    let keys: Vec<&str> = a.conflicts.iter().map(|c| c.key.as_str()).collect();
    assert_eq!(keys, vec!["decl:x", "decl:y"]);
}

#[test]
fn normal_form_is_words_joined_by_single_spaces() {
    let source = " \tconst  a\n=\u{00a0}1 ;\r\n";
    let n = normalize(source);
    assert_eq!(n, "const a = 1 ;");
    let words: Vec<&str> = source.split_whitespace().collect();
    assert_eq!(n.split(' ').collect::<Vec<_>>(), words);
    assert_eq!(normalize(""), "");
}

#[test]
fn empty_blocks_give_empty_merged_text() {
    let empty = || vec![Item { key: "other:".to_string(), raw: String::new(), norm: String::new() }];
    let result = structural_merge(&empty(), &empty(), &empty());
    assert_eq!(result.merged, "");
    assert!(result.is_clean());
}
