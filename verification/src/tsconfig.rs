//! Inherit the workspace's TypeScript type setting. The project's
//! `tsconfig.json` is checked and, if `strict` mode is not enabled, flagged —
//! strict mode is the foundation every other type-safety rule assumes, so an
//! agent working in a non-strict repo is writing on sand. Reading the file is
//! the caller's; the decision on its text is here.
use vstd::prelude::*;

use crate::diagnostics::{Category, Diagnostic, FileContext, RuleMeta, Severity};
use crate::strings::{chars_of, contains_chars, has_infix, is_whitespace, is_ws};

verus! {

/// The metadata of the strict-tsconfig rule.
pub open spec fn is_prefer_strict_meta(meta: RuleMeta) -> bool {
    &&& meta.id@ == "prefer-strict-tsconfig"@
    &&& meta.severity == Severity::Warn
    &&& meta.category == Category::TypeSafety
    &&& meta.help@ == "`compilerOptions.strict` is not enabled. Strict mode (strictNullChecks, noImplicitAny, …) is what makes the type checker — and every type-safety rule here — actually load-bearing. Turn it on so the compiler catches what the agent misses."@
}

fn prefer_strict() -> (res: RuleMeta)
    ensures
        is_prefer_strict_meta(res),
{
    RuleMeta {
        id: "prefer-strict-tsconfig",
        severity: Severity::Warn,
        category: Category::TypeSafety,
        help: "`compilerOptions.strict` is not enabled. Strict mode (strictNullChecks, noImplicitAny, …) is what makes the type checker — and every type-safety rule here — actually load-bearing. Turn it on so the compiler catches what the agent misses.",
    }
}

/// Metas for the tsconfig rule — it fires from the engine pass (project-level,
/// not per-file), so it's appended to the catalog here.
pub fn tsconfig_metas() -> (res: Vec<RuleMeta>)
    ensures
        res@.len() == 1,
        is_prefer_strict_meta(res@[0]),
{
    let mut metas = Vec::new();
    metas.push(prefer_strict());
    metas
}

/// `s` without its whitespace characters.
pub open spec fn without_ws(s: Seq<char>) -> Seq<char> {
    s.filter(|c: char| !is_ws(c))
}

/// Whether a tsconfig's text turns strict mode on: it holds `"strict":true`
/// once whitespace is removed (comments and trailing commas, which JSON
/// rejects, are tolerated).
pub open spec fn enables_strict(text: Seq<char>) -> bool {
    has_infix(without_ws(text), "\"strict\":true"@)
}

/// `Some(true)` if the root tsconfig (the first of `tsconfig.json` and
/// `tsconfig.base.json` that could be read, whose text is `first_readable`)
/// enables strict, `Some(false)` if it does not, `None` if there is none.
pub fn detect_strict(first_readable: Option<&str>) -> (res: Option<bool>)
    ensures
        match first_readable {
            Some(text) => res == Some(enables_strict(text@)),
            None => res is None,
        },
{
    let text = match first_readable {
        Some(text) => text,
        None => {
            return None;
        },
    };
    let chars = chars_of(text);
    let mut compact: Vec<char> = Vec::new();
    let mut i: usize = 0;
    while i < chars.len()
        invariant
            chars@ == text@,
            i <= chars@.len(),
            compact@ == without_ws(chars@.take(i as int)),
        decreases chars@.len() - i,
    {
        proof {
            assert(chars@.take(i + 1) =~= chars@.take(i as int).push(chars@[i as int]));
            chars@.take(i as int).lemma_filter_push(chars@[i as int], |c: char| !is_ws(c));
        }
        if !is_whitespace(chars[i]) {
            compact.push(chars[i]);
        }
        i = i + 1;
    }
    assert(chars@.take(chars@.len() as int) =~= chars@);
    let pattern = chars_of("\"strict\":true");
    Some(contains_chars(compact.as_slice(), pattern.as_slice()))
}

/// A finding when the workspace tsconfig exists but isn't strict (`strict`
/// is what `detect_strict` found). `None` when strict is on, or there's no
/// tsconfig to inherit from. `file_context` classifies `tsconfig.json`.
pub fn strict_finding(strict: Option<bool>, file_context: FileContext) -> (res: Option<Diagnostic>)
    ensures
        strict != Some(false) ==> res is None,
        strict == Some(false) ==> (res matches Some(d) && {
            &&& is_prefer_strict_meta(RuleMeta { id: d.rule, severity: d.severity, category: d.category, help: d.help })
            &&& d.message@ == "tsconfig.json does not enable `strict` — turn on strict mode"@
            &&& d.file@ == "tsconfig.json"@
            &&& d.file_context == file_context
            &&& d.line == 1
            &&& d.column == 1
            &&& d.snippet@ == Seq::<char>::empty()
        }),
{
    match strict {
        Some(false) => {},
        _ => {
            return None;
        },
    }
    let meta = prefer_strict();
    Some(
        Diagnostic::from_meta(
            &meta,
            String::from_str("tsconfig.json does not enable `strict` — turn on strict mode"),
            String::from_str("tsconfig.json"),
            file_context,
            1,
            1,
            String::new(),
        ),
    )
}

} // verus!
