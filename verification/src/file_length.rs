//! File-length hygiene: a single, syntax-free check that flags oversized
//! source files. It fires on every scanned TypeScript file — a 1,000-line
//! module is a problem whether or not it touches Effect — from the engine pass
//! under the `--agent` family, escalating to `error` with `--agent-strict`.
use vstd::prelude::*;

use crate::diagnostics::{Category, Diagnostic, FileContext, RuleMeta, Severity};
use crate::strings::{chars_of, decimal, push_decimal};

verus! {

/// Files longer than this many lines are flagged. Past ~650 lines a TypeScript
/// module is almost always doing several jobs and should be split.
pub const MAX_FILE_LINES: usize = 650;

/// The metadata of the file-length rule.
pub open spec fn is_max_file_length_meta(meta: RuleMeta) -> bool {
    &&& meta.id@ == "agent-max-file-length"@
    &&& meta.severity == Severity::Warn
    &&& meta.category == Category::AgentHygiene
    &&& meta.help@ == "This file is over 650 lines — too long to hold in context and a sign it does several jobs. Split it into focused modules (one clear purpose each) so agents and humans can reason about it."@
}

fn max_file_length() -> (res: RuleMeta)
    ensures
        is_max_file_length_meta(res),
{
    RuleMeta {
        id: "agent-max-file-length",
        severity: Severity::Warn,
        category: Category::AgentHygiene,
        help: "This file is over 650 lines — too long to hold in context and a sign it does several jobs. Split it into focused modules (one clear purpose each) so agents and humans can reason about it.",
    }
}

/// Metas for the file-length rule — appended to the global catalog since it
/// fires from the engine pass, not per-file rule dispatch.
pub fn file_length_metas() -> (res: Vec<RuleMeta>)
    ensures
        res@.len() == 1,
        is_max_file_length_meta(res@[0]),
{
    let mut metas = Vec::new();
    metas.push(max_file_length());
    metas
}

/// How many times `c` occurs in `s`.
pub open spec fn occurrences(s: Seq<char>, c: char) -> nat
    decreases s.len(),
{
    if s.len() == 0 {
        0
    } else {
        occurrences(s.drop_last(), c) + if s.last() == c {
            1nat
        } else {
            0nat
        }
    }
}

/// The number of lines `str::lines` yields: one per `\n`, plus a final line
/// when the text does not end with one.
pub open spec fn line_count(s: Seq<char>) -> nat {
    occurrences(s, '\n') + if s.len() > 0 && s.last() != '\n' {
        1nat
    } else {
        0nat
    }
}

/// The message of a file-length finding.
pub open spec fn too_long_message(lines: nat) -> Seq<char> {
    "file is "@ + decimal(lines) + " lines (limit "@ + decimal(MAX_FILE_LINES as nat)
        + ") — split it into focused modules"@
}

/// The snippet of a file-length finding.
pub open spec fn too_long_snippet(lines: nat) -> Seq<char> {
    "// "@ + decimal(lines) + " lines total"@
}

proof fn lemma_occurrences_bounded(s: Seq<char>, c: char)
    ensures
        occurrences(s, c) <= s.len(),
    decreases s.len(),
{
    if s.len() > 0 {
        lemma_occurrences_bounded(s.drop_last(), c);
    }
}

fn count_lines(source: &str) -> (res: usize)
    ensures
        res == line_count(source@),
{
    let chars = chars_of(source);
    let mut count: usize = 0;
    let mut i: usize = 0;
    while i < chars.len()
        invariant
            i <= chars@.len(),
            count == occurrences(chars@.take(i as int), '\n'),
            count <= i,
        decreases chars@.len() - i,
    {
        assert(chars@.take(i + 1).drop_last() =~= chars@.take(i as int));
        if chars[i] == '\n' {
            count = count + 1;
        }
        i = i + 1;
    }
    assert(chars@.take(chars@.len() as int) =~= chars@);
    if chars.len() > 0 && chars[chars.len() - 1] != '\n' {
        proof {
            lemma_occurrences_bounded(chars@.drop_last(), '\n');
        }
        count + 1
    } else {
        count
    }
}

/// Flag `source` when it exceeds [`MAX_FILE_LINES`]. Returns `None` for files
/// within the limit. `agent_strict` escalates the finding to `error`.
/// `file_context` is the caller's classification of `display_path`.
pub fn check(display_path: &str, source: &str, agent_strict: bool, file_context: FileContext) -> (res: Option<Diagnostic>)
    ensures
        line_count(source@) <= MAX_FILE_LINES ==> res is None,
        line_count(source@) > MAX_FILE_LINES ==> (res matches Some(d) && {
            &&& d.rule@ == "agent-max-file-length"@
            &&& d.severity == if agent_strict {
                Severity::Error
            } else {
                Severity::Warn
            }
            &&& d.category == Category::AgentHygiene
            &&& d.message@ == too_long_message(line_count(source@))
            &&& is_max_file_length_meta(RuleMeta { id: d.rule, severity: Severity::Warn, category: d.category, help: d.help })
            &&& d.file@ == display_path@
            &&& d.file_context == file_context
            &&& d.line == MAX_FILE_LINES + 1
            &&& d.column == 1
            &&& d.snippet@ == too_long_snippet(line_count(source@))
        }),
{
    let lines = count_lines(source);
    if lines <= MAX_FILE_LINES {
        return None;
    }
    let meta = max_file_length();
    let severity = match agent_strict {
        true => Severity::Error,
        false => meta.severity,
    };
    let mut message = String::from_str("file is ");
    push_decimal(&mut message, lines);
    message.append(" lines (limit ");
    push_decimal(&mut message, MAX_FILE_LINES);
    message.append(") — split it into focused modules");
    let mut snippet = String::from_str("// ");
    push_decimal(&mut snippet, lines);
    snippet.append(" lines total");
    Some(
        Diagnostic {
            rule: meta.id,
            severity,
            category: meta.category,
            message,
            help: meta.help,
            file: String::from_str(display_path),
            file_context,
            line: 651,
            column: 1,
            snippet,
        },
    )
}

} // verus!
