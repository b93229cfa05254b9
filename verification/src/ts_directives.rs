//! `@ts-ignore` / `@ts-expect-error` / `@ts-nocheck` detection. These live in
//! comments, not syntax nodes, so the per-node rules can't see them; the lint
//! pipeline scans a file's comments and merges these in under `--agent`.
use vstd::prelude::*;

use vstd::string::StringSliceAdditionalSpecFns;
use vstd::utf8::{encode_utf8, is_char_boundary};

use crate::diagnostics::{Category, RawDiagnostic, RuleMeta, Severity, Span};

verus! {

/// The metadata of the ts-directive rule.
pub open spec fn is_ts_ignore_meta(meta: RuleMeta) -> bool {
    &&& meta.id@ == "agent-no-ts-ignore"@
    &&& meta.severity == Severity::Warn
    &&& meta.category == Category::AgentHygiene
    &&& meta.help@ == "`@ts-ignore` / `@ts-expect-error` / `@ts-nocheck` silence the type checker and let real errors through. Fix the underlying type, narrow it, or decode with Schema. `strict: true` is on everywhere — don't weaken it."@
}

fn ts_ignore() -> (res: RuleMeta)
    ensures
        is_ts_ignore_meta(res),
{
    RuleMeta {
        id: "agent-no-ts-ignore",
        severity: Severity::Warn,
        category: Category::AgentHygiene,
        help: "`@ts-ignore` / `@ts-expect-error` / `@ts-nocheck` silence the type checker and let real errors through. Fix the underlying type, narrow it, or decode with Schema. `strict: true` is on everywhere — don't weaken it.",
    }
}

/// Catalog metadata for the comment-scanned ts-directive rule.
pub fn metas() -> (res: Vec<RuleMeta>)
    ensures
        res@.len() == 1,
        is_ts_ignore_meta(res@[0]),
{
    let mut metas = Vec::new();
    metas.push(ts_ignore());
    metas
}

/// The suppression directives, in the order they are looked for.
pub open spec fn directives() -> Seq<Seq<char>> {
    seq!["@ts-ignore"@, "@ts-expect-error"@, "@ts-nocheck"@]
}

/// Whether `pat` occurs in `s` as a contiguous run of bytes.
pub open spec fn has_byte_infix(s: Seq<u8>, pat: Seq<u8>) -> bool {
    exists|i: int| 0 <= i && i + pat.len() <= s.len() && #[trigger] s.subrange(i, i + pat.len()) == pat
}

/// The first directive whose text occurs in `text`.
pub open spec fn directive_in(text: Seq<u8>) -> Option<Seq<char>> {
    if has_byte_infix(text, encode_utf8(directives()[0])) {
        Some(directives()[0])
    } else if has_byte_infix(text, encode_utf8(directives()[1])) {
        Some(directives()[1])
    } else if has_byte_infix(text, encode_utf8(directives()[2])) {
        Some(directives()[2])
    } else {
        None
    }
}

/// The end of a comment's text within a source of `len` bytes.
pub open spec fn clamped_end(span: Span, len: nat) -> int {
    if span.end as int <= len {
        span.end as int
    } else {
        len as int
    }
}

/// The finding for one comment, if it carries a directive.
pub open spec fn comment_finding(bytes: Seq<u8>, span: Span) -> Option<Seq<char>> {
    let start = span.start as int;
    let end = clamped_end(span, bytes.len());
    if start >= end {
        None
    } else {
        directive_in(bytes.subrange(start, end))
    }
}

/// The message for a directive.
pub open spec fn directive_message(directive: Seq<char>) -> Seq<char> {
    directive + " — fix the underlying type instead of silencing the checker"@
}

/// The findings for `comments`, in order: (comment span, directive).
pub open spec fn findings_for(bytes: Seq<u8>, comments: Seq<Span>) -> Seq<(Span, Seq<char>)>
    decreases comments.len(),
{
    if comments.len() == 0 {
        Seq::empty()
    } else {
        let prev = findings_for(bytes, comments.drop_last());
        match comment_finding(bytes, comments.last()) {
            Some(directive) => prev.push((comments.last(), directive)),
            None => prev,
        }
    }
}

/// `finding` reports `entry` (comment span, directive) at `severity`.
pub open spec fn reports(finding: RawDiagnostic, entry: (Span, Seq<char>), severity: Option<Severity>) -> bool {
    &&& is_ts_ignore_meta(finding.meta)
    &&& finding.span == entry.0
    &&& finding.message@ == directive_message(entry.1)
    &&& finding.severity == severity
}

/// Whether `pat` occurs in `hay[from..to]`.
fn contains_bytes(hay: &[u8], from: usize, to: usize, pat: &[u8]) -> (res: bool)
    requires
        from <= to <= hay@.len(),
    ensures
        res == has_byte_infix(hay@.subrange(from as int, to as int), pat@),
{
    let ghost s = hay@.subrange(from as int, to as int);
    if pat.len() > to - from {
        return false;
    }
    let last = to - pat.len();
    let mut i: usize = from;
    while i <= last
        invariant
            s == hay@.subrange(from as int, to as int),
            from <= i,
            last + pat@.len() == to,
            pat@.len() <= to - from,
            to <= hay@.len(),
            forall|k: int| 0 <= k < i - from ==> #[trigger] s.subrange(k, k + pat@.len()) != pat@,
        decreases to - i,
    {
        let mut j: usize = 0;
        while j < pat.len() && hay[i + j] == pat[j]
            invariant
                j <= pat@.len(),
                i + pat@.len() <= to <= hay@.len(),
                forall|m: int| 0 <= m < j ==> hay@[i + m] == pat@[m],
            decreases pat@.len() - j,
        {
            j = j + 1;
        }
        let ghost k = i - from;
        assert(s.subrange(k, k + pat@.len()) =~= hay@.subrange(i as int, i + pat@.len()));
        if j == pat.len() {
            assert(hay@.subrange(i as int, i + pat@.len()) =~= pat@);
            return true;
        }
        assert(hay@.subrange(i as int, i + pat@.len())[j as int] != pat@[j as int]);
        if i == last {
            return false;
        }
        i = i + 1;
    }
    false
}

/// Emit a finding for every comment carrying a ts-suppression directive.
/// `agent_strict` escalates from `warn` to `error`.
pub fn scan(source: &str, comments: &[Span], agent_strict: bool) -> (res: Vec<RawDiagnostic>)
    requires
        forall|k: int|
            0 <= k < comments@.len() && (comments@[k].start as int) < clamped_end(
                comments@[k],
                source.spec_bytes().len(),
            ) ==> is_char_boundary(source.spec_bytes(), #[trigger] comments@[k].start as int)
                && is_char_boundary(
                source.spec_bytes(),
                clamped_end(comments@[k], source.spec_bytes().len()),
            ),
    ensures
        res@.len() == findings_for(source.spec_bytes(), comments@).len(),
        forall|i: int|
            0 <= i < res@.len() ==> reports(
                #[trigger] res@[i],
                findings_for(source.spec_bytes(), comments@)[i],
                if agent_strict {
                    Some(Severity::Error)
                } else {
                    None
                },
            ),
{
    let bytes = source.as_bytes();
    let severity = if agent_strict {
        Some(Severity::Error)
    } else {
        None
    };
    let ignore = "@ts-ignore".as_bytes();
    let expect = "@ts-expect-error".as_bytes();
    let nocheck = "@ts-nocheck".as_bytes();
    let mut findings: Vec<RawDiagnostic> = Vec::new();
    let mut c: usize = 0;
    while c < comments.len()
        invariant
            bytes@ == source.spec_bytes(),
            ignore@ == encode_utf8(directives()[0]),
            expect@ == encode_utf8(directives()[1]),
            nocheck@ == encode_utf8(directives()[2]),
            severity == if agent_strict {
                Some(Severity::Error)
            } else {
                None
            },
            c <= comments@.len(),
            findings@.len() == findings_for(bytes@, comments@.take(c as int)).len(),
            forall|i: int|
                0 <= i < findings@.len() ==> reports(
                    #[trigger] findings@[i],
                    findings_for(bytes@, comments@.take(c as int))[i],
                    severity,
                ),
        decreases comments@.len() - c,
    {
        let ghost prev = findings_for(bytes@, comments@.take(c as int));
        assert(comments@.take(c + 1).drop_last() =~= comments@.take(c as int));
        let span = comments[c];
        let start = span.start as usize;
        let end = if (span.end as usize) < bytes.len() {
            span.end as usize
        } else {
            bytes.len()
        };
        let directive: Option<&str> = if start >= end {
            None
        } else if contains_bytes(bytes, start, end, ignore) {
            Some("@ts-ignore")
        } else if contains_bytes(bytes, start, end, expect) {
            Some("@ts-expect-error")
        } else if contains_bytes(bytes, start, end, nocheck) {
            Some("@ts-nocheck")
        } else {
            None
        };
        proof {
            assert(start as int == span.start as int);
            assert(end as int == clamped_end(span, bytes@.len()));
            assert(comments@.take(c + 1).last() == span);
            match directive {
                Some(d) => assert(comment_finding(bytes@, span) == Some(d@)),
                None => assert(comment_finding(bytes@, span) is None),
            }
        }
        match directive {
            Some(d) => {
                let mut message = String::from_str(d);
                message.append(" — fix the underlying type instead of silencing the checker");
                let ghost before = findings@;
                let finding = RawDiagnostic { meta: ts_ignore(), span, message, severity };
                findings.push(finding);
                proof {
                    let next = findings_for(bytes@, comments@.take(c + 1));
                    assert(next == prev.push((span, d@)));
                    assert forall|i: int| 0 <= i < findings@.len() implies reports(
                        #[trigger] findings@[i],
                        next[i],
                        severity,
                    ) by {
                        if i < before.len() {
                            assert(findings@[i] == before[i]);
                            assert(next[i] == prev[i]);
                            assert(prev[i] == findings_for(bytes@, comments@.take(c as int))[i]);
                        } else {
                            assert(findings@[i] == finding);
                            assert(next[i] == (span, d@));
                        }
                    }
                }
            },
            None => {
                assert(findings_for(bytes@, comments@.take(c + 1)) == prev);
            },
        }
        c = c + 1;
    }
    assert(comments@.take(comments@.len() as int) =~= comments@);
    findings
}

} // verus!
