//! React tier: the full react-doctor rule set, merged in automatically. When
//! the scan root looks like a React project, the `react-doctor` CLI (`--json`)
//! is run and its diagnostics are folded into the report as `rd/*` rules — the
//! same "orchestrate, never reimplement" approach as the `--deep`
//! language-service tier. Running the CLI and decoding its report is the
//! caller's; deciding on manifests and converting findings is here.
use vstd::prelude::*;

use crate::diagnostics::{Category, Diagnostic, FileContext, Severity};
use crate::json::{json_member_keys, member_keys};
use crate::strings::{chars_of, holds_string, matches_at, starts_with, str_eq, string_of_range};

verus! {

/// The severity a react-doctor severity name maps to.
pub open spec fn severity_named(name: Seq<char>) -> Severity {
    if name == "error"@ {
        Severity::Error
    } else if name == "warning"@ {
        Severity::Warn
    } else {
        Severity::Info
    }
}

fn map_severity(severity: &str) -> (res: Severity)
    ensures
        res == severity_named(severity@),
{
    if str_eq(severity, "error") {
        Severity::Error
    } else if str_eq(severity, "warning") {
        Severity::Warn
    } else {
        Severity::Info
    }
}

/// `Box::leak` for the rule id / help: react-doctor rule names arrive at
/// runtime but the Diagnostic schema uses `&'static str`. The set is bounded by
/// the rule catalog and lives for the process.
#[verifier::external_body]
fn leak(value: String) -> (res: &'static str)
    ensures
        res@ == value@,
{
    Box::leak(value.into_boxed_str())
}

/// The dependency tables of a `package.json`, in the order they are checked.
pub open spec fn dependency_tables() -> Seq<Seq<char>> {
    seq!["dependencies"@, "devDependencies"@, "peerDependencies"@]
}

/// The manifest text declares a `react` dependency in one of its tables.
pub open spec fn declares_react(manifest: Seq<char>) -> bool {
    exists|k: int|
        0 <= k < 3 && (json_member_keys(manifest, #[trigger] dependency_tables()[k]) matches Some(
            keys,
        ) && keys.contains("react"@))
}

/// True when the manifest (`package.json` text) declares a `react`
/// dependency, dev dependency or peer dependency; false when it is not JSON.
pub fn package_has_react(manifest: &str) -> (res: bool)
    ensures
        res == declares_react(manifest@),
{
    let tables: [&str; 3] = ["dependencies", "devDependencies", "peerDependencies"];
    let mut i: usize = 0;
    while i < 3
        invariant
            i <= 3,
            tables@[0]@ == dependency_tables()[0],
            tables@[1]@ == dependency_tables()[1],
            tables@[2]@ == dependency_tables()[2],
            forall|k: int|
                0 <= k < i ==> !(json_member_keys(manifest@, #[trigger] dependency_tables()[k]) matches Some(
                    keys,
                ) && keys.contains("react"@)),
        decreases 3 - i,
    {
        match member_keys(manifest, tables[i]) {
            Some(keys) => {
                if holds_string(&keys, "react") {
                    return true;
                }
            },
            None => {},
        }
        i = i + 1;
    }
    false
}

/// One finding of a react-doctor JSON report, as plain values.
#[derive(Debug, Clone)]
pub struct ReactFinding {
    pub file_path: String,
    pub rule: String,
    pub severity: String,
    pub message: String,
    pub title: Option<String>,
    pub line: u32,
    pub column: u32,
}

/// `s` without any leading `/`.
pub open spec fn strip_slashes(s: Seq<char>) -> Seq<char>
    decreases s.len(),
{
    if s.len() > 0 && s[0] == '/' {
        strip_slashes(s.drop_first())
    } else {
        s
    }
}

/// A reported file path relative to the scan root: with the root's display
/// form and the slashes after it removed, when it starts with the root.
pub open spec fn relative_to(root_display: Seq<char>, file_path: Seq<char>) -> Seq<char> {
    if starts_with(file_path, root_display) {
        strip_slashes(file_path.skip(root_display.len() as int))
    } else {
        file_path
    }
}

/// The path a finding is reported under.
pub fn relative_file(root_display: &str, file_path: &str) -> (res: String)
    ensures
        res@ == relative_to(root_display@, file_path@),
{
    let path = chars_of(file_path);
    let root = chars_of(root_display);
    assert(path@.skip(0) =~= path@);
    if !matches_at(path.as_slice(), 0, root.as_slice()) {
        return String::from_str(file_path);
    }
    let mut start = root.len();
    assert(strip_slashes(path@.skip(start as int)) == strip_slashes(path@.skip(root@.len() as int)));
    while start < path.len() && path[start] == '/'
        invariant
            root@.len() <= start <= path@.len(),
            strip_slashes(path@.skip(start as int)) == strip_slashes(path@.skip(root@.len() as int)),
        decreases path@.len() - start,
    {
        assert(path@.skip(start as int).drop_first() =~= path@.skip(start + 1));
        start = start + 1;
    }
    let res = string_of_range(path.as_slice(), start, path.len());
    assert(res@ =~= path@.skip(start as int));
    res
}

/// The help text for a react-doctor finding.
pub open spec fn react_help(title: Option<Seq<char>>) -> Seq<char> {
    match title {
        Some(t) => "react-doctor: "@ + t,
        None => "React finding from react-doctor."@,
    }
}

/// A react-doctor finding as one of our diagnostics (rule `rd/<rule>`),
/// reported relative to the scan root (`root_display`); `file_context`
/// classifies that relative path.
pub fn react_diagnostic(finding: ReactFinding, root_display: &str, file_context: FileContext) -> (res: Diagnostic)
    ensures
        res.rule@ == "rd/"@ + finding.rule@,
        res.severity == severity_named(finding.severity@),
        res.category == Category::React,
        res.message == finding.message,
        res.help@ == react_help(crate::syntax::opt_view(finding.title)),
        res.file@ == relative_to(root_display@, finding.file_path@),
        res.file_context == file_context,
        res.line == finding.line,
        res.column == finding.column,
        res.snippet@ == Seq::<char>::empty(),
{
    let file = relative_file(root_display, finding.file_path.as_str());
    let help: &'static str = match finding.title {
        Some(title) => {
            let mut text = String::from_str("react-doctor: ");
            text.append(title.as_str());
            leak(text)
        },
        None => "React finding from react-doctor.",
    };
    let mut rule = String::from_str("rd/");
    rule.append(finding.rule.as_str());
    Diagnostic {
        rule: leak(rule),
        severity: map_severity(finding.severity.as_str()),
        category: Category::React,
        message: finding.message,
        help,
        file,
        file_context,
        line: finding.line,
        column: finding.column,
        snippet: String::new(),
    }
}

} // verus!
