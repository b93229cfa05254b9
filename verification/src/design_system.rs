//! Design-system enforcement. When `agent-doctor.toml` names a `[design-system]`
//! package, agents are made to *use* it instead of reaching for the raw
//! primitive libraries it wraps. The component catalog is auto-discovered from
//! the package's `exports` map (the durable source of truth — it can't go stale
//! because it *is* the package); there is no manifest to maintain.
//!
//! Finding the package's manifest and reading the scanned files is the
//! caller's; what is decided on their text is here.
use vstd::prelude::*;

use crate::config::DesignSystem;
use crate::diagnostics::{Category, Diagnostic, FileContext, RuleMeta, Severity};
use crate::json::{json_member_keys, json_member_string, member_keys, member_string};
use crate::sorted::{insert_sorted, strictly_sorted};
use crate::strings::{
    chars_of, contains_chars, has_infix, matches_at, starts_with, str_eq, string_of_chars,
    string_views,
};
use crate::syntax::{
    kind_or_tsx, parse_source, script_file_kind, source_kind_of_path, statements_for, top_level_views, SourceKind,
    StatementShape, StatementShapeView, TopLevel, TopLevelView,
};
use crate::text::{line_at, line_starts, LineIndex};

use vstd::string::StringSliceAdditionalSpecFns;

verus! {

/// The metadata of the banned-import rule.
pub open spec fn is_no_banned_import_meta(meta: RuleMeta) -> bool {
    &&& meta.id@ == "ds-no-banned-import"@
    &&& meta.severity == Severity::Warn
    &&& meta.category == Category::DesignSystem
    &&& meta.help@ == "This pulls in a primitive library that the design system already wraps. Import the design-system component instead of re-reaching for the underlying primitive — that's the whole point of having a design system."@
}

fn no_banned_import() -> (res: RuleMeta)
    ensures
        is_no_banned_import_meta(res),
{
    RuleMeta {
        id: "ds-no-banned-import",
        severity: Severity::Warn,
        category: Category::DesignSystem,
        help: "This pulls in a primitive library that the design system already wraps. Import the design-system component instead of re-reaching for the underlying primitive — that's the whole point of having a design system.",
    }
}

/// Metas for the design-system pass (engine-level, not per-file dispatch).
pub fn design_system_metas() -> (res: Vec<RuleMeta>)
    ensures
        res@.len() == 1,
        is_no_banned_import_meta(res@[0]),
{
    let mut metas = Vec::new();
    metas.push(no_banned_import());
    metas
}

/// The part of `s` after its last `/` (all of `s` when it has none).
pub open spec fn after_last_slash(s: Seq<char>) -> Seq<char>
    decreases s.len(),
{
    if s.len() == 0 {
        s
    } else if s.last() == '/' {
        Seq::empty()
    } else {
        after_last_slash(s.drop_last()).push(s.last())
    }
}

/// `s` with every leading repetition of the non-empty `prefix` removed
/// (`str::trim_start_matches`).
pub open spec fn strip_leading(s: Seq<char>, prefix: Seq<char>) -> Seq<char>
    decreases s.len(),
{
    if prefix.len() > 0 && starts_with(s, prefix) {
        strip_leading(s.skip(prefix.len() as int), prefix)
    } else {
        s
    }
}

/// The catalog component an `exports` key names: the single-segment subpath
/// of a `./<subpath>` key.
pub open spec fn component_of_key(key: Seq<char>) -> Option<Seq<char>> {
    if starts_with(key, "./"@) && key.len() > 2 && !key.skip(2).contains('/') {
        Some(key.skip(2))
    } else {
        None
    }
}

/// The components named by a list of `exports` keys.
pub open spec fn components_of(keys: Seq<Seq<char>>) -> Set<Seq<char>>
    decreases keys.len(),
{
    if keys.len() == 0 {
        Set::empty()
    } else {
        let prev = components_of(keys.drop_last());
        match component_of_key(keys.last()) {
            Some(c) => prev.insert(c),
            None => prev,
        }
    }
}

/// The design-system subpath that replaces an import, if the catalog has one:
/// its last path segment, without leading `react-`.
pub open spec fn replacement_in(components: Set<Seq<char>>, import_source: Seq<char>) -> Option<Seq<char>> {
    let bare = strip_leading(after_last_slash(import_source), "react-"@);
    if components.contains(bare) {
        Some(bare)
    } else {
        None
    }
}

/// The design system's component catalog: the single-segment subpaths it exports
/// (e.g. `button`, `select`, `dialog`), discovered from its `package.json`.
pub struct Catalog {
    components: Vec<String>,
}

impl View for Catalog {
    type V = Set<Seq<char>>;

    closed spec fn view(&self) -> Set<Seq<char>> {
        string_views(self.components@).to_set()
    }
}

/// The catalog a manifest gives: the components of its `exports` keys.
pub open spec fn catalog_of(manifest: Option<Seq<char>>) -> Set<Seq<char>> {
    match manifest {
        Some(text) => match json_member_keys(text, "exports"@) {
            Some(keys) => components_of(keys),
            None => Set::empty(),
        },
        None => Set::empty(),
    }
}

/// The characters after the last `/` of `s`.
fn last_segment(s: &Vec<char>) -> (res: Vec<char>)
    ensures
        res@ == after_last_slash(s@),
{
    let mut res: Vec<char> = Vec::new();
    let mut i: usize = 0;
    while i < s.len()
        invariant
            i <= s@.len(),
            res@ == after_last_slash(s@.take(i as int)),
        decreases s@.len() - i,
    {
        assert(s@.take(i + 1).drop_last() =~= s@.take(i as int));
        if s[i] == '/' {
            res = Vec::new();
            assert(res@ =~= Seq::<char>::empty());
        } else {
            res.push(s[i]);
        }
        i = i + 1;
    }
    assert(s@.take(s@.len() as int) =~= s@);
    res
}

/// The key's component, if it names one.
pub(crate) fn component_from_key(key: &str) -> (res: Option<String>)
    ensures
        crate::syntax::opt_view(res) == component_of_key(key@),
{
    let chars = chars_of(key);
    let prefix = chars_of("./");
    if !matches_at(chars.as_slice(), 0, prefix.as_slice()) || chars.len() <= 2 {
        assert(chars@.skip(0) =~= chars@);
        return None;
    }
    assert(chars@.skip(0) =~= chars@);
    let mut rest: Vec<char> = Vec::new();
    let mut i: usize = 2;
    while i < chars.len()
        invariant
            chars@ == key@,
            2 <= i <= chars@.len(),
            rest@ == chars@.subrange(2, i as int),
            forall|k: int| 2 <= k < i ==> chars@[k] != '/',
        decreases chars@.len() - i,
    {
        if chars[i] == '/' {
            let ghost tail = key@.skip(2);
            assert(tail[i - 2] == chars@[i as int]);
            assert(tail.contains('/'));
            return None;
        }
        rest.push(chars[i]);
        i = i + 1;
        assert(rest@ =~= chars@.subrange(2, i as int));
    }
    assert(rest@ =~= chars@.skip(2));
    Some(string_of_chars(rest.as_slice()))
}

impl Catalog {
    fn empty() -> (res: Self)
        ensures
            res@ == Set::<Seq<char>>::empty(),
    {
        let res = Catalog { components: Vec::new() };
        assert(res@ =~= Set::<Seq<char>>::empty());
        res
    }

    /// The design-system subpath that replaces a banned import, if the catalog
    /// has one — e.g. `@radix-ui/react-select` → `select`.
    fn replacement_for(&self, import_source: &str) -> (res: Option<&str>)
        ensures
            match res {
                Some(c) => replacement_in(self@, import_source@) == Some(c@),
                None => replacement_in(self@, import_source@) is None,
            },
    {
        let chars = chars_of(import_source);
        let leaf = last_segment(&chars);
        let prefix = chars_of("react-");
        proof {
            reveal_strlit("react-");
        }
        let mut start: usize = 0;
        assert(leaf@.skip(0) =~= leaf@);
        while start < leaf.len() && matches_at(leaf.as_slice(), start, prefix.as_slice())
            invariant
                prefix@ == "react-"@,
                prefix@.len() > 0,
                start <= leaf@.len(),
                strip_leading(leaf@, prefix@) == strip_leading(leaf@.skip(start as int), prefix@),
            decreases leaf@.len() - start,
        {
            assert(leaf@.skip(start as int).skip(prefix@.len() as int) =~= leaf@.skip(start + prefix@.len()));
            start = start + prefix.len();
        }
        proof {
            if start == leaf@.len() {
                assert(!starts_with(leaf@.skip(start as int), prefix@));
            }
            assert(strip_leading(leaf@.skip(start as int), prefix@) == leaf@.skip(start as int));
        }
        let bare = crate::strings::string_of_range(leaf.as_slice(), start, leaf.len());
        assert(bare@ =~= leaf@.skip(start as int));
        let ghost names = string_views(self.components@);
        let mut i: usize = 0;
        while i < self.components.len()
            invariant
                names == string_views(self.components@),
                bare@ == strip_leading(after_last_slash(import_source@), "react-"@),
                i <= names.len(),
                forall|k: int| 0 <= k < i ==> #[trigger] names[k] != bare@,
            decreases names.len() - i,
        {
            if str_eq(self.components[i].as_str(), bare.as_str()) {
                assert(names[i as int] == bare@);
                assert(names.to_set().contains(names[i as int]));
                return Some(self.components[i].as_str());
            }
            i = i + 1;
        }
        assert(!names.to_set().contains(bare@)) by {
            if names.to_set().contains(bare@) {
                let k = choose|k: int| 0 <= k < names.len() && names[k] == bare@;
            }
        }
        None
    }
}

/// Collect the single-segment subpaths of the design-system package's
/// `exports` as the component catalog; `manifest` is the text of its
/// `package.json`, when one was found (under `node_modules`, else the
/// workspace package of that name). An undiscoverable or unreadable manifest
/// yields an empty catalog (the rule still fires, just with a generic
/// suggestion).
pub fn discover_catalog(manifest: Option<&str>) -> (res: Catalog)
    ensures
        res@ == catalog_of(
            match manifest {
                Some(text) => Some(text@),
                None => None,
            },
        ),
{
    let text = match manifest {
        Some(text) => text,
        None => {
            return Catalog::empty();
        },
    };
    match member_keys(text, "exports") {
        Some(keys) => catalog_from_keys(keys.as_slice()),
        None => Catalog::empty(),
    }
}

/// The catalog that a package's `exports` keys give: the single-segment
/// subpaths among them.
pub fn catalog_from_keys(keys: &[String]) -> (res: Catalog)
    ensures
        res@ == components_of(string_views(keys@)),
{
    let ghost kv = string_views(keys@);
    let mut components: Vec<String> = Vec::new();
    assert(string_views(components@) =~= Seq::<Seq<char>>::empty());
    assert(string_views(components@).to_set() =~= Set::<Seq<char>>::empty());
    let mut i: usize = 0;
    while i < keys.len()
        invariant
            kv == string_views(keys@),
            i <= kv.len(),
            strictly_sorted(string_views(components@)),
            string_views(components@).to_set() == components_of(kv.take(i as int)),
        decreases kv.len() - i,
    {
        assert(kv.take(i + 1).drop_last() =~= kv.take(i as int));
        assert(kv.take(i + 1).last() == keys@[i as int]@);
        match component_from_key(keys[i].as_str()) {
            Some(component) => insert_sorted(&mut components, component),
            None => {},
        }
        i = i + 1;
    }
    assert(kv.take(kv.len() as int) =~= kv);
    Catalog { components }
}

/// Whether `manifest` (a `package.json` text) declares the package `name`.
pub fn manifest_names(manifest: &str, name: &str) -> (res: bool)
    ensures
        res == (json_member_string(manifest@, "name"@) == Some(name@)),
{
    match member_string(manifest, "name") {
        Some(declared) => str_eq(declared.as_str(), name),
        None => false,
    }
}

/// Each component is a piece of `path`'s own text, or the platform's main
/// separator `\` standing for a root.
pub open spec fn components_within(components: Seq<Seq<char>>, path: Seq<char>) -> bool {
    forall|i: int| 0 <= i < components.len() ==> #[trigger] components[i] == "\\"@ || has_infix(path, components[i])
}

/// Lists the components of `path` (`std::path::Path::components`), each as
/// its text. How a path splits depends on the platform's path syntax; what is
/// promised is that each component is a slice of the path's text
/// (`Component::as_os_str` gives the underlying slice), except that a root
/// may be written as the platform's main separator.
#[verifier::external_body]
fn components_of_path(path: &str) -> (res: Vec<String>)
    ensures
        components_within(string_views(res@), path@),
{
    std::path::Path::new(path).components().map(|c| c.as_os_str().to_string_lossy().into_owned()).collect()
}

/// Whether a path with these components lies in the design system's own
/// source: one of them is the unscoped package name (`@acme/ui` → `ui`, the
/// workspace dir) or the package name itself.
pub open spec fn inside_design_system(components: Seq<Seq<char>>, package: Seq<char>) -> bool {
    components.contains(after_last_slash(package)) || components.contains(package)
}

fn is_inside_design_system(components: &[String], package: &str) -> (res: bool)
    ensures
        res == inside_design_system(string_views(components@), package@),
{
    let package_chars = chars_of(package);
    let dir = string_of_chars(last_segment(&package_chars).as_slice());
    let ghost cv = string_views(components@);
    let mut i: usize = 0;
    while i < components.len()
        invariant
            cv == string_views(components@),
            dir@ == after_last_slash(package@),
            i <= cv.len(),
            forall|k: int| 0 <= k < i ==> #[trigger] cv[k] != dir@ && cv[k] != package@,
        decreases cv.len() - i,
    {
        let component = components[i].as_str();
        if str_eq(component, dir.as_str()) || str_eq(component, package) {
            assert(cv[i as int] == component@);
            assert(cv.contains(cv[i as int]));
            return true;
        }
        i = i + 1;
    }
    false
}

/// The first forbidden prefix that `import_source` starts with.
pub open spec fn first_prefix(prefixes: Seq<Seq<char>>, import_source: Seq<char>) -> Option<Seq<char>>
    decreases prefixes.len(),
{
    if prefixes.len() == 0 {
        None
    } else if starts_with(import_source, prefixes[0]) {
        Some(prefixes[0])
    } else {
        first_prefix(prefixes.drop_first(), import_source)
    }
}

/// What a banned import should come from instead.
pub open spec fn suggestion_for(package: Seq<char>, catalog: Set<Seq<char>>, import_source: Seq<char>) -> Seq<char> {
    match replacement_in(catalog, import_source) {
        Some(component) => package + "/"@ + component,
        None => package,
    }
}

/// The message of a banned-import finding.
pub open spec fn banned_message(import_source: Seq<char>, prefix: Seq<char>, suggestion: Seq<char>) -> Seq<char> {
    "`"@ + import_source + "` bypasses the design system ("@ + prefix + ") — import from "@
        + suggestion + " instead"@
}

/// The banned imports among `statements`, in order: (start offset, import
/// source, the forbidden prefix it starts with).
pub open spec fn banned_imports(statements: Seq<TopLevelView>, prefixes: Seq<Seq<char>>) -> Seq<(u32, Seq<char>, Seq<char>)>
    decreases statements.len(),
{
    if statements.len() == 0 {
        Seq::empty()
    } else {
        let prev = banned_imports(statements.drop_last(), prefixes);
        let s = statements.last();
        match s.shape {
            StatementShapeView::Import(source) => match first_prefix(prefixes, source) {
                Some(prefix) => prev.push((s.start, source, prefix)),
                None => prev,
            },
            _ => prev,
        }
    }
}

/// `d` is the banned-import finding for `entry` in `display_path`, whose text
/// has the given bytes.
pub open spec fn reports_banned(
    d: Diagnostic,
    entry: (u32, Seq<char>, Seq<char>),
    bytes: Seq<u8>,
    display_path: Seq<char>,
    file_context: FileContext,
    package: Seq<char>,
    catalog: Set<Seq<char>>,
) -> bool {
    let starts = line_starts(bytes);
    let line = line_at(starts, entry.0 as int);
    &&& is_no_banned_import_meta(RuleMeta { id: d.rule, severity: d.severity, category: d.category, help: d.help })
    &&& d.message@ == banned_message(entry.1, entry.2, suggestion_for(package, catalog, entry.1))
    &&& d.file@ == display_path
    &&& d.file_context == file_context
    &&& d.line == (line + 1) as u32
    &&& d.column == (entry.0 - starts[line] + 1) as u32
    &&& d.snippet@ == Seq::<char>::empty()
}

/// Whether `source` mentions some forbidden prefix at all.
pub open spec fn mentions_prefix(prefixes: Seq<Seq<char>>, source: Seq<char>) -> bool {
    exists|k: int| 0 <= k < prefixes.len() && has_infix(source, #[trigger] prefixes[k])
}

/// The findings owed for one file whose path has the given components and
/// which is parsed as `kind`.
pub open spec fn file_findings(
    components: Seq<Seq<char>>,
    kind: SourceKind,
    source: Seq<char>,
    package: Seq<char>,
    prefixes: Seq<Seq<char>>,
) -> Seq<(u32, Seq<char>, Seq<char>)> {
    if prefixes.len() == 0 || inside_design_system(components, package) || !mentions_prefix(prefixes, source) {
        Seq::empty()
    } else {
        match statements_for(kind, source) {
            Some(statements) => banned_imports(statements, prefixes),
            None => Seq::empty(),
        }
    }
}

proof fn lemma_first_prefix_matches(prefixes: Seq<Seq<char>>, import_source: Seq<char>)
    ensures
        first_prefix(prefixes, import_source) matches Some(p) ==> prefixes.contains(p) && starts_with(import_source, p),
    decreases prefixes.len(),
{
    if prefixes.len() > 0 && !starts_with(import_source, prefixes[0]) {
        lemma_first_prefix_matches(prefixes.drop_first(), import_source);
        if let Some(p) = first_prefix(prefixes, import_source) {
            let k = choose|k: int| 0 <= k < prefixes.drop_first().len() && prefixes.drop_first()[k] == p;
            assert(prefixes[k + 1] == p);
        }
    } else if prefixes.len() > 0 {
        assert(prefixes[0] == prefixes[0]);
    }
}

proof fn lemma_banned_are_forbidden(statements: Seq<TopLevelView>, prefixes: Seq<Seq<char>>, i: int)
    requires
        0 <= i < banned_imports(statements, prefixes).len(),
    ensures
        prefixes.contains(banned_imports(statements, prefixes)[i].2),
        starts_with(banned_imports(statements, prefixes)[i].1, banned_imports(statements, prefixes)[i].2),
    decreases statements.len(),
{
    let prev = banned_imports(statements.drop_last(), prefixes);
    if i < prev.len() {
        lemma_banned_are_forbidden(statements.drop_last(), prefixes, i);
    } else {
        if let StatementShapeView::Import(source) = statements.last().shape {
            lemma_first_prefix_matches(prefixes, source);
        }
    }
}

/// Only imports that start with a configured forbidden prefix are flagged,
/// so importing from the design system itself is clean.
pub proof fn law_only_forbidden_imports_flagged(
    components: Seq<Seq<char>>,
    kind: SourceKind,
    source: Seq<char>,
    package: Seq<char>,
    prefixes: Seq<Seq<char>>,
    i: int,
)
    requires
        0 <= i < file_findings(components, kind, source, package, prefixes).len(),
    ensures
        prefixes.contains(file_findings(components, kind, source, package, prefixes)[i].2),
        starts_with(
            file_findings(components, kind, source, package, prefixes)[i].1,
            file_findings(components, kind, source, package, prefixes)[i].2,
        ),
{
    if let Some(statements) = statements_for(kind, source) {
        lemma_banned_are_forbidden(statements, prefixes, i);
    }
}

/// The design system's own source is never flagged for using the
/// primitives it wraps, and with no forbidden prefix configured no file is.
pub proof fn law_design_system_source_exempt(
    components: Seq<Seq<char>>,
    kind: SourceKind,
    source: Seq<char>,
    package: Seq<char>,
    prefixes: Seq<Seq<char>>,
)
    requires
        inside_design_system(components, package) || prefixes.len() == 0,
    ensures
        file_findings(components, kind, source, package, prefixes).len() == 0,
{
}

/// A file whose path holds neither the design-system package's name nor its
/// last segment is not the design system's own source, whichever way the
/// platform splits the path: its banned imports are reported.
pub proof fn law_paths_outside_the_package_are_checked(
    components: Seq<Seq<char>>,
    path: Seq<char>,
    kind: SourceKind,
    source: Seq<char>,
    package: Seq<char>,
    prefixes: Seq<Seq<char>>,
)
    requires
        components_within(components, path),
        !has_infix(path, package),
        !has_infix(path, after_last_slash(package)),
        package != "\\"@,
        after_last_slash(package) != "\\"@,
        prefixes.len() > 0,
        mentions_prefix(prefixes, source),
    ensures
        !inside_design_system(components, package),
        file_findings(components, kind, source, package, prefixes) == match statements_for(kind, source) {
            Some(statements) => banned_imports(statements, prefixes),
            None => Seq::empty(),
        },
{
    if components.contains(package) {
        let i = choose|i: int| 0 <= i < components.len() && components[i] == package;
    }
    if components.contains(after_last_slash(package)) {
        let i = choose|i: int| 0 <= i < components.len() && components[i] == after_last_slash(package);
    }
}

/// An import source that begins with a forbidden prefix (the whole source
/// included) always finds one: the first such prefix in order, which the
/// source begins with.
pub proof fn law_forbidden_prefix_is_found(prefixes: Seq<Seq<char>>, import_source: Seq<char>, k: int)
    requires
        0 <= k < prefixes.len(),
        prefixes[k].len() <= import_source.len(),
        import_source.take(prefixes[k].len() as int) == prefixes[k],
    ensures
        first_prefix(prefixes, import_source) matches Some(p) && prefixes.contains(p) && p.len()
            <= import_source.len() && import_source.take(p.len() as int) == p,
    decreases prefixes.len(),
{
    lemma_first_prefix_matches(prefixes, import_source);
    if !starts_with(import_source, prefixes[0]) {
        assert(k > 0);
        assert(prefixes.drop_first()[k - 1] == prefixes[k]);
        law_forbidden_prefix_is_found(prefixes.drop_first(), import_source, k - 1);
    }
}

/// Every import whose source begins with a forbidden prefix is flagged: it
/// has an entry among the banned imports, at its start offset and with its
/// source.
pub proof fn law_every_forbidden_import_flagged(
    statements: Seq<TopLevelView>,
    prefixes: Seq<Seq<char>>,
    i: int,
    k: int,
)
    requires
        0 <= i < statements.len(),
        statements[i].shape matches StatementShapeView::Import(source) && 0 <= k < prefixes.len()
            && prefixes[k].len() <= source.len() && source.take(prefixes[k].len() as int) == prefixes[k],
    ensures
        exists|n: int|
            0 <= n < banned_imports(statements, prefixes).len() && #[trigger] banned_imports(
                statements,
                prefixes,
            )[n].0 == statements[i].start && banned_imports(statements, prefixes)[n].1
                == statements[i].shape->Import_0,
    decreases statements.len(),
{
    let prev = statements.drop_last();
    if i < statements.len() - 1 {
        assert(prev[i] == statements[i]);
        law_every_forbidden_import_flagged(prev, prefixes, i, k);
        let n = choose|n: int|
            0 <= n < banned_imports(prev, prefixes).len() && #[trigger] banned_imports(prev, prefixes)[n].0
                == prev[i].start && banned_imports(prev, prefixes)[n].1 == prev[i].shape->Import_0;
        assert(banned_imports(statements, prefixes)[n] == banned_imports(prev, prefixes)[n]);
    } else {
        let source = statements[i].shape->Import_0;
        law_forbidden_prefix_is_found(prefixes, source, k);
        let n = banned_imports(prev, prefixes).len() as int;
        assert(banned_imports(statements, prefixes)[n].0 == statements[i].start);
    }
}

fn first_forbidden_prefix<'a>(prefixes: &'a Vec<String>, import_source: &str) -> (res: Option<&'a String>)
    ensures
        match res {
            Some(p) => first_prefix(string_views(prefixes@), import_source@) == Some(p@),
            None => first_prefix(string_views(prefixes@), import_source@) is None,
        },
{
    let ghost pv = string_views(prefixes@);
    let source = chars_of(import_source);
    let mut i: usize = 0;
    assert(pv.skip(0) =~= pv);
    while i < prefixes.len()
        invariant
            pv == string_views(prefixes@),
            source@ == import_source@,
            i <= pv.len(),
            first_prefix(pv, import_source@) == first_prefix(pv.skip(i as int), import_source@),
        decreases pv.len() - i,
    {
        let p = chars_of(prefixes[i].as_str());
        assert(pv.skip(i as int)[0] == pv[i as int]);
        assert(source@.skip(0) =~= source@);
        if matches_at(source.as_slice(), 0, p.as_slice()) {
            return Some(&prefixes[i]);
        }
        assert(pv.skip(i as int).drop_first() =~= pv.skip(i + 1));
        i = i + 1;
    }
    None
}

fn any_prefix_mentioned(prefixes: &Vec<String>, source: &str) -> (res: bool)
    ensures
        res == mentions_prefix(string_views(prefixes@), source@),
{
    let ghost pv = string_views(prefixes@);
    let text = chars_of(source);
    let mut i: usize = 0;
    while i < prefixes.len()
        invariant
            pv == string_views(prefixes@),
            text@ == source@,
            i <= pv.len(),
            forall|k: int| 0 <= k < i ==> !has_infix(source@, #[trigger] pv[k]),
        decreases pv.len() - i,
    {
        let p = chars_of(prefixes[i].as_str());
        if contains_chars(text.as_slice(), p.as_slice()) {
            assert(has_infix(source@, pv[i as int]));
            return true;
        }
        i = i + 1;
    }
    false
}

/// `res` is the list of findings owed for one file whose path has the given
/// components and which is parsed as `kind`: one per banned import, in order.
pub open spec fn reports_file(
    res: Seq<Diagnostic>,
    components: Seq<Seq<char>>,
    kind: SourceKind,
    display_path: Seq<char>,
    source: Seq<char>,
    bytes: Seq<u8>,
    file_context: FileContext,
    package: Seq<char>,
    prefixes: Seq<Seq<char>>,
    catalog: Set<Seq<char>>,
) -> bool {
    let owed = file_findings(components, kind, source, package, prefixes);
    &&& res.len() == owed.len()
    &&& forall|i: int|
        0 <= i < res.len() ==> reports_banned(
            #[trigger] res[i],
            owed[i],
            bytes,
            display_path,
            file_context,
            package,
            catalog,
        )
}

/// `res` reports the banned imports among `statements`, in order.
pub open spec fn reports_imports(
    res: Seq<Diagnostic>,
    statements: Seq<TopLevelView>,
    prefixes: Seq<Seq<char>>,
    bytes: Seq<u8>,
    display_path: Seq<char>,
    file_context: FileContext,
    package: Seq<char>,
    catalog: Set<Seq<char>>,
) -> bool {
    let owed = banned_imports(statements, prefixes);
    &&& res.len() == owed.len()
    &&& forall|i: int|
        0 <= i < res.len() ==> reports_banned(
            #[trigger] res[i],
            owed[i],
            bytes,
            display_path,
            file_context,
            package,
            catalog,
        )
}

/// Scan one file for imports that should route through the design system
/// instead. `path` locates the file (to exempt the design system's own
/// source), `display_path` is how findings name it and what its source kind
/// is taken from (TSX when its name gives none), and `file_context` its
/// classification. How `path` and `display_path` split into components, file
/// name and extension is the platform's; the findings are those owed for what
/// it gave: components that are pieces of `path`, and the kind that a portable
/// `display_path` naming a script file gives.
pub fn check_file(
    path: &str,
    display_path: &str,
    source: &str,
    file_context: FileContext,
    config: &DesignSystem,
    catalog: &Catalog,
) -> (res: Vec<Diagnostic>)
    ensures
        exists|components: Seq<Seq<char>>, kind: SourceKind|
            components_within(components, path@) && (script_file_kind(display_path@) matches Some(k)
                ==> kind == k) && reports_file(
                res@,
                components,
                kind,
                display_path@,
                source@,
                source.spec_bytes(),
                file_context,
                config.package@,
                string_views(config.forbid_import_prefixes@),
                catalog@,
            ),
        config.forbid_import_prefixes@.len() == 0 || !mentions_prefix(
            string_views(config.forbid_import_prefixes@),
            source@,
        ) ==> res@.len() == 0,
{
    let components = components_of_path(path);
    let kind = kind_or_tsx(source_kind_of_path(display_path));
    let res = check_file_with_components(&components, kind, display_path, source, file_context, config, catalog);
    assert(script_file_kind(display_path@) matches Some(k) ==> kind == k);
    assert(reports_file(
        res@,
        string_views(components@),
        kind,
        display_path@,
        source@,
        source.spec_bytes(),
        file_context,
        config.package@,
        string_views(config.forbid_import_prefixes@),
        catalog@,
    ));
    res
}

/// Scan one file, whose path has the components `path_components` and which
/// is parsed as `kind`, for imports that should route through the design
/// system instead. `display_path` is how findings name the file, and
/// `file_context` its classification.
pub fn check_file_with_components(
    path_components: &[String],
    kind: SourceKind,
    display_path: &str,
    source: &str,
    file_context: FileContext,
    config: &DesignSystem,
    catalog: &Catalog,
) -> (res: Vec<Diagnostic>)
    ensures
        reports_file(
            res@,
            string_views(path_components@),
            kind,
            display_path@,
            source@,
            source.spec_bytes(),
            file_context,
            config.package@,
            string_views(config.forbid_import_prefixes@),
            catalog@,
        ),
{
    // Never flag the design system's own source for using its primitives.
    if config.forbid_import_prefixes.len() == 0 || is_inside_design_system(path_components, config.package.as_str())
        || !any_prefix_mentioned(&config.forbid_import_prefixes, source) {
        return Vec::new();
    }
    match parse_source(kind, source) {
        Some(statements) => banned_import_findings(statements.as_slice(), display_path, source, file_context, config, catalog),
        None => Vec::new(),
    }
}

/// The findings for the banned imports among a file's parsed top-level
/// `statements`, in order; `source` is the file's text, `display_path` how
/// findings name it, and `file_context` its classification.
pub fn banned_import_findings(
    statements: &[TopLevel],
    display_path: &str,
    source: &str,
    file_context: FileContext,
    config: &DesignSystem,
    catalog: &Catalog,
) -> (res: Vec<Diagnostic>)
    ensures
        reports_imports(
            res@,
            top_level_views(statements@),
            string_views(config.forbid_import_prefixes@),
            source.spec_bytes(),
            display_path@,
            file_context,
            config.package@,
            catalog@,
        ),
{
    let ghost prefixes = string_views(config.forbid_import_prefixes@);
    let ghost sv = statements@.map_values(|t: crate::syntax::TopLevel| t@);
    let lines = LineIndex::new(source);
    let ghost bytes = source.spec_bytes();
    let mut findings: Vec<Diagnostic> = Vec::new();
    let mut i: usize = 0;
    while i < statements.len()
        invariant
            sv == statements@.map_values(|t: crate::syntax::TopLevel| t@),
            prefixes == string_views(config.forbid_import_prefixes@),
            lines@ == line_starts(bytes),
            bytes == source.spec_bytes(),
            i <= sv.len(),
            findings@.len() == banned_imports(sv.take(i as int), prefixes).len(),
            forall|k: int|
                0 <= k < findings@.len() ==> reports_banned(
                    #[trigger] findings@[k],
                    banned_imports(sv.take(i as int), prefixes)[k],
                    bytes,
                    display_path@,
                    file_context,
                    config.package@,
                    catalog@,
                ),
        decreases sv.len() - i,
    {
        let ghost prev = banned_imports(sv.take(i as int), prefixes);
        assert(sv.take(i + 1).drop_last() =~= sv.take(i as int));
        assert(sv.take(i + 1).last() == statements@[i as int]@);
        let statement = &statements[i];
        match &statement.shape {
            StatementShape::Import(import_source) => {
                match first_forbidden_prefix(&config.forbid_import_prefixes, import_source.as_str()) {
                    Some(prefix) => {
                        let (line, column) = lines.line_col(statement.start as usize);
                        let mut suggestion = config.package.clone();
                        match catalog.replacement_for(import_source.as_str()) {
                            Some(component) => {
                                suggestion.append("/");
                                suggestion.append(component);
                            },
                            None => {},
                        }
                        let mut message = String::from_str("`");
                        message.append(import_source.as_str());
                        message.append("` bypasses the design system (");
                        message.append(prefix.as_str());
                        message.append(") — import from ");
                        message.append(suggestion.as_str());
                        message.append(" instead");
                        let meta = no_banned_import();
                        let finding = Diagnostic::from_meta(
                            &meta,
                            message,
                            String::from_str(display_path),
                            file_context,
                            line,
                            column,
                            String::new(),
                        );
                        let ghost before = findings@;
                        findings.push(finding);
                        proof {
                            let next = banned_imports(sv.take(i + 1), prefixes);
                            assert(next == prev.push((statement@.start, import_source@, prefix@)));
                            assert forall|k: int| 0 <= k < findings@.len() implies reports_banned(
                                #[trigger] findings@[k],
                                next[k],
                                bytes,
                                display_path@,
                                file_context,
                                config.package@,
                                catalog@,
                            ) by {
                                if k < before.len() {
                                    assert(findings@[k] == before[k]);
                                    assert(next[k] == prev[k]);
                                }
                            }
                        }
                    },
                    None => {
                        assert(banned_imports(sv.take(i + 1), prefixes) == prev);
                    },
                }
            },
            _ => {
                assert(banned_imports(sv.take(i + 1), prefixes) == prev);
            },
        }
        i = i + 1;
    }
    assert(sv.take(sv.len() as int) =~= sv);
    findings
}

} // verus!
