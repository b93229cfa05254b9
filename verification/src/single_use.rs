//! Cross-file single-use-helper detection (engine `--agent` pass): "do not
//! extract single-use helpers preemptively." Using the repo-wide symbol graph,
//! flag an **exported** function/const that exactly **one** other module
//! imports — a co-location / inline candidate, unless it's a genuine reusable
//! boundary. `info` only; never scored.
use vstd::prelude::*;

use crate::diagnostics::{Category, Diagnostic, FileContext, RuleMeta, Severity};
use crate::merge::append_new;
use crate::sorted::{lemma_str_total, str_before, str_less};
use crate::strings::{holds_string, str_eq, string_views};

verus! {

/// The metadata of the single-use-helper rule.
pub open spec fn is_single_use_meta(meta: RuleMeta) -> bool {
    &&& meta.id@ == "agent-no-single-use-helper"@
    &&& meta.severity == Severity::Info
    &&& meta.category == Category::AgentHygiene
    &&& meta.help@ == "An exported helper imported by exactly one other module is usually premature extraction. Inline it at the call site or co-locate it, unless it hides a genuinely complex boundary or has a clear independent name. (opencode: \"do not extract single-use helpers preemptively\".)"@
}

fn single_use() -> (res: RuleMeta)
    ensures
        is_single_use_meta(res),
{
    RuleMeta {
        id: "agent-no-single-use-helper",
        severity: Severity::Info,
        category: Category::AgentHygiene,
        help: "An exported helper imported by exactly one other module is usually premature extraction. Inline it at the call site or co-locate it, unless it hides a genuinely complex boundary or has a clear independent name. (opencode: \"do not extract single-use helpers preemptively\".)",
    }
}

/// Catalog metadata for the cross-file single-use rule (fires from the engine
/// pass, not per-file dispatch).
pub fn metas() -> (res: Vec<RuleMeta>)
    ensures
        res@.len() == 1,
        is_single_use_meta(res@[0]),
{
    let mut metas = Vec::new();
    metas.push(single_use());
    metas
}

/// What a top-level definition is.
#[derive(Debug, Clone, Copy, PartialEq, Eq, Structural)]
pub enum SymbolKind {
    Function,
    Const,
    Class,
    Interface,
    TypeAlias,
    Enum,
    Other,
}

/// A top-level definition of a file.
#[derive(Debug, Clone)]
pub struct SymbolDef {
    pub name: String,
    pub kind: SymbolKind,
    pub exported: bool,
    pub line: u32,
    pub column: u32,
}

/// A file and its definitions.
#[derive(Debug, Clone)]
pub struct FileSymbols {
    pub path: String,
    pub defs: Vec<SymbolDef>,
}

/// `from` imports `names` from `to`.
#[derive(Debug, Clone)]
pub struct ImportEdge {
    pub from: String,
    pub to: String,
    pub names: Vec<String>,
}

/// The repo-wide symbol graph: files with their definitions, and imports.
#[derive(Debug, Clone)]
pub struct SymbolGraph {
    pub files: Vec<FileSymbols>,
    pub edges: Vec<ImportEdge>,
}

impl SymbolGraph {
    pub fn import_edges(&self) -> (res: &[ImportEdge])
        ensures
            res@ == self.edges@,
    {
        self.edges.as_slice()
    }

    pub fn files(&self) -> (res: &[FileSymbols])
        ensures
            res@ == self.files@,
    {
        self.files.as_slice()
    }
}

/// An exported definition with a single importing module.
#[derive(Debug, Clone)]
pub struct SingleUseHit {
    pub file: String,
    pub name: String,
    pub line: u32,
    pub column: u32,
    pub importer: String,
}

pub struct HitView {
    pub file: Seq<char>,
    pub name: Seq<char>,
    pub line: u32,
    pub column: u32,
    pub importer: Seq<char>,
}

impl View for SingleUseHit {
    type V = HitView;

    open spec fn view(&self) -> HitView {
        HitView {
            file: self.file@,
            name: self.name@,
            line: self.line,
            column: self.column,
            importer: self.importer@,
        }
    }
}

/// The kinds this rule looks at.
pub open spec fn is_helper_kind(kind: SymbolKind) -> bool {
    kind == SymbolKind::Function || kind == SymbolKind::Const
}

fn is_helper(kind: SymbolKind) -> (res: bool)
    ensures
        res == is_helper_kind(kind),
{
    matches!(kind, SymbolKind::Function | SymbolKind::Const)
}

/// The importing files of the edges of `edges` that import `name` from
/// `file`, in edge order (repeats included).
pub open spec fn importing_files(edges: Seq<ImportEdge>, file: Seq<char>, name: Seq<char>) -> Seq<Seq<char>>
    decreases edges.len(),
{
    if edges.len() == 0 {
        Seq::empty()
    } else {
        let prev = importing_files(edges.drop_last(), file, name);
        let e = edges.last();
        if e.to@ == file && string_views(e.names@).contains(name) {
            prev.push(e.from@)
        } else {
            prev
        }
    }
}

/// The distinct files importing `name` from `file`, in order of first import.
pub open spec fn importers(edges: Seq<ImportEdge>, file: Seq<char>, name: Seq<char>) -> Seq<Seq<char>> {
    append_new(Seq::empty(), importing_files(edges, file, name))
}

/// The hit a definition of `file` gives, if it is an exported helper imported
/// by exactly one module.
pub open spec fn hit_for(edges: Seq<ImportEdge>, file: Seq<char>, d: SymbolDef) -> Option<HitView> {
    let who = importers(edges, file, d.name@);
    if d.exported && is_helper_kind(d.kind) && who.len() == 1 {
        Some(HitView { file, name: d.name@, line: d.line, column: d.column, importer: who[0] })
    } else {
        None
    }
}

/// The hits among `defs` of `file`, in order.
pub open spec fn hits_in(edges: Seq<ImportEdge>, file: Seq<char>, defs: Seq<SymbolDef>) -> Seq<HitView>
    decreases defs.len(),
{
    if defs.len() == 0 {
        Seq::empty()
    } else {
        let prev = hits_in(edges, file, defs.drop_last());
        match hit_for(edges, file, defs.last()) {
            Some(h) => prev.push(h),
            None => prev,
        }
    }
}

/// The hits of all `files`, file by file, in order.
pub open spec fn all_hits(edges: Seq<ImportEdge>, files: Seq<FileSymbols>) -> Seq<HitView>
    decreases files.len(),
{
    if files.len() == 0 {
        Seq::empty()
    } else {
        all_hits(edges, files.drop_last()) + hits_in(edges, files.last().path@, files.last().defs@)
    }
}

/// `a` sorts before `b`: by file, then by line.
pub open spec fn hit_before(a: HitView, b: HitView) -> bool {
    str_before(a.file, b.file) || (a.file == b.file && a.line < b.line)
}

/// Where `x` goes in `sorted` so that it follows every hit not after it.
pub open spec fn insertion_point(sorted: Seq<HitView>, x: HitView) -> int
    decreases sorted.len(),
{
    if sorted.len() == 0 {
        0
    } else if hit_before(x, sorted.last()) {
        insertion_point(sorted.drop_last(), x)
    } else {
        sorted.len() as int
    }
}

/// `hits` stably sorted by (file, line): hits with equal keys keep their order.
pub open spec fn sorted_hits(hits: Seq<HitView>) -> Seq<HitView>
    decreases hits.len(),
{
    if hits.len() == 0 {
        Seq::empty()
    } else {
        let prev = sorted_hits(hits.drop_last());
        prev.insert(insertion_point(prev, hits.last()), hits.last())
    }
}

proof fn lemma_insertion_point_bounds(sorted: Seq<HitView>, x: HitView)
    ensures
        0 <= insertion_point(sorted, x) <= sorted.len(),
    decreases sorted.len(),
{
    if sorted.len() > 0 && hit_before(x, sorted.last()) {
        lemma_insertion_point_bounds(sorted.drop_last(), x);
    }
}

proof fn lemma_sorted_len(hits: Seq<HitView>)
    ensures
        sorted_hits(hits).len() == hits.len(),
    decreases hits.len(),
{
    if hits.len() > 0 {
        lemma_sorted_len(hits.drop_last());
        lemma_insertion_point_bounds(sorted_hits(hits.drop_last()), hits.last());
    }
}

/// `x` imports `name` from `file` through some edge of `edges`.
pub open spec fn imports_from(edges: Seq<ImportEdge>, file: Seq<char>, name: Seq<char>, x: Seq<char>) -> bool {
    exists|k: int|
        0 <= k < edges.len() && #[trigger] edges[k].to@ == file && edges[k].from@ == x && string_views(
            edges[k].names@,
        ).contains(name)
}

proof fn lemma_importing_files(edges: Seq<ImportEdge>, file: Seq<char>, name: Seq<char>, x: Seq<char>)
    ensures
        importing_files(edges, file, name).contains(x) == imports_from(edges, file, name, x),
    decreases edges.len(),
{
    if edges.len() > 0 {
        let prev = edges.drop_last();
        let e = edges.last();
        lemma_importing_files(prev, file, name, x);
        let before = importing_files(prev, file, name);
        if imports_from(prev, file, name, x) {
            let k = choose|k: int|
                0 <= k < prev.len() && #[trigger] prev[k].to@ == file && prev[k].from@ == x && string_views(
                    prev[k].names@,
                ).contains(name);
            assert(edges[k] == prev[k]);
        }
        if imports_from(edges, file, name, x) {
            let k = choose|k: int|
                0 <= k < edges.len() && #[trigger] edges[k].to@ == file && edges[k].from@ == x && string_views(
                    edges[k].names@,
                ).contains(name);
            if k < prev.len() {
                assert(prev[k] == edges[k]);
            }
        }
        if e.to@ == file && string_views(e.names@).contains(name) {
            let after = before.push(e.from@);
            if after.contains(x) {
                let i = choose|i: int| 0 <= i < after.len() && after[i] == x;
                if i < before.len() {
                    assert(before[i] == x);
                } else {
                    assert(edges[edges.len() - 1].from@ == x);
                }
            }
            if before.contains(x) {
                let i = choose|i: int| 0 <= i < before.len() && before[i] == x;
                assert(after[i] == x);
            }
            if e.from@ == x {
                assert(after[before.len() as int] == x);
            }
        }
    }
}

/// The importers of `name` in `file` are exactly the files that import it
/// from `file` through an edge into `file`, each listed once.
pub proof fn law_importers_are_edges_into_the_file(edges: Seq<ImportEdge>, file: Seq<char>, name: Seq<char>, x: Seq<char>)
    ensures
        importers(edges, file, name).contains(x) == imports_from(edges, file, name, x),
        importers(edges, file, name).no_duplicates(),
{
    crate::merge::laws::lemma_append_new(Seq::empty(), importing_files(edges, file, name));
    lemma_importing_files(edges, file, name, x);
}

/// An import edge into another file never changes who imports a name from
/// `file`, so it never changes the hits among `file`'s definitions.
pub proof fn law_edges_into_other_files_change_nothing(
    edges: Seq<ImportEdge>,
    edge: ImportEdge,
    file: Seq<char>,
    name: Seq<char>,
    defs: Seq<SymbolDef>,
)
    requires
        edge.to@ != file,
    ensures
        importers(edges.push(edge), file, name) == importers(edges, file, name),
        hits_in(edges.push(edge), file, defs) == hits_in(edges, file, defs),
    decreases defs.len(),
{
    assert(edges.push(edge).drop_last() =~= edges);
    if defs.len() > 0 {
        law_edges_into_other_files_change_nothing(edges, edge, file, name, defs.drop_last());
        law_edges_into_other_files_change_nothing(edges, edge, file, defs.last().name@, Seq::empty());
    }
}

/// No hit of `s` comes after a later one: `s` is in (file, line) order.
pub open spec fn in_hit_order(s: Seq<HitView>) -> bool {
    forall|i: int, j: int| 0 <= i < j < s.len() ==> !hit_before(#[trigger] s[j], #[trigger] s[i])
}

/// `hit_before` is a strict weak order: a hit before `a` is before anything
/// `a` is not after.
proof fn lemma_hit_before_weak(x: HitView, a: HitView, b: HitView)
    requires
        hit_before(x, a),
        !hit_before(b, a),
    ensures
        hit_before(x, b),
{
    lemma_str_total(x.file, a.file);
    lemma_str_total(a.file, b.file);
    lemma_str_total(x.file, b.file);
    if str_before(x.file, a.file) && str_before(a.file, b.file) {
        crate::sorted::lemma_str_transitive(x.file, a.file, b.file);
    }
}

proof fn lemma_hit_before_asymmetric(a: HitView, b: HitView)
    ensures
        !(hit_before(a, b) && hit_before(b, a)),
{
    lemma_str_total(a.file, b.file);
}

proof fn lemma_insertion_point_splits(sorted: Seq<HitView>, x: HitView)
    requires
        in_hit_order(sorted),
    ensures
        0 <= insertion_point(sorted, x) <= sorted.len(),
        forall|k: int| 0 <= k < insertion_point(sorted, x) ==> !hit_before(x, #[trigger] sorted[k]),
        forall|k: int| insertion_point(sorted, x) <= k < sorted.len() ==> hit_before(x, #[trigger] sorted[k]),
    decreases sorted.len(),
{
    lemma_insertion_point_bounds(sorted, x);
    if sorted.len() > 0 {
        let prev = sorted.drop_last();
        assert(in_hit_order(prev)) by {
            assert forall|i: int, j: int| 0 <= i < j < prev.len() implies !hit_before(#[trigger] prev[j], #[trigger] prev[i]) by {
                assert(prev[i] == sorted[i] && prev[j] == sorted[j]);
            }
        }
        if hit_before(x, sorted.last()) {
            lemma_insertion_point_splits(prev, x);
            assert forall|k: int| 0 <= k < insertion_point(sorted, x) implies !hit_before(x, #[trigger] sorted[k]) by {
                assert(sorted[k] == prev[k]);
            }
            assert forall|k: int| insertion_point(sorted, x) <= k < sorted.len() implies hit_before(x, #[trigger] sorted[k]) by {
                if k < prev.len() {
                    assert(sorted[k] == prev[k]);
                }
            }
        } else {
            let last = sorted.last();
            assert forall|k: int| 0 <= k < insertion_point(sorted, x) implies !hit_before(x, #[trigger] sorted[k]) by {
                if k < sorted.len() - 1 && hit_before(x, sorted[k]) {
                    assert(!hit_before(sorted[sorted.len() - 1], sorted[k]));
                    lemma_hit_before_weak(x, sorted[k], last);
                }
            }
        }
    }
}

/// The hits `analyze` reports come in (file, line) order, and they are
/// exactly the hits found, each as often as it was found.
pub proof fn law_hits_sorted_by_file_and_line(hits: Seq<HitView>)
    ensures
        in_hit_order(sorted_hits(hits)),
        sorted_hits(hits).to_multiset() == hits.to_multiset(),
    decreases hits.len(),
{
    broadcast use vstd::seq_lib::to_multiset_insert, vstd::seq_lib::to_multiset_build;

    if hits.len() == 0 {
        assert(sorted_hits(hits) =~= hits);
    } else {
        let prev = sorted_hits(hits.drop_last());
        let x = hits.last();
        law_hits_sorted_by_file_and_line(hits.drop_last());
        lemma_insertion_point_splits(prev, x);
        let p = insertion_point(prev, x);
        let s = prev.insert(p, x);
        assert forall|i: int, j: int| 0 <= i < j < s.len() implies !hit_before(#[trigger] s[j], #[trigger] s[i]) by {
            if j < p {
                assert(s[i] == prev[i] && s[j] == prev[j]);
            } else if j == p {
                assert(s[i] == prev[i]);
            } else if i == p {
                assert(s[j] == prev[j - 1]);
                lemma_hit_before_asymmetric(x, prev[j - 1]);
            } else if i < p {
                assert(s[i] == prev[i] && s[j] == prev[j - 1]);
            } else {
                assert(s[i] == prev[i - 1] && s[j] == prev[j - 1]);
            }
        }
        assert(hits.drop_last().push(x) =~= hits);
    }
}

/// The hits at line `line` of `file`.
pub open spec fn at_position(file: Seq<char>, line: u32) -> spec_fn(HitView) -> bool {
    |h: HitView| h.file == file && h.line == line
}

/// The sort is stable: hits at the same file and line come out in the order
/// they were found.
pub proof fn law_hits_sorted_stably(hits: Seq<HitView>, file: Seq<char>, line: u32)
    ensures
        sorted_hits(hits).filter(at_position(file, line)) == hits.filter(at_position(file, line)),
    decreases hits.len(),
{
    let f = at_position(file, line);
    if hits.len() == 0 {
        assert(sorted_hits(hits) =~= hits);
    } else {
        let rest = hits.drop_last();
        let prev = sorted_hits(rest);
        let x = hits.last();
        law_hits_sorted_stably(rest, file, line);
        law_hits_sorted_by_file_and_line(rest);
        lemma_insertion_point_splits(prev, x);
        let p = insertion_point(prev, x);
        let (head, tail) = (prev.take(p), prev.skip(p));
        assert(prev.insert(p, x) =~= head + seq![x] + tail);
        assert(prev =~= head + tail);
        Seq::filter_distributes_over_add(head + seq![x], tail, f);
        Seq::filter_distributes_over_add(head, seq![x], f);
        Seq::filter_distributes_over_add(head, tail, f);
        assert(hits =~= rest.push(x));
        rest.lemma_filter_push(x, f);
        reveal(Seq::filter);
        if f(x) {
            assert forall|k: int| 0 <= k < tail.len() implies !f(#[trigger] tail[k]) by {
                assert(tail[k] == prev[p + k]);
                assert(hit_before(x, prev[p + k]));
                lemma_str_total(x.file, tail[k].file);
            }
            assert(tail.filter(f) =~= Seq::<HitView>::empty()) by {
                tail.lemma_all_neg_filter_empty(f);
            }
            assert(seq![x].filter(f) =~= seq![x]) by {
                assert(seq![x].drop_last() =~= Seq::<HitView>::empty());
            }
        } else {
            assert(seq![x].filter(f) =~= Seq::<HitView>::empty()) by {
                let none = Seq::<HitView>::empty();
                assert(seq![x] =~= none.push(x));
                none.lemma_filter_push(x, f);
                assert(none.filter(f) =~= none);
            }
        }
    }
}

fn hit_less(a: &SingleUseHit, b: &SingleUseHit) -> (res: bool)
    ensures
        res == hit_before(a@, b@),
{
    if str_less(a.file.as_str(), b.file.as_str()) {
        true
    } else {
        str_eq(a.file.as_str(), b.file.as_str()) && a.line < b.line
    }
}

/// Inserts `hit` into the stably sorted `hits`.
fn insert_hit(hits: &mut Vec<SingleUseHit>, hit: SingleUseHit)
    ensures
        final(hits)@.map_values(|h: SingleUseHit| h@) == old(hits)@.map_values(|h: SingleUseHit| h@).insert(
            insertion_point(old(hits)@.map_values(|h: SingleUseHit| h@), hit@),
            hit@,
        ),
{
    let ghost hv = hits@.map_values(|h: SingleUseHit| h@);
    let mut pos: usize = hits.len();
    assert(hv.take(pos as int) =~= hv);
    while pos > 0 && hit_less(&hit, &hits[pos - 1])
        invariant
            hv == hits@.map_values(|h: SingleUseHit| h@),
            pos <= hv.len(),
            insertion_point(hv, hit@) == insertion_point(hv.take(pos as int), hit@),
        decreases pos,
    {
        assert(hv.take(pos as int).drop_last() =~= hv.take(pos - 1));
        pos = pos - 1;
    }
    proof {
        assert(hv.take(hv.len() as int) =~= hv);
    }
    let ghost x = hit@;
    hits.insert(pos, hit);
    assert(hits@.map_values(|h: SingleUseHit| h@) =~= hv.insert(pos as int, x));
}

/// The distinct files importing `name` from `file`, in order of first import.
fn importers_of(edges: &[ImportEdge], file: &str, name: &str) -> (res: Vec<String>)
    ensures
        string_views(res@) == importers(edges@, file@, name@),
{
    let mut who: Vec<String> = Vec::new();
    assert(string_views(who@) =~= Seq::<Seq<char>>::empty());
    let mut k: usize = 0;
    while k < edges.len()
        invariant
            k <= edges@.len(),
            string_views(who@) == append_new(Seq::empty(), importing_files(edges@.take(k as int), file@, name@)),
        decreases edges@.len() - k,
    {
        let edge = &edges[k];
        assert(edges@.take(k + 1).drop_last() =~= edges@.take(k as int));
        assert(edges@.take(k + 1).last() == *edge);
        let ghost prev = importing_files(edges@.take(k as int), file@, name@);
        if str_eq(edge.to.as_str(), file) && holds_string(&edge.names, name) {
            assert(importing_files(edges@.take(k + 1), file@, name@) == prev.push(edge.from@));
            assert(prev.push(edge.from@).drop_last() =~= prev);
            if !holds_string(&who, edge.from.as_str()) {
                let ghost before = string_views(who@);
                who.push(edge.from.clone());
                assert(string_views(who@) =~= before.push(edge.from@));
            }
        }
        k = k + 1;
    }
    assert(edges@.take(edges@.len() as int) =~= edges@);
    who
}

/// Find exported function/const definitions imported by exactly one other
/// file, sorted by (file, line).
pub fn analyze(graph: &SymbolGraph) -> (res: Vec<SingleUseHit>)
    ensures
        res@.map_values(|h: SingleUseHit| h@) == sorted_hits(all_hits(graph.edges@, graph.files@)),
{
    let edges = graph.import_edges();
    let files = graph.files();
    let mut hits: Vec<SingleUseHit> = Vec::new();
    assert(hits@.map_values(|h: SingleUseHit| h@) =~= Seq::<HitView>::empty());
    let mut f: usize = 0;
    while f < files.len()
        invariant
            edges@ == graph.edges@,
            files@ == graph.files@,
            f <= files@.len(),
            hits@.map_values(|h: SingleUseHit| h@) == sorted_hits(all_hits(edges@, files@.take(f as int))),
        decreases files@.len() - f,
    {
        let file = &files[f];
        let ghost done = all_hits(edges@, files@.take(f as int));
        assert(files@.take(f + 1).drop_last() =~= files@.take(f as int));
        assert(files@.take(f + 1).last() == *file);
        let mut d: usize = 0;
        while d < file.defs.len()
            invariant
                edges@ == graph.edges@,
                d <= file.defs@.len(),
                hits@.map_values(|h: SingleUseHit| h@) == sorted_hits(done + hits_in(edges@, file.path@, file.defs@.take(d as int))),
            decreases file.defs@.len() - d,
        {
            let def = &file.defs[d];
            let ghost so_far = done + hits_in(edges@, file.path@, file.defs@.take(d as int));
            assert(file.defs@.take(d + 1).drop_last() =~= file.defs@.take(d as int));
            assert(file.defs@.take(d + 1).last() == *def);
            if def.exported && is_helper(def.kind) {
                let who = importers_of(edges, file.path.as_str(), def.name.as_str());
                if who.len() == 1 {
                    let hit = SingleUseHit {
                        file: file.path.clone(),
                        name: def.name.clone(),
                        line: def.line,
                        column: def.column,
                        importer: who[0].clone(),
                    };
                    assert(hit_for(edges@, file.path@, *def) == Some(hit@));
                    let ghost next = so_far.push(hit@);
                    assert(done + hits_in(edges@, file.path@, file.defs@.take(d + 1)) =~= next);
                    assert(next.drop_last() =~= so_far);
                    insert_hit(&mut hits, hit);
                } else {
                    assert(done + hits_in(edges@, file.path@, file.defs@.take(d + 1)) =~= so_far);
                }
            } else {
                assert(done + hits_in(edges@, file.path@, file.defs@.take(d + 1)) =~= so_far);
            }
            d = d + 1;
        }
        assert(file.defs@.take(file.defs@.len() as int) =~= file.defs@);
        assert(all_hits(edges@, files@.take(f + 1)) == done + hits_in(edges@, file.path@, file.defs@));
        f = f + 1;
    }
    assert(files@.take(files@.len() as int) =~= files@);
    hits
}

/// The message of a single-use finding.
pub open spec fn single_use_message(name: Seq<char>, importer: Seq<char>) -> Seq<char> {
    "`"@ + name + "` is exported but imported by only one module ("@ + importer
        + ") — inline or co-locate it unless it's a real reusable boundary"@
}

/// Build a [`Diagnostic`] for a hit; `snippet` is the source line of the
/// definition (the engine reads it, since the graph doesn't retain source),
/// and `is_test` whether the hit's file is a test file.
pub fn to_diagnostic(hit: &SingleUseHit, snippet: String, is_test: bool) -> (res: Diagnostic)
    ensures
        is_single_use_meta(RuleMeta { id: res.rule, severity: res.severity, category: res.category, help: res.help }),
        res.message@ == single_use_message(hit.name@, hit.importer@),
        res.file@ == hit.file@,
        res.file_context == if is_test {
            FileContext::Test
        } else {
            FileContext::Production
        },
        res.line == hit.line,
        res.column == hit.column,
        res.snippet == snippet,
{
    let file_context = match is_test {
        true => FileContext::Test,
        false => FileContext::Production,
    };
    let mut message = String::from_str("`");
    message.append(hit.name.as_str());
    message.append("` is exported but imported by only one module (");
    message.append(hit.importer.as_str());
    message.append(") — inline or co-locate it unless it's a real reusable boundary");
    let meta = single_use();
    Diagnostic::from_meta(&meta, message, hit.file.clone(), file_context, hit.line, hit.column, snippet)
}

} // verus!
