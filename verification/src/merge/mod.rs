//! Semantic (AST-level) 3-way merge for TypeScript.
//!
//! Files are decomposed into top-level *items* — named declarations
//! (function/class/const/…) keyed by name, and non-declaration chunks (imports,
//! statements) keyed by their normalised text. A standard 3-way merge then runs
//! per item, so two agents adding *different* functions to the same file merge
//! with **zero conflict**, and a pure reordering is not a conflict either. Only
//! edits to the *same* declaration conflict, and they're reported with
//! semantic context.
//!
//! When any side fails to parse, we fall back to a coarse but *safe*
//! whole-file 3-way that never fabricates a merge.
pub mod items;
pub mod laws;

use vstd::prelude::*;

use crate::strings::string_views;
use crate::sorted::{insert_sorted, lists_in_order, strictly_sorted};
use crate::strings::{matches_at, str_eq, starts_with};
use items::{
    item_for_key, item_views, join, normalize, normalized, parse_items, parsed_items, Item,
    ItemView,
};

verus! {

/// A single unresolved conflict.
#[derive(Debug, Clone, PartialEq, Eq)]
pub struct Conflict {
    /// The item key (`decl:<name>` or `other:<text>`).
    pub key: String,
    /// Human-readable description of what collided.
    pub description: String,
}

/// The outcome of a merge.
#[derive(Debug, Clone, PartialEq, Eq)]
pub struct MergeResult {
    /// The merged source. Conflicted items carry git-style markers.
    pub merged: String,
    /// Conflicts found (empty ⇒ clean merge).
    pub conflicts: Vec<Conflict>,
    /// Top-level declaration names whose resolution differs from base — the
    /// delta to feed impact-based test selection.
    pub changed_symbols: Vec<String>,
    /// Whether the coarse whole-file fallback was used (parse failure).
    pub fell_back: bool,
}

pub struct ConflictView {
    pub key: Seq<char>,
    pub description: Seq<char>,
}

impl View for Conflict {
    type V = ConflictView;

    open spec fn view(&self) -> ConflictView {
        ConflictView { key: self.key@, description: self.description@ }
    }
}

pub struct MergeView {
    pub merged: Seq<char>,
    pub conflicts: Seq<ConflictView>,
    pub changed_symbols: Seq<Seq<char>>,
    pub fell_back: bool,
}

impl View for MergeResult {
    type V = MergeView;

    open spec fn view(&self) -> MergeView {
        MergeView {
            merged: self.merged@,
            conflicts: self.conflicts@.map_values(|c: Conflict| c@),
            changed_symbols: string_views(self.changed_symbols@),
            fell_back: self.fell_back,
        }
    }
}

impl MergeResult {
    pub fn is_clean(&self) -> (res: bool)
        ensures
            res == (self@.conflicts.len() == 0),
    {
        self.conflicts.len() == 0
    }
}

/// One item's merge decision.
enum Resolved {
    Take(String),
    Remove,
    Conflict { ours: Option<String>, theirs: Option<String> },
}

pub enum ResolvedView {
    Take(Seq<char>),
    Remove,
    Conflict(Option<Seq<char>>, Option<Seq<char>>),
}

impl View for Resolved {
    type V = ResolvedView;

    closed spec fn view(&self) -> ResolvedView {
        match self {
            Resolved::Take(text) => ResolvedView::Take(text@),
            Resolved::Remove => ResolvedView::Remove,
            Resolved::Conflict { ours, theirs } => ResolvedView::Conflict(
                crate::syntax::opt_view(*ours),
                crate::syntax::opt_view(*theirs),
            ),
        }
    }
}

/// The raw text of an item, if present.
pub open spec fn raw_of(item: Option<ItemView>) -> Option<Seq<char>> {
    match item {
        Some(i) => Some(i.raw),
        None => None,
    }
}

/// Resolve one item across the three sides: the decision, and whether it
/// differs from base (a "change" worth reporting as a changed symbol). Two
/// versions of an item are the same when their normalised texts are.
pub open spec fn resolution(
    base: Option<ItemView>,
    ours: Option<ItemView>,
    theirs: Option<ItemView>,
) -> (ResolvedView, bool) {
    match (base, ours, theirs) {
        (Some(b), Some(o), Some(t)) => if o.norm == t.norm {
            (ResolvedView::Take(o.raw), o.norm != b.norm)
        } else if o.norm == b.norm {
            (ResolvedView::Take(t.raw), true)
        } else if t.norm == b.norm {
            (ResolvedView::Take(o.raw), true)
        } else {
            (ResolvedView::Conflict(Some(o.raw), Some(t.raw)), true)
        },
        (Some(b), Some(o), None) => if o.norm == b.norm {
            (ResolvedView::Remove, true)
        } else {
            (ResolvedView::Conflict(Some(o.raw), None), true)
        },
        (Some(b), None, Some(t)) => if t.norm == b.norm {
            (ResolvedView::Remove, true)
        } else {
            (ResolvedView::Conflict(None, Some(t.raw)), true)
        },
        (Some(_), None, None) => (ResolvedView::Remove, true),
        (None, Some(o), Some(t)) => if o.norm == t.norm {
            (ResolvedView::Take(o.raw), true)
        } else {
            (ResolvedView::Conflict(Some(o.raw), Some(t.raw)), true)
        },
        (None, Some(o), None) => (ResolvedView::Take(o.raw), true),
        (None, None, Some(t)) => (ResolvedView::Take(t.raw), true),
        (None, None, None) => (ResolvedView::Remove, false),
    }
}

/// The declaration name of a `decl:<name>` key.
pub open spec fn key_decl_name(key: Seq<char>) -> Option<Seq<char>> {
    if starts_with(key, "decl:"@) {
        Some(key.skip("decl:"@.len() as int))
    } else {
        None
    }
}

/// `text`, or nothing.
pub open spec fn or_empty(text: Option<Seq<char>>) -> Seq<char> {
    match text {
        Some(t) => t,
        None => Seq::empty(),
    }
}

/// The git-style conflict block for one item.
pub open spec fn conflict_block_text(ours: Option<Seq<char>>, theirs: Option<Seq<char>>) -> Seq<char> {
    "<<<<<<< ours\n"@ + or_empty(ours) + "\n=======\n"@ + or_empty(theirs) + "\n>>>>>>> theirs"@
}

/// What a conflict on `key` says collided.
pub open spec fn conflict_text(key: Seq<char>, ours: bool, theirs: bool) -> Seq<char> {
    let what = match key_decl_name(key) {
        Some(name) => "declaration `"@ + name + "`"@,
        None => "a top-level item"@,
    };
    if ours && theirs {
        "both sides changed "@ + what
    } else if ours {
        "ours changed "@ + what + " but theirs deleted it"@
    } else if theirs {
        "theirs changed "@ + what + " but ours deleted it"@
    } else {
        "conflicting change to "@ + what
    }
}

/// `acc` followed by the elements of `more` it does not already hold, each
/// once, in order of first occurrence.
pub open spec fn append_new(acc: Seq<Seq<char>>, more: Seq<Seq<char>>) -> Seq<Seq<char>>
    decreases more.len(),
{
    if more.len() == 0 {
        acc
    } else {
        let r = append_new(acc, more.drop_last());
        if r.contains(more.last()) {
            r
        } else {
            r.push(more.last())
        }
    }
}

/// The keys of a list of items.
pub open spec fn keys_of(items: Seq<ItemView>) -> Seq<Seq<char>> {
    items.map_values(|i: ItemView| i.key)
}

/// The deterministic key order: base order, then ours-only keys, then
/// theirs-only keys.
pub open spec fn key_order(base: Seq<ItemView>, ours: Seq<ItemView>, theirs: Seq<ItemView>) -> Seq<Seq<char>> {
    append_new(append_new(append_new(Seq::empty(), keys_of(base)), keys_of(ours)), keys_of(theirs))
}

/// What the merge has produced after resolving some keys in order.
pub struct Progress {
    pub blocks: Seq<Seq<char>>,
    pub conflicts: Seq<ConflictView>,
    pub changed: Set<Seq<char>>,
}

/// The merge's output after resolving `keys`, in order.
pub open spec fn merge_progress(
    base: Seq<ItemView>,
    ours: Seq<ItemView>,
    theirs: Seq<ItemView>,
    keys: Seq<Seq<char>>,
) -> Progress
    decreases keys.len(),
{
    if keys.len() == 0 {
        Progress { blocks: Seq::empty(), conflicts: Seq::empty(), changed: Set::empty() }
    } else {
        let prev = merge_progress(base, ours, theirs, keys.drop_last());
        let key = keys.last();
        let (decision, did_change) = resolution(
            item_for_key(base, key),
            item_for_key(ours, key),
            item_for_key(theirs, key),
        );
        let changed = if did_change && key_decl_name(key) is Some {
            prev.changed.insert(key_decl_name(key)->0)
        } else {
            prev.changed
        };
        match decision {
            ResolvedView::Take(text) => Progress {
                blocks: prev.blocks.push(text),
                conflicts: prev.conflicts,
                changed,
            },
            ResolvedView::Remove => Progress {
                blocks: prev.blocks,
                conflicts: prev.conflicts,
                changed,
            },
            ResolvedView::Conflict(o, t) => Progress {
                blocks: prev.blocks.push(conflict_block_text(o, t)),
                conflicts: prev.conflicts.push(
                    ConflictView { key, description: conflict_text(key, o is Some, t is Some) },
                ),
                changed,
            },
        }
    }
}

/// The merged text: the blocks separated by blank lines, newline-terminated
/// unless that leaves it empty.
pub open spec fn merged_text(blocks: Seq<Seq<char>>) -> Seq<char> {
    let joined = join(blocks, "\n\n"@);
    if joined.len() == 0 {
        joined
    } else {
        joined.push('\n')
    }
}

/// The outcome of the per-item merge of three parsed sides.
pub open spec fn structural_outcome(
    res: MergeView,
    base: Seq<ItemView>,
    ours: Seq<ItemView>,
    theirs: Seq<ItemView>,
) -> bool {
    let progress = merge_progress(base, ours, theirs, key_order(base, ours, theirs));
    &&& res.merged == merged_text(progress.blocks)
    &&& res.conflicts == progress.conflicts
    &&& lists_in_order(res.changed_symbols, progress.changed)
    &&& !res.fell_back
}

/// The outcome of the whole-file fallback.
pub open spec fn fallback_outcome(res: MergeView, base: Seq<char>, ours: Seq<char>, theirs: Seq<char>) -> bool {
    let (nb, no, nt) = (normalized(base), normalized(ours), normalized(theirs));
    &&& res.fell_back
    &&& res.changed_symbols.len() == 0
    &&& if no == nt || nt == nb {
        res.merged == ours && res.conflicts.len() == 0
    } else if no == nb {
        res.merged == theirs && res.conflicts.len() == 0
    } else {
        &&& res.merged == conflict_block_text(Some(ours), Some(theirs))
        &&& res.conflicts == seq![
            ConflictView {
                key: "<file>"@,
                description: "unparseable file changed on both sides"@,
            },
        ]
    }
}

/// The outcome of a 3-way merge of `ours` and `theirs` against `base`.
pub open spec fn merge_outcome(res: MergeView, base: Seq<char>, ours: Seq<char>, theirs: Seq<char>) -> bool {
    match (parsed_items(base), parsed_items(ours), parsed_items(theirs)) {
        (Some(b), Some(o), Some(t)) => structural_outcome(res, b, o, t),
        _ => fallback_outcome(res, base, ours, theirs),
    }
}

/// 3-way merge of `ours` and `theirs` against their common `base`.
pub fn merge(base: &str, ours: &str, theirs: &str) -> (res: MergeResult)
    ensures
        merge_outcome(res@, base@, ours@, theirs@),
{
    let parsed_base = parse_items(base);
    let parsed_ours = parse_items(ours);
    let parsed_theirs = parse_items(theirs);
    match (parsed_base, parsed_ours, parsed_theirs) {
        (Some(base_items), Some(ours_items), Some(theirs_items)) => structural_merge(
            base_items.as_slice(),
            ours_items.as_slice(),
            theirs_items.as_slice(),
        ),
        _ => fallback_merge(base, ours, theirs),
    }
}

/// Appends to `order` the keys of `items` it does not hold yet.
fn append_new_keys(order: &mut Vec<String>, items: &[Item])
    ensures
        string_views(final(order)@) == append_new(string_views(old(order)@), keys_of(item_views(items@))),
{
    let ghost start = string_views(order@);
    let ghost keys = keys_of(item_views(items@));
    let mut i: usize = 0;
    while i < items.len()
        invariant
            keys == keys_of(item_views(items@)),
            i <= items@.len(),
            string_views(order@) == append_new(start, keys.take(i as int)),
        decreases items@.len() - i,
    {
        let ghost before = string_views(order@);
        assert(keys.take(i + 1).drop_last() =~= keys.take(i as int));
        assert(keys.take(i + 1).last() == items@[i as int]@.key);
        if !crate::strings::holds_string(order, items[i].key.as_str()) {
            order.push(items[i].key.clone());
            assert(string_views(order@) =~= before.push(items@[i as int]@.key));
        }
        i = i + 1;
    }
    assert(keys.take(items@.len() as int) =~= keys);
}

/// Whether `key` starts with `decl:`; the name after it.
fn decl_name(key: &str) -> (res: Option<String>)
    ensures
        crate::syntax::opt_view(res) == key_decl_name(key@),
{
    let chars = crate::strings::chars_of(key);
    let prefix = crate::strings::chars_of("decl:");
    if matches_at(chars.as_slice(), 0, prefix.as_slice()) {
        assert(chars@.skip(0) =~= chars@);
        let mut name = String::new();
        let mut i: usize = prefix.len();
        while i < chars.len()
            invariant
                prefix@.len() <= i <= chars@.len(),
                name@ == chars@.subrange(prefix@.len() as int, i as int),
            decreases chars@.len() - i,
        {
            crate::strings::push_char(&mut name, chars[i]);
            i = i + 1;
            assert(name@ =~= chars@.subrange(prefix@.len() as int, i as int));
        }
        assert(name@ =~= key@.skip("decl:"@.len() as int));
        Some(name)
    } else {
        assert(chars@.skip(0) =~= chars@);
        None
    }
}

fn conflict(ours: Option<&Item>, theirs: Option<&Item>) -> (res: Resolved)
    ensures
        res@ == ResolvedView::Conflict(
            match ours {
                Some(i) => Some(i@.raw),
                None => None,
            },
            match theirs {
                Some(i) => Some(i@.raw),
                None => None,
            },
        ),
{
    Resolved::Conflict {
        ours: match ours {
            Some(item) => Some(item.raw.clone()),
            None => None,
        },
        theirs: match theirs {
            Some(item) => Some(item.raw.clone()),
            None => None,
        },
    }
}

fn same(a: &Item, b: &Item) -> (res: bool)
    ensures
        res == (a@.norm == b@.norm),
{
    str_eq(a.norm.as_str(), b.norm.as_str())
}

/// Resolve one item across the three sides.
fn resolve(base: Option<&Item>, ours: Option<&Item>, theirs: Option<&Item>) -> (res: (Resolved, bool))
    ensures
        (res.0@, res.1) == resolution(
            match base {
                Some(i) => Some(i@),
                None => None,
            },
            match ours {
                Some(i) => Some(i@),
                None => None,
            },
            match theirs {
                Some(i) => Some(i@),
                None => None,
            },
        ),
{
    match (base, ours, theirs) {
        (Some(b), Some(o), Some(t)) => {
            if same(o, t) {
                (Resolved::Take(o.raw.clone()), !same(o, b))
            } else if same(o, b) {
                (Resolved::Take(t.raw.clone()), true)
            } else if same(t, b) {
                (Resolved::Take(o.raw.clone()), true)
            } else {
                (conflict(Some(o), Some(t)), true)
            }
        },
        (Some(b), Some(o), None) => {
            if same(o, b) {
                (Resolved::Remove, true)
            } else {
                (conflict(Some(o), None), true)
            }
        },
        (Some(b), None, Some(t)) => {
            if same(t, b) {
                (Resolved::Remove, true)
            } else {
                (conflict(None, Some(t)), true)
            }
        },
        (Some(_), None, None) => (Resolved::Remove, true),
        (None, Some(o), Some(t)) => {
            if same(o, t) {
                (Resolved::Take(o.raw.clone()), true)
            } else {
                (conflict(Some(o), Some(t)), true)
            }
        },
        (None, Some(o), None) => (Resolved::Take(o.raw.clone()), true),
        (None, None, Some(t)) => (Resolved::Take(t.raw.clone()), true),
        (None, None, None) => (Resolved::Remove, false),
    }
}

fn conflict_block(ours: &Option<String>, theirs: &Option<String>) -> (res: String)
    ensures
        res@ == conflict_block_text(crate::syntax::opt_view(*ours), crate::syntax::opt_view(*theirs)),
{
    let mut out = String::from_str("<<<<<<< ours\n");
    match ours {
        Some(text) => out.append(text.as_str()),
        None => {},
    }
    out.append("\n=======\n");
    match theirs {
        Some(text) => out.append(text.as_str()),
        None => {},
    }
    out.append("\n>>>>>>> theirs");
    proof {
        assert(out@ =~= conflict_block_text(
            crate::syntax::opt_view(*ours),
            crate::syntax::opt_view(*theirs),
        ));
    }
    out
}

fn conflict_description(key: &str, ours: &Option<String>, theirs: &Option<String>) -> (res: String)
    ensures
        res@ == conflict_text(key@, ours is Some, theirs is Some),
{
    let what = match decl_name(key) {
        Some(name) => {
            let mut what = String::from_str("declaration `");
            what.append(name.as_str());
            what.append("`");
            what
        },
        None => String::from_str("a top-level item"),
    };
    let res = match (ours.is_some(), theirs.is_some()) {
        (true, true) => String::from_str("both sides changed ").concat(what.as_str()),
        (true, false) => String::from_str("ours changed ").concat(what.as_str()).concat(
            " but theirs deleted it",
        ),
        (false, true) => String::from_str("theirs changed ").concat(what.as_str()).concat(
            " but ours deleted it",
        ),
        (false, false) => String::from_str("conflicting change to ").concat(what.as_str()),
    };
    res
}

/// The parts of `parts` with `sep` between consecutive ones.
pub fn join_with(parts: &Vec<String>, sep: &str) -> (res: String)
    ensures
        res@ == join(string_views(parts@), sep@),
{
    let ghost pv = string_views(parts@);
    let mut out = String::new();
    let mut i: usize = 0;
    while i < parts.len()
        invariant
            pv == string_views(parts@),
            i <= parts@.len(),
            out@ == join(pv.take(i as int), sep@),
        decreases parts@.len() - i,
    {
        assert(pv.take(i + 1).drop_last() =~= pv.take(i as int));
        if i > 0 {
            out.append(sep);
        }
        out.append(parts[i].as_str());
        i = i + 1;
    }
    assert(pv.take(parts@.len() as int) =~= pv);
    out
}

pub fn structural_merge(base: &[Item], ours: &[Item], theirs: &[Item]) -> (res: MergeResult)
    ensures
        structural_outcome(res@, item_views(base@), item_views(ours@), item_views(theirs@)),
{
    let ghost (bv, ov, tv) = (item_views(base@), item_views(ours@), item_views(theirs@));
    let base_map = Item::index(base);
    let ours_map = Item::index(ours);
    let theirs_map = Item::index(theirs);

    // Deterministic key order: base order, then ours-only adds, then theirs-only.
    let mut order: Vec<String> = Vec::new();
    assert(string_views(order@) =~= Seq::<Seq<char>>::empty());
    append_new_keys(&mut order, base);
    append_new_keys(&mut order, ours);
    append_new_keys(&mut order, theirs);
    let ghost keys = string_views(order@);
    assert(keys == key_order(bv, ov, tv));

    let mut blocks: Vec<String> = Vec::new();
    let mut conflicts: Vec<Conflict> = Vec::new();
    let mut changed: Vec<String> = Vec::new();
    assert(string_views(blocks@) =~= Seq::<Seq<char>>::empty());
    assert(conflicts@.map_values(|c: Conflict| c@) =~= Seq::<ConflictView>::empty());
    assert(string_views(changed@) =~= Seq::<Seq<char>>::empty());
    assert(string_views(changed@).to_set() =~= Set::<Seq<char>>::empty());

    let mut i: usize = 0;
    while i < order.len()
        invariant
            keys == string_views(order@),
            base_map.items@ == base@,
            ours_map.items@ == ours@,
            theirs_map.items@ == theirs@,
            bv == item_views(base@),
            ov == item_views(ours@),
            tv == item_views(theirs@),
            i <= order@.len(),
            string_views(blocks@) == merge_progress(bv, ov, tv, keys.take(i as int)).blocks,
            conflicts@.map_values(|c: Conflict| c@) == merge_progress(bv, ov, tv, keys.take(i as int)).conflicts,
            strictly_sorted(string_views(changed@)),
            string_views(changed@).to_set() == merge_progress(bv, ov, tv, keys.take(i as int)).changed,
        decreases order@.len() - i,
    {
        let key = order[i].as_str();
        let ghost prefix = keys.take(i + 1);
        assert(prefix.drop_last() =~= keys.take(i as int));
        assert(prefix.last() == key@);
        let base_item = base_map.get(key);
        let ours_item = ours_map.get(key);
        let theirs_item = theirs_map.get(key);
        let (resolved, did_change) = resolve(base_item, ours_item, theirs_item);
        if did_change {
            match decl_name(key) {
                Some(name) => insert_sorted(&mut changed, name),
                None => {},
            }
        }
        let ghost prev_blocks = string_views(blocks@);
        let ghost prev_conflicts = conflicts@.map_values(|c: Conflict| c@);
        match resolved {
            Resolved::Take(text) => {
                blocks.push(text);
                assert(string_views(blocks@) =~= prev_blocks.push(text@));
            },
            Resolved::Remove => {},
            Resolved::Conflict { ours, theirs } => {
                let description = conflict_description(key, &ours, &theirs);
                let c = Conflict { key: order[i].clone(), description };
                conflicts.push(c);
                assert(conflicts@.map_values(|c: Conflict| c@) =~= prev_conflicts.push(c@));
                let block = conflict_block(&ours, &theirs);
                blocks.push(block);
                assert(string_views(blocks@) =~= prev_blocks.push(block@));
            },
        }
        i = i + 1;
    }
    assert(keys.take(order@.len() as int) =~= keys);

    let mut merged = join_with(&blocks, "\n\n");
    proof {
        reveal_strlit("");
        if merged@.len() == 0 {
            assert(merged@ =~= ""@);
        }
    }
    if !str_eq(merged.as_str(), "") {
        crate::strings::push_char(&mut merged, '\n');
    }
    MergeResult { merged, conflicts, changed_symbols: changed, fell_back: false }
}

/// Coarse, safe fallback: never fabricate a merge. Resolve only the trivial
/// cases; otherwise emit a single whole-file conflict block.
fn fallback_merge(base: &str, ours: &str, theirs: &str) -> (res: MergeResult)
    ensures
        fallback_outcome(res@, base@, ours@, theirs@),
{
    let nb = normalize(base);
    let no = normalize(ours);
    let nt = normalize(theirs);
    let trivial = if str_eq(no.as_str(), nt.as_str()) {
        Some(String::from_str(ours))
    } else if str_eq(no.as_str(), nb.as_str()) {
        Some(String::from_str(theirs))
    } else if str_eq(nt.as_str(), nb.as_str()) {
        Some(String::from_str(ours))
    } else {
        None
    };
    match trivial {
        Some(merged) => {
            let res = MergeResult {
                merged,
                conflicts: Vec::new(),
                changed_symbols: Vec::new(),
                fell_back: true,
            };
            assert(res@.changed_symbols =~= Seq::<Seq<char>>::empty());
            res
        },
        None => {
            let merged = conflict_block(
                &Some(String::from_str(ours)),
                &Some(String::from_str(theirs)),
            );
            let c = Conflict {
                key: String::from_str("<file>"),
                description: String::from_str("unparseable file changed on both sides"),
            };
            let mut conflicts = Vec::new();
            conflicts.push(c);
            let res = MergeResult { merged, conflicts, changed_symbols: Vec::new(), fell_back: true };
            assert(res@.changed_symbols =~= Seq::<Seq<char>>::empty());
            assert(res@.conflicts =~= seq![c@]);
            res
        },
    }
}

} // verus!
