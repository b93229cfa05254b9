//! Decompose a TypeScript source into keyed top-level items for merging.
use vstd::prelude::*;

use crate::strings::{chars_of, is_whitespace, is_ws, push_char};
use crate::syntax::{
    parse_source, statements_for, top_level_views, DeclShape, DeclShapeView, SourceKind,
    StatementShape, StatementShapeView, TopLevel, TopLevelView,
};

verus! {

/// One top-level item: a named declaration or a non-declaration chunk.
#[derive(Debug, Clone)]
pub struct Item {
    /// `decl:<name>` for named declarations; `other:<normalised text>` else.
    pub key: String,
    /// Exact source text (used for output).
    pub raw: String,
    /// Whitespace-normalised text (used for equality, so reformatting and
    /// reindentation don't read as content changes).
    pub norm: String,
}

pub struct ItemView {
    pub key: Seq<char>,
    pub raw: Seq<char>,
    pub norm: Seq<char>,
}

impl View for Item {
    type V = ItemView;

    open spec fn view(&self) -> ItemView {
        ItemView { key: self.key@, raw: self.raw@, norm: self.norm@ }
    }
}

/// The views of a list of items.
pub open spec fn item_views(v: Seq<Item>) -> Seq<ItemView> {
    v.map_values(|i: Item| i@)
}

/// The maximal runs of non-whitespace characters of `s`, in order.
pub open spec fn words(s: Seq<char>) -> Seq<Seq<char>>
    decreases s.len(),
{
    if s.len() == 0 {
        Seq::empty()
    } else {
        let w = words(s.drop_last());
        let c = s.last();
        if is_ws(c) {
            w
        } else if s.len() >= 2 && !is_ws(s[s.len() - 2]) {
            w.drop_last().push(w.last().push(c))
        } else {
            w.push(seq![c])
        }
    }
}

/// The elements of `parts` with `sep` between consecutive ones.
pub open spec fn join(parts: Seq<Seq<char>>, sep: Seq<char>) -> Seq<char>
    decreases parts.len(),
{
    if parts.len() == 0 {
        Seq::empty()
    } else if parts.len() == 1 {
        parts[0]
    } else {
        join(parts.drop_last(), sep) + sep + parts.last()
    }
}

/// `s` with its whitespace runs collapsed to single spaces and trimmed.
pub open spec fn normalized(s: Seq<char>) -> Seq<char> {
    join(words(s), seq![' '])
}

proof fn lemma_words_nonempty(s: Seq<char>)
    requires
        s.len() > 0,
        !is_ws(s.last()),
    ensures
        words(s).len() > 0,
{
}

proof fn lemma_join_extend_last(parts: Seq<Seq<char>>, sep: Seq<char>, c: char)
    requires
        parts.len() > 0,
    ensures
        join(parts.drop_last().push(parts.last().push(c)), sep) == join(parts, sep).push(c),
{
    let q = parts.drop_last().push(parts.last().push(c));
    assert(q.drop_last() =~= parts.drop_last());
    if parts.len() > 1 {
        assert(join(q, sep) == join(parts.drop_last(), sep) + sep + parts.last().push(c));
        assert(join(q, sep) =~= join(parts, sep).push(c));
    }
}

proof fn lemma_join_push(parts: Seq<Seq<char>>, sep: Seq<char>, x: Seq<char>)
    ensures
        join(parts.push(x), sep) == if parts.len() == 0 {
            x
        } else {
            join(parts, sep) + sep + x
        },
{
    assert(parts.push(x).drop_last() =~= parts);
}

/// Collapse all whitespace runs to single spaces and trim — the canonical form
/// for comparing two pieces of source ignoring layout.
pub fn normalize(source: &str) -> (res: String)
    ensures
        res@ == normalized(source@),
{
    let chars = chars_of(source);
    let mut out = String::new();
    let mut any_word = false;
    let mut i: usize = 0;
    while i < chars.len()
        invariant
            chars@ == source@,
            i <= chars@.len(),
            out@ == normalized(chars@.take(i as int)),
            any_word == (words(chars@.take(i as int)).len() > 0),
        decreases chars@.len() - i,
    {
        let c = chars[i];
        let ghost prefix = chars@.take(i as int);
        let ghost next = chars@.take(i + 1);
        assert(next.drop_last() =~= prefix);
        if is_whitespace(c) {
        } else if i > 0 && !is_whitespace(chars[i - 1]) {
            proof {
                assert(next[next.len() - 2] == chars@[i - 1]);
                lemma_words_nonempty(prefix);
                lemma_join_extend_last(words(prefix), seq![' '], c);
            }
            push_char(&mut out, c);
        } else {
            proof {
                lemma_join_push(words(prefix), seq![' '], seq![c]);
            }
            if any_word {
                push_char(&mut out, ' ');
            }
            push_char(&mut out, c);
            assert(out@ =~= normalized(next));
            any_word = true;
        }
        i = i + 1;
    }
    assert(chars@.take(chars@.len() as int) =~= chars@);
    out
}

/// The name a declaration binds, as the merge keys it: for `let`/`const`/
/// `var`, the name of the first declarator when it is a plain identifier.
pub open spec fn declaration_name(d: DeclShapeView) -> Option<Seq<char>> {
    match d {
        DeclShapeView::Variable(names) => if names.len() > 0 {
            names[0]
        } else {
            None
        },
        DeclShapeView::Function(name) => name,
        DeclShapeView::Class(name) => name,
        DeclShapeView::TypeAlias(name) => Some(name),
        DeclShapeView::Interface(name) => Some(name),
        DeclShapeView::Enum(name) => Some(name),
        DeclShapeView::Other => None,
    }
}

/// The declaration name introduced by a top-level statement, if any.
pub open spec fn statement_name(s: StatementShapeView) -> Option<Seq<char>> {
    match s {
        StatementShapeView::Declaration(d) => declaration_name(d),
        StatementShapeView::Exported(d) => declaration_name(d),
        StatementShapeView::ExportDefault => Some("default"@),
        StatementShapeView::Import(_) => None,
        StatementShapeView::Other => None,
    }
}

/// The item a top-level statement becomes.
pub open spec fn item_of(t: TopLevelView) -> ItemView {
    ItemView {
        key: match statement_name(t.shape) {
            Some(name) => "decl:"@ + name,
            None => "other:"@ + normalized(t.raw),
        },
        raw: t.raw,
        norm: normalized(t.raw),
    }
}

/// The items of `source`, or `None` when it does not parse.
pub open spec fn parsed_items(source: Seq<char>) -> Option<Seq<ItemView>> {
    match statements_for(SourceKind::TypeScript, source) {
        Some(statements) => Some(statements.map_values(|t: TopLevelView| item_of(t))),
        None => None,
    }
}

/// The items of a parse result, in the shape of `parsed_items`.
pub open spec fn items_as(res: Option<Vec<Item>>) -> Option<Seq<ItemView>> {
    match res {
        Some(v) => Some(item_views(v@)),
        None => None,
    }
}

fn declaration_name_of(d: &DeclShape) -> (res: Option<String>)
    ensures
        crate::syntax::opt_view(res) == declaration_name(d@),
{
    match d {
        DeclShape::Variable(names) => if names.len() > 0 {
            match &names[0] {
                Some(name) => Some(name.clone()),
                None => None,
            }
        } else {
            None
        },
        DeclShape::Function(name) => name.clone(),
        DeclShape::Class(name) => name.clone(),
        DeclShape::TypeAlias(name) => Some(name.clone()),
        DeclShape::Interface(name) => Some(name.clone()),
        DeclShape::Enum(name) => Some(name.clone()),
        DeclShape::Other => None,
    }
}

fn statement_name_of(s: &StatementShape) -> (res: Option<String>)
    ensures
        crate::syntax::opt_view(res) == statement_name(s@),
{
    match s {
        StatementShape::Declaration(d) => declaration_name_of(d),
        StatementShape::Exported(d) => declaration_name_of(d),
        StatementShape::ExportDefault => Some(String::from_str("default")),
        StatementShape::Import(_) => None,
        StatementShape::Other => None,
    }
}

fn item_from_statement(statement: &TopLevel) -> (res: Item)
    ensures
        res@ == item_of(statement@),
{
    let raw = statement.raw.clone();
    let norm = normalize(statement.raw.as_str());
    let key = match statement_name_of(&statement.shape) {
        Some(name) => {
            let mut key = String::from_str("decl:");
            key.append(name.as_str());
            key
        },
        None => {
            let mut key = String::from_str("other:");
            key.append(norm.as_str());
            key
        },
    };
    Item { key, raw, norm }
}

/// The items that parsed top-level statements become, in order.
pub fn items_from_statements(statements: &[TopLevel]) -> (res: Vec<Item>)
    ensures
        item_views(res@) == top_level_views(statements@).map_values(|t: TopLevelView| item_of(t)),
{
    let ghost tv = top_level_views(statements@);
    let mut items: Vec<Item> = Vec::new();
    let mut i: usize = 0;
    while i < statements.len()
        invariant
            tv == top_level_views(statements@),
            i <= statements@.len(),
            items@.len() == i,
            forall|k: int| 0 <= k < i ==> #[trigger] items@[k]@ == item_of(tv[k]),
        decreases statements@.len() - i,
    {
        items.push(item_from_statement(&statements[i]));
        i = i + 1;
    }
    assert(item_views(items@) =~= tv.map_values(|t: TopLevelView| item_of(t)));
    items
}

/// Parse `source` and split it into top-level items, or `None` if it does not
/// parse (caller falls back to a coarse merge).
pub fn parse_items(source: &str) -> (res: Option<Vec<Item>>)
    ensures
        items_as(res) == parsed_items(source@),
{
    match parse_source(SourceKind::TypeScript, source) {
        Some(statements) => Some(items_from_statements(statements.as_slice())),
        None => None,
    }
}

/// The last item with key `key` (later items win on duplicate keys).
pub open spec fn item_for_key(items: Seq<ItemView>, key: Seq<char>) -> Option<ItemView>
    decreases items.len(),
{
    if items.len() == 0 {
        None
    } else if items.last().key == key {
        Some(items.last())
    } else {
        item_for_key(items.drop_last(), key)
    }
}

/// Items indexed by key (last write wins on duplicate keys within a file).
pub struct ItemIndex<'a> {
    pub items: &'a [Item],
}

impl Item {
    /// Index items by key (last write wins on duplicate keys within a file).
    pub fn index(items: &[Item]) -> (res: ItemIndex<'_>)
        ensures
            res.items@ == items@,
    {
        ItemIndex { items }
    }
}

impl<'a> ItemIndex<'a> {
    /// The item with key `key`: the last one in the file, as in a map built
    /// by inserting the items in order.
    pub fn get(&self, key: &str) -> (res: Option<&'a Item>)
        ensures
            match res {
                Some(item) => item_for_key(item_views(self.items@), key@) == Some(item@),
                None => item_for_key(item_views(self.items@), key@) is None,
            },
    {
        let ghost all = item_views(self.items@);
        let mut i: usize = self.items.len();
        assert(all.take(i as int) =~= all);
        while i > 0
            invariant
                i <= self.items@.len(),
                all == item_views(self.items@),
                item_for_key(all, key@) == item_for_key(all.take(i as int), key@),
            decreases i,
        {
            let ghost t = all.take(i as int);
            assert(t.drop_last() =~= all.take(i - 1));
            if crate::strings::str_eq(self.items[i - 1].key.as_str(), key) {
                return Some(&self.items[i - 1]);
            }
            i = i - 1;
        }
        None
    }
}

} // verus!
