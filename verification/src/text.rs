//! Source-position utilities shared by every analysis that turns a byte offset
//! (parser spans are byte offsets) into a 1-based line/column plus the source
//! line for code-frame snippets. Centralised so the line-start table is
//! computed and searched one way everywhere.
use vstd::prelude::*;

use vstd::string::StringSliceAdditionalSpecFns;
use vstd::utf8::{decode_utf8, is_char_boundary, valid_utf8};

use crate::strings::{chars_of, is_whitespace, is_ws};

verus! {

/// The byte offsets at which the lines of `bytes` start: 0, and one past
/// every `\n`.
pub open spec fn line_starts(bytes: Seq<u8>) -> Seq<int>
    decreases bytes.len(),
{
    if bytes.len() == 0 {
        seq![0]
    } else if bytes.last() == 10u8 {
        line_starts(bytes.drop_last()).push(bytes.len() as int)
    } else {
        line_starts(bytes.drop_last())
    }
}

/// `starts` begins at 0 and increases strictly.
pub open spec fn well_formed_starts(starts: Seq<int>) -> bool {
    &&& starts.len() > 0
    &&& starts[0] == 0
    &&& forall|i: int, j: int| 0 <= i < j < starts.len() ==> #[trigger] starts[i] < #[trigger] starts[j]
}

/// The zero-based line holding byte `offset`: the last line starting at or
/// before it.
pub open spec fn line_at(starts: Seq<int>, offset: int) -> int {
    choose|i: int|
        0 <= i < starts.len() && #[trigger] starts[i] <= offset && (i + 1 == starts.len() || offset
            < starts[i + 1])
}

/// The first `\n` at or after `from`, or the end of `bytes`.
pub open spec fn next_newline(bytes: Seq<u8>, from: int) -> int
    decreases bytes.len() - from,
{
    if from >= bytes.len() {
        bytes.len() as int
    } else if bytes[from] == 10u8 {
        from
    } else {
        next_newline(bytes, from + 1)
    }
}

/// `s` without its trailing whitespace (`str::trim_end`).
pub open spec fn trim_end(s: Seq<char>) -> Seq<char>
    decreases s.len(),
{
    if s.len() > 0 && is_ws(s.last()) {
        trim_end(s.drop_last())
    } else {
        s
    }
}

proof fn lemma_line_starts_well_formed(bytes: Seq<u8>)
    ensures
        well_formed_starts(line_starts(bytes)),
        forall|i: int| 0 <= i < line_starts(bytes).len() ==> #[trigger] line_starts(bytes)[i] <= bytes.len(),
    decreases bytes.len(),
{
    if bytes.len() > 0 {
        lemma_line_starts_well_formed(bytes.drop_last());
    }
}

/// Each line start is 0 or just past a `\n` of `bytes`.
proof fn lemma_line_start_follows_newline(bytes: Seq<u8>, i: int)
    requires
        0 <= i < line_starts(bytes).len(),
    ensures
        line_starts(bytes)[i] == 0 || (1 <= line_starts(bytes)[i] <= bytes.len() && bytes[line_starts(bytes)[i] - 1] == 10u8),
    decreases bytes.len(),
{
    if bytes.len() > 0 {
        let prev = line_starts(bytes.drop_last());
        if i < prev.len() {
            lemma_line_start_follows_newline(bytes.drop_last(), i);
            lemma_line_starts_well_formed(bytes.drop_last());
            if prev[i] != 0 {
                assert(bytes.drop_last()[prev[i] - 1] == bytes[prev[i] - 1]);
            }
        }
    }
}

/// In valid UTF-8 text every line start is a character boundary, so
/// `line_text` may be asked for any offset of an index built from the text.
pub proof fn law_line_starts_are_char_boundaries(bytes: Seq<u8>, i: int)
    requires
        valid_utf8(bytes),
        0 <= i < line_starts(bytes).len(),
    ensures
        is_char_boundary(bytes, line_starts(bytes)[i]),
{
    let s = line_starts(bytes)[i];
    lemma_line_start_follows_newline(bytes, i);
    vstd::utf8::is_char_boundary_start_end_of_seq(bytes);
    if s != 0 && s < bytes.len() {
        let k = s - 1;
        vstd::utf8::is_char_boundary_iff_not_is_continuation_byte(bytes, k);
        vstd::utf8::valid_utf8_split(bytes, k);
        let suffix = bytes.subrange(k, bytes.len() as int);
        let rest = bytes.subrange(s, bytes.len() as int);
        assert(suffix[0] == 10u8);
        assert(vstd::utf8::pop_first_scalar(suffix) =~= rest);
        assert(valid_utf8(rest));
        assert(rest[0] == bytes[s]);
        vstd::utf8::is_char_boundary_iff_not_is_continuation_byte(bytes, s);
    }
}

/// A line start lies on its own line: offset `line_starts(bytes)[i]` is on
/// line `i`, so `line_col` reports it as line `i + 1`, column 1.
pub proof fn law_line_start_is_column_one(bytes: Seq<u8>, i: int)
    requires
        0 <= i < line_starts(bytes).len(),
    ensures
        line_at(line_starts(bytes), line_starts(bytes)[i]) == i,
{
    let starts = line_starts(bytes);
    lemma_line_starts_well_formed(bytes);
    let off = starts[i];
    if i + 1 < starts.len() {
        assert(starts[i] < starts[i + 1]);
    }
    assert(0 <= i < starts.len() && starts[i] <= off && (i + 1 == starts.len() || off < starts[i + 1]));
    let j = line_at(starts, off);
    if j < i {
        assert(starts[j + 1] <= starts[i]) by {
            if j + 1 < i {
                assert(starts[j + 1] < starts[i]);
            }
        }
    } else if j > i {
        assert(starts[i] < starts[j]);
    }
}

/// `offset` lies on line `i`: line `i` starts at or before it, and the next
/// line (if any) after it.
proof fn lemma_line_at_is(starts: Seq<int>, offset: int, i: int)
    requires
        well_formed_starts(starts),
        0 <= i < starts.len(),
        starts[i] <= offset,
        i + 1 == starts.len() || offset < starts[i + 1],
    ensures
        line_at(starts, offset) == i,
{
    let j = line_at(starts, offset);
    if j < i {
        assert(starts[j + 1] <= starts[i]) by {
            if j + 1 < i {
                assert(starts[j + 1] < starts[i]);
            }
        }
    } else if j > i {
        assert(starts[i + 1] <= starts[j]) by {
            if i + 1 < j {
                assert(starts[i + 1] < starts[j]);
            }
        }
    }
}

proof fn lemma_last_start_at_or_before(starts: Seq<int>, offset: int, k: int) -> (i: int)
    requires
        well_formed_starts(starts),
        0 < k <= starts.len(),
        0 <= offset,
    ensures
        0 <= i < k,
        starts[i] <= offset,
        forall|j: int| i < j < k ==> offset < #[trigger] starts[j],
    decreases k,
{
    if k == 1 || starts[k - 1] <= offset {
        k - 1
    } else {
        lemma_last_start_at_or_before(starts, offset, k - 1)
    }
}

/// Every offset lies on some line of a well-formed line-start table: the
/// line `line_at` gives is in range and starts at or before the offset.
pub proof fn lemma_line_at_in_range(starts: Seq<int>, offset: int)
    requires
        well_formed_starts(starts),
        0 <= offset,
    ensures
        0 <= line_at(starts, offset) < starts.len(),
        starts[line_at(starts, offset)] <= offset,
        line_at(starts, offset) + 1 == starts.len() || offset < starts[line_at(starts, offset) + 1],
{
    let i = lemma_last_start_at_or_before(starts, offset, starts.len() as int);
    lemma_line_at_is(starts, offset, i);
}

/// `line_text` may be asked for any offset of an index built from the text
/// it is given: the start of the offset's line is a character boundary.
pub proof fn law_line_text_callable(bytes: Seq<u8>, offset: int)
    requires
        valid_utf8(bytes),
        0 <= offset,
    ensures
        is_char_boundary(bytes, line_starts(bytes)[line_at(line_starts(bytes), offset)]),
{
    lemma_line_starts_well_formed(bytes);
    lemma_line_at_in_range(line_starts(bytes), offset);
    law_line_starts_are_char_boundaries(bytes, line_at(line_starts(bytes), offset));
}

/// The number of `\n` bytes in `bytes`.
pub open spec fn newline_count(bytes: Seq<u8>) -> nat
    decreases bytes.len(),
{
    if bytes.len() == 0 {
        0
    } else {
        newline_count(bytes.drop_last()) + if bytes.last() == 10u8 {
            1nat
        } else {
            0nat
        }
    }
}

/// One past the last `\n` of `bytes`, or 0 when it has none.
pub open spec fn after_last_newline(bytes: Seq<u8>) -> int
    decreases bytes.len(),
{
    if bytes.len() == 0 {
        0
    } else if bytes.last() == 10u8 {
        bytes.len() as int
    } else {
        after_last_newline(bytes.drop_last())
    }
}

proof fn lemma_starts_count(bytes: Seq<u8>)
    ensures
        line_starts(bytes).len() == 1 + newline_count(bytes),
        line_starts(bytes).last() == after_last_newline(bytes),
    decreases bytes.len(),
{
    if bytes.len() > 0 {
        lemma_starts_count(bytes.drop_last());
    }
}

/// The line starts of a prefix are those of the whole up to the prefix's end.
proof fn lemma_starts_of_prefix(bytes: Seq<u8>, offset: int)
    requires
        0 <= offset <= bytes.len(),
    ensures
        line_starts(bytes.take(offset)).len() <= line_starts(bytes).len(),
        line_starts(bytes).take(line_starts(bytes.take(offset)).len() as int) == line_starts(bytes.take(offset)),
        forall|j: int|
            line_starts(bytes.take(offset)).len() <= j < line_starts(bytes).len() ==> offset < #[trigger] line_starts(bytes)[j],
    decreases bytes.len(),
{
    if offset == bytes.len() {
        assert(bytes.take(offset) =~= bytes);
        assert(line_starts(bytes).take(line_starts(bytes).len() as int) =~= line_starts(bytes));
    } else {
        let prev = bytes.drop_last();
        assert(prev.take(offset) =~= bytes.take(offset));
        lemma_starts_of_prefix(prev, offset);
        let m = line_starts(bytes.take(offset)).len() as int;
        if bytes.last() == 10u8 {
            assert(line_starts(bytes).take(m) =~= line_starts(prev).take(m));
        }
    }
}

/// The line of an offset is the number of `\n` bytes before it, and the line
/// starts one past the last of them (at 0 when there is none): `line_col`
/// reports line `1 + newlines before`, column `offset - that start + 1`.
pub proof fn law_line_is_newlines_before(bytes: Seq<u8>, offset: int)
    requires
        0 <= offset <= bytes.len(),
    ensures
        line_at(line_starts(bytes), offset) == newline_count(bytes.take(offset)),
        line_starts(bytes)[line_at(line_starts(bytes), offset)] == after_last_newline(bytes.take(offset)),
{
    let starts = line_starts(bytes);
    let prefix = bytes.take(offset);
    lemma_line_starts_well_formed(bytes);
    lemma_line_starts_well_formed(prefix);
    lemma_starts_of_prefix(bytes, offset);
    lemma_starts_count(prefix);
    let m = line_starts(prefix).len() as int;
    assert(starts[m - 1] == line_starts(prefix)[m - 1]);
    assert(line_starts(prefix)[m - 1] <= prefix.len());
    lemma_line_at_is(starts, offset, m - 1);
}

/// The trimmed text of the line holding `offset`, in text with the given
/// bytes and line-start table.
pub open spec fn line_text_at(bytes: Seq<u8>, starts: Seq<int>, offset: int) -> Seq<char> {
    let start = starts[line_at(starts, offset)];
    trim_end(decode_utf8(bytes.subrange(start, next_newline(bytes, start))))
}

proof fn lemma_next_newline(bytes: Seq<u8>, from: int)
    requires
        0 <= from <= bytes.len(),
    ensures
        from <= next_newline(bytes, from) <= bytes.len(),
        next_newline(bytes, from) < bytes.len() ==> bytes[next_newline(bytes, from)] == 10u8,
        forall|k: int| from <= k < next_newline(bytes, from) ==> bytes[k] != 10u8,
    decreases bytes.len() - from,
{
    if from < bytes.len() && bytes[from] != 10u8 {
        lemma_next_newline(bytes, from + 1);
    }
}

proof fn lemma_trim_end(s: Seq<char>)
    ensures
        trim_end(s).len() <= s.len(),
        s.take(trim_end(s).len() as int) == trim_end(s),
        trim_end(s).len() > 0 ==> !is_ws(trim_end(s).last()),
    decreases s.len(),
{
    if s.len() > 0 && is_ws(s.last()) {
        lemma_trim_end(s.drop_last());
        assert(s.take(trim_end(s).len() as int) =~= s.drop_last().take(trim_end(s).len() as int));
    } else {
        assert(s.take(s.len() as int) =~= s);
    }
}

/// The encoding of characters holding a `\n` holds the byte 10.
proof fn lemma_newline_encoded(cs: Seq<char>, k: int)
    requires
        0 <= k < cs.len(),
        cs[k] == '\n',
    ensures
        vstd::utf8::encode_utf8(cs).contains(10u8),
    decreases cs.len(),
{
    let first = vstd::utf8::encode_scalar(cs[0] as u32);
    let rest = vstd::utf8::encode_utf8(cs.drop_first());
    assert(vstd::utf8::encode_utf8(cs) == first + rest);
    if k == 0 {
        let v: u32 = cs[0] as u32;
        assert(v == 10u32);
        assert(((v & 0x7Fu32) as u8) == 10u8) by (bit_vector)
            requires
                v == 10u32,
        ;
        assert(first[0] == 10u8);
        assert((first + rest)[0] == 10u8);
    } else {
        lemma_newline_encoded(cs.drop_first(), k - 1);
        let p = choose|p: int| 0 <= p < rest.len() && rest[p] == 10u8;
        assert((first + rest)[first.len() + p] == 10u8);
    }
}

/// The text `line_text` gives for any offset of an index built from the
/// text is a single line with its trailing whitespace trimmed: it holds no
/// `\n` and does not end in whitespace.
pub proof fn law_line_text_is_one_trimmed_line(bytes: Seq<u8>, offset: int)
    requires
        valid_utf8(bytes),
        0 <= offset,
    ensures
        !line_text_at(bytes, line_starts(bytes), offset).contains('\n'),
        line_text_at(bytes, line_starts(bytes), offset).len() > 0 ==> !is_ws(
            line_text_at(bytes, line_starts(bytes), offset).last(),
        ),
{
    let starts = line_starts(bytes);
    lemma_line_starts_well_formed(bytes);
    lemma_line_at_in_range(starts, offset);
    law_line_text_callable(bytes, offset);
    let start = starts[line_at(starts, offset)];
    let end = next_newline(bytes, start);
    lemma_next_newline(bytes, start);
    let segment = bytes.subrange(start, end);
    let text = decode_utf8(segment);
    // The segment is valid UTF-8: it lies between two character boundaries.
    vstd::utf8::is_char_boundary_start_end_of_seq(bytes);
    if end < bytes.len() {
        vstd::utf8::is_char_boundary_iff_not_is_continuation_byte(bytes, end);
    }
    vstd::utf8::valid_utf8_split(bytes, end);
    let head = bytes.subrange(0, end);
    assert(is_char_boundary(head, start)) by {
        vstd::utf8::is_char_boundary_start_end_of_seq(head);
        if start < end {
            vstd::utf8::is_char_boundary_iff_not_is_continuation_byte(bytes, start);
            vstd::utf8::is_char_boundary_iff_not_is_continuation_byte(head, start);
        }
    }
    vstd::utf8::valid_utf8_split(head, start);
    assert(head.subrange(start, head.len() as int) =~= segment);
    vstd::utf8::decode_utf8_encode_utf8(segment);
    assert(!text.contains('\n')) by {
        if text.contains('\n') {
            let k = choose|k: int| 0 <= k < text.len() && text[k] == '\n';
            lemma_newline_encoded(text, k);
            let p = choose|p: int| 0 <= p < segment.len() && segment[p] == 10u8;
            assert(bytes[start + p] == 10u8);
        }
    }
    lemma_trim_end(text);
    let t = trim_end(text);
    if t.contains('\n') {
        let k = choose|k: int| 0 <= k < t.len() && t[k] == '\n';
        assert(text[k] == t[k]);
    }
}

/// Precomputed byte offsets of each line start, for O(log n) offset → line/col.
pub struct LineIndex {
    starts: Vec<usize>,
}

impl View for LineIndex {
    type V = Seq<int>;

    closed spec fn view(&self) -> Seq<int> {
        self.starts@.map_values(|x: usize| x as int)
    }
}

impl LineIndex {
    #[verifier::type_invariant]
    closed spec fn wf(self) -> bool {
        well_formed_starts(self@)
    }

    /// Build the line-start table for a source string.
    pub fn new(source: &str) -> (res: LineIndex)
        ensures
            res@ == line_starts(source.spec_bytes()),
    {
        let bytes = source.as_bytes();
        let mut starts: Vec<usize> = Vec::new();
        starts.push(0);
        let mut i: usize = 0;
        while i < bytes.len()
            invariant
                i <= bytes@.len(),
                starts@.map_values(|x: usize| x as int) == line_starts(bytes@.take(i as int)),
            decreases bytes@.len() - i,
        {
            let ghost before = starts@;
            assert(bytes@.take(i + 1).drop_last() =~= bytes@.take(i as int));
            if bytes[i] == 10u8 {
                starts.push(i + 1);
                assert(starts@.map_values(|x: usize| x as int) =~= before.map_values(
                    |x: usize| x as int,
                ).push(i + 1));
            }
            i = i + 1;
        }
        assert(bytes@.take(bytes@.len() as int) =~= bytes@);
        proof {
            lemma_line_starts_well_formed(bytes@);
        }
        LineIndex { starts }
    }

    /// Zero-based index of the line containing `offset`.
    fn line_of(&self, offset: usize) -> (res: usize)
        ensures
            res == line_at(self@, offset as int),
            res < self@.len(),
            self@[res as int] <= offset,
    {
        proof {
            use_type_invariant(self);
        }
        let ghost s = self@;
        let mut lo: usize = 0;
        let mut hi: usize = self.starts.len();
        while hi - lo > 1
            invariant
                s == self@,
                well_formed_starts(s),
                s.len() == self.starts@.len(),
                lo < hi <= s.len(),
                s[lo as int] <= offset,
                hi < s.len() ==> offset < s[hi as int],
            decreases hi - lo,
        {
            let mid = lo + (hi - lo) / 2;
            assert(s[mid as int] == self.starts@[mid as int] as int);
            if self.starts[mid] <= offset {
                lo = mid;
            } else {
                hi = mid;
            }
        }
        proof {
            let i = lo as int;
            assert(0 <= i < s.len() && s[i] <= offset && (i + 1 == s.len() || offset < s[i + 1]));
            let j = line_at(s, offset as int);
            assert(j == i) by {
                if j < i {
                    assert(s[j] < s[j + 1]);
                    if j + 1 < i {
                        assert(s[j + 1] < s[i]);
                    }
                } else if j > i {
                    assert(s[i + 1] <= s[j]);
                }
            }
        }
        lo
    }

    /// 1-based `(line, column)` of a byte offset.
    pub fn line_col(&self, offset: usize) -> (res: (u32, u32))
        ensures
            res.0 == (line_at(self@, offset as int) + 1) as u32,
            res.1 == (offset - self@[line_at(self@, offset as int)] + 1) as u32,
    {
        let line_index = self.line_of(offset);
        let n = self.starts.len();
        assert(line_index < n);
        let line_start = self.starts[line_index];
        assert(self@[line_index as int] == line_start as int);
        #[verifier::truncate]
        let line = (line_index + 1) as u32;
        let distance = (offset - line_start) as u64;
        let column: u32 = if distance == 0xffff_ffff_ffff_ffffu64 {
            assert((distance + 1) as u32 == 0u32) by (bit_vector)
                requires
                    distance == 0xffff_ffff_ffff_ffffu64,
            ;
            0
        } else {
            #[verifier::truncate]
            let column = (distance + 1) as u32;
            column
        };
        (line, column)
    }

    /// The source line containing `offset`, with trailing whitespace trimmed —
    /// the snippet shown in a diagnostic's code frame.
    pub fn line_text<'s>(&self, source: &'s str, offset: usize) -> (res: &'s str)
        requires
            is_char_boundary(source.spec_bytes(), self@[line_at(self@, offset as int)]),
        ensures
            res@ == line_text_at(source.spec_bytes(), self@, offset as int),
    {
        let line_index = self.line_of(offset);
        let line_start = self.starts[line_index];
        assert(self@[line_index as int] == line_start as int);
        let line = line_slice(source, line_start);
        let chars = chars_of(line);
        let keep = trimmed_len(&chars);
        line.substring_char(0, keep)
    }
}

/// The first `\n` at or after `from` in `bytes`, or its length.
fn find_newline(bytes: &[u8], from: usize) -> (res: usize)
    requires
        from <= bytes@.len(),
    ensures
        res == next_newline(bytes@, from as int),
        from <= res <= bytes@.len(),
        res < bytes@.len() ==> bytes@[res as int] == 10u8,
{
    let mut end: usize = from;
    while end < bytes.len() && bytes[end] != 10u8
        invariant
            from <= end <= bytes@.len(),
            next_newline(bytes@, from as int) == next_newline(bytes@, end as int),
        decreases bytes@.len() - end,
    {
        end = end + 1;
    }
    end
}

/// The bytes of `source` from `start` up to the next `\n` (or the end).
fn line_slice<'s>(source: &'s str, start: usize) -> (res: &'s str)
    requires
        is_char_boundary(source.spec_bytes(), start as int),
    ensures
        res@ == decode_utf8(source.spec_bytes().subrange(start as int, next_newline(source.spec_bytes(), start as int))),
{
    let bytes = source.as_bytes();
    proof {
        vstd::utf8::encode_utf8_valid_utf8(source@);
        if start > 0 {
            assert(start <= bytes@.len()) by {
                vstd::utf8::is_char_boundary_start_end_of_seq(bytes@);
                if start > bytes@.len() {
                    assert(!is_char_boundary(bytes@, start as int));
                }
            }
        }
    }
    let end = find_newline(bytes, start);
    proof {
        if end < bytes@.len() {
            vstd::utf8::is_char_boundary_iff_not_is_continuation_byte(bytes@, end as int);
        } else {
            vstd::utf8::is_char_boundary_start_end_of_seq(bytes@);
        }
    }
    let (head, _) = source.split_at(end);
    proof {
        vstd::utf8::encode_utf8_valid_utf8(head@);
        vstd::utf8::valid_utf8_split(bytes@, end as int);
        assert(head.spec_bytes() =~= bytes@.subrange(0, end as int));
        assert(is_char_boundary(head.spec_bytes(), start as int)) by {
            vstd::utf8::is_char_boundary_start_end_of_seq(head.spec_bytes());
            if start < end {
                vstd::utf8::is_char_boundary_iff_not_is_continuation_byte(bytes@, start as int);
                vstd::utf8::is_char_boundary_iff_not_is_continuation_byte(head.spec_bytes(), start as int);
            }
        }
    }
    let (_, line) = head.split_at(start);
    proof {
        assert(line.spec_bytes() =~= bytes@.subrange(start as int, end as int));
        vstd::utf8::encode_utf8_decode_utf8(line@);
    }
    line
}

/// How many characters of `chars` remain once trailing whitespace is trimmed.
fn trimmed_len(chars: &Vec<char>) -> (res: usize)
    ensures
        res <= chars@.len(),
        chars@.take(res as int) == trim_end(chars@),
{
    let mut keep: usize = chars.len();
    assert(chars@.take(keep as int) =~= chars@);
    while keep > 0 && is_whitespace(chars[keep - 1])
        invariant
            keep <= chars@.len(),
            trim_end(chars@) == trim_end(chars@.take(keep as int)),
        decreases keep,
    {
        assert(chars@.take(keep as int).drop_last() =~= chars@.take(keep - 1));
        keep = keep - 1;
    }
    keep
}

} // verus!
