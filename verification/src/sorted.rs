//! Byte-wise lexicographic order on strings (the order of `str`'s `<`, and so
//! of a `BTreeSet<String>`), and sorted, duplicate-free string lists.
use vstd::prelude::*;

use vstd::string::StringSliceAdditionalSpecFns;
use vstd::utf8::encode_utf8;

use crate::strings::string_views;

verus! {

/// `a` comes strictly before `b` in lexicographic byte order.
pub open spec fn bytes_before(a: Seq<u8>, b: Seq<u8>) -> bool
    decreases a.len(),
{
    if a.len() == 0 {
        b.len() > 0
    } else if b.len() == 0 {
        false
    } else if a[0] < b[0] {
        true
    } else if a[0] > b[0] {
        false
    } else {
        bytes_before(a.drop_first(), b.drop_first())
    }
}

/// `a` sorts strictly before `b` as a Rust string (by its UTF-8 bytes).
pub open spec fn str_before(a: Seq<char>, b: Seq<char>) -> bool {
    bytes_before(encode_utf8(a), encode_utf8(b))
}

/// Each element sorts strictly before the next: sorted and duplicate-free.
pub open spec fn strictly_sorted(s: Seq<Seq<char>>) -> bool {
    forall|i: int, j: int| #![trigger s[i], s[j]] 0 <= i < j < s.len() ==> str_before(s[i], s[j])
}

/// `s` lists the elements of `set` in increasing order, each once — the
/// iteration order of a `BTreeSet` holding them.
pub open spec fn lists_in_order(s: Seq<Seq<char>>, set: Set<Seq<char>>) -> bool {
    strictly_sorted(s) && s.to_set() == set
}

pub proof fn lemma_before_irreflexive(a: Seq<u8>)
    ensures
        !bytes_before(a, a),
    decreases a.len(),
{
    if a.len() > 0 {
        lemma_before_irreflexive(a.drop_first());
    }
}

pub proof fn lemma_before_asymmetric(a: Seq<u8>, b: Seq<u8>)
    ensures
        !(bytes_before(a, b) && bytes_before(b, a)),
    decreases a.len(),
{
    if a.len() > 0 && b.len() > 0 && a[0] == b[0] {
        lemma_before_asymmetric(a.drop_first(), b.drop_first());
    }
}

pub proof fn lemma_before_total(a: Seq<u8>, b: Seq<u8>)
    ensures
        a == b || bytes_before(a, b) || bytes_before(b, a),
    decreases a.len(),
{
    if a.len() > 0 && b.len() > 0 && a[0] == b[0] {
        lemma_before_total(a.drop_first(), b.drop_first());
        if a.drop_first() == b.drop_first() {
            assert(a =~= seq![a[0]] + a.drop_first());
            assert(b =~= seq![b[0]] + b.drop_first());
        }
    }
}

pub proof fn lemma_before_transitive(a: Seq<u8>, b: Seq<u8>, c: Seq<u8>)
    requires
        bytes_before(a, b),
        bytes_before(b, c),
    ensures
        bytes_before(a, c),
    decreases a.len(),
{
    if a.len() > 0 && b.len() > 0 && c.len() > 0 && a[0] == b[0] && b[0] == c[0] {
        lemma_before_transitive(a.drop_first(), b.drop_first(), c.drop_first());
    }
}

/// Strings are in `str_before` order exactly when distinct and ordered.
pub proof fn lemma_str_total(a: Seq<char>, b: Seq<char>)
    ensures
        a == b || str_before(a, b) || str_before(b, a),
        !str_before(a, a),
        !(str_before(a, b) && str_before(b, a)),
{
    lemma_before_total(encode_utf8(a), encode_utf8(b));
    lemma_before_irreflexive(encode_utf8(a));
    lemma_before_asymmetric(encode_utf8(a), encode_utf8(b));
    if encode_utf8(a) == encode_utf8(b) {
        vstd::utf8::encode_utf8_decode_utf8(a);
        vstd::utf8::encode_utf8_decode_utf8(b);
    }
}

pub proof fn lemma_str_transitive(a: Seq<char>, b: Seq<char>, c: Seq<char>)
    requires
        str_before(a, b),
        str_before(b, c),
    ensures
        str_before(a, c),
{
    lemma_before_transitive(encode_utf8(a), encode_utf8(b), encode_utf8(c));
}

/// Whether `a` sorts strictly before `b` (`a < b` on `str`).
pub fn str_less(a: &str, b: &str) -> (res: bool)
    ensures
        res == str_before(a@, b@),
{
    let x = a.as_bytes();
    let y = b.as_bytes();
    let mut i: usize = 0;
    assert(x@.skip(0) =~= x@);
    assert(y@.skip(0) =~= y@);
    while i < x.len() && i < y.len() && x[i] == y[i]
        invariant
            x@ == a.spec_bytes(),
            y@ == b.spec_bytes(),
            i <= x@.len(),
            i <= y@.len(),
            bytes_before(x@, y@) == bytes_before(x@.skip(i as int), y@.skip(i as int)),
        decreases x@.len() - i,
    {
        assert(x@.skip(i as int).drop_first() =~= x@.skip(i + 1));
        assert(y@.skip(i as int).drop_first() =~= y@.skip(i + 1));
        i = i + 1;
    }
    if i == x.len() {
        i < y.len()
    } else if i == y.len() {
        false
    } else {
        x[i] < y[i]
    }
}

/// Inserts `x` into the sorted list `v` unless it already holds it.
pub fn insert_sorted(v: &mut Vec<String>, x: String)
    requires
        strictly_sorted(string_views(old(v)@)),
    ensures
        strictly_sorted(string_views(final(v)@)),
        string_views(final(v)@).to_set() == string_views(old(v)@).to_set().insert(x@),
{
    let ghost sv = string_views(v@);
    let mut i: usize = 0;
    while i < v.len() && str_less(v[i].as_str(), x.as_str())
        invariant
            sv == string_views(v@),
            strictly_sorted(sv),
            i <= sv.len(),
            forall|k: int| 0 <= k < i ==> #[trigger] str_before(sv[k], x@),
        decreases sv.len() - i,
    {
        i = i + 1;
    }
    if i < v.len() && crate::strings::str_eq(v[i].as_str(), x.as_str()) {
        assert(sv.to_set().insert(x@) =~= sv.to_set()) by {
            assert(sv[i as int] == x@);
        }
        return;
    }
    let ghost xv = x@;
    proof {
        if i < sv.len() {
            lemma_str_total(sv[i as int], xv);
        }
    }
    v.insert(i, x);
    let ghost nv = string_views(v@);
    assert(nv =~= sv.insert(i as int, xv));
    assert forall|a: int, b: int| #![trigger nv[a], nv[b]] 0 <= a < b < nv.len() implies str_before(nv[a], nv[b]) by {
        if b < i {
            assert(nv[a] == sv[a] && nv[b] == sv[b]);
        } else if b == i {
            assert(nv[a] == sv[a]);
        } else if a == i {
            assert(nv[b] == sv[b - 1]);
            if b - 1 > i {
                assert(str_before(sv[i as int], sv[b - 1]));
                lemma_str_transitive(xv, sv[i as int], sv[b - 1]);
            }
        } else if a < i {
            assert(nv[a] == sv[a] && nv[b] == sv[b - 1]);
            assert(str_before(sv[a], sv[b - 1]));
        } else {
            assert(nv[a] == sv[a - 1] && nv[b] == sv[b - 1]);
            assert(str_before(sv[a - 1], sv[b - 1]));
        }
    }
    assert(nv.to_set() =~= sv.to_set().insert(xv)) by {
        assert forall|y: Seq<char>| nv.to_set().contains(y) implies sv.to_set().insert(xv).contains(y) by {
            let k = choose|k: int| 0 <= k < nv.len() && nv[k] == y;
            if k < i {
                assert(sv[k] == y);
            } else if k > i {
                assert(sv[k - 1] == y);
            }
        }
        assert forall|y: Seq<char>| sv.to_set().insert(xv).contains(y) implies nv.to_set().contains(y) by {
            if y == xv {
                assert(nv[i as int] == y);
            } else {
                let k = choose|k: int| 0 <= k < sv.len() && sv[k] == y;
                if k < i {
                    assert(nv[k] == y);
                } else {
                    assert(nv[k + 1] == y);
                }
            }
        }
    }
}

} // verus!
