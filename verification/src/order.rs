//! The order of `String`s: lexicographic on their UTF-8 bytes, as `Ord` for
//! `str` compares them, and sorted lists of distinct strings.

use vstd::prelude::*;
use vstd::utf8::encode_utf8;

verus! {

broadcast use vstd::utf8::encode_utf8_decode_utf8;

/// `a` comes strictly before `b` in lexicographic byte order.
pub open spec fn bytes_lt(a: Seq<u8>, b: Seq<u8>) -> bool
    decreases a.len(),
{
    if a.len() == 0 {
        b.len() > 0
    } else if b.len() == 0 {
        false
    } else if a[0] < b[0] {
        true
    } else if a[0] > b[0] {
        false
    } else {
        bytes_lt(a.drop_first(), b.drop_first())
    }
}

/// Text `a` comes strictly before text `b`: by the bytes of their UTF-8
/// encodings, the order of `str` and `String`.
pub open spec fn text_lt(a: Seq<char>, b: Seq<char>) -> bool {
    bytes_lt(encode_utf8(a), encode_utf8(b))
}

/// The texts of a list of strings.
pub open spec fn texts(v: Seq<String>) -> Seq<Seq<char>> {
    v.map_values(|x: String| x@)
}

/// Each text comes strictly before every later one: the texts are sorted
/// and distinct.
pub open spec fn strictly_sorted(s: Seq<Seq<char>>) -> bool {
    forall|i: int, j: int| 0 <= i < j < s.len() ==> text_lt(#[trigger] s[i], #[trigger] s[j])
}

/// No sequence comes before itself.
pub proof fn lemma_bytes_lt_irreflexive(a: Seq<u8>)
    ensures
        !bytes_lt(a, a),
    decreases a.len(),
{
    if a.len() > 0 {
        lemma_bytes_lt_irreflexive(a.drop_first());
    }
}

/// The byte order is transitive.
pub proof fn lemma_bytes_lt_transitive(a: Seq<u8>, b: Seq<u8>, c: Seq<u8>)
    requires
        bytes_lt(a, b),
        bytes_lt(b, c),
    ensures
        bytes_lt(a, c),
    decreases a.len(),
{
    if a.len() > 0 && b.len() > 0 && c.len() > 0 && a[0] == b[0] && b[0] == c[0] {
        lemma_bytes_lt_transitive(a.drop_first(), b.drop_first(), c.drop_first());
    }
}

/// Of two different sequences one comes before the other.
pub proof fn lemma_bytes_lt_total(a: Seq<u8>, b: Seq<u8>)
    requires
        a != b,
    ensures
        bytes_lt(a, b) || bytes_lt(b, a),
    decreases a.len(),
{
    if a.len() == 0 {
        assert(b.len() > 0) by {
            if b.len() == 0 {
                assert(a =~= b);
            }
        }
    } else if b.len() > 0 && a[0] == b[0] {
        if a.drop_first() == b.drop_first() {
            assert(a.len() == b.len()) by {
                assert(a.drop_first().len() == b.drop_first().len());
            }
            assert(a =~= b) by {
                assert forall|i: int| 0 <= i < a.len() implies a[i] == b[i] by {
                    if i > 0 {
                        assert(a[i] == a.drop_first()[i - 1]);
                        assert(b[i] == b.drop_first()[i - 1]);
                    }
                }
            }
        }
        lemma_bytes_lt_total(a.drop_first(), b.drop_first());
    }
}

/// The text order is irreflexive, transitive and total.
pub proof fn lemma_text_lt_order(a: Seq<char>, b: Seq<char>, c: Seq<char>)
    ensures
        !text_lt(a, a),
        text_lt(a, b) && text_lt(b, c) ==> text_lt(a, c),
        a != b ==> text_lt(a, b) || text_lt(b, a),
        text_lt(a, b) ==> !text_lt(b, a),
{
    lemma_bytes_lt_irreflexive(encode_utf8(a));
    if text_lt(a, b) && text_lt(b, c) {
        lemma_bytes_lt_transitive(encode_utf8(a), encode_utf8(b), encode_utf8(c));
    }
    if a != b {
        assert(encode_utf8(a) != encode_utf8(b)) by {
            if encode_utf8(a) == encode_utf8(b) {
                assert(vstd::utf8::decode_utf8(encode_utf8(a)) == a);
                assert(vstd::utf8::decode_utf8(encode_utf8(b)) == b);
            }
        }
        lemma_bytes_lt_total(encode_utf8(a), encode_utf8(b));
    }
    if text_lt(a, b) && text_lt(b, a) {
        lemma_bytes_lt_transitive(encode_utf8(a), encode_utf8(b), encode_utf8(a));
    }
}

/// The byte order is lexicographic and ascending: at the first differing
/// byte the smaller byte comes first, and a proper prefix comes before the
/// longer sequence.
pub proof fn lemma_bytes_lt_lexicographic(a: Seq<u8>, b: Seq<u8>, k: int)
    requires
        0 <= k <= a.len(),
        k <= b.len(),
        a.take(k) == b.take(k),
    ensures
        k < a.len() && k < b.len() && a[k] < b[k] ==> bytes_lt(a, b),
        k < a.len() && k < b.len() && a[k] > b[k] ==> !bytes_lt(a, b),
        k == a.len() && k < b.len() ==> bytes_lt(a, b),
        k == b.len() ==> !bytes_lt(a, b),
    decreases k,
{
    if k > 0 {
        assert(a[0] == a.take(k)[0]);
        assert(b[0] == b.take(k)[0]);
        assert(a.drop_first().take(k - 1) =~= b.drop_first().take(k - 1)) by {
            assert forall|j: int| 0 <= j < k - 1 implies a.drop_first()[j] == b.drop_first()[j] by {
                assert(a[j + 1] == a.take(k)[j + 1]);
                assert(b[j + 1] == b.take(k)[j + 1]);
            }
        }
        lemma_bytes_lt_lexicographic(a.drop_first(), b.drop_first(), k - 1);
    }
}

/// Two strictly sorted lists that hold the same texts are the same list.
pub proof fn lemma_sorted_same_texts(a: Seq<Seq<char>>, b: Seq<Seq<char>>)
    requires
        strictly_sorted(a),
        strictly_sorted(b),
        forall|x: Seq<char>| a.contains(x) <==> b.contains(x),
    ensures
        a == b,
    decreases a.len(),
{
    if a.len() == 0 {
        if b.len() > 0 {
            assert(b.contains(b[0]));
        }
        assert(a =~= b);
    } else {
        assert(a.contains(a[0]));
        assert(b.contains(b[0]));
        let j = choose|j: int| 0 <= j < b.len() && b[j] == a[0];
        let i = choose|i: int| 0 <= i < a.len() && a[i] == b[0];
        if a[0] != b[0] {
            assert(text_lt(a[0], a[i]));
            assert(text_lt(b[0], b[j]));
            lemma_text_lt_order(a[0], b[0], a[0]);
        }
        let a2 = a.drop_first();
        let b2 = b.drop_first();
        assert forall|p: int, q: int| 0 <= p < q < a2.len() implies text_lt(
            #[trigger] a2[p],
            #[trigger] a2[q],
        ) by {
            assert(text_lt(a[p + 1], a[q + 1]));
        }
        assert forall|p: int, q: int| 0 <= p < q < b2.len() implies text_lt(
            #[trigger] b2[p],
            #[trigger] b2[q],
        ) by {
            assert(text_lt(b[p + 1], b[q + 1]));
        }
        assert forall|x: Seq<char>| a2.contains(x) <==> b2.contains(x) by {
            if a2.contains(x) {
                let p = choose|p: int| 0 <= p < a2.len() && a2[p] == x;
                assert(a[p + 1] == x);
                assert(text_lt(a[0], a[p + 1]));
                lemma_text_lt_order(x, b[0], x);
                assert(a.contains(x));
                let q = choose|q: int| 0 <= q < b.len() && b[q] == x;
                assert(b2[q - 1] == x);
            }
            if b2.contains(x) {
                let p = choose|p: int| 0 <= p < b2.len() && b2[p] == x;
                assert(b[p + 1] == x);
                assert(text_lt(b[0], b[p + 1]));
                lemma_text_lt_order(x, a[0], x);
                assert(b.contains(x));
                let q = choose|q: int| 0 <= q < a.len() && a[q] == x;
                assert(a2[q - 1] == x);
            }
        }
        lemma_sorted_same_texts(a2, b2);
        assert forall|k: int| 0 <= k < a.len() implies a[k] == b[k] by {
            if k > 0 {
                assert(a[k] == a2[k - 1]);
                assert(b[k] == b2[k - 1]);
            }
        }
        assert(a =~= b);
    }
}

/// Compares two byte sequences lexicographically.
pub fn bytes_less(a: &[u8], b: &[u8]) -> (r: bool)
    ensures
        r == bytes_lt(a@, b@),
{
    let mut i: usize = 0;
    assert(a@.skip(0) =~= a@);
    assert(b@.skip(0) =~= b@);
    while i < a.len() && i < b.len()
        invariant
            i <= a.len(),
            i <= b.len(),
            bytes_lt(a@, b@) == bytes_lt(a@.skip(i as int), b@.skip(i as int)),
        decreases a.len() - i,
    {
        if a[i] < b[i] {
            return true;
        }
        if a[i] > b[i] {
            return false;
        }
        assert(a@.skip(i as int).drop_first() =~= a@.skip(i + 1));
        assert(b@.skip(i as int).drop_first() =~= b@.skip(i + 1));
        i = i + 1;
    }
    i < b.len()
}

/// Compares two strings as `Ord` for `String` does.
pub fn text_less(a: &String, b: &String) -> (r: bool)
    ensures
        r == text_lt(a@, b@),
{
    bytes_less(a.as_str().as_bytes(), b.as_str().as_bytes())
}

/// Inserts `s` into a sorted list of distinct strings, unless its text is
/// already there; the list stays sorted and distinct.
pub fn insert_sorted_unique(v: &mut Vec<String>, s: String)
    requires
        strictly_sorted(texts(old(v)@)),
    ensures
        strictly_sorted(texts(final(v)@)),
        forall|x: Seq<char>|
            texts(final(v)@).contains(x) <==> (texts(old(v)@).contains(x) || x == s@),
{
    let ghost old_texts = texts(v@);
    let mut i: usize = 0;
    let mut done = false;
    while !done && i < v.len()
        invariant
            v@ == old(v)@,
            i <= v.len(),
            forall|j: int| 0 <= j < i ==> text_lt(#[trigger] v@[j]@, s@),
            done ==> i < v.len() && !text_lt(v@[i as int]@, s@),
        decreases v.len() - i + (if done { 0int } else { 1int }),
    {
        if text_less(&v[i], &s) {
            i = i + 1;
        } else {
            done = true;
        }
    }
    if i < v.len() && v[i] == s {
        assert(texts(v@)[i as int] == s@);
        return;
    }
    proof {
        assert forall|j: int| i <= j < v@.len() implies text_lt(s@, #[trigger] v@[j]@) by {
            lemma_text_lt_order(s@, v@[i as int]@, v@[j]@);
            lemma_text_lt_order(v@[i as int]@, s@, v@[j]@);
            if j > i {
                assert(text_lt(texts(v@)[i as int], texts(v@)[j]));
            }
        }
    }
    v.insert(i, s);
    proof {
        let t = texts(v@);
        assert forall|a: int, b: int| 0 <= a < b < t.len() implies text_lt(
            #[trigger] t[a],
            #[trigger] t[b],
        ) by {
            if b < i {
                assert(text_lt(old_texts[a], old_texts[b]));
            } else if b == i {
            } else if a < i {
                lemma_text_lt_order(t[a], s@, t[b]);
            } else if a == i {
            } else {
                assert(text_lt(old_texts[a - 1], old_texts[b - 1]));
            }
        }
        assert forall|x: Seq<char>| t.contains(x) <==> (old_texts.contains(x) || x == s@) by {
            if t.contains(x) {
                let k = choose|k: int| 0 <= k < t.len() && t[k] == x;
                if k < i {
                    assert(old_texts[k] == x);
                } else if k > i {
                    assert(old_texts[k - 1] == x);
                }
            }
            if old_texts.contains(x) {
                let k = choose|k: int| 0 <= k < old_texts.len() && old_texts[k] == x;
                if k < i {
                    assert(t[k] == x);
                } else {
                    assert(t[k + 1] == x);
                }
            }
            if x == s@ {
                assert(t[i as int] == x);
            }
        }
    }
}

} // verus!
