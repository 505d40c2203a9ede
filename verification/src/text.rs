//! Text fields: NUL-padded byte strings, lossy UTF-8 decoding and trimming of
//! Unicode white space.

use crate::file_struct::HsdError;
use vstd::prelude::*;
use vstd::utf8::{decode_utf8, valid_utf8};

verus! {

/// What `String::from_utf8_lossy` yields for a byte sequence.
pub uninterp spec fn utf8_lossy(bytes: Seq<u8>) -> Seq<char>;

/// `String::from_utf8_lossy`, made owned.  Its full result is named by
/// `utf8_lossy`; the documentation shows that a valid UTF-8 sequence is
/// decoded without replacement, which is the second clause.  What becomes
/// of invalid sequences (U+FFFD replacement) is left unsaid.
#[verifier::external_body]
fn decode_utf8_lossy(bytes: &[u8]) -> (r: String)
    ensures
        r@ == utf8_lossy(bytes@),
        valid_utf8(bytes@) ==> r@ == decode_utf8(bytes@),
{
    String::from_utf8_lossy(bytes).into_owned()
}

/// Unicode `White_Space`, the set that `char::is_whitespace` tests.
pub open spec fn is_white_space(c: char) -> bool {
    let u = c as u32;
    (0x9 <= u <= 0xd) || u == 0x20 || u == 0x85 || u == 0xa0 || u == 0x1680 || (0x2000 <= u
        <= 0x200a) || u == 0x2028 || u == 0x2029 || u == 0x202f || u == 0x205f || u == 0x3000
}

/// `s` without its leading white space.
pub open spec fn trim_start_ws(s: Seq<char>) -> Seq<char>
    decreases s.len(),
{
    if s.len() > 0 && is_white_space(s[0]) {
        trim_start_ws(s.drop_first())
    } else {
        s
    }
}

/// `s` without its trailing white space.
pub open spec fn trim_end_ws(s: Seq<char>) -> Seq<char>
    decreases s.len(),
{
    if s.len() > 0 && is_white_space(s.last()) {
        trim_end_ws(s.drop_last())
    } else {
        s
    }
}

/// `s` without leading and trailing white space.
pub open spec fn trim_ws(s: Seq<char>) -> Seq<char> {
    trim_end_ws(trim_start_ws(s))
}

/// `str::trim`: the documentation removes leading and trailing characters
/// with the Unicode `White_Space` property, which is `trim_ws`.
#[verifier::external_body]
fn trim_str<'a>(s: &'a str) -> (r: &'a str)
    ensures
        r@ == trim_ws(s@),
{
    s.trim()
}

/// Index of the first zero byte of `s`, or its length when it has none.
pub open spec fn first_nul(s: Seq<u8>) -> int
    decreases s.len(),
{
    if s.len() == 0 || s[0] == 0 {
        0
    } else {
        1 + first_nul(s.drop_first())
    }
}

/// The bytes of `s` before its first zero byte.
pub open spec fn until_nul(s: Seq<u8>) -> Seq<u8> {
    s.take(first_nul(s))
}

/// The text of a NUL-padded field: the bytes before the first zero byte,
/// decoded lossily and trimmed of white space.
pub open spec fn c_string_text(field: Seq<u8>) -> Seq<char> {
    trim_ws(utf8_lossy(until_nul(field)))
}

/// The text of the `len`-byte NUL-padded field at `at` in `b`.
pub open spec fn c_string_at(b: Seq<u8>, at: int, len: int) -> Seq<char> {
    c_string_text(b.subrange(at, at + len))
}

/// `first_nul` is the one index that ends a run of non-zero bytes at a zero
/// byte or at the end.
pub proof fn lemma_first_nul_unique(s: Seq<u8>, k: int)
    requires
        0 <= k <= s.len(),
        k < s.len() ==> s[k] == 0,
        forall|j: int| 0 <= j < k ==> s[j] != 0,
    ensures
        first_nul(s) == k,
    decreases k,
{
    if k > 0 {
        let t = s.drop_first();
        assert forall|j: int| 0 <= j < k - 1 implies t[j] != 0 by {
            assert(t[j] == s[j + 1]);
        }
        if k - 1 < t.len() {
            assert(t[k - 1] == s[k]);
        }
        lemma_first_nul_unique(t, k - 1);
    }
}

/// `first_nul` lies within the sequence, ends a run of non-zero bytes, and
/// stops at a zero byte when it is not the end.
pub proof fn lemma_first_nul_bounds(s: Seq<u8>)
    ensures
        0 <= first_nul(s) <= s.len(),
        first_nul(s) < s.len() ==> s[first_nul(s)] == 0,
        forall|j: int| 0 <= j < first_nul(s) ==> s[j] != 0,
    decreases s.len(),
{
    if s.len() > 0 && s[0] != 0 {
        let t = s.drop_first();
        lemma_first_nul_bounds(t);
        assert forall|j: int| 0 <= j < first_nul(s) implies s[j] != 0 by {
            if j > 0 {
                assert(s[j] == t[j - 1]);
            }
        }
    }
}

/// Reads the `len`-byte NUL-padded text field at `at`: the bytes up to the
/// first zero byte, decoded lossily, with white space trimmed at both ends.
/// Fails when the field runs past the end of the bytes; a field whose bytes
/// before the zero are valid UTF-8 is decoded as it stands.
pub fn read_c_string(buf: &[u8], at: usize, len: usize) -> (r: Result<String, HsdError>)
    ensures
        match r {
            Ok(s) => {
                &&& at + len <= buf@.len()
                &&& s@ == c_string_at(buf@, at as int, len as int)
                &&& valid_utf8(until_nul(buf@.subrange(at as int, at + len))) ==> s@ == trim_ws(
                    decode_utf8(until_nul(buf@.subrange(at as int, at + len))),
                )
            },
            Err(e) => at + len > buf@.len() && e == HsdError::UnexpectedEof,
        },
{
    if len > buf.len() || at > buf.len() - len {
        return Err(HsdError::UnexpectedEof);
    }
    let ghost field = buf@.subrange(at as int, at + len);
    let mut k: usize = 0;
    while k < len && buf[at + k] != 0
        invariant
            k <= len,
            at + len <= buf.len(),
            field == buf@.subrange(at as int, at + len),
            forall|j: int| 0 <= j < k ==> field[j] != 0,
        decreases len - k,
    {
        k = k + 1;
    }
    proof {
        lemma_first_nul_unique(field, k as int);
    }
    let head = vstd::slice::slice_subrange(buf, at, at + k);
    assert(head@ == until_nul(field));
    let decoded = decode_utf8_lossy(head);
    let trimmed = trim_str(decoded.as_str());
    Ok(trimmed.to_owned())
}

/// After trimming its start, a text is empty or starts with a character
/// that is not white space.
proof fn lemma_trim_start_ws(s: Seq<char>)
    ensures
        trim_start_ws(s).len() > 0 ==> !is_white_space(trim_start_ws(s)[0]),
    decreases s.len(),
{
    if s.len() > 0 && is_white_space(s[0]) {
        lemma_trim_start_ws(s.drop_first());
    }
}

/// Trimming the end keeps a prefix, and leaves a text that is empty or ends
/// with a character that is not white space.
proof fn lemma_trim_end_ws(s: Seq<char>)
    ensures
        trim_end_ws(s).len() <= s.len(),
        trim_end_ws(s) =~= s.take(trim_end_ws(s).len() as int),
        trim_end_ws(s).len() > 0 ==> !is_white_space(trim_end_ws(s).last()),
    decreases s.len(),
{
    if s.len() > 0 && is_white_space(s.last()) {
        lemma_trim_end_ws(s.drop_last());
    }
}

/// The text of a NUL-padded field has no white space at either end.
pub proof fn lemma_c_string_trimmed(field: Seq<u8>)
    ensures
        c_string_text(field).len() > 0 ==> !is_white_space(c_string_text(field)[0])
            && !is_white_space(c_string_text(field).last()),
{
    let t = trim_start_ws(utf8_lossy(until_nul(field)));
    lemma_trim_start_ws(utf8_lossy(until_nul(field)));
    lemma_trim_end_ws(t);
    if trim_end_ws(t).len() > 0 {
        assert(trim_end_ws(t)[0] == t[0]);
    }
}

/// The text of a NUL-padded field does not depend on the bytes after its
/// first zero byte.
pub proof fn lemma_c_string_stops_at_nul(a: Seq<u8>, b: Seq<u8>, k: int)
    requires
        0 <= k < a.len(),
        k < b.len(),
        a[k] == 0,
        a.take(k) == b.take(k),
        b[k] == 0,
    ensures
        c_string_text(a) == c_string_text(b),
{
    lemma_first_nul_bounds(a);
    lemma_first_nul_bounds(b);
    assert forall|j: int| 0 <= j < k implies a[j] == b[j] by {
        assert(a.take(k)[j] == a[j]);
        assert(b.take(k)[j] == b[j]);
    }
    if first_nul(a) < k {
        assert(a[first_nul(a)] == b[first_nul(a)]);
        lemma_first_nul_unique(b, first_nul(a));
    } else {
        lemma_first_nul_unique(a, k);
        assert forall|j: int| 0 <= j < k implies b[j] != 0 by {
            assert(a.take(k)[j] == a[j]);
            assert(b.take(k)[j] == b[j]);
        }
        lemma_first_nul_unique(b, k);
    }
    assert(until_nul(a) =~= until_nul(b));
}

} // verus!
