//! The file names of full-disk HSD files, such as
//! `HS_H09_20231001_0000_B01_FLDK_R10_S0110.DAT.bz2`: upper-cased, split at
//! underscores, they give the observation time, the band and the segment.

use vstd::prelude::*;
use vstd::string::{StringExecFns, StringSliceAdditionalSpecFns};
use vstd::utf8::{encode_utf8, is_char_boundary};

verus! {

broadcast use {
    vstd::utf8::encode_utf8_valid_utf8,
    vstd::utf8::is_char_boundary_iff_not_is_continuation_byte,
    vstd::utf8::is_char_boundary_start_end_of_seq,
};

/// The byte that separates the fields of a file name.
pub open spec fn sep() -> u8 {
    0x5f
}

/// The first index at or after `from` where `s` holds `c`, or `s.len()`.
pub open spec fn find_from(s: Seq<u8>, c: u8, from: int) -> int
    decreases s.len() - from,
{
    if from >= s.len() {
        s.len() as int
    } else if s[from] == c {
        from
    } else {
        find_from(s, c, from + 1)
    }
}

/// Where field `k` of `s` ends: at its underscore, or at the end of `s`.
pub open spec fn field_end(s: Seq<u8>, k: nat) -> int
    decreases k,
{
    if k == 0 {
        find_from(s, sep(), 0)
    } else {
        let prev = field_end(s, (k - 1) as nat);
        if prev >= s.len() {
            s.len() as int
        } else {
            find_from(s, sep(), prev + 1)
        }
    }
}

/// Where field `k` of `s` starts.
pub open spec fn field_start(s: Seq<u8>, k: nat) -> int {
    if k == 0 {
        0
    } else {
        field_end(s, (k - 1) as nat) + 1
    }
}

/// Field `k` of `s`, as `str::split('_')` yields it.
pub open spec fn field(s: Seq<u8>, k: nat) -> Seq<u8> {
    s.subrange(field_start(s, k), field_end(s, k))
}

/// `s` holds at least `n + 1` fields (`n` underscores).
pub open spec fn has_fields_beyond(s: Seq<u8>, n: nat) -> bool {
    field_end(s, (n - 1) as nat) < s.len()
}

/// `p` occurs in `s` at `i`.
pub open spec fn occurs_at(s: Seq<u8>, p: Seq<u8>, i: int) -> bool {
    0 <= i && i + p.len() <= s.len() && s.subrange(i, i + p.len()) == p
}

/// `p` occurs somewhere in `s`.
pub open spec fn occurs(s: Seq<u8>, p: Seq<u8>) -> bool {
    exists|i: int| occurs_at(s, p, i)
}

/// `s` begins with `p`.
pub open spec fn begins_with(s: Seq<u8>, p: Seq<u8>) -> bool {
    occurs_at(s, p, 0)
}

/// `find_from` stays within the sequence and stops at the first `c`.
pub proof fn lemma_find_from(s: Seq<u8>, c: u8, from: int)
    requires
        0 <= from <= s.len(),
    ensures
        from <= find_from(s, c, from) <= s.len(),
        find_from(s, c, from) < s.len() ==> s[find_from(s, c, from)] == c,
        forall|j: int| from <= j < find_from(s, c, from) ==> s[j] != c,
    decreases s.len() - from,
{
    if from < s.len() && s[from] != c {
        lemma_find_from(s, c, from + 1);
    }
}

/// Fields lie within the sequence, one after the other.
pub proof fn lemma_field_bounds(s: Seq<u8>, k: nat)
    ensures
        0 <= field_end(s, k) <= s.len(),
        field_end(s, k) < s.len() ==> s[field_end(s, k)] == sep(),
        k > 0 && field_end(s, (k - 1) as nat) < s.len() ==> field_start(s, k) <= field_end(s, k),
        k == 0 ==> field_start(s, k) <= field_end(s, k),
    decreases k,
{
    if k == 0 {
        lemma_find_from(s, sep(), 0);
    } else {
        lemma_field_bounds(s, (k - 1) as nat);
        let prev = field_end(s, (k - 1) as nat);
        if prev < s.len() {
            lemma_find_from(s, sep(), prev + 1);
        }
    }
}

/// Once a field runs to the end, every later field does too.
pub proof fn lemma_field_end_at_end(s: Seq<u8>, k: nat, m: nat)
    requires
        k <= m,
        field_end(s, k) >= s.len(),
    ensures
        field_end(s, m) == s.len(),
    decreases m - k,
{
    lemma_field_bounds(s, k);
    if m > k {
        lemma_field_end_at_end(s, k, (m - 1) as nat);
    }
}

/// The first index at or after `from` where `s` holds `c`, or `s.len()`.
fn find_byte(s: &[u8], c: u8, from: usize) -> (r: usize)
    requires
        from <= s@.len(),
    ensures
        r == find_from(s@, c, from as int),
{
    let mut i = from;
    while i < s.len() && s[i] != c
        invariant
            from <= i <= s@.len(),
            find_from(s@, c, from as int) == find_from(s@, c, i as int),
        decreases s.len() - i,
    {
        i = i + 1;
    }
    i
}

/// Whether `p` occurs in `s` at `i`.
fn occurs_at_exec(s: &[u8], p: &[u8], i: usize) -> (r: bool)
    requires
        i + p@.len() <= s@.len(),
    ensures
        r == occurs_at(s@, p@, i as int),
{
    let mut k: usize = 0;
    while k < p.len()
        invariant
            k <= p@.len(),
            i + p@.len() <= s.len(),
            forall|j: int| 0 <= j < k ==> s@[i + j] == p@[j],
        decreases p.len() - k,
    {
        if s[i + k] != p[k] {
            assert(s@.subrange(i as int, i + p@.len())[k as int] != p@[k as int]);
            return false;
        }
        k = k + 1;
    }
    assert(s@.subrange(i as int, i + p@.len()) =~= p@);
    true
}

/// Whether `p` occurs anywhere in `s`.
fn occurs_exec(s: &[u8], p: &[u8]) -> (r: bool)
    ensures
        r == occurs(s@, p@),
{
    if p.len() > s.len() {
        return false;
    }
    if p.len() == 0 {
        assert(s@.subrange(0, 0) =~= p@);
        assert(occurs_at(s@, p@, 0));
        return true;
    }
    let last = s.len() - p.len();
    let mut i: usize = 0;
    while i <= last
        invariant
            last + p@.len() == s.len(),
            p@.len() >= 1,
            i <= last + 1,
            forall|j: int| 0 <= j < i ==> !occurs_at(s@, p@, j),
        decreases last + 1 - i,
    {
        if occurs_at_exec(s, p, i) {
            return true;
        }
        i = i + 1;
    }
    assert forall|j: int| !occurs_at(s@, p@, j) by {
        if 0 <= j && j + p@.len() <= s@.len() {
            assert(j <= last);
        }
    }
    false
}

/// The UTF-8 encoding of joined texts joins their encodings.
pub proof fn lemma_encode_utf8_concat(a: Seq<char>, b: Seq<char>)
    ensures
        encode_utf8(a + b) == encode_utf8(a) + encode_utf8(b),
    decreases a.len(),
{
    if a.len() == 0 {
        assert(a + b =~= b);
        assert(encode_utf8(a) =~= Seq::<u8>::empty());
        assert(encode_utf8(a) + encode_utf8(b) =~= encode_utf8(b));
    } else {
        assert((a + b)[0] == a[0]);
        assert((a + b).drop_first() =~= a.drop_first() + b);
        lemma_encode_utf8_concat(a.drop_first(), b);
        assert(encode_utf8(a + b) =~= encode_utf8(a) + encode_utf8(b));
    }
}

/// The position after an ASCII byte of valid UTF-8 is a character boundary.
pub proof fn lemma_boundary_after_ascii(n: Seq<u8>, i: int)
    requires
        vstd::utf8::valid_utf8(n),
        0 <= i < n.len(),
        n[i] < 0x80,
    ensures
        is_char_boundary(n, i + 1),
{
    assert(!vstd::utf8::is_continuation_byte(n[i]));
    assert(is_char_boundary(n, i));
    vstd::utf8::valid_utf8_split(n, i);
    let r = n.subrange(i, n.len() as int);
    assert(vstd::utf8::valid_utf8(r));
    assert(r[0] == n[i]);
    assert(is_char_boundary(r, 1)) by {
        reveal_with_fuel(is_char_boundary, 2);
        assert(vstd::utf8::length_of_first_scalar(r) == 1);
    }
    if i + 1 < n.len() {
        assert(r[1] == n[i + 1]);
        assert(!vstd::utf8::is_continuation_byte(r[1]));
    }
}

/// The part of `s` from byte `a` to byte `b`, both character boundaries.
fn sub_str<'a>(s: &'a str, a: usize, b: usize) -> (r: &'a str)
    requires
        a <= b <= s.spec_bytes().len(),
        is_char_boundary(s.spec_bytes(), a as int),
        is_char_boundary(s.spec_bytes(), b as int),
    ensures
        r.spec_bytes() == s.spec_bytes().subrange(a as int, b as int),
{
    let ghost n = s.spec_bytes();
    let (_, right) = s.split_at(a);
    proof {
        let rb = right.spec_bytes();
        assert(rb =~= n.subrange(a as int, n.len() as int));
        if b < n.len() {
            assert(rb[b - a] == n[b as int]);
            assert(!vstd::utf8::is_continuation_byte(n[b as int]));
        }
        assert(is_char_boundary(rb, b - a));
    }
    let (mid, _) = right.split_at(b - a);
    assert(mid.spec_bytes() =~= n.subrange(a as int, b as int));
    mid
}

/// The decimal value of a sequence of ASCII digits.
pub open spec fn decimal_value(d: Seq<u8>) -> int
    decreases d.len(),
{
    if d.len() == 0 {
        0
    } else {
        decimal_value(d.drop_last()) * 10 + (d.last() - 0x30)
    }
}

/// Every byte of `d` is an ASCII digit.
pub open spec fn all_decimal_digits(d: Seq<u8>) -> bool {
    forall|i: int| 0 <= i < d.len() ==> 0x30 <= #[trigger] d[i] <= 0x39
}

/// What `usize::from_str` gives for the UTF-8 bytes `b`: an optional `+`
/// followed by at least one digit and nothing else, of a value that fits.
pub open spec fn usize_from_str(b: Seq<u8>) -> Option<usize> {
    let d = if b.len() > 1 && b[0] == 0x2b {
        b.drop_first()
    } else {
        b
    };
    if d.len() > 0 && all_decimal_digits(d) && decimal_value(d) <= usize::MAX {
        Some(decimal_value(d) as usize)
    } else {
        None
    }
}

/// `str::parse::<usize>`, with the error dropped.  Its documentation accepts
/// an optional `+` sign followed by digits only, and fails on overflow; that
/// is `usize_from_str`.
#[verifier::external_body]
fn parse_usize(s: &str) -> (r: Option<usize>)
    ensures
        r == usize_from_str(s.spec_bytes()),
{
    s.parse::<usize>().ok()
}

/// What `str::to_uppercase` yields for a text.
pub uninterp spec fn unicode_uppercase(s: Seq<char>) -> Seq<char>;

/// `str::to_uppercase`.  Its result, by the Unicode case tables, is named
/// `unicode_uppercase`; nothing more of it is claimed.
#[verifier::external_body]
pub(crate) fn to_uppercase(s: &str) -> (r: String)
    ensures
        r@ == unicode_uppercase(s@),
{
    s.to_uppercase()
}

/// "HS_"
pub open spec fn hs_prefix() -> Seq<u8> {
    seq![0x48u8, 0x53, 0x5f]
}

/// "_FLDK_"
pub open spec fn full_disk_marker() -> Seq<u8> {
    seq![0x5fu8, 0x46, 0x4c, 0x44, 0x4b, 0x5f]
}

/// ".DAT"
pub open spec fn data_marker() -> Seq<u8> {
    seq![0x2eu8, 0x44, 0x41, 0x54]
}

/// The upper-cased name `n` starts with "HS_", holds "_FLDK_" and ".DAT",
/// and has at least eight fields of which the date has 8 bytes, the time 4,
/// the band 3 starting with 'B', and the segment at least 3 starting with 'S'.
pub open spec fn name_fields_ok(n: Seq<u8>) -> bool {
    &&& begins_with(n, hs_prefix())
    &&& occurs(n, full_disk_marker())
    &&& occurs(n, data_marker())
    &&& has_fields_beyond(n, 7)
    &&& field(n, 2).len() == 8
    &&& field(n, 3).len() == 4
    &&& field(n, 4).len() == 3
    &&& field(n, 4)[0] == 0x42
    &&& field(n, 7).len() >= 3
    &&& field(n, 7)[0] == 0x53
}

/// The two bytes after the 'S' of the segment field end inside a character:
/// taking them as a `str` slice would panic.
pub open spec fn segment_digits_cut(n: Seq<u8>) -> bool {
    name_fields_ok(n) && !is_char_boundary(n, field_start(n, 7) + 3)
}

/// The two bytes after the 'S' of the segment field.
pub open spec fn segment_digits(n: Seq<u8>) -> Seq<u8> {
    field(n, 7).subrange(1, 3)
}

/// The upper-cased name `n` is that of a full-disk HSD file: the shape above,
/// and a segment number from 1 to 10.
pub open spec fn hsd_name_accepted(n: Seq<u8>) -> bool {
    &&& name_fields_ok(n)
    &&& !segment_digits_cut(n)
    &&& usize_from_str(segment_digits(n)) matches Some(v)
    &&& 1 <= v <= 10
}

/// The segment number of an accepted name.
pub open spec fn name_segment(n: Seq<u8>) -> usize {
    usize_from_str(segment_digits(n))->0
}

/// The time stamp of an accepted name, as bytes: date, '_', time.
pub open spec fn name_timestamp(n: Seq<u8>) -> Seq<u8> {
    field(n, 2) + seq![sep()] + field(n, 3)
}

/// The outcome of scanning an upper-cased file name.
pub enum NameScan {
    /// Not the name of a full-disk HSD file.
    Rejected,
    /// The segment digits would be cut inside a character.
    SegmentDigitsCut,
    /// The band, the segment number and the time stamp of an accepted name.
    Accepted { band: String, segment: usize, timestamp: String },
}

/// Scans an upper-cased file name: its band, segment number and time stamp
/// when it is the name of a full-disk HSD file.
pub fn scan_hsd_file_name(upper: &str) -> (r: NameScan)
    ensures
        (r is SegmentDigitsCut) <==> segment_digits_cut(upper.spec_bytes()),
        (r is Accepted) <==> hsd_name_accepted(upper.spec_bytes()),
        r matches NameScan::Accepted { band, segment, timestamp } ==> {
            &&& encode_utf8(band@) == field(upper.spec_bytes(), 4)
            &&& segment == name_segment(upper.spec_bytes())
            &&& encode_utf8(timestamp@) == name_timestamp(upper.spec_bytes())
        },
{
    let n = upper.as_bytes();
    let ghost nb = upper.spec_bytes();
    assert(n@ == nb);
    if n.len() < 3 || n[0] != 0x48 || n[1] != 0x53 || n[2] != 0x5f {
        assert(!begins_with(nb, hs_prefix())) by {
            if begins_with(nb, hs_prefix()) {
                assert(nb.subrange(0, 3)[0] == nb[0]);
                assert(nb.subrange(0, 3)[1] == nb[1]);
                assert(nb.subrange(0, 3)[2] == nb[2]);
            }
        }
        return NameScan::Rejected;
    }
    assert(nb.subrange(0, 3) =~= hs_prefix());
    let fldk: Vec<u8> = vec![0x5f, 0x46, 0x4c, 0x44, 0x4b, 0x5f];
    assert(fldk@ =~= full_disk_marker());
    if !occurs_exec(n, fldk.as_slice()) {
        return NameScan::Rejected;
    }
    let dat: Vec<u8> = vec![0x2e, 0x44, 0x41, 0x54];
    assert(dat@ =~= data_marker());
    if !occurs_exec(n, dat.as_slice()) {
        return NameScan::Rejected;
    }
    let len = n.len();
    let e0 = find_byte(n, 0x5f, 0);
    proof {
        lemma_field_bounds(nb, 0);
        reveal_with_fuel(field_end, 1);
    }
    if e0 >= len {
        proof { lemma_field_end_at_end(nb, 0, 6); }
        return NameScan::Rejected;
    }
    let e1 = find_byte(n, 0x5f, e0 + 1);
    proof { lemma_field_bounds(nb, 1); }
    if e1 >= len {
        proof { lemma_field_end_at_end(nb, 1, 6); }
        return NameScan::Rejected;
    }
    let e2 = find_byte(n, 0x5f, e1 + 1);
    proof { lemma_field_bounds(nb, 2); }
    if e2 >= len {
        proof { lemma_field_end_at_end(nb, 2, 6); }
        return NameScan::Rejected;
    }
    let e3 = find_byte(n, 0x5f, e2 + 1);
    proof { lemma_field_bounds(nb, 3); }
    if e3 >= len {
        proof { lemma_field_end_at_end(nb, 3, 6); }
        return NameScan::Rejected;
    }
    let e4 = find_byte(n, 0x5f, e3 + 1);
    proof { lemma_field_bounds(nb, 4); }
    if e4 >= len {
        proof { lemma_field_end_at_end(nb, 4, 6); }
        return NameScan::Rejected;
    }
    let e5 = find_byte(n, 0x5f, e4 + 1);
    proof { lemma_field_bounds(nb, 5); }
    if e5 >= len {
        proof { lemma_field_end_at_end(nb, 5, 6); }
        return NameScan::Rejected;
    }
    let e6 = find_byte(n, 0x5f, e5 + 1);
    proof { lemma_field_bounds(nb, 6); }
    if e6 >= len {
        proof { lemma_field_end_at_end(nb, 6, 6); }
        return NameScan::Rejected;
    }
    let e7 = find_byte(n, 0x5f, e6 + 1);
    proof { lemma_field_bounds(nb, 7); }
    assert(e0 == field_end(nb, 0));
    assert(e1 == field_end(nb, 1));
    assert(e2 == field_end(nb, 2));
    assert(e3 == field_end(nb, 3));
    assert(e4 == field_end(nb, 4));
    assert(e5 == field_end(nb, 5));
    assert(e6 == field_end(nb, 6));
    assert(e7 == field_end(nb, 7));
    assert(has_fields_beyond(nb, 7));
    if e2 - e1 != 9 || e3 - e2 != 5 {
        return NameScan::Rejected;
    }
    if e4 - e3 != 4 || n[e3 + 1] != 0x42 {
        assert(e4 - e3 == 4 ==> field(nb, 4)[0] == nb[e3 + 1]);
        return NameScan::Rejected;
    }
    let s7 = e6 + 1;
    if e7 - s7 < 3 || n[s7] != 0x53 {
        assert(e7 - s7 >= 3 ==> field(nb, 7)[0] == nb[s7 as int]);
        return NameScan::Rejected;
    }
    assert(field(nb, 4)[0] == nb[e3 + 1]);
    assert(field(nb, 7)[0] == nb[s7 as int]);
    assert(name_fields_ok(nb));
    if !upper.is_char_boundary(s7 + 3) {
        return NameScan::SegmentDigitsCut;
    }
    proof {
        lemma_boundary_after_ascii(nb, s7 as int);
        lemma_boundary_after_ascii(nb, e1 as int);
        lemma_boundary_after_ascii(nb, e2 as int);
        lemma_boundary_after_ascii(nb, e3 as int);
        assert(!vstd::utf8::is_continuation_byte(nb[e2 as int]));
        assert(!vstd::utf8::is_continuation_byte(nb[e3 as int]));
        assert(!vstd::utf8::is_continuation_byte(nb[e4 as int]));
        assert(is_char_boundary(nb, e2 as int));
        assert(is_char_boundary(nb, e3 as int));
        assert(is_char_boundary(nb, e4 as int));
    }
    let digits = sub_str(upper, s7 + 1, s7 + 3);
    assert(digits.spec_bytes() =~= segment_digits(nb));
    let segment = match parse_usize(digits) {
        Some(v) => v,
        None => {
            return NameScan::Rejected;
        },
    };
    if segment < 1 || segment > 10 {
        return NameScan::Rejected;
    }
    let date = sub_str(upper, e1 + 1, e2);
    let time = sub_str(upper, e2 + 1, e3);
    let band = sub_str(upper, e3 + 1, e4).to_owned();
    let mut timestamp = date.to_owned();
    timestamp.append("_");
    timestamp.append(time);
    proof {
        reveal_strlit("_");
        lemma_encode_utf8_concat(date@ + "_"@, time@);
        lemma_encode_utf8_concat(date@, "_"@);
        assert(encode_utf8("_"@) =~= seq![sep()]) by {
            reveal_with_fuel(encode_utf8, 2);
            assert('_' as u32 == 0x5f);
            assert((0x5fu32 & 0x7f) as u8 == 0x5f) by (bit_vector);
        }
    }
    NameScan::Accepted { band, segment, timestamp }
}

/// An accepted name gives a three-byte band that starts with 'B', a
/// segment number from 1 to 10, and a thirteen-byte time stamp with an
/// underscore between the eight bytes of the date and the four of the time.
pub proof fn lemma_accepted_name_shape(n: Seq<u8>)
    requires
        hsd_name_accepted(n),
    ensures
        field(n, 4).len() == 3,
        field(n, 4)[0] == 0x42,
        1 <= name_segment(n) <= 10,
        name_timestamp(n).len() == 13,
        name_timestamp(n)[8] == sep(),
        name_timestamp(n).subrange(0, 8) == field(n, 2),
        name_timestamp(n).subrange(9, 13) == field(n, 3),
{
    assert(name_timestamp(n).subrange(0, 8) =~= field(n, 2));
    assert(name_timestamp(n).subrange(9, 13) =~= field(n, 3));
}

} // verus!
