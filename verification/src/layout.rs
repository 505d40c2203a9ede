//! The integer side of the downstream data files: the header and size of a
//! Rayleigh lookup-table file, the lengths of the geometry arrays, and the
//! element ranges of a run of image lines.

use crate::bytes::{be_u32_at, u32_in, Endian};
use vstd::prelude::*;

verus! {

/// Where the parts of a lookup-table file lie.  The header holds four
/// big-endian counts (elevations, solar zenith angles, viewing zenith
/// angles, relative azimuth angles) and 24 reserved bytes; then come the
/// four axis grids and the four tables of `total` entries, all 4-byte values.
#[derive(Debug, Clone, Copy, PartialEq, Eq)]
pub struct LutLayout {
    pub n_elev: usize,
    pub n_sza: usize,
    pub n_vza: usize,
    pub n_raa: usize,
    pub total: usize,
    pub elev_offset: usize,
    pub sza_offset: usize,
    pub vza_offset: usize,
    pub raa_offset: usize,
    pub data_offset: usize,
}

/// Why a lookup-table file was refused.
#[derive(Debug, Clone, Copy, PartialEq, Eq)]
pub enum LutError {
    /// Shorter than the 40-byte header.
    TooSmall { actual: usize },
    /// Its length is not the one its counts require; `expected` is `None`
    /// when that length exceeds `usize`.
    SizeMismatch { expected: Option<usize>, actual: usize },
}

/// The file length that the counts of a lookup-table header require.
pub open spec fn lut_expected_size(b: Seq<u8>) -> int {
    let ne = be_u32_at(b, 0);
    let ns = be_u32_at(b, 4);
    let nv = be_u32_at(b, 8);
    let nr = be_u32_at(b, 12);
    40 + (ne + ns + nv + nr) * 4 + ns * nv * ne * nr * 16
}

/// `l` is the layout of the lookup-table file `b`.
pub open spec fn lut_layout_of(l: LutLayout, b: Seq<u8>) -> bool {
    &&& l.n_elev == be_u32_at(b, 0)
    &&& l.n_sza == be_u32_at(b, 4)
    &&& l.n_vza == be_u32_at(b, 8)
    &&& l.n_raa == be_u32_at(b, 12)
    &&& l.total == l.n_sza * l.n_vza * l.n_elev * l.n_raa
    &&& l.elev_offset == 40
    &&& l.sza_offset == 40 + 4 * l.n_elev
    &&& l.vza_offset == 40 + 4 * (l.n_elev + l.n_sza)
    &&& l.raa_offset == 40 + 4 * (l.n_elev + l.n_sza + l.n_vza)
    &&& l.data_offset == 40 + 4 * (l.n_elev + l.n_sza + l.n_vza + l.n_raa)
    &&& l.data_offset + 16 * l.total == b.len()
}

/// The parts of a lookup-table file follow one another without gap or
/// overlap, in the order of the header counts: the elevation grid right
/// after the 40-byte header, the solar zenith grid after the `n_elev`
/// elevations, the viewing zenith grid after the `n_sza` solar zenith
/// angles, the relative azimuth grid after the `n_vza` viewing zenith
/// angles, then the tables, which end with the file.  The counts are the
/// big-endian 32-bit numbers at 0, 4, 8 and 12.
pub proof fn lemma_lut_parts_consecutive(l: LutLayout, b: Seq<u8>)
    requires
        lut_layout_of(l, b),
    ensures
        l.n_elev == 16777216 * b[0] + 65536 * b[1] + 256 * b[2] + b[3],
        l.n_sza == 16777216 * b[4] + 65536 * b[5] + 256 * b[6] + b[7],
        l.n_vza == 16777216 * b[8] + 65536 * b[9] + 256 * b[10] + b[11],
        l.n_raa == 16777216 * b[12] + 65536 * b[13] + 256 * b[14] + b[15],
        l.elev_offset == 40,
        l.sza_offset == l.elev_offset + 4 * l.n_elev,
        l.vza_offset == l.sza_offset + 4 * l.n_sza,
        l.raa_offset == l.vza_offset + 4 * l.n_vza,
        l.data_offset == l.raa_offset + 4 * l.n_raa,
        l.total == l.n_elev * l.n_sza * l.n_vza * l.n_raa,
        l.data_offset + 4 * 4 * l.total == b.len(),
{
    assert(l.n_sza * l.n_vza * l.n_elev * l.n_raa == l.n_elev * l.n_sza * l.n_vza * l.n_raa)
        by (nonlinear_arith);
}

/// The length a lookup-table file must have: the 40-byte header, four bytes
/// per grid value, and four tables of four bytes per entry, one entry per
/// combination of grid values; the counts are the big-endian 32-bit numbers
/// at 0, 4, 8 and 12.
pub proof fn lemma_lut_expected_size(b: Seq<u8>)
    ensures
        ({
            let ne = 16777216 * b[0] + 65536 * b[1] + 256 * b[2] + b[3];
            let ns = 16777216 * b[4] + 65536 * b[5] + 256 * b[6] + b[7];
            let nv = 16777216 * b[8] + 65536 * b[9] + 256 * b[10] + b[11];
            let nr = 16777216 * b[12] + 65536 * b[13] + 256 * b[14] + b[15];
            lut_expected_size(b) == 40 + 4 * (ne + ns + nv + nr) + 4 * 4 * (ne * ns * nv * nr)
        }),
{
    let ne = be_u32_at(b, 0);
    let ns = be_u32_at(b, 4);
    let nv = be_u32_at(b, 8);
    let nr = be_u32_at(b, 12);
    assert(ne == 16777216 * b[0] + 65536 * b[1] + 256 * b[2] + b[3]);
    assert(ns == 16777216 * b[4] + 65536 * b[5] + 256 * b[6] + b[7]);
    assert(nv == 16777216 * b[8] + 65536 * b[9] + 256 * b[10] + b[11]);
    assert(nr == 16777216 * b[12] + 65536 * b[13] + 256 * b[14] + b[15]);
    assert(lut_expected_size(b) == 40 + 4 * (ne + ns + nv + nr) + 4 * 4 * (ne * ns * nv * nr)) by {
        assert(ns * nv * ne * nr * 16 == 4 * 4 * (ne * ns * nv * nr)) by (nonlinear_arith);
        assert((ne + ns + nv + nr) * 4 == 4 * (ne + ns + nv + nr));
    }
}

/// Checks the header of a lookup-table file against its length and gives
/// where its grids and tables lie.
pub fn lut_layout(b: &[u8]) -> (r: Result<LutLayout, LutError>)
    ensures
        match r {
            Ok(l) => 40 <= b@.len() && lut_expected_size(b@) == b@.len() && lut_layout_of(l, b@),
            Err(LutError::TooSmall { actual }) => b@.len() < 40 && actual == b@.len(),
            Err(LutError::SizeMismatch { expected, actual }) => {
                &&& 40 <= b@.len()
                &&& actual == b@.len()
                &&& lut_expected_size(b@) != b@.len()
                &&& match expected {
                    Some(x) => x == lut_expected_size(b@),
                    None => lut_expected_size(b@) > usize::MAX,
                }
            },
        },
{
    if b.len() < 40 {
        return Err(LutError::TooSmall { actual: b.len() });
    }
    let big = Endian::Big;
    let ne = u32_in(b, 0, &big) as u128;
    let ns = u32_in(b, 4, &big) as u128;
    let nv = u32_in(b, 8, &big) as u128;
    let nr = u32_in(b, 12, &big) as u128;
    assert(ns * nv <= 0xffff_ffff * 0xffff_ffff) by (nonlinear_arith)
        requires
            ns <= 0xffff_ffff,
            nv <= 0xffff_ffff,
    ;
    let p1 = ns * nv;
    assert(p1 * ne <= 0xffff_ffff * 0xffff_ffff * 0xffff_ffff) by (nonlinear_arith)
        requires
            p1 <= 0xffff_ffff * 0xffff_ffff,
            ne <= 0xffff_ffff,
    ;
    let p2 = p1 * ne;
    assert(p2 * nr <= 0xffff_ffff * 0xffff_ffff * 0xffff_ffff * 0xffff_ffff) by (nonlinear_arith)
        requires
            p2 <= 0xffff_ffff * 0xffff_ffff * 0xffff_ffff,
            nr <= 0xffff_ffff,
    ;
    let total = p2 * nr;
    let grids = 40 + 4 * (ne + ns + nv + nr);
    let expected: Option<u128> = match total.checked_mul(16) {
        Some(data_bytes) => data_bytes.checked_add(grids),
        None => None,
    };
    assert(expected matches Some(x) ==> x == lut_expected_size(b@));
    assert(expected is None ==> lut_expected_size(b@) > u128::MAX);
    match expected {
        Some(size) => {
            if size != b.len() as u128 {
                let reported = if size <= usize::MAX as u128 {
                    Some(size as usize)
                } else {
                    None
                };
                return Err(LutError::SizeMismatch { expected: reported, actual: b.len() });
            }
            let n_elev = ne as usize;
            let n_sza = ns as usize;
            let n_vza = nv as usize;
            let n_raa = nr as usize;
            let elev_offset: usize = 40;
            let sza_offset = elev_offset + 4 * n_elev;
            let vza_offset = sza_offset + 4 * n_sza;
            let raa_offset = vza_offset + 4 * n_vza;
            let data_offset = raa_offset + 4 * n_raa;
            Ok(
                LutLayout {
                    n_elev,
                    n_sza,
                    n_vza,
                    n_raa,
                    total: total as usize,
                    elev_offset,
                    sza_offset,
                    vza_offset,
                    raa_offset,
                    data_offset,
                },
            )
        },
        None => Err(LutError::SizeMismatch { expected: None, actual: b.len() }),
    }
}

/// Row-major position within a product of ranges: one coordinate `a` below
/// `na`, the next `b` below `nb`.
proof fn lemma_row_major_step(a: int, na: int, b: int, nb: int)
    requires
        0 <= a < na,
        0 <= b < nb,
    ensures
        0 <= a * nb + b < na * nb,
{
    assert(0 <= a * nb + b < na * nb) by (nonlinear_arith)
        requires
            0 <= a < na,
            0 <= b < nb,
    ;
}

impl LutLayout {
    /// The position in each table of the entry for the given grid indices:
    /// the tables are ordered by solar zenith, viewing zenith, elevation,
    /// then relative azimuth.
    pub fn table_index(&self, i_sza: usize, i_vza: usize, i_elev: usize, i_raa: usize) -> (r: usize)
        requires
            self.total == self.n_sza * self.n_vza * self.n_elev * self.n_raa,
            i_sza < self.n_sza,
            i_vza < self.n_vza,
            i_elev < self.n_elev,
            i_raa < self.n_raa,
        ensures
            r == ((i_sza * self.n_vza + i_vza) * self.n_elev + i_elev) * self.n_raa + i_raa,
            r < self.total,
    {
        let ghost ns = self.n_sza as int;
        let ghost nv = self.n_vza as int;
        let ghost ne = self.n_elev as int;
        let ghost nr = self.n_raa as int;
        proof {
            lemma_row_major_step(i_sza as int, ns, i_vza as int, nv);
            lemma_row_major_step(i_sza * nv + i_vza, ns * nv, i_elev as int, ne);
            lemma_row_major_step(
                (i_sza * nv + i_vza) * ne + i_elev,
                ns * nv * ne,
                i_raa as int,
                nr,
            );
            assert(ns * nv <= ns * nv * ne) by (nonlinear_arith)
                requires
                    0 <= ns * nv,
                    1 <= ne,
            ;
            assert(ns * nv * ne <= ns * nv * ne * nr) by (nonlinear_arith)
                requires
                    0 <= ns * nv * ne,
                    1 <= nr,
            ;
        }
        let a = i_sza * self.n_vza + i_vza;
        let c = a * self.n_elev + i_elev;
        c * self.n_raa + i_raa
    }
}

/// Why the geometry arrays were refused.
#[derive(Debug, Clone, Copy, PartialEq, Eq)]
pub enum GeometryError {
    /// The latitude, longitude, viewing azimuth and viewing zenith arrays
    /// differ in length.
    LengthMismatch,
    /// Their common length is not a whole number of image lines.
    NotWholeLines,
}

/// Checks the lengths of the four geometry arrays against each other and
/// against the line width.
pub fn check_geometry_lengths(
    lat_len: usize,
    lon_len: usize,
    vaa_len: usize,
    vza_len: usize,
    width: usize,
) -> (r: Result<(), GeometryError>)
    requires
        width > 0,
    ensures
        match r {
            Ok(()) => lat_len == lon_len == vaa_len == vza_len && lat_len % width == 0,
            Err(GeometryError::LengthMismatch) => !(lat_len == lon_len == vaa_len == vza_len),
            Err(GeometryError::NotWholeLines) => lat_len == lon_len == vaa_len == vza_len
                && lat_len % width != 0,
        },
{
    if lat_len != lon_len || lat_len != vaa_len || lat_len != vza_len {
        return Err(GeometryError::LengthMismatch);
    }
    if lat_len % width != 0 {
        return Err(GeometryError::NotWholeLines);
    }
    Ok(())
}

/// The element range of `num_lines` image lines of `width` elements from
/// line `start_line` on.
pub fn segment_range(start_line: usize, num_lines: usize, width: usize) -> (r: (usize, usize))
    requires
        start_line + num_lines <= usize::MAX,
        (start_line + num_lines) * width <= usize::MAX,
    ensures
        r.0 == start_line * width,
        r.1 == (start_line + num_lines) * width,
{
    assert(start_line * width <= (start_line + num_lines) * width) by (nonlinear_arith)
        requires
            0 <= num_lines,
            0 <= width,
    ;
    (start_line * width, (start_line + num_lines) * width)
}

/// The element range of `num_lines` lines from `start_line` on, cut at the
/// end of an array of `len` elements.
pub fn segment_range_within(start_line: usize, num_lines: usize, width: usize, len: usize) -> (r: (
    usize,
    usize,
))
    requires
        start_line + num_lines <= usize::MAX,
        (start_line + num_lines) * width <= usize::MAX,
    ensures
        r.0 == start_line * width,
        r.1 == if (start_line + num_lines) * width <= len {
            (start_line + num_lines) * width
        } else {
            len as int
        },
{
    let (start, end) = segment_range(start_line, num_lines, width);
    (start, if end <= len { end } else { len })
}

/// A run of `n` lines spans `n * width` elements, and the run that follows
/// it starts where it ends: consecutive segments tile the image.
pub proof fn lemma_segment_ranges_tile(start_line: int, n: int, m: int, width: int)
    requires
        0 <= start_line,
        0 <= n,
        0 <= m,
        0 <= width,
    ensures
        (start_line + n) * width - start_line * width == n * width,
        (start_line + n + m) * width - (start_line + n) * width == m * width,
        start_line * width <= (start_line + n) * width,
{
    assert((start_line + n + m) * width == (start_line + n) * width + m * width) by (nonlinear_arith);
    assert((start_line + n) * width == start_line * width + n * width) by (nonlinear_arith);
    assert(0 <= n * width) by (nonlinear_arith)
        requires
            0 <= n,
            0 <= width,
    ;
}

} // verus!
