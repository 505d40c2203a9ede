//! Parsing the decompressed bytes of an HSD file: header blocks #1 to #11 in
//! order, then the pixel counts of block #12.
//!
//! Every block is a fixed layout of fields after its start, read in the byte
//! order announced by block #1 (the block-length fields are always little
//! endian).  A block parses exactly when the buffer holds the last field it
//! has to read; reserved areas after that are skipped without being read.

use crate::bytes::{
    byte_at, u16_at, u16_in, u32_at, u32_in, u64_at, u64_in, Endian,
};
use crate::file_struct::{
    endian_of_flag, BandSpecificCalibration, BasicInfoBlock, CalibrationInfoBlock, DataInfoBlock,
    ErrorInfoBlock, HsdData, HsdError, HsdFile, HsdMetadata, InterCalibrationInfoBlock,
    LineErrorInfo, LineObservationTime, NavCorrectionInfoBlock, NavigationInfoBlock,
    ObservationTimeInfoBlock, ProjectionInfoBlock, QualityFlags, SegmentInfoBlock,
    TranslationCorrection,
};
use crate::text::{c_string_at, read_c_string};
use bzip2::bufread::MultiBzDecoder;
use std::io::Read;
use vstd::prelude::*;

verus! {

/// Bit pattern of the double-precision value -1010.0 that marks an
/// undefined value.
pub const UNDEFINED_F64_BITS: u64 = 0xC08F_9000_0000_0000;

/// Bit pattern of the single-precision value -1010.0 that marks an
/// undefined value.
pub const UNDEFINED_F32_BITS: u32 = 0xC47C_8000;

/// Upper bound of the start offsets the block parsers are called with: all
/// offsets within the header stay far below it, as every count in the header
/// is a 16-bit number.
pub const OFFSET_BOUND: usize = 0x1000_0000;

/// The byte order label that block #1 stores for its flag byte.
pub open spec fn byte_order_label(flag: u8) -> Seq<char> {
    if flag == 1 {
        "Big Endian"@
    } else {
        "Little Endian"@
    }
}

/// The bits of quality flag 1.
pub open spec fn quality_flags_of(q: u8) -> QualityFlags {
    QualityFlags {
        flag1_valid: (q & 0x80) == 0,
        sun_data_degradation: (q & 0x40) != 0,
        moon_data_degradation: (q & 0x20) != 0,
        is_test_observation: (q & 0x10) != 0,
        is_maneuvering: (q & 0x08) != 0,
        is_unloading: (q & 0x04) != 0,
        is_in_solar_calibration: (q & 0x02) != 0,
        is_in_solar_eclipse: (q & 0x01) != 0,
    }
}

/// A double-precision field at `i`, `None` when it holds the undefined marker.
pub open spec fn opt_f64_at(b: Seq<u8>, i: int, e: Endian) -> Option<u64> {
    if u64_at(b, i, e) == UNDEFINED_F64_BITS {
        None
    } else {
        Some(u64_at(b, i, e) as u64)
    }
}

/// A single-precision field at `i`, `None` when it holds the undefined marker.
pub open spec fn opt_f32_at(b: Seq<u8>, i: int, e: Endian) -> Option<u32> {
    if u32_at(b, i, e) == UNDEFINED_F32_BITS {
        None
    } else {
        Some(u32_at(b, i, e) as u32)
    }
}

/// The byte order of a file, given by the flag byte at offset 5.
pub open spec fn file_endian(b: Seq<u8>) -> Endian {
    endian_of_flag(b[5])
}

// ---------------------------------------------------------------------------
// Block #1
// ---------------------------------------------------------------------------

/// Block #1 holds the fields of the file's first 242 bytes.
pub open spec fn basic_info_at(blk: BasicInfoBlock, b: Seq<u8>) -> bool {
    let e = file_endian(b);
    &&& blk.byte_order@ == byte_order_label(b[5])
    &&& blk.satellite_name@ == c_string_at(b, 6, 16)
    &&& blk.processing_center_name@ == c_string_at(b, 22, 16)
    &&& blk.observation_area@ == c_string_at(b, 38, 4)
    &&& blk.observation_timeline == u16_at(b, 44, e)
    &&& blk.observation_start_time_mjd_bits == u64_at(b, 46, e)
    &&& blk.observation_end_time_mjd_bits == u64_at(b, 54, e)
    &&& blk.file_creation_time_mjd_bits == u64_at(b, 62, e)
    &&& blk.total_header_length == u32_at(b, 70, e)
    &&& blk.total_data_length == u32_at(b, 74, e)
    &&& blk.quality_flags == quality_flags_of(b[78])
    &&& blk.file_format_version@ == c_string_at(b, 82, 32)
    &&& blk.file_name@ == c_string_at(b, 114, 128)
}

/// Parses block #1 from the start of the buffer; the next block starts at 282.
pub(crate) fn parse_block_1(b: &[u8]) -> (r: Result<(BasicInfoBlock, usize), HsdError>)
    ensures
        match r {
            Ok((blk, next)) => 242 <= b@.len() && basic_info_at(blk, b@) && next == 282,
            Err(err) => b@.len() < 242 && err == HsdError::UnexpectedEof,
        },
{
    if b.len() < 242 {
        return Err(HsdError::UnexpectedEof);
    }
    let flag = byte_at(b, 5);
    let byte_order = if flag == 1 {
        "Big Endian".to_owned()
    } else {
        "Little Endian".to_owned()
    };
    let e = if flag == 1 {
        Endian::Big
    } else {
        Endian::Little
    };
    let qf1 = byte_at(b, 78);
    let quality_flags = QualityFlags {
        flag1_valid: (qf1 & 0x80) == 0,
        sun_data_degradation: (qf1 & 0x40) != 0,
        moon_data_degradation: (qf1 & 0x20) != 0,
        is_test_observation: (qf1 & 0x10) != 0,
        is_maneuvering: (qf1 & 0x08) != 0,
        is_unloading: (qf1 & 0x04) != 0,
        is_in_solar_calibration: (qf1 & 0x02) != 0,
        is_in_solar_eclipse: (qf1 & 0x01) != 0,
    };
    let satellite_name = match read_c_string(b, 6, 16) {
        Ok(t) => t,
        Err(err) => return Err(err),
    };
    let processing_center_name = match read_c_string(b, 22, 16) {
        Ok(t) => t,
        Err(err) => return Err(err),
    };
    let observation_area = match read_c_string(b, 38, 4) {
        Ok(t) => t,
        Err(err) => return Err(err),
    };
    let file_format_version = match read_c_string(b, 82, 32) {
        Ok(t) => t,
        Err(err) => return Err(err),
    };
    let file_name = match read_c_string(b, 114, 128) {
        Ok(t) => t,
        Err(err) => return Err(err),
    };
    let blk = BasicInfoBlock {
        byte_order,
        satellite_name,
        processing_center_name,
        observation_area,
        observation_timeline: u16_in(b, 44, &e),
        observation_start_time_mjd_bits: u64_in(b, 46, &e),
        observation_end_time_mjd_bits: u64_in(b, 54, &e),
        file_creation_time_mjd_bits: u64_in(b, 62, &e),
        total_header_length: u32_in(b, 70, &e),
        total_data_length: u32_in(b, 74, &e),
        quality_flags,
        file_format_version,
        file_name,
    };
    Ok((blk, 282))
}

// ---------------------------------------------------------------------------
// Block #2
// ---------------------------------------------------------------------------

/// The compression label for the compression flag of block #2.
pub open spec fn compression_label(flag: u8) -> Seq<char> {
    if flag == 0 {
        "no compression"@
    } else if flag == 1 {
        "gzip"@
    } else if flag == 2 {
        "bzip2"@
    } else {
        "unknown"@
    }
}

/// Block #2 starting at `p` holds these fields.
pub open spec fn data_info_at(blk: DataInfoBlock, b: Seq<u8>, p: int, e: Endian) -> bool {
    &&& blk.bits_per_pixel == u16_at(b, p + 3, e)
    &&& blk.columns == u16_at(b, p + 5, e)
    &&& blk.lines == u16_at(b, p + 7, e)
    &&& blk.compression@ == compression_label(b[p + 9])
}

/// Parses block #2 at `p`; it reads 10 bytes and spans 50.
pub(crate) fn parse_block_2(b: &[u8], p: usize, e: &Endian) -> (r: Result<
    (DataInfoBlock, usize),
    HsdError,
>)
    requires
        p <= OFFSET_BOUND,
    ensures
        match r {
            Ok((blk, next)) => p + 10 <= b@.len() && data_info_at(blk, b@, p as int, *e) && next
                == p + 50,
            Err(err) => b@.len() < p + 10 && err == HsdError::UnexpectedEof,
        },
{
    if b.len() < p + 10 {
        return Err(HsdError::UnexpectedEof);
    }
    let flag = byte_at(b, p + 9);
    let compression = if flag == 0 {
        "no compression".to_owned()
    } else if flag == 1 {
        "gzip".to_owned()
    } else if flag == 2 {
        "bzip2".to_owned()
    } else {
        "unknown".to_owned()
    };
    let blk = DataInfoBlock {
        bits_per_pixel: u16_in(b, p + 3, e),
        columns: u16_in(b, p + 5, e),
        lines: u16_in(b, p + 7, e),
        compression,
    };
    Ok((blk, p + 50))
}

// ---------------------------------------------------------------------------
// Block #3
// ---------------------------------------------------------------------------

/// Block #3 starting at `p` holds these fields.
pub open spec fn projection_info_at(blk: ProjectionInfoBlock, b: Seq<u8>, p: int, e: Endian) -> bool {
    &&& blk.sub_lon_bits == u64_at(b, p + 3, e)
    &&& blk.cfac == u32_at(b, p + 11, e)
    &&& blk.lfac == u32_at(b, p + 15, e)
    &&& blk.coff_bits == u32_at(b, p + 19, e)
    &&& blk.loff_bits == u32_at(b, p + 23, e)
    &&& blk.rs_bits == u64_at(b, p + 27, e)
    &&& blk.req_bits == u64_at(b, p + 35, e)
    &&& blk.rpol_bits == u64_at(b, p + 43, e)
}

/// Parses block #3 at `p`; it reads 51 bytes and spans 127 (the WGS84
/// constants and the reserved area are skipped).
pub(crate) fn parse_block_3(b: &[u8], p: usize, e: &Endian) -> (r: Result<
    (ProjectionInfoBlock, usize),
    HsdError,
>)
    requires
        p <= OFFSET_BOUND,
    ensures
        match r {
            Ok((blk, next)) => p + 51 <= b@.len() && projection_info_at(blk, b@, p as int, *e)
                && next == p + 127,
            Err(err) => b@.len() < p + 51 && err == HsdError::UnexpectedEof,
        },
{
    if b.len() < p + 51 {
        return Err(HsdError::UnexpectedEof);
    }
    let blk = ProjectionInfoBlock {
        sub_lon_bits: u64_in(b, p + 3, e),
        cfac: u32_in(b, p + 11, e),
        lfac: u32_in(b, p + 15, e),
        coff_bits: u32_in(b, p + 19, e),
        loff_bits: u32_in(b, p + 23, e),
        rs_bits: u64_in(b, p + 27, e),
        req_bits: u64_in(b, p + 35, e),
        rpol_bits: u64_in(b, p + 43, e),
    };
    Ok((blk, p + 127))
}

// ---------------------------------------------------------------------------
// Block #4
// ---------------------------------------------------------------------------

/// Reads a double-precision field that may hold the undefined marker.
fn read_opt_f64(b: &[u8], at: usize, e: &Endian) -> (r: Option<u64>)
    requires
        at + 8 <= b@.len(),
    ensures
        r == opt_f64_at(b@, at as int, *e),
{
    let v = u64_in(b, at, e);
    if v == UNDEFINED_F64_BITS {
        None
    } else {
        Some(v)
    }
}

/// Reads a single-precision field that may hold the undefined marker.
fn read_opt_f32(b: &[u8], at: usize, e: &Endian) -> (r: Option<u32>)
    requires
        at + 4 <= b@.len(),
    ensures
        r == opt_f32_at(b@, at as int, *e),
{
    let v = u32_in(b, at, e);
    if v == UNDEFINED_F32_BITS {
        None
    } else {
        Some(v)
    }
}

/// The x coordinate of the moon in block #4 at `p` is marked undefined.
pub open spec fn moon_undefined(b: Seq<u8>, p: int, e: Endian) -> bool {
    u64_at(b, p + 75, e) == UNDEFINED_F64_BITS
}

/// The bytes that block #4 at `p` has to read: the y and z coordinates of the
/// moon are skipped when its x coordinate is undefined.
pub open spec fn navigation_need(b: Seq<u8>, p: int, e: Endian) -> int {
    if moon_undefined(b, p, e) {
        p + 83
    } else {
        p + 99
    }
}

/// Block #4 starting at `p` holds these fields.
pub open spec fn navigation_info_at(blk: NavigationInfoBlock, b: Seq<u8>, p: int, e: Endian) -> bool {
    &&& blk.navigation_time_mjd_bits == u64_at(b, p + 3, e)
    &&& blk.ssp_longitude_bits == opt_f64_at(b, p + 11, e)
    &&& blk.ssp_latitude_bits == opt_f64_at(b, p + 19, e)
    &&& blk.distance_from_center_bits == opt_f64_at(b, p + 27, e)
    &&& blk.nadir_longitude_bits == opt_f64_at(b, p + 35, e)
    &&& blk.nadir_latitude_bits == opt_f64_at(b, p + 43, e)
    &&& blk.sun_position_j2000_bits@ == seq![
        u64_at(b, p + 51, e) as u64,
        u64_at(b, p + 59, e) as u64,
        u64_at(b, p + 67, e) as u64,
    ]
    &&& (moon_undefined(b, p, e) ==> blk.moon_position_j2000_bits is None)
    &&& (!moon_undefined(b, p, e) ==> (blk.moon_position_j2000_bits matches Some(m) && m@ == seq![
        u64_at(b, p + 75, e) as u64,
        u64_at(b, p + 83, e) as u64,
        u64_at(b, p + 91, e) as u64,
    ]))
}

/// Parses block #4 at `p`; it spans 139 bytes.
pub(crate) fn parse_block_4(b: &[u8], p: usize, e: &Endian) -> (r: Result<
    (NavigationInfoBlock, usize),
    HsdError,
>)
    requires
        p <= OFFSET_BOUND,
    ensures
        match r {
            Ok((blk, next)) => navigation_need(b@, p as int, *e) <= b@.len() && navigation_info_at(
                blk,
                b@,
                p as int,
                *e,
            ) && next == p + 139,
            Err(err) => b@.len() < navigation_need(b@, p as int, *e) && err
                == HsdError::UnexpectedEof,
        },
{
    if b.len() < p + 83 {
        return Err(HsdError::UnexpectedEof);
    }
    let navigation_time_mjd_bits = u64_in(b, p + 3, e);
    let ssp_longitude_bits = read_opt_f64(b, p + 11, e);
    let ssp_latitude_bits = read_opt_f64(b, p + 19, e);
    let distance_from_center_bits = read_opt_f64(b, p + 27, e);
    let nadir_longitude_bits = read_opt_f64(b, p + 35, e);
    let nadir_latitude_bits = read_opt_f64(b, p + 43, e);
    let sun_position_j2000_bits = [u64_in(b, p + 51, e), u64_in(b, p + 59, e), u64_in(b, p + 67, e)];
    let moon_x = u64_in(b, p + 75, e);
    let moon_position_j2000_bits = if moon_x == UNDEFINED_F64_BITS {
        None
    } else {
        if b.len() < p + 99 {
            return Err(HsdError::UnexpectedEof);
        }
        Some([moon_x, u64_in(b, p + 83, e), u64_in(b, p + 91, e)])
    };
    let blk = NavigationInfoBlock {
        navigation_time_mjd_bits,
        ssp_longitude_bits,
        ssp_latitude_bits,
        distance_from_center_bits,
        nadir_longitude_bits,
        nadir_latitude_bits,
        sun_position_j2000_bits,
        moon_position_j2000_bits,
    };
    Ok((blk, p + 139))
}

// ---------------------------------------------------------------------------
// Block #5
// ---------------------------------------------------------------------------

/// The bytes that block #5 at `p` has to read: four band-specific values for
/// bands 1 to 6, nine for the others.
pub open spec fn calibration_need(b: Seq<u8>, p: int, e: Endian) -> int {
    if u16_at(b, p + 3, e) <= 6 {
        p + 67
    } else {
        p + 107
    }
}

/// Block #5 starting at `p` holds these fields.
pub open spec fn calibration_info_at(blk: CalibrationInfoBlock, b: Seq<u8>, p: int, e: Endian) -> bool {
    &&& blk.band_number == u16_at(b, p + 3, e)
    &&& blk.central_wavelength_bits == u64_at(b, p + 5, e)
    &&& blk.valid_bits_per_pixel == u16_at(b, p + 13, e)
    &&& blk.count_error_pixel == u16_at(b, p + 15, e)
    &&& blk.count_outside_scan_area == u16_at(b, p + 17, e)
    &&& blk.slope_bits == u64_at(b, p + 19, e)
    &&& blk.intercept_bits == u64_at(b, p + 27, e)
    &&& match blk.band_specific_calibration {
        BandSpecificCalibration::VisibleNIR {
            albedo_conversion_coeff_bits,
            calibrated_slope_bits,
            calibrated_intercept_bits,
            update_time_mjd_bits,
        } => {
            &&& blk.band_number <= 6
            &&& albedo_conversion_coeff_bits == u64_at(b, p + 35, e)
            &&& update_time_mjd_bits == u64_at(b, p + 43, e)
            &&& calibrated_slope_bits == u64_at(b, p + 51, e)
            &&& calibrated_intercept_bits == u64_at(b, p + 59, e)
        },
        BandSpecificCalibration::Infrared {
            tb_conversion_coeffs_bits,
            radiance_conversion_coeffs_bits,
            speed_of_light_bits,
            planck_constant_bits,
            boltzmann_constant_bits,
        } => {
            &&& blk.band_number > 6
            &&& tb_conversion_coeffs_bits == (
                u64_at(b, p + 35, e) as u64,
                u64_at(b, p + 43, e) as u64,
                u64_at(b, p + 51, e) as u64,
            )
            &&& radiance_conversion_coeffs_bits == (
                u64_at(b, p + 59, e) as u64,
                u64_at(b, p + 67, e) as u64,
                u64_at(b, p + 75, e) as u64,
            )
            &&& speed_of_light_bits == u64_at(b, p + 83, e)
            &&& planck_constant_bits == u64_at(b, p + 91, e)
            &&& boltzmann_constant_bits == u64_at(b, p + 99, e)
        },
    }
}

/// Parses block #5 at `p`; it spans 147 bytes.
pub(crate) fn parse_block_5(b: &[u8], p: usize, e: &Endian) -> (r: Result<
    (CalibrationInfoBlock, usize),
    HsdError,
>)
    requires
        p <= OFFSET_BOUND,
    ensures
        match r {
            Ok((blk, next)) => calibration_need(b@, p as int, *e) <= b@.len()
                && calibration_info_at(blk, b@, p as int, *e) && next == p + 147,
            Err(err) => b@.len() < calibration_need(b@, p as int, *e) && err
                == HsdError::UnexpectedEof,
        },
{
    if b.len() < p + 67 {
        return Err(HsdError::UnexpectedEof);
    }
    let band_number = u16_in(b, p + 3, e);
    let band_specific_calibration = if band_number <= 6 {
        BandSpecificCalibration::VisibleNIR {
            albedo_conversion_coeff_bits: u64_in(b, p + 35, e),
            update_time_mjd_bits: u64_in(b, p + 43, e),
            calibrated_slope_bits: u64_in(b, p + 51, e),
            calibrated_intercept_bits: u64_in(b, p + 59, e),
        }
    } else {
        if b.len() < p + 107 {
            return Err(HsdError::UnexpectedEof);
        }
        BandSpecificCalibration::Infrared {
            tb_conversion_coeffs_bits: (u64_in(b, p + 35, e), u64_in(b, p + 43, e), u64_in(b, p + 51, e)),
            radiance_conversion_coeffs_bits: (
                u64_in(b, p + 59, e),
                u64_in(b, p + 67, e),
                u64_in(b, p + 75, e),
            ),
            speed_of_light_bits: u64_in(b, p + 83, e),
            planck_constant_bits: u64_in(b, p + 91, e),
            boltzmann_constant_bits: u64_in(b, p + 99, e),
        }
    };
    let blk = CalibrationInfoBlock {
        band_number,
        central_wavelength_bits: u64_in(b, p + 5, e),
        valid_bits_per_pixel: u16_in(b, p + 13, e),
        count_error_pixel: u16_in(b, p + 15, e),
        count_outside_scan_area: u16_in(b, p + 17, e),
        slope_bits: u64_in(b, p + 19, e),
        intercept_bits: u64_in(b, p + 27, e),
        band_specific_calibration,
    };
    Ok((blk, p + 147))
}

// ---------------------------------------------------------------------------
// Block #6
// ---------------------------------------------------------------------------

/// Block #6 starting at `p` holds these fields; an empty file name is `None`.
pub open spec fn inter_calibration_info_at(
    blk: InterCalibrationInfoBlock,
    b: Seq<u8>,
    p: int,
    e: Endian,
) -> bool {
    &&& blk.intercept_bits == opt_f64_at(b, p + 3, e)
    &&& blk.slope_bits == opt_f64_at(b, p + 11, e)
    &&& blk.quadratic_term_bits == opt_f64_at(b, p + 19, e)
    &&& blk.radiance_bias_std_scene_bits == opt_f64_at(b, p + 27, e)
    &&& blk.uncertainty_radiance_bias_bits == opt_f64_at(b, p + 35, e)
    &&& blk.radiance_std_scene_bits == opt_f64_at(b, p + 43, e)
    &&& blk.gsics_correction_start_mjd_bits == opt_f64_at(b, p + 51, e)
    &&& blk.gsics_correction_end_mjd_bits == opt_f64_at(b, p + 59, e)
    &&& blk.validity_range_upper_bits == opt_f32_at(b, p + 67, e)
    &&& blk.validity_range_lower_bits == opt_f32_at(b, p + 71, e)
    &&& match blk.gsics_correction_filename {
        None => c_string_at(b, p + 75, 128).len() == 0,
        Some(name) => name@ == c_string_at(b, p + 75, 128) && name@.len() > 0,
    }
}

/// Parses block #6 at `p`; it reads 203 bytes and spans 259.
pub(crate) fn parse_block_6(b: &[u8], p: usize, e: &Endian) -> (r: Result<
    (InterCalibrationInfoBlock, usize),
    HsdError,
>)
    requires
        p <= OFFSET_BOUND,
    ensures
        match r {
            Ok((blk, next)) => p + 203 <= b@.len() && inter_calibration_info_at(
                blk,
                b@,
                p as int,
                *e,
            ) && next == p + 259,
            Err(err) => b@.len() < p + 203 && err == HsdError::UnexpectedEof,
        },
{
    if b.len() < p + 203 {
        return Err(HsdError::UnexpectedEof);
    }
    let filename = match read_c_string(b, p + 75, 128) {
        Ok(t) => t,
        Err(err) => return Err(err),
    };
    let gsics_correction_filename = if filename.as_str().is_empty() {
        None
    } else {
        Some(filename)
    };
    let blk = InterCalibrationInfoBlock {
        intercept_bits: read_opt_f64(b, p + 3, e),
        slope_bits: read_opt_f64(b, p + 11, e),
        quadratic_term_bits: read_opt_f64(b, p + 19, e),
        radiance_bias_std_scene_bits: read_opt_f64(b, p + 27, e),
        uncertainty_radiance_bias_bits: read_opt_f64(b, p + 35, e),
        radiance_std_scene_bits: read_opt_f64(b, p + 43, e),
        gsics_correction_start_mjd_bits: read_opt_f64(b, p + 51, e),
        gsics_correction_end_mjd_bits: read_opt_f64(b, p + 59, e),
        validity_range_upper_bits: read_opt_f32(b, p + 67, e),
        validity_range_lower_bits: read_opt_f32(b, p + 71, e),
        gsics_correction_filename,
    };
    Ok((blk, p + 259))
}

// ---------------------------------------------------------------------------
// Block #7
// ---------------------------------------------------------------------------

/// Block #7 starting at `p` holds these fields.
pub open spec fn segment_info_at(blk: SegmentInfoBlock, b: Seq<u8>, p: int, e: Endian) -> bool {
    &&& blk.total_segments == b[p + 3]
    &&& blk.segment_sequence_number == b[p + 4]
    &&& blk.first_line_number == u16_at(b, p + 5, e)
}

/// Parses block #7 at `p`; it reads 7 bytes and spans 47.
pub(crate) fn parse_block_7(b: &[u8], p: usize, e: &Endian) -> (r: Result<
    (SegmentInfoBlock, usize),
    HsdError,
>)
    requires
        p <= OFFSET_BOUND,
    ensures
        match r {
            Ok((blk, next)) => p + 7 <= b@.len() && segment_info_at(blk, b@, p as int, *e) && next
                == p + 47,
            Err(err) => b@.len() < p + 7 && err == HsdError::UnexpectedEof,
        },
{
    if b.len() < p + 7 {
        return Err(HsdError::UnexpectedEof);
    }
    let blk = SegmentInfoBlock {
        total_segments: byte_at(b, p + 3),
        segment_sequence_number: byte_at(b, p + 4),
        first_line_number: u16_in(b, p + 5, e),
    };
    Ok((blk, p + 47))
}

// ---------------------------------------------------------------------------
// Block #8
// ---------------------------------------------------------------------------

/// The number of translation corrections announced by block #8 at `p`.
pub open spec fn nav_correction_count(b: Seq<u8>, p: int, e: Endian) -> int {
    u16_at(b, p + 19, e)
}

/// The bytes that block #8 at `p` has to read: 21, then 10 per correction.
pub open spec fn nav_correction_need(b: Seq<u8>, p: int, e: Endian) -> int {
    p + 21 + 10 * nav_correction_count(b, p, e)
}

/// The translation correction stored at `at`.
pub open spec fn translation_correction_at(c: TranslationCorrection, b: Seq<u8>, at: int, e: Endian) -> bool {
    &&& c.line_number_after_rotation == u16_at(b, at, e)
    &&& c.shift_amount_column_bits == u32_at(b, at + 2, e)
    &&& c.shift_amount_line_bits == u32_at(b, at + 6, e)
}

/// Block #8 starting at `p` holds these fields.
pub open spec fn nav_correction_info_at(blk: NavCorrectionInfoBlock, b: Seq<u8>, p: int, e: Endian) -> bool {
    &&& blk.center_column_rotation_bits == u32_at(b, p + 3, e)
    &&& blk.center_line_rotation_bits == u32_at(b, p + 7, e)
    &&& blk.rotation_correction_amount_bits == u64_at(b, p + 11, e)
    &&& blk.corrections@.len() == nav_correction_count(b, p, e)
    &&& forall|i: int|
        0 <= i < blk.corrections@.len() ==> translation_correction_at(
            #[trigger] blk.corrections@[i],
            b,
            p + 21 + 10 * i,
            e,
        )
}

/// Parses block #8 at `p`; it spans 40 bytes beyond what it reads.
pub(crate) fn parse_block_8(b: &[u8], p: usize, e: &Endian) -> (r: Result<
    (NavCorrectionInfoBlock, usize),
    HsdError,
>)
    requires
        p <= OFFSET_BOUND,
    ensures
        match r {
            Ok((blk, next)) => p + 21 <= b@.len() && nav_correction_need(b@, p as int, *e)
                <= b@.len() && nav_correction_info_at(blk, b@, p as int, *e) && next
                == nav_correction_need(b@, p as int, *e) + 40,
            Err(err) => (b@.len() < p + 21 || b@.len() < nav_correction_need(b@, p as int, *e))
                && err == HsdError::UnexpectedEof,
        },
{
    if b.len() < p + 21 {
        return Err(HsdError::UnexpectedEof);
    }
    let center_column_rotation_bits = u32_in(b, p + 3, e);
    let center_line_rotation_bits = u32_in(b, p + 7, e);
    let rotation_correction_amount_bits = u64_in(b, p + 11, e);
    let n = u16_in(b, p + 19, e) as usize;
    let end = p + 21 + 10 * n;
    if b.len() < end {
        return Err(HsdError::UnexpectedEof);
    }
    let mut corrections: Vec<TranslationCorrection> = Vec::with_capacity(n);
    let mut i: usize = 0;
    while i < n
        invariant
            p <= OFFSET_BOUND,
            n == nav_correction_count(b@, p as int, *e),
            end == p + 21 + 10 * n,
            end <= b@.len(),
            i <= n,
            corrections@.len() == i,
            forall|j: int|
                0 <= j < i ==> translation_correction_at(
                    #[trigger] corrections@[j],
                    b@,
                    p + 21 + 10 * j,
                    *e,
                ),
        decreases n - i,
    {
        let at = p + 21 + 10 * i;
        corrections.push(
            TranslationCorrection {
                line_number_after_rotation: u16_in(b, at, e),
                shift_amount_column_bits: u32_in(b, at + 2, e),
                shift_amount_line_bits: u32_in(b, at + 6, e),
            },
        );
        i = i + 1;
    }
    let blk = NavCorrectionInfoBlock {
        center_column_rotation_bits,
        center_line_rotation_bits,
        rotation_correction_amount_bits,
        corrections,
    };
    Ok((blk, end + 40))
}

// ---------------------------------------------------------------------------
// Block #9
// ---------------------------------------------------------------------------

/// The number of line observation times announced by block #9 at `p`.
pub open spec fn observation_time_count(b: Seq<u8>, p: int, e: Endian) -> int {
    u16_at(b, p + 3, e)
}

/// The bytes that block #9 at `p` has to read: 5, then 10 per line.
pub open spec fn observation_time_need(b: Seq<u8>, p: int, e: Endian) -> int {
    p + 5 + 10 * observation_time_count(b, p, e)
}

/// The line observation time stored at `at`.
pub open spec fn line_observation_time_at(t: LineObservationTime, b: Seq<u8>, at: int, e: Endian) -> bool {
    &&& t.line_number == u16_at(b, at, e)
    &&& t.observation_time_mjd_bits == u64_at(b, at + 2, e)
}

/// Block #9 starting at `p` holds these fields.
pub open spec fn observation_time_info_at(blk: ObservationTimeInfoBlock, b: Seq<u8>, p: int, e: Endian) -> bool {
    &&& blk.times@.len() == observation_time_count(b, p, e)
    &&& forall|i: int|
        0 <= i < blk.times@.len() ==> line_observation_time_at(
            #[trigger] blk.times@[i],
            b,
            p + 5 + 10 * i,
            e,
        )
}

/// Parses block #9 at `p`; it spans 40 bytes beyond what it reads.
pub(crate) fn parse_block_9(b: &[u8], p: usize, e: &Endian) -> (r: Result<
    (ObservationTimeInfoBlock, usize),
    HsdError,
>)
    requires
        p <= OFFSET_BOUND,
    ensures
        match r {
            Ok((blk, next)) => p + 5 <= b@.len() && observation_time_need(b@, p as int, *e)
                <= b@.len() && observation_time_info_at(blk, b@, p as int, *e) && next
                == observation_time_need(b@, p as int, *e) + 40,
            Err(err) => (b@.len() < p + 5 || b@.len() < observation_time_need(b@, p as int, *e))
                && err == HsdError::UnexpectedEof,
        },
{
    if b.len() < p + 5 {
        return Err(HsdError::UnexpectedEof);
    }
    let n = u16_in(b, p + 3, e) as usize;
    let end = p + 5 + 10 * n;
    if b.len() < end {
        return Err(HsdError::UnexpectedEof);
    }
    let mut times: Vec<LineObservationTime> = Vec::with_capacity(n);
    let mut i: usize = 0;
    while i < n
        invariant
            p <= OFFSET_BOUND,
            n == observation_time_count(b@, p as int, *e),
            end == p + 5 + 10 * n,
            end <= b@.len(),
            i <= n,
            times@.len() == i,
            forall|j: int|
                0 <= j < i ==> line_observation_time_at(
                    #[trigger] times@[j],
                    b@,
                    p + 5 + 10 * j,
                    *e,
                ),
        decreases n - i,
    {
        let at = p + 5 + 10 * i;
        times.push(
            LineObservationTime {
                line_number: u16_in(b, at, e),
                observation_time_mjd_bits: u64_in(b, at + 2, e),
            },
        );
        i = i + 1;
    }
    Ok((ObservationTimeInfoBlock { times }, end + 40))
}

// ---------------------------------------------------------------------------
// Block #10
// ---------------------------------------------------------------------------

/// The number of line error records announced by block #10 at `p` (its block
/// length is a four-byte field).
pub open spec fn error_info_count(b: Seq<u8>, p: int, e: Endian) -> int {
    u16_at(b, p + 5, e)
}

/// The bytes that block #10 at `p` has to read: 7, then 4 per line.
pub open spec fn error_info_need(b: Seq<u8>, p: int, e: Endian) -> int {
    p + 7 + 4 * error_info_count(b, p, e)
}

/// The line error record stored at `at`.
pub open spec fn line_error_info_at(l: LineErrorInfo, b: Seq<u8>, at: int, e: Endian) -> bool {
    &&& l.line_number == u16_at(b, at, e)
    &&& l.error_pixels_per_line == u16_at(b, at + 2, e)
}

/// Block #10 starting at `p` holds these fields.
pub open spec fn error_info_at(blk: ErrorInfoBlock, b: Seq<u8>, p: int, e: Endian) -> bool {
    &&& blk.errors@.len() == error_info_count(b, p, e)
    &&& forall|i: int|
        0 <= i < blk.errors@.len() ==> line_error_info_at(
            #[trigger] blk.errors@[i],
            b,
            p + 7 + 4 * i,
            e,
        )
}

/// Parses block #10 at `p`; it spans 40 bytes beyond what it reads.
pub(crate) fn parse_block_10(b: &[u8], p: usize, e: &Endian) -> (r: Result<
    (ErrorInfoBlock, usize),
    HsdError,
>)
    requires
        p <= OFFSET_BOUND,
    ensures
        match r {
            Ok((blk, next)) => p + 7 <= b@.len() && error_info_need(b@, p as int, *e) <= b@.len()
                && error_info_at(blk, b@, p as int, *e) && next == error_info_need(
                b@,
                p as int,
                *e,
            ) + 40,
            Err(err) => (b@.len() < p + 7 || b@.len() < error_info_need(b@, p as int, *e)) && err
                == HsdError::UnexpectedEof,
        },
{
    if b.len() < p + 7 {
        return Err(HsdError::UnexpectedEof);
    }
    let n = u16_in(b, p + 5, e) as usize;
    let end = p + 7 + 4 * n;
    if b.len() < end {
        return Err(HsdError::UnexpectedEof);
    }
    let mut errors: Vec<LineErrorInfo> = Vec::with_capacity(n);
    let mut i: usize = 0;
    while i < n
        invariant
            p <= OFFSET_BOUND,
            n == error_info_count(b@, p as int, *e),
            end == p + 7 + 4 * n,
            end <= b@.len(),
            i <= n,
            errors@.len() == i,
            forall|j: int|
                0 <= j < i ==> line_error_info_at(#[trigger] errors@[j], b@, p + 7 + 4 * j, *e),
        decreases n - i,
    {
        let at = p + 7 + 4 * i;
        errors.push(
            LineErrorInfo {
                line_number: u16_in(b, at, e),
                error_pixels_per_line: u16_in(b, at + 2, e),
            },
        );
        i = i + 1;
    }
    Ok((ErrorInfoBlock { errors }, end + 40))
}

// ---------------------------------------------------------------------------
// Block #11 and the pixel data
// ---------------------------------------------------------------------------

/// Skips the spare block #11 at `p`: it reads its 3-byte head and spans 259.
pub(crate) fn skip_block_11(b: &[u8], p: usize) -> (r: Result<usize, HsdError>)
    requires
        p <= OFFSET_BOUND,
    ensures
        match r {
            Ok(next) => p + 3 <= b@.len() && next == p + 259,
            Err(err) => b@.len() < p + 3 && err == HsdError::UnexpectedEof,
        },
{
    if b.len() < p + 3 {
        return Err(HsdError::UnexpectedEof);
    }
    Ok(p + 259)
}

/// The bytes that block #12 at `p` has to read: two per pixel.  No byte is
/// read when there are no pixels.
pub open spec fn pixel_need(p: int, num_pixels: int) -> int {
    if num_pixels == 0 {
        0
    } else {
        p + 2 * num_pixels
    }
}

/// `pixels` are the `num_pixels` two-byte counts from `p` on.
pub open spec fn pixels_at(pixels: Seq<u16>, b: Seq<u8>, p: int, e: Endian, num_pixels: int) -> bool {
    &&& pixels.len() == num_pixels
    &&& forall|i: int| 0 <= i < num_pixels ==> #[trigger] pixels[i] == u16_at(b, p + 2 * i, e)
}

/// Parses the pixel counts of block #12 at `p`: `columns * lines` two-byte
/// counts, row after row.
pub(crate) fn parse_block_12(b: &[u8], p: usize, e: &Endian, data_info: &DataInfoBlock) -> (r: Result<
    Vec<u16>,
    HsdError,
>)
    requires
        p <= OFFSET_BOUND,
    ensures
        match r {
            Ok(pixels) => pixel_need(p as int, data_info.columns * data_info.lines) <= b@.len()
                && pixels_at(pixels@, b@, p as int, *e, data_info.columns * data_info.lines),
            Err(err) => b@.len() < pixel_need(p as int, data_info.columns * data_info.lines)
                && err == HsdError::UnexpectedEof,
        },
{
    let columns = data_info.columns as usize;
    let lines = data_info.lines as usize;
    assert(columns * lines <= 0xffff * 0xffff) by (nonlinear_arith)
        requires
            columns <= 0xffff,
            lines <= 0xffff,
    ;
    let num_pixels = columns * lines;
    if num_pixels > 0 && (b.len() < p || (b.len() - p) / 2 < num_pixels) {
        return Err(HsdError::UnexpectedEof);
    }
    let mut pixel_data: Vec<u16> = Vec::with_capacity(num_pixels);
    let mut i: usize = 0;
    while i < num_pixels
        invariant
            i <= num_pixels,
            num_pixels > 0 ==> p + 2 * num_pixels <= b.len(),
            pixel_data@.len() == i,
            forall|j: int| 0 <= j < i ==> #[trigger] pixel_data@[j] == u16_at(b@, p + 2 * j, *e),
        decreases num_pixels - i,
    {
        pixel_data.push(u16_in(b, p + 2 * i, e));
        i = i + 1;
    }
    Ok(pixel_data)
}

// ---------------------------------------------------------------------------
// The whole file
// ---------------------------------------------------------------------------

/// Start of block #9: after block #8, whose length depends on its count.
pub open spec fn observation_time_start(b: Seq<u8>) -> int {
    nav_correction_need(b, 1051, file_endian(b)) + 40
}

/// Start of block #10.
pub open spec fn error_info_start(b: Seq<u8>) -> int {
    observation_time_need(b, observation_time_start(b), file_endian(b)) + 40
}

/// Start of the spare block #11.
pub open spec fn spare_start(b: Seq<u8>) -> int {
    error_info_need(b, error_info_start(b), file_endian(b)) + 40
}

/// Start of the pixel counts of block #12.
pub open spec fn pixel_start(b: Seq<u8>) -> int {
    spare_start(b) + 259
}

/// Columns times lines, as block #2 gives them.
pub open spec fn pixel_count(b: Seq<u8>) -> int {
    u16_at(b, 287, file_endian(b)) * u16_at(b, 289, file_endian(b))
}

/// Every block finds in `b` the bytes that it reads.  The blocks start at
/// 0, 282, 332, 459, 598, 745, 1004 and 1051; the later ones follow the
/// counts of blocks #8, #9 and #10.
pub open spec fn hsd_complete(b: Seq<u8>) -> bool {
    let e = file_endian(b);
    &&& 242 <= b.len()
    &&& 292 <= b.len()
    &&& 383 <= b.len()
    &&& navigation_need(b, 459, e) <= b.len()
    &&& calibration_need(b, 598, e) <= b.len()
    &&& 948 <= b.len()
    &&& 1011 <= b.len()
    &&& 1072 <= b.len()
    &&& nav_correction_need(b, 1051, e) <= b.len()
    &&& observation_time_start(b) + 5 <= b.len()
    &&& observation_time_need(b, observation_time_start(b), e) <= b.len()
    &&& error_info_start(b) + 7 <= b.len()
    &&& error_info_need(b, error_info_start(b), e) <= b.len()
    &&& spare_start(b) + 3 <= b.len()
    &&& pixel_need(pixel_start(b), pixel_count(b)) <= b.len()
}

/// The header blocks of `b`, each at its start, in the byte order of block #1.
pub open spec fn hsd_metadata_at(m: HsdMetadata, b: Seq<u8>) -> bool {
    let e = file_endian(b);
    &&& basic_info_at(m.basic_info, b)
    &&& data_info_at(m.data_info, b, 282, e)
    &&& projection_info_at(m.projection_info, b, 332, e)
    &&& navigation_info_at(m.navigation_info, b, 459, e)
    &&& calibration_info_at(m.calibration_info, b, 598, e)
    &&& inter_calibration_info_at(m.inter_calibration_info, b, 745, e)
    &&& segment_info_at(m.segment_info, b, 1004, e)
    &&& nav_correction_info_at(m.nav_correction_info, b, 1051, e)
    &&& observation_time_info_at(m.observation_time_info, b, observation_time_start(b), e)
    &&& error_info_at(m.error_info, b, error_info_start(b), e)
}

/// `f` is what the decompressed bytes `b` hold: the header blocks, the size
/// (columns, lines) of block #2, and that many pixel counts.
pub open spec fn hsd_file_at(f: HsdFile, b: Seq<u8>) -> bool {
    &&& hsd_metadata_at(f.metadata, b)
    &&& f.data.size == (f.metadata.data_info.columns, f.metadata.data_info.lines)
    &&& pixels_at(f.data.data@, b, pixel_start(b), file_endian(b), pixel_count(b))
}

/// Parses the decompressed bytes of an HSD file: the header blocks #1 to
/// #10, the spare block #11, then the pixel counts.  It fails exactly when
/// the bytes end before a field that has to be read.
pub fn parse_hsd_file(b: &[u8]) -> (r: Result<HsdFile, HsdError>)
    ensures
        match r {
            Ok(f) => hsd_complete(b@) && hsd_file_at(f, b@),
            Err(err) => !hsd_complete(b@) && err == HsdError::UnexpectedEof,
        },
{
    let (basic_info, p) = parse_block_1(b)?;
    let big = basic_info.byte_order == "Big Endian".to_owned();
    proof {
        reveal_strlit("Big Endian");
        reveal_strlit("Little Endian");
        assert("Big Endian"@.len() != "Little Endian"@.len());
    }
    let endianness = if big {
        Endian::Big
    } else {
        Endian::Little
    };
    assert(endianness == file_endian(b@));
    let (data_info, p) = parse_block_2(b, p, &endianness)?;
    let (projection_info, p) = parse_block_3(b, p, &endianness)?;
    let (navigation_info, p) = parse_block_4(b, p, &endianness)?;
    let (calibration_info, p) = parse_block_5(b, p, &endianness)?;
    let (inter_calibration_info, p) = parse_block_6(b, p, &endianness)?;
    let (segment_info, p) = parse_block_7(b, p, &endianness)?;
    let (nav_correction_info, p) = parse_block_8(b, p, &endianness)?;
    let (observation_time_info, p) = parse_block_9(b, p, &endianness)?;
    let (error_info, p) = parse_block_10(b, p, &endianness)?;
    let p = skip_block_11(b, p)?;
    let metadata = HsdMetadata {
        basic_info,
        data_info,
        projection_info,
        navigation_info,
        calibration_info,
        inter_calibration_info,
        segment_info,
        nav_correction_info,
        observation_time_info,
        error_info,
    };
    let data_block = parse_block_12(b, p, &endianness, &metadata.data_info)?;
    let data = HsdData {
        size: (metadata.data_info.columns, metadata.data_info.lines),
        data: data_block,
    };
    Ok(HsdFile { metadata, data })
}

// ---------------------------------------------------------------------------
// Decompression
// ---------------------------------------------------------------------------

/// `std::io::Error`, the error of a failed decompression.
#[verifier::external_type_specification]
#[verifier::external_body]
pub struct ExIoError(std::io::Error);

/// What decompressing all bzip2 streams of `compressed` yields, or `None`
/// when that fails.
pub uninterp spec fn bz2_decoded(compressed: Seq<u8>) -> Option<Seq<u8>>;

/// bzip2's `bufread::MultiBzDecoder` over the in-memory bytes, read to the
/// end.  The claim is that the outcome is a function of the bytes alone: it
/// fails exactly when `bz2_decoded` is `None`, and otherwise yields it.
#[verifier::external_body]
fn decompress_bz2(compressed: &[u8]) -> (r: Result<Vec<u8>, std::io::Error>)
    ensures
        match r {
            Ok(v) => bz2_decoded(compressed@) == Some(v@),
            Err(_) => bz2_decoded(compressed@) is None,
        },
{
    let mut out = Vec::new();
    match MultiBzDecoder::new(compressed).read_to_end(&mut out) {
        Ok(_) => Ok(out),
        Err(e) => Err(e),
    }
}

impl HsdFile {
    /// Reads an HSD file from its bzip2-compressed bytes: decompresses all
    /// streams, then parses the header blocks and the pixel counts.
    pub fn build(compressed: &[u8]) -> (r: Result<HsdFile, HsdError>)
        ensures
            match bz2_decoded(compressed@) {
                None => r matches Err(err) && err == HsdError::Decompress,
                Some(d) => match r {
                    Ok(f) => hsd_complete(d) && hsd_file_at(f, d),
                    Err(err) => !hsd_complete(d) && err == HsdError::UnexpectedEof,
                },
            },
    {
        let buffer = match decompress_bz2(compressed) {
            Ok(v) => v,
            Err(_) => return Err(HsdError::Decompress),
        };
        parse_hsd_file(buffer.as_slice())
    }
}

// ---------------------------------------------------------------------------
// Laws
// ---------------------------------------------------------------------------

/// A parsed file holds one pixel count per pixel of its size: columns
/// times lines.
pub proof fn lemma_pixels_fill_size(f: HsdFile, b: Seq<u8>)
    requires
        hsd_file_at(f, b),
    ensures
        f.data.data@.len() == f.data.size.0 * f.data.size.1,
{
}

/// The byte order label of a parsed file is "Big Endian" exactly when its
/// flag byte is 1, and then every multi-byte field of the header is read
/// big-endian; otherwise it is "Little Endian" and they are read
/// little-endian.
pub proof fn lemma_byte_order_label(f: HsdFile, b: Seq<u8>)
    requires
        hsd_file_at(f, b),
    ensures
        (f.metadata.basic_info.byte_order@ == "Big Endian"@) <==> b[5] == 1,
        (f.metadata.basic_info.byte_order@ == "Little Endian"@) <==> b[5] != 1,
        b[5] == 1 ==> file_endian(b) == Endian::Big,
        b[5] != 1 ==> file_endian(b) == Endian::Little,
{
    reveal_strlit("Big Endian");
    reveal_strlit("Little Endian");
    assert("Big Endian"@.len() != "Little Endian"@.len());
}

/// Bytes that follow what a file needs change nothing: a complete file
/// stays complete, and describes the same records, when more bytes follow.
pub proof fn lemma_trailing_bytes_ignored(b: Seq<u8>, extra: Seq<u8>, f: HsdFile)
    requires
        hsd_complete(b),
    ensures
        hsd_complete(b + extra),
        hsd_file_at(f, b) <==> hsd_file_at(f, b + extra),
{
    let c = b + extra;
    assert forall|i: int| 0 <= i < b.len() implies c[i] == b[i] by {}
    assert(c.subrange(6, 22) =~= b.subrange(6, 22));
    assert(c.subrange(22, 38) =~= b.subrange(22, 38));
    assert(c.subrange(38, 42) =~= b.subrange(38, 42));
    assert(c.subrange(82, 114) =~= b.subrange(82, 114));
    assert(c.subrange(114, 242) =~= b.subrange(114, 242));
    assert(c.subrange(820, 948) =~= b.subrange(820, 948));
    assert(file_endian(c) == file_endian(b));
}

/// Where blocks #1 and #2 of a parsed file come from, as byte offsets from
/// the start of the file (block #2 starts at 282), in the byte order that
/// the flag at 5 gives.
pub proof fn lemma_basic_info_layout(f: HsdFile, b: Seq<u8>, e: Endian)
    requires
        hsd_file_at(f, b),
        e == (if b[5] == 1 {
            Endian::Big
        } else {
            Endian::Little
        }),
    ensures
        f.metadata.basic_info.satellite_name@ == c_string_at(b, 6, 16),
        f.metadata.basic_info.processing_center_name@ == c_string_at(b, 22, 16),
        f.metadata.basic_info.observation_area@ == c_string_at(b, 38, 4),
        f.metadata.basic_info.observation_timeline == u16_at(b, 44, e),
        f.metadata.basic_info.observation_start_time_mjd_bits == u64_at(b, 46, e),
        f.metadata.basic_info.observation_end_time_mjd_bits == u64_at(b, 54, e),
        f.metadata.basic_info.file_creation_time_mjd_bits == u64_at(b, 62, e),
        f.metadata.basic_info.total_header_length == u32_at(b, 70, e),
        f.metadata.basic_info.total_data_length == u32_at(b, 74, e),
        f.metadata.basic_info.quality_flags.flag1_valid == ((b[78] & 0x80) == 0),
        f.metadata.basic_info.quality_flags.sun_data_degradation == ((b[78] & 0x40) != 0),
        f.metadata.basic_info.quality_flags.moon_data_degradation == ((b[78] & 0x20) != 0),
        f.metadata.basic_info.quality_flags.is_test_observation == ((b[78] & 0x10) != 0),
        f.metadata.basic_info.quality_flags.is_maneuvering == ((b[78] & 0x08) != 0),
        f.metadata.basic_info.quality_flags.is_unloading == ((b[78] & 0x04) != 0),
        f.metadata.basic_info.quality_flags.is_in_solar_calibration == ((b[78] & 0x02) != 0),
        f.metadata.basic_info.quality_flags.is_in_solar_eclipse == ((b[78] & 0x01) != 0),
        f.metadata.basic_info.file_format_version@ == c_string_at(b, 82, 32),
        f.metadata.basic_info.file_name@ == c_string_at(b, 114, 128),
        f.metadata.data_info.bits_per_pixel == u16_at(b, 285, e),
        f.metadata.data_info.columns == u16_at(b, 287, e),
        f.metadata.data_info.lines == u16_at(b, 289, e),
        b[291] == 0 ==> f.metadata.data_info.compression@ == "no compression"@,
        b[291] == 1 ==> f.metadata.data_info.compression@ == "gzip"@,
        b[291] == 2 ==> f.metadata.data_info.compression@ == "bzip2"@,
        b[291] > 2 ==> f.metadata.data_info.compression@ == "unknown"@,
{
    assert(file_endian(b) == e);
    assert(basic_info_at(f.metadata.basic_info, b));
    assert(data_info_at(f.metadata.data_info, b, 282, e));
}

/// Where block #3 of a parsed file comes from: it starts at 332, and the
/// satellite distance Rs (at 359) comes before the equatorial radius Req
/// (at 367) and the polar radius Rpol (at 375).
pub proof fn lemma_projection_layout(f: HsdFile, b: Seq<u8>, e: Endian)
    requires
        hsd_file_at(f, b),
        e == (if b[5] == 1 {
            Endian::Big
        } else {
            Endian::Little
        }),
    ensures
        f.metadata.projection_info.sub_lon_bits == u64_at(b, 335, e),
        f.metadata.projection_info.cfac == u32_at(b, 343, e),
        f.metadata.projection_info.lfac == u32_at(b, 347, e),
        f.metadata.projection_info.coff_bits == u32_at(b, 351, e),
        f.metadata.projection_info.loff_bits == u32_at(b, 355, e),
        f.metadata.projection_info.rs_bits == u64_at(b, 359, e),
        f.metadata.projection_info.req_bits == u64_at(b, 367, e),
        f.metadata.projection_info.rpol_bits == u64_at(b, 375, e),
{
    assert(file_endian(b) == e);
    assert(projection_info_at(f.metadata.projection_info, b, 332, e));
}

/// Where block #4 of a parsed file comes from: it starts at 459, with the
/// sub-satellite longitude, latitude and distance from the Earth's centre at
/// 470, 478 and 486.
pub proof fn lemma_navigation_layout(f: HsdFile, b: Seq<u8>, e: Endian)
    requires
        hsd_file_at(f, b),
        e == (if b[5] == 1 {
            Endian::Big
        } else {
            Endian::Little
        }),
    ensures
        f.metadata.navigation_info.navigation_time_mjd_bits == u64_at(b, 462, e),
        f.metadata.navigation_info.ssp_longitude_bits == opt_f64_at(b, 470, e),
        f.metadata.navigation_info.ssp_latitude_bits == opt_f64_at(b, 478, e),
        f.metadata.navigation_info.distance_from_center_bits == opt_f64_at(b, 486, e),
        f.metadata.navigation_info.nadir_longitude_bits == opt_f64_at(b, 494, e),
        f.metadata.navigation_info.nadir_latitude_bits == opt_f64_at(b, 502, e),
        f.metadata.navigation_info.sun_position_j2000_bits@ == seq![
            u64_at(b, 510, e) as u64,
            u64_at(b, 518, e) as u64,
            u64_at(b, 526, e) as u64,
        ],
        u64_at(b, 534, e) == UNDEFINED_F64_BITS ==> f.metadata.navigation_info.moon_position_j2000_bits is None,
        u64_at(b, 534, e) != UNDEFINED_F64_BITS ==> (f.metadata.navigation_info.moon_position_j2000_bits matches Some(m)
            && m@ == seq![u64_at(b, 534, e) as u64, u64_at(b, 542, e) as u64, u64_at(b, 550, e) as u64]),
{
    assert(file_endian(b) == e);
    assert(navigation_info_at(f.metadata.navigation_info, b, 459, e));
}

/// Where block #5 of a parsed file comes from: it starts at 598; the slope
/// (at 617) comes before the intercept (at 625), and for an infrared band
/// the brightness-temperature coefficients c0, c1, c2 lie at 633, 641, 649.
pub proof fn lemma_calibration_layout(f: HsdFile, b: Seq<u8>, e: Endian)
    requires
        hsd_file_at(f, b),
        e == (if b[5] == 1 {
            Endian::Big
        } else {
            Endian::Little
        }),
    ensures
        f.metadata.calibration_info.band_number == u16_at(b, 601, e),
        f.metadata.calibration_info.central_wavelength_bits == u64_at(b, 603, e),
        f.metadata.calibration_info.valid_bits_per_pixel == u16_at(b, 611, e),
        f.metadata.calibration_info.count_error_pixel == u16_at(b, 613, e),
        f.metadata.calibration_info.count_outside_scan_area == u16_at(b, 615, e),
        f.metadata.calibration_info.slope_bits == u64_at(b, 617, e),
        f.metadata.calibration_info.intercept_bits == u64_at(b, 625, e),
        (match f.metadata.calibration_info.band_specific_calibration {
            BandSpecificCalibration::VisibleNIR {
                albedo_conversion_coeff_bits,
                update_time_mjd_bits,
                calibrated_slope_bits,
                calibrated_intercept_bits,
            } => {
                &&& u16_at(b, 601, e) <= 6
                &&& albedo_conversion_coeff_bits == u64_at(b, 633, e)
                &&& update_time_mjd_bits == u64_at(b, 641, e)
                &&& calibrated_slope_bits == u64_at(b, 649, e)
                &&& calibrated_intercept_bits == u64_at(b, 657, e)
            },
            BandSpecificCalibration::Infrared {
                tb_conversion_coeffs_bits,
                radiance_conversion_coeffs_bits,
                speed_of_light_bits,
                planck_constant_bits,
                boltzmann_constant_bits,
            } => {
                &&& u16_at(b, 601, e) > 6
                &&& tb_conversion_coeffs_bits.0 == u64_at(b, 633, e)
                &&& tb_conversion_coeffs_bits.1 == u64_at(b, 641, e)
                &&& tb_conversion_coeffs_bits.2 == u64_at(b, 649, e)
                &&& radiance_conversion_coeffs_bits.0 == u64_at(b, 657, e)
                &&& radiance_conversion_coeffs_bits.1 == u64_at(b, 665, e)
                &&& radiance_conversion_coeffs_bits.2 == u64_at(b, 673, e)
                &&& speed_of_light_bits == u64_at(b, 681, e)
                &&& planck_constant_bits == u64_at(b, 689, e)
                &&& boltzmann_constant_bits == u64_at(b, 697, e)
            },
        }),
{
    assert(file_endian(b) == e);
    assert(calibration_info_at(f.metadata.calibration_info, b, 598, e));
}

/// Where blocks #6 and #7 of a parsed file come from: they start at 745 and
/// 1004.
pub proof fn lemma_inter_calibration_layout(f: HsdFile, b: Seq<u8>, e: Endian)
    requires
        hsd_file_at(f, b),
        e == (if b[5] == 1 {
            Endian::Big
        } else {
            Endian::Little
        }),
    ensures
        f.metadata.inter_calibration_info.intercept_bits == opt_f64_at(b, 748, e),
        f.metadata.inter_calibration_info.slope_bits == opt_f64_at(b, 756, e),
        f.metadata.inter_calibration_info.quadratic_term_bits == opt_f64_at(b, 764, e),
        f.metadata.inter_calibration_info.radiance_bias_std_scene_bits == opt_f64_at(b, 772, e),
        f.metadata.inter_calibration_info.uncertainty_radiance_bias_bits == opt_f64_at(b, 780, e),
        f.metadata.inter_calibration_info.radiance_std_scene_bits == opt_f64_at(b, 788, e),
        f.metadata.inter_calibration_info.gsics_correction_start_mjd_bits == opt_f64_at(b, 796, e),
        f.metadata.inter_calibration_info.gsics_correction_end_mjd_bits == opt_f64_at(b, 804, e),
        f.metadata.inter_calibration_info.validity_range_upper_bits == opt_f32_at(b, 812, e),
        f.metadata.inter_calibration_info.validity_range_lower_bits == opt_f32_at(b, 816, e),
        f.metadata.inter_calibration_info.gsics_correction_filename matches Some(n) ==> n@ == c_string_at(b, 820, 128),
        f.metadata.inter_calibration_info.gsics_correction_filename is None <==> c_string_at(b, 820, 128).len() == 0,
        f.metadata.segment_info.total_segments == b[1007],
        f.metadata.segment_info.segment_sequence_number == b[1008],
        f.metadata.segment_info.first_line_number == u16_at(b, 1009, e),
{
    assert(file_endian(b) == e);
    assert(inter_calibration_info_at(f.metadata.inter_calibration_info, b, 745, e));
    assert(segment_info_at(f.metadata.segment_info, b, 1004, e));
}

/// Where the counted blocks of a parsed file come from: block #8 starts at
/// 1051 with its count at 1070 and its corrections of 10 bytes from 1072;
/// after 40 more bytes comes block #9, its count 3 bytes in and its times of
/// 10 bytes from 5 bytes in; 40 bytes after those, block #10, its count 5
/// bytes in and its records of 4 bytes from 7 bytes in; 40 bytes after
/// those, the 259 bytes of block #11, then the pixel counts, two bytes each.
pub proof fn lemma_counted_blocks_layout(f: HsdFile, b: Seq<u8>, e: Endian)
    requires
        hsd_file_at(f, b),
        e == (if b[5] == 1 {
            Endian::Big
        } else {
            Endian::Little
        }),
    ensures
        ({
            let m = f.metadata;
            let n8 = u16_at(b, 1070, e);
            let t9 = 1072 + 10 * n8 + 40;
            let n9 = u16_at(b, t9 + 3, e);
            let t10 = t9 + 5 + 10 * n9 + 40;
            let n10 = u16_at(b, t10 + 5, e);
            let t12 = t10 + 7 + 4 * n10 + 40 + 259;
            &&& m.nav_correction_info.center_column_rotation_bits == u32_at(b, 1054, e)
            &&& m.nav_correction_info.center_line_rotation_bits == u32_at(b, 1058, e)
            &&& m.nav_correction_info.rotation_correction_amount_bits == u64_at(b, 1062, e)
            &&& m.nav_correction_info.corrections@.len() == n8
            &&& forall|i: int|
                0 <= i < n8 ==> {
                    &&& (#[trigger] m.nav_correction_info.corrections@[i]).line_number_after_rotation
                        == u16_at(b, 1072 + 10 * i, e)
                    &&& m.nav_correction_info.corrections@[i].shift_amount_column_bits == u32_at(
                        b,
                        1072 + 10 * i + 2,
                        e,
                    )
                    &&& m.nav_correction_info.corrections@[i].shift_amount_line_bits == u32_at(
                        b,
                        1072 + 10 * i + 6,
                        e,
                    )
                }
            &&& m.observation_time_info.times@.len() == n9
            &&& forall|i: int|
                0 <= i < n9 ==> {
                    &&& (#[trigger] m.observation_time_info.times@[i]).line_number == u16_at(
                        b,
                        t9 + 5 + 10 * i,
                        e,
                    )
                    &&& m.observation_time_info.times@[i].observation_time_mjd_bits == u64_at(
                        b,
                        t9 + 5 + 10 * i + 2,
                        e,
                    )
                }
            &&& m.error_info.errors@.len() == n10
            &&& forall|i: int|
                0 <= i < n10 ==> {
                    &&& (#[trigger] m.error_info.errors@[i]).line_number == u16_at(b, t10 + 7 + 4 * i, e)
                    &&& m.error_info.errors@[i].error_pixels_per_line == u16_at(
                        b,
                        t10 + 7 + 4 * i + 2,
                        e,
                    )
                }
            &&& f.data.data@.len() == u16_at(b, 287, e) * u16_at(b, 289, e)
            &&& forall|i: int|
                0 <= i < f.data.data@.len() ==> #[trigger] f.data.data@[i] == u16_at(b, t12 + 2 * i, e)
        }),
{
    assert(file_endian(b) == e);
    let m = f.metadata;
    let n8 = u16_at(b, 1070, e);
    let t9 = 1072 + 10 * n8 + 40;
    let n9 = u16_at(b, t9 + 3, e);
    let t10 = t9 + 5 + 10 * n9 + 40;
    let n10 = u16_at(b, t10 + 5, e);
    assert(observation_time_start(b) == t9);
    assert(error_info_start(b) == t10);
    assert(pixel_start(b) == t10 + 7 + 4 * n10 + 40 + 259);
    assert forall|i: int| 0 <= i < n8 implies translation_correction_at(
        #[trigger] m.nav_correction_info.corrections@[i],
        b,
        1051 + 21 + 10 * i,
        e,
    ) by {}
}

/// A double-precision field is `None` exactly when its bits are those of
/// -1010.0 (0xC08F900000000000), and otherwise holds its bits; a
/// single-precision field likewise with the bits 0xC47C8000 of -1010.0.
pub proof fn lemma_undefined_markers(b: Seq<u8>, i: int, e: Endian)
    ensures
        opt_f64_at(b, i, e) is None <==> u64_at(b, i, e) == 0xC08F_9000_0000_0000,
        opt_f64_at(b, i, e) matches Some(v) ==> v == u64_at(b, i, e),
        opt_f32_at(b, i, e) is None <==> u32_at(b, i, e) == 0xC47C_8000,
        opt_f32_at(b, i, e) matches Some(v) ==> v == u32_at(b, i, e),
{
    crate::bytes::lemma_byte_weights(b, i);
    crate::bytes::lemma_byte_weights(b, i + 4);
}

} // verus!
