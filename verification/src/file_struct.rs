//! The records of an HSD file: the ten header blocks that carry information,
//! and the pixel counts.
//!
//! Floating-point fields of the format are held as the raw IEEE-754 bit
//! patterns found in the file (`u64` for double precision, `u32` for single
//! precision), in fields whose names end in `_bits`; `f64::from_bits` and
//! `f32::from_bits` give the numbers.

pub use crate::bytes::Endian;
use vstd::prelude::*;

verus! {

/// A whole HSD file: its header blocks and its pixel counts.
#[derive(Debug)]
pub struct HsdFile {
    pub metadata: HsdMetadata,
    pub data: HsdData,
}

/// The pixel counts of a segment, row after row, with its size as
/// (columns, lines).
#[derive(Debug)]
pub struct HsdData {
    pub size: (u16, u16),
    pub data: Vec<u16>,
}

/// All metadata parsed from the header blocks #1 to #10 (block #11 is spare).
#[derive(Debug)]
pub struct HsdMetadata {
    pub basic_info: BasicInfoBlock,
    pub data_info: DataInfoBlock,
    pub projection_info: ProjectionInfoBlock,
    pub navigation_info: NavigationInfoBlock,
    pub calibration_info: CalibrationInfoBlock,
    pub inter_calibration_info: InterCalibrationInfoBlock,
    pub segment_info: SegmentInfoBlock,
    pub nav_correction_info: NavCorrectionInfoBlock,
    pub observation_time_info: ObservationTimeInfoBlock,
    pub error_info: ErrorInfoBlock,
}

/// Block #1: basic information.
#[derive(Debug)]
pub struct BasicInfoBlock {
    pub byte_order: String,
    pub satellite_name: String,
    pub processing_center_name: String,
    pub observation_area: String,
    pub observation_timeline: u16,
    pub observation_start_time_mjd_bits: u64,
    pub observation_end_time_mjd_bits: u64,
    pub file_creation_time_mjd_bits: u64,
    pub total_header_length: u32,
    pub total_data_length: u32,
    pub quality_flags: QualityFlags,
    pub file_format_version: String,
    pub file_name: String,
}

/// The bits of quality flag 1 in block #1.
#[derive(Debug)]
pub struct QualityFlags {
    pub flag1_valid: bool,
    pub sun_data_degradation: bool,
    pub moon_data_degradation: bool,
    pub is_test_observation: bool,
    pub is_maneuvering: bool,
    pub is_unloading: bool,
    pub is_in_solar_calibration: bool,
    pub is_in_solar_eclipse: bool,
}

/// Block #2: data information.
#[derive(Debug)]
pub struct DataInfoBlock {
    pub bits_per_pixel: u16,
    pub columns: u16,
    pub lines: u16,
    pub compression: String,
}

/// Block #3: projection information.
#[derive(Debug)]
pub struct ProjectionInfoBlock {
    pub sub_lon_bits: u64,
    pub cfac: u32,
    pub lfac: u32,
    pub coff_bits: u32,
    pub loff_bits: u32,
    pub rs_bits: u64,
    pub req_bits: u64,
    pub rpol_bits: u64,
}

/// Block #4: navigation information.  Values that the file marks as
/// undefined are `None`.
#[derive(Debug)]
pub struct NavigationInfoBlock {
    pub navigation_time_mjd_bits: u64,
    pub ssp_longitude_bits: Option<u64>,
    pub ssp_latitude_bits: Option<u64>,
    pub distance_from_center_bits: Option<u64>,
    pub nadir_longitude_bits: Option<u64>,
    pub nadir_latitude_bits: Option<u64>,
    pub sun_position_j2000_bits: [u64; 3],
    pub moon_position_j2000_bits: Option<[u64; 3]>,
}

/// Block #5: calibration information.
#[derive(Debug)]
pub struct CalibrationInfoBlock {
    pub band_number: u16,
    pub central_wavelength_bits: u64,
    pub valid_bits_per_pixel: u16,
    pub count_error_pixel: u16,
    pub count_outside_scan_area: u16,
    pub slope_bits: u64,
    pub intercept_bits: u64,
    pub band_specific_calibration: BandSpecificCalibration,
}

/// The calibration data specific to infrared bands (7 to 16) or to visible
/// and near-infrared bands (1 to 6).
#[derive(Debug)]
pub enum BandSpecificCalibration {
    Infrared {
        tb_conversion_coeffs_bits: (u64, u64, u64),
        radiance_conversion_coeffs_bits: (u64, u64, u64),
        speed_of_light_bits: u64,
        planck_constant_bits: u64,
        boltzmann_constant_bits: u64,
    },
    VisibleNIR {
        albedo_conversion_coeff_bits: u64,
        calibrated_slope_bits: u64,
        calibrated_intercept_bits: u64,
        update_time_mjd_bits: u64,
    },
}

/// Block #6: GSICS inter-calibration information.  Values that the file
/// marks as undefined are `None`.
#[derive(Debug)]
pub struct InterCalibrationInfoBlock {
    pub intercept_bits: Option<u64>,
    pub slope_bits: Option<u64>,
    pub quadratic_term_bits: Option<u64>,
    pub radiance_bias_std_scene_bits: Option<u64>,
    pub uncertainty_radiance_bias_bits: Option<u64>,
    pub radiance_std_scene_bits: Option<u64>,
    pub gsics_correction_start_mjd_bits: Option<u64>,
    pub gsics_correction_end_mjd_bits: Option<u64>,
    pub validity_range_upper_bits: Option<u32>,
    pub validity_range_lower_bits: Option<u32>,
    pub gsics_correction_filename: Option<String>,
}

/// Block #7: segment information.
#[derive(Debug)]
pub struct SegmentInfoBlock {
    pub total_segments: u8,
    pub segment_sequence_number: u8,
    pub first_line_number: u16,
}

/// Block #8: navigation correction information.
#[derive(Debug)]
pub struct NavCorrectionInfoBlock {
    pub center_column_rotation_bits: u32,
    pub center_line_rotation_bits: u32,
    pub rotation_correction_amount_bits: u64,
    pub corrections: Vec<TranslationCorrection>,
}

/// One translation correction of block #8.
#[derive(Debug)]
pub struct TranslationCorrection {
    pub line_number_after_rotation: u16,
    pub shift_amount_column_bits: u32,
    pub shift_amount_line_bits: u32,
}

/// Block #9: observation time information.
#[derive(Debug)]
pub struct ObservationTimeInfoBlock {
    pub times: Vec<LineObservationTime>,
}

/// The observation time of one line, in block #9.
#[derive(Debug)]
pub struct LineObservationTime {
    pub line_number: u16,
    pub observation_time_mjd_bits: u64,
}

/// Block #10: error information.
#[derive(Debug)]
pub struct ErrorInfoBlock {
    pub errors: Vec<LineErrorInfo>,
}

/// The count of error pixels of one line, in block #10.
#[derive(Debug)]
pub struct LineErrorInfo {
    pub line_number: u16,
    pub error_pixels_per_line: u16,
}

/// Why an HSD file could not be read.
#[derive(Debug, Clone, Copy, PartialEq, Eq)]
pub enum HsdError {
    /// The bzip2 stream could not be decompressed.
    Decompress,
    /// The decompressed bytes end before a field that had to be read.
    UnexpectedEof,
}

/// The byte order that block #1 announces: its flag byte is 1 for big endian.
pub open spec fn endian_of_flag(flag: u8) -> Endian {
    if flag == 1 {
        Endian::Big
    } else {
        Endian::Little
    }
}

} // verus!
