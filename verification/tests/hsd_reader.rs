use hsd_data_process::bytes::Endian;
use hsd_data_process::file_struct::{BandSpecificCalibration, HsdError, HsdFile};
use hsd_data_process::reader::parse_hsd_file;
use hsd_data_process::text::read_c_string;
use std::io::Write;

struct Fields {
    big: bool,
    columns: u16,
    lines: u16,
    band: u16,
    moon_defined: bool,
    corrections: u16,
    times: u16,
    errors: u16,
}

fn put16(v: &mut Vec<u8>, x: u16, big: bool) {
    if big {
        v.extend_from_slice(&x.to_be_bytes());
    } else {
        v.extend_from_slice(&x.to_le_bytes());
    }
}

fn put32(v: &mut Vec<u8>, x: u32, big: bool) {
    if big {
        v.extend_from_slice(&x.to_be_bytes());
    } else {
        v.extend_from_slice(&x.to_le_bytes());
    }
}

fn put64(v: &mut Vec<u8>, x: u64, big: bool) {
    if big {
        v.extend_from_slice(&x.to_be_bytes());
    } else {
        v.extend_from_slice(&x.to_le_bytes());
    }
}

fn putf64(v: &mut Vec<u8>, x: f64, big: bool) {
    put64(v, x.to_bits(), big);
}

fn putf32(v: &mut Vec<u8>, x: f32, big: bool) {
    put32(v, x.to_bits(), big);
}

fn put_text(v: &mut Vec<u8>, s: &[u8], len: usize) {
    let mut field = vec![0u8; len];
    field[..s.len()].copy_from_slice(s);
    v.extend_from_slice(&field);
}

fn pad(v: &mut Vec<u8>, n: usize) {
    v.extend(std::iter::repeat(0xAAu8).take(n));
}

fn block_head(v: &mut Vec<u8>, num: u8, len: u16) {
    v.push(num);
    v.extend_from_slice(&len.to_le_bytes());
}

fn build(f: &Fields) -> Vec<u8> {
    let b = f.big;
    let mut v = Vec::new();
    // block 1
    block_head(&mut v, 1, 282);
    v.extend_from_slice(&11u16.to_le_bytes());
    v.push(if b { 1 } else { 0 });
    put_text(&mut v, b"Himawari-9", 16);
    put_text(&mut v, b"MSC", 16);
    put_text(&mut v, b"FLDK", 4);
    pad(&mut v, 2);
    put16(&mut v, 1234, b);
    putf64(&mut v, 60218.5, b);
    putf64(&mut v, 60218.5069, b);
    putf64(&mut v, 60218.52, b);
    put32(&mut v, 123456, b);
    put32(&mut v, 7654321, b);
    v.push(0b0101_0011);
    pad(&mut v, 3);
    put_text(&mut v, b"  1.3  ", 32);
    put_text(&mut v, b"HS_H09_20231001_0000_B01_FLDK_R10_S0110.DAT", 128);
    pad(&mut v, 40);
    assert_eq!(v.len(), 282);
    // block 2
    block_head(&mut v, 2, 50);
    put16(&mut v, 16, b);
    put16(&mut v, f.columns, b);
    put16(&mut v, f.lines, b);
    v.push(2);
    pad(&mut v, 40);
    assert_eq!(v.len(), 332);
    // block 3
    block_head(&mut v, 3, 127);
    putf64(&mut v, 140.7, b);
    put32(&mut v, 20466275, b);
    put32(&mut v, 20466275, b);
    putf32(&mut v, 2750.5, b);
    putf32(&mut v, 2750.5, b);
    putf64(&mut v, 42164.0, b);
    putf64(&mut v, 6378.137, b);
    putf64(&mut v, 6356.7523, b);
    pad(&mut v, 76);
    assert_eq!(v.len(), 459);
    // block 4
    block_head(&mut v, 4, 139);
    putf64(&mut v, 60218.501, b);
    putf64(&mut v, 140.65, b);
    putf64(&mut v, 0.01, b);
    putf64(&mut v, 42165.1, b);
    putf64(&mut v, 140.66, b);
    putf64(&mut v, -1010.0, b);
    putf64(&mut v, 1.5e8, b);
    putf64(&mut v, -2.5e7, b);
    putf64(&mut v, 3.5e6, b);
    if f.moon_defined {
        putf64(&mut v, 384400.0, b);
        putf64(&mut v, 1.0, b);
        putf64(&mut v, 2.0, b);
    } else {
        putf64(&mut v, -1010.0, b);
        pad(&mut v, 16);
    }
    pad(&mut v, 40);
    assert_eq!(v.len(), 598);
    // block 5
    block_head(&mut v, 5, 147);
    put16(&mut v, f.band, b);
    putf64(&mut v, 0.47, b);
    put16(&mut v, 11, b);
    put16(&mut v, 65535, b);
    put16(&mut v, 65534, b);
    putf64(&mut v, 0.5, b);
    putf64(&mut v, -10.0, b);
    if f.band <= 6 {
        putf64(&mut v, 0.0019, b);
        putf64(&mut v, 60000.0, b);
        putf64(&mut v, 0.49, b);
        putf64(&mut v, -9.8, b);
        pad(&mut v, 80);
    } else {
        for c in [1.0, 2.0, 3.0, 4.0, 5.0, 6.0, 2.9979e8, 6.626e-34, 1.3806e-23] {
            putf64(&mut v, c, b);
        }
        pad(&mut v, 40);
    }
    assert_eq!(v.len(), 745);
    // block 6
    block_head(&mut v, 6, 259);
    putf64(&mut v, 0.25, b);
    putf64(&mut v, -1010.0, b);
    for x in [3.0, 4.0, 5.0, 6.0, 7.0, 8.0] {
        putf64(&mut v, x, b);
    }
    putf32(&mut v, -1010.0, b);
    putf32(&mut v, -1010.0001, b);
    put_text(&mut v, b"", 128);
    pad(&mut v, 56);
    assert_eq!(v.len(), 1004);
    // block 7
    block_head(&mut v, 7, 47);
    v.push(10);
    v.push(3);
    put16(&mut v, 4401, b);
    pad(&mut v, 40);
    assert_eq!(v.len(), 1051);
    // block 8
    block_head(&mut v, 8, 61 + 10 * f.corrections);
    putf32(&mut v, 0.5, b);
    putf32(&mut v, 1.5, b);
    putf64(&mut v, 2.5, b);
    put16(&mut v, f.corrections, b);
    for i in 0..f.corrections {
        put16(&mut v, 4401 + i, b);
        putf32(&mut v, i as f32, b);
        putf32(&mut v, -(i as f32), b);
    }
    pad(&mut v, 40);
    // block 9
    block_head(&mut v, 9, 45 + 10 * f.times);
    put16(&mut v, f.times, b);
    for i in 0..f.times {
        put16(&mut v, 4401 + 10 * i, b);
        putf64(&mut v, 60218.5 + i as f64, b);
    }
    pad(&mut v, 40);
    // block 10 (four-byte block length)
    v.push(10);
    v.extend_from_slice(&(47u32 + 4 * f.errors as u32).to_le_bytes());
    put16(&mut v, f.errors, b);
    for i in 0..f.errors {
        put16(&mut v, 4401 + i, b);
        put16(&mut v, 7 * i, b);
    }
    pad(&mut v, 40);
    // block 11
    block_head(&mut v, 11, 259);
    pad(&mut v, 256);
    // block 12
    for i in 0..(f.columns as u32 * f.lines as u32) {
        put16(&mut v, (i * 37 % 4096) as u16, b);
    }
    v
}

fn sample(big: bool) -> Fields {
    Fields {
        big,
        columns: 5,
        lines: 3,
        band: 3,
        moon_defined: true,
        corrections: 2,
        times: 3,
        errors: 1,
    }
}

fn check_sample(file: &HsdFile, f: &Fields) {
    let m = &file.metadata;
    let expected_order = if f.big { "Big Endian" } else { "Little Endian" };
    assert_eq!(m.basic_info.byte_order, expected_order);
    assert_eq!(m.basic_info.satellite_name, "Himawari-9");
    assert_eq!(m.basic_info.processing_center_name, "MSC");
    assert_eq!(m.basic_info.observation_area, "FLDK");
    assert_eq!(m.basic_info.observation_timeline, 1234);
    assert_eq!(f64::from_bits(m.basic_info.observation_start_time_mjd_bits), 60218.5);
    assert_eq!(f64::from_bits(m.basic_info.observation_end_time_mjd_bits), 60218.5069);
    assert_eq!(f64::from_bits(m.basic_info.file_creation_time_mjd_bits), 60218.52);
    assert_eq!(m.basic_info.total_header_length, 123456);
    assert_eq!(m.basic_info.total_data_length, 7654321);
    let q = &m.basic_info.quality_flags;
    assert!(q.flag1_valid);
    assert!(q.sun_data_degradation);
    assert!(!q.moon_data_degradation);
    assert!(q.is_test_observation);
    assert!(!q.is_maneuvering);
    assert!(!q.is_unloading);
    assert!(q.is_in_solar_calibration);
    assert!(q.is_in_solar_eclipse);
    assert_eq!(m.basic_info.file_format_version, "1.3");
    assert_eq!(m.basic_info.file_name, "HS_H09_20231001_0000_B01_FLDK_R10_S0110.DAT");
    assert_eq!(m.data_info.bits_per_pixel, 16);
    assert_eq!(m.data_info.columns, f.columns);
    assert_eq!(m.data_info.lines, f.lines);
    assert_eq!(m.data_info.compression, "bzip2");
    assert_eq!(f64::from_bits(m.projection_info.sub_lon_bits), 140.7);
    assert_eq!(m.projection_info.cfac, 20466275);
    assert_eq!(f32::from_bits(m.projection_info.coff_bits), 2750.5);
    assert_eq!(f64::from_bits(m.projection_info.rpol_bits), 6356.7523);
    let nav = &m.navigation_info;
    assert_eq!(f64::from_bits(nav.navigation_time_mjd_bits), 60218.501);
    assert_eq!(nav.ssp_longitude_bits.map(f64::from_bits), Some(140.65));
    assert_eq!(nav.nadir_latitude_bits, None);
    assert_eq!(
        nav.sun_position_j2000_bits.map(f64::from_bits),
        [1.5e8, -2.5e7, 3.5e6]
    );
    if f.moon_defined {
        assert_eq!(
            nav.moon_position_j2000_bits.map(|m| m.map(f64::from_bits)),
            Some([384400.0, 1.0, 2.0])
        );
    } else {
        assert_eq!(nav.moon_position_j2000_bits, None);
    }
    let cal = &m.calibration_info;
    assert_eq!(cal.band_number, f.band);
    assert_eq!(f64::from_bits(cal.central_wavelength_bits), 0.47);
    assert_eq!(cal.count_error_pixel, 65535);
    assert_eq!(cal.count_outside_scan_area, 65534);
    match &cal.band_specific_calibration {
        BandSpecificCalibration::VisibleNIR {
            albedo_conversion_coeff_bits,
            calibrated_slope_bits,
            calibrated_intercept_bits,
            update_time_mjd_bits,
        } => {
            assert!(f.band <= 6);
            assert_eq!(f64::from_bits(*albedo_conversion_coeff_bits), 0.0019);
            assert_eq!(f64::from_bits(*update_time_mjd_bits), 60000.0);
            assert_eq!(f64::from_bits(*calibrated_slope_bits), 0.49);
            assert_eq!(f64::from_bits(*calibrated_intercept_bits), -9.8);
        }
        BandSpecificCalibration::Infrared {
            tb_conversion_coeffs_bits,
            radiance_conversion_coeffs_bits,
            speed_of_light_bits,
            planck_constant_bits,
            boltzmann_constant_bits,
        } => {
            assert!(f.band > 6);
            assert_eq!(f64::from_bits(tb_conversion_coeffs_bits.1), 2.0);
            assert_eq!(f64::from_bits(radiance_conversion_coeffs_bits.2), 6.0);
            assert_eq!(f64::from_bits(*speed_of_light_bits), 2.9979e8);
            assert_eq!(f64::from_bits(*planck_constant_bits), 6.626e-34);
            assert_eq!(f64::from_bits(*boltzmann_constant_bits), 1.3806e-23);
        }
    }
    let ic = &m.inter_calibration_info;
    assert_eq!(ic.intercept_bits.map(f64::from_bits), Some(0.25));
    assert_eq!(ic.slope_bits, None);
    assert_eq!(ic.gsics_correction_end_mjd_bits.map(f64::from_bits), Some(8.0));
    assert_eq!(ic.validity_range_upper_bits, None);
    assert_eq!(ic.validity_range_lower_bits.map(f32::from_bits), Some(-1010.0001));
    assert_eq!(ic.gsics_correction_filename, None);
    assert_eq!(m.segment_info.total_segments, 10);
    assert_eq!(m.segment_info.segment_sequence_number, 3);
    assert_eq!(m.segment_info.first_line_number, 4401);
    let nc = &m.nav_correction_info;
    assert_eq!(f32::from_bits(nc.center_line_rotation_bits), 1.5);
    assert_eq!(f64::from_bits(nc.rotation_correction_amount_bits), 2.5);
    assert_eq!(nc.corrections.len(), f.corrections as usize);
    for (i, c) in nc.corrections.iter().enumerate() {
        assert_eq!(c.line_number_after_rotation, 4401 + i as u16);
        assert_eq!(f32::from_bits(c.shift_amount_column_bits), i as f32);
        assert_eq!(f32::from_bits(c.shift_amount_line_bits), -(i as f32));
    }
    let times = &m.observation_time_info.times;
    assert_eq!(times.len(), f.times as usize);
    for (i, t) in times.iter().enumerate() {
        assert_eq!(t.line_number, 4401 + 10 * i as u16);
        assert_eq!(f64::from_bits(t.observation_time_mjd_bits), 60218.5 + i as f64);
    }
    let errors = &m.error_info.errors;
    assert_eq!(errors.len(), f.errors as usize);
    for (i, e) in errors.iter().enumerate() {
        assert_eq!(e.line_number, 4401 + i as u16);
        assert_eq!(e.error_pixels_per_line, 7 * i as u16);
    }
    assert_eq!(file.data.size, (f.columns, f.lines));
    let n = f.columns as usize * f.lines as usize;
    assert_eq!(file.data.data.len(), n);
    for (i, px) in file.data.data.iter().enumerate() {
        assert_eq!(*px as u32, i as u32 * 37 % 4096);
    }
}

#[test]
fn parses_little_endian_file() {
    let f = sample(false);
    let bytes = build(&f);
    let file = parse_hsd_file(&bytes).unwrap();
    check_sample(&file, &f);
}

#[test]
fn parses_big_endian_file() {
    let f = sample(true);
    let bytes = build(&f);
    let file = parse_hsd_file(&bytes).unwrap();
    check_sample(&file, &f);
}

#[test]
fn byte_order_flag_selects_order_of_every_field() {
    let mut f = sample(true);
    f.columns = 0;
    f.corrections = 0;
    f.times = 0;
    f.errors = 0;
    let mut bytes = build(&f);
    // the same bytes read as little endian give swapped numbers
    bytes[5] = 0;
    let file = parse_hsd_file(&bytes).unwrap();
    assert_eq!(file.metadata.basic_info.byte_order, "Little Endian");
    assert_eq!(file.metadata.basic_info.observation_timeline, 1234u16.swap_bytes());
    assert_eq!(file.metadata.data_info.bits_per_pixel, 16u16.swap_bytes());
    assert_eq!(file.metadata.basic_info.total_header_length, 123456u32.swap_bytes());
    assert_eq!(file.metadata.segment_info.first_line_number, 4401u16.swap_bytes());
}

#[test]
fn infrared_band_and_undefined_moon() {
    let mut f = sample(false);
    f.band = 13;
    f.moon_defined = false;
    f.corrections = 0;
    f.times = 0;
    f.errors = 0;
    let bytes = build(&f);
    let file = parse_hsd_file(&bytes).unwrap();
    check_sample(&file, &f);
}

#[test]
fn truncated_files_are_refused() {
    let f = sample(false);
    let bytes = build(&f);
    let full = bytes.len();
    for cut in [0, 1, 241, 291, 382, 557, 664, 947, 1010, 1071, full - 1] {
        assert_eq!(parse_hsd_file(&bytes[..cut]).err(), Some(HsdError::UnexpectedEof), "cut {}", cut);
    }
    assert!(parse_hsd_file(&bytes[..full]).is_ok());
    // reserved bytes after the last field that is read are not needed
    let mut g = sample(false);
    g.columns = 0;
    let bytes = build(&g);
    let spare = bytes.len() - 259;
    assert!(parse_hsd_file(&bytes[..spare + 3]).is_ok());
    assert_eq!(parse_hsd_file(&bytes[..spare + 2]).err(), Some(HsdError::UnexpectedEof));
}

#[test]
fn undefined_markers_are_exact() {
    assert_eq!((-1010.0f64).to_bits(), hsd_data_process::reader::UNDEFINED_F64_BITS);
    assert_eq!((-1010.0f32).to_bits(), hsd_data_process::reader::UNDEFINED_F32_BITS);
}

#[test]
fn c_strings_stop_at_nul_and_are_trimmed() {
    let buf = b"xx  Hi there \t\0garbage\0yy";
    assert_eq!(read_c_string(buf, 2, 22).unwrap(), "Hi there");
    assert_eq!(read_c_string(buf, 2, 4).unwrap(), "Hi");
    assert_eq!(read_c_string(buf, 0, 0).unwrap(), "");
    let lossy = [b'a', 0xff, b'b', 0];
    assert_eq!(read_c_string(&lossy, 0, 4).unwrap(), "a\u{fffd}b");
    let unicode = "\u{3000}ひまわり\u{3000}".as_bytes();
    assert_eq!(read_c_string(unicode, 0, unicode.len()).unwrap(), "ひまわり");
}

#[test]
fn c_string_past_the_end_is_an_error() {
    let buf = b"AB";
    assert_eq!(read_c_string(buf, 0, 3), Err(HsdError::UnexpectedEof));
    assert_eq!(read_c_string(buf, 2, 1), Err(HsdError::UnexpectedEof));
    assert_eq!(read_c_string(buf, 1, usize::MAX), Err(HsdError::UnexpectedEof));
    assert_eq!(read_c_string(buf, 0, 0), Ok(String::new()));
    assert_eq!(read_c_string(buf, 2, 0), Ok(String::new()));
    assert_eq!(read_c_string(buf, 0, 2), Ok("AB".to_string()));
}

#[test]
fn gsics_file_name_is_kept_when_present() {
    let f = sample(false);
    let mut bytes = build(&f);
    let at = 745 + 75;
    bytes[at..at + 9].copy_from_slice(b" gsics.nc");
    let file = parse_hsd_file(&bytes).unwrap();
    assert_eq!(
        file.metadata.inter_calibration_info.gsics_correction_filename,
        Some("gsics.nc".to_string())
    );
}

#[test]
fn compression_labels() {
    let f = sample(false);
    let mut bytes = build(&f);
    for (flag, label) in [(0u8, "no compression"), (1, "gzip"), (2, "bzip2"), (3, "unknown"), (200, "unknown")] {
        bytes[282 + 9] = flag;
        let file = parse_hsd_file(&bytes).unwrap();
        assert_eq!(file.metadata.data_info.compression, label);
    }
}

#[test]
fn build_decompresses_then_parses() {
    let f = sample(true);
    let bytes = build(&f);
    let mut enc = bzip2::write::BzEncoder::new(Vec::new(), bzip2::Compression::best());
    enc.write_all(&bytes).unwrap();
    let compressed = enc.finish().unwrap();
    let file = HsdFile::build(&compressed).unwrap();
    check_sample(&file, &f);
    // two concatenated streams decode as one file
    let mut enc1 = bzip2::write::BzEncoder::new(Vec::new(), bzip2::Compression::fast());
    enc1.write_all(&bytes[..700]).unwrap();
    let mut enc2 = bzip2::write::BzEncoder::new(Vec::new(), bzip2::Compression::fast());
    enc2.write_all(&bytes[700..]).unwrap();
    let mut two = enc1.finish().unwrap();
    two.extend(enc2.finish().unwrap());
    let file = HsdFile::build(&two).unwrap();
    check_sample(&file, &f);
}

#[test]
fn build_refuses_bad_streams() {
    assert_eq!(HsdFile::build(b"not bzip2 at all").err(), Some(HsdError::Decompress));
    let mut enc = bzip2::write::BzEncoder::new(Vec::new(), bzip2::Compression::fast());
    enc.write_all(&[1u8; 100]).unwrap();
    let compressed = enc.finish().unwrap();
    assert_eq!(HsdFile::build(&compressed).err(), Some(HsdError::UnexpectedEof));
}

#[test]
fn endian_enum_is_public() {
    let e = Endian::Big;
    assert!(matches!(e, Endian::Big));
}

#[test]
fn trailing_bytes_change_nothing() {
    let f = sample(true);
    let mut bytes = build(&f);
    bytes.extend_from_slice(&[0x55; 1000]);
    let file = parse_hsd_file(&bytes).unwrap();
    check_sample(&file, &f);
}
