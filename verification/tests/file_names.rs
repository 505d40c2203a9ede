use hsd_data_process::layout::{
    check_geometry_lengths, lut_layout, segment_range, segment_range_within, GeometryError,
    LutError,
};
use hsd_data_process::names::{scan_hsd_file_name, NameScan};
use hsd_data_process::organizer::{
    organize_hsd_file_infos, organize_hsd_files_by_time, FullDiskRawDataStructure, HsdFileInfo,
    OrganizeError,
};
use std::path::PathBuf;

fn info(name: &str) -> Option<HsdFileInfo> {
    HsdFileInfo::try_from_path(PathBuf::from(format!("/data/02/{}", name)))
}

#[test]
fn accepts_full_disk_names() {
    let i = info("HS_H09_20231001_0000_B01_FLDK_R10_S0110.DAT.bz2").unwrap();
    assert_eq!(i.band, "B01");
    assert_eq!(i.segment, 1);
    assert_eq!(i.timestamp, "20231001_0000");
    assert_eq!(i.path, PathBuf::from("/data/02/HS_H09_20231001_0000_B01_FLDK_R10_S0110.DAT.bz2"));
    let i = info("HS_H08_20240102_2350_B13_FLDK_R20_S1010.DAT").unwrap();
    assert_eq!(i.band, "B13");
    assert_eq!(i.segment, 10);
    assert_eq!(i.timestamp, "20240102_2350");
}

#[test]
fn names_are_matched_in_upper_case() {
    let i = info("hs_h09_20231001_0010_b03_fldk_r05_s0510.dat.bz2").unwrap();
    assert_eq!(i.band, "B03");
    assert_eq!(i.segment, 5);
    assert_eq!(i.timestamp, "20231001_0010");
}

#[test]
fn refuses_other_names() {
    // regional, not full disk
    assert!(info("HS_H09_20231001_0000_B01_JP01_R10_S0101.DAT.bz2").is_none());
    // not a data file
    assert!(info("HS_H09_20231001_0000_B01_FLDK_R10_S0110.PNG").is_none());
    // wrong prefix
    assert!(info("XS_H09_20231001_0000_B01_FLDK_R10_S0110.DAT").is_none());
    // too few fields
    assert!(info("HS_H09_20231001_0000_B01_FLDK_S0110.DAT").is_none());
    // date and time lengths
    assert!(info("HS_H09_2023100_0000_B01_FLDK_R10_S0110.DAT").is_none());
    assert!(info("HS_H09_20231001_000_B01_FLDK_R10_S0110.DAT").is_none());
    // band
    assert!(info("HS_H09_20231001_0000_C01_FLDK_R10_S0110.DAT").is_none());
    assert!(info("HS_H09_20231001_0000_B1_FLDK_R10_S0110.DAT").is_none());
    // segment field
    assert!(info("HS_H09_20231001_0000_B01_FLDK_R10_X0110.DAT").is_none());
    assert!(info("HS_H09_20231001_0000_B01_FLDK_R10_S0").is_none());
    // segment number out of range or not a number
    assert!(info("HS_H09_20231001_0000_B01_FLDK_R10_S0010.DAT").is_none());
    assert!(info("HS_H09_20231001_0000_B01_FLDK_R10_S1110.DAT").is_none());
    assert!(info("HS_H09_20231001_0000_B01_FLDK_R10_SAB10.DAT").is_none());
    // a path without a file name
    assert!(HsdFileInfo::try_from_path(PathBuf::from("/")).is_none());
}

#[test]
fn segment_digits_follow_integer_parsing() {
    // `usize::from_str` accepts a leading '+'
    let i = info("HS_H09_20231001_0000_B01_FLDK_R10_S+710.DAT").unwrap();
    assert_eq!(i.segment, 7);
    assert!(info("HS_H09_20231001_0000_B01_FLDK_R10_S-710.DAT").is_none());
    // more than eight fields: the eighth is the segment
    let i = info("HS_H09_20231001_0000_B02_FLDK_R10_S0210_EXTRA.DAT").unwrap();
    assert_eq!(i.segment, 2);
}

#[test]
fn scan_reports_segment_digits_cut_inside_a_character() {
    let name = "HS_H09_20231001_0000_B01_FLDK_R10_S0\u{20ac}.DAT";
    assert!(matches!(scan_hsd_file_name(name), NameScan::SegmentDigitsCut));
    assert!(info(name).is_none());
    let name = "HS_H09_20231001_0000_B01_FLDK_R10_S0110.DAT";
    match scan_hsd_file_name(name) {
        NameScan::Accepted { band, segment, timestamp } => {
            assert_eq!(band, "B01");
            assert_eq!(segment, 1);
            assert_eq!(timestamp, "20231001_0000");
        }
        _ => panic!("name not accepted"),
    }
    assert!(matches!(scan_hsd_file_name("HS_X.DAT"), NameScan::Rejected));
}

fn infos(names: &[&str]) -> Vec<HsdFileInfo> {
    names.iter().map(|n| info(n).unwrap()).collect()
}

fn slot(fd: &FullDiskRawDataStructure, segment: usize, band: &str) -> Option<PathBuf> {
    let k = fd.band_names.iter().position(|b| b == band).unwrap();
    fd.segments[segment - 1].files[k].clone()
}

#[test]
fn build_from_files_sorts_bands_and_fills_segments() {
    let files = infos(&[
        "HS_H09_20231001_0000_B13_FLDK_R20_S0210.DAT.bz2",
        "HS_H09_20231001_0000_B01_FLDK_R10_S0110.DAT.bz2",
        "HS_H09_20231001_0000_B03_FLDK_R05_S0110.DAT.bz2",
        "HS_H09_20231001_0000_B01_FLDK_R10_S1010.DAT.bz2",
        "HS_H09_20231001_0000_B01_FLDK_R10_S0110.DAT",
    ]);
    let fd = FullDiskRawDataStructure::build_from_files(files);
    assert_eq!(fd.band_names, vec!["B01", "B03", "B13"]);
    assert_eq!(fd.segments.len(), 10);
    for (i, seg) in fd.segments.iter().enumerate() {
        assert_eq!(seg.segment_index, i + 1);
        assert_eq!(seg.files.len(), 3);
    }
    // the later of two files of the same band and segment is kept
    assert_eq!(
        slot(&fd, 1, "B01"),
        Some(PathBuf::from("/data/02/HS_H09_20231001_0000_B01_FLDK_R10_S0110.DAT"))
    );
    assert_eq!(
        slot(&fd, 1, "B03"),
        Some(PathBuf::from("/data/02/HS_H09_20231001_0000_B03_FLDK_R05_S0110.DAT.bz2"))
    );
    assert_eq!(
        slot(&fd, 2, "B13"),
        Some(PathBuf::from("/data/02/HS_H09_20231001_0000_B13_FLDK_R20_S0210.DAT.bz2"))
    );
    assert_eq!(
        slot(&fd, 10, "B01"),
        Some(PathBuf::from("/data/02/HS_H09_20231001_0000_B01_FLDK_R10_S1010.DAT.bz2"))
    );
    assert_eq!(slot(&fd, 2, "B01"), None);
    assert_eq!(slot(&fd, 5, "B03"), None);
}

#[test]
fn organize_groups_by_time_in_order() {
    let files = infos(&[
        "HS_H09_20231001_0010_B01_FLDK_R10_S0110.DAT.bz2",
        "HS_H09_20231001_0000_B02_FLDK_R10_S0110.DAT.bz2",
        "HS_H09_20230930_2350_B01_FLDK_R10_S0310.DAT.bz2",
        "HS_H09_20231001_0000_B01_FLDK_R10_S0110.DAT.bz2",
    ]);
    let groups = organize_hsd_file_infos(files).unwrap();
    let times: Vec<&str> = groups.iter().map(|(t, _)| t.as_str()).collect();
    assert_eq!(times, vec!["20230930_2350", "20231001_0000", "20231001_0010"]);
    assert_eq!(groups[1].1.band_names, vec!["B01", "B02"]);
    assert_eq!(groups[0].1.band_names, vec!["B01"]);
    assert!(slot(&groups[0].1, 3, "B01").is_some());
    assert!(slot(&groups[0].1, 1, "B01").is_none());
    assert!(slot(&groups[2].1, 1, "B01").is_some());
}

#[test]
fn organize_refuses_no_valid_files() {
    assert_eq!(organize_hsd_file_infos(Vec::new()).err(), Some(OrganizeError::NoValidFiles));
    let paths = vec![PathBuf::from("/data/readme.txt"), PathBuf::from("/data/HS_X.png")];
    assert_eq!(organize_hsd_files_by_time(paths).err(), Some(OrganizeError::NoValidFiles));
}

#[test]
fn organize_paths_skips_other_files() {
    let paths = vec![
        PathBuf::from("/d/notes.txt"),
        PathBuf::from("/d/HS_H09_20231001_0000_B04_FLDK_R10_S0410.DAT.bz2"),
        PathBuf::from("/d/HS_H09_20231001_0000_B04_JP01_R10_S0101.DAT.bz2"),
    ];
    let groups = organize_hsd_files_by_time(paths).unwrap();
    assert_eq!(groups.len(), 1);
    assert_eq!(groups[0].0, "20231001_0000");
    assert_eq!(groups[0].1.band_names, vec!["B04"]);
    assert_eq!(
        slot(&groups[0].1, 4, "B04"),
        Some(PathBuf::from("/d/HS_H09_20231001_0000_B04_FLDK_R10_S0410.DAT.bz2"))
    );
}

fn lut_bytes(n: [u32; 4], extra: isize) -> Vec<u8> {
    let mut v = Vec::new();
    for x in n {
        v.extend_from_slice(&x.to_be_bytes());
    }
    v.extend_from_slice(&[0u8; 24]);
    let total = (n[0] * n[1] * n[2] * n[3]) as usize;
    let len = (n[0] + n[1] + n[2] + n[3]) as usize * 4 + total * 16;
    let len = (len as isize + extra) as usize;
    v.extend(std::iter::repeat(7u8).take(len));
    v
}

#[test]
fn lut_layout_places_grids_and_tables() {
    let bytes = lut_bytes([10, 17, 17, 19], 0);
    let l = lut_layout(&bytes).unwrap();
    assert_eq!((l.n_elev, l.n_sza, l.n_vza, l.n_raa), (10, 17, 17, 19));
    assert_eq!(l.total, 17 * 17 * 10 * 19);
    assert_eq!(l.elev_offset, 40);
    assert_eq!(l.sza_offset, 80);
    assert_eq!(l.vza_offset, 148);
    assert_eq!(l.raa_offset, 216);
    assert_eq!(l.data_offset, 292);
    assert_eq!(l.data_offset + 16 * l.total, bytes.len());
}

#[test]
fn lut_layout_refuses_wrong_sizes() {
    assert_eq!(lut_layout(&[0u8; 39]), Err(LutError::TooSmall { actual: 39 }));
    let bytes = lut_bytes([2, 2, 2, 2], 4);
    let expected = 40 + 8 * 4 + 16 * 16;
    assert_eq!(
        lut_layout(&bytes),
        Err(LutError::SizeMismatch { expected: Some(expected), actual: expected + 4 })
    );
    let mut huge = vec![0xffu8; 16];
    huge.extend_from_slice(&[0u8; 24]);
    assert_eq!(lut_layout(&huge), Err(LutError::SizeMismatch { expected: None, actual: 40 }));
    let empty = lut_bytes([0, 0, 0, 0], 0);
    assert_eq!(lut_layout(&empty).unwrap().total, 0);
}

#[test]
fn geometry_lengths_are_checked() {
    assert_eq!(check_geometry_lengths(44, 44, 44, 44, 11), Ok(()));
    assert_eq!(check_geometry_lengths(44, 44, 43, 44, 11), Err(GeometryError::LengthMismatch));
    assert_eq!(check_geometry_lengths(45, 45, 45, 45, 11), Err(GeometryError::NotWholeLines));
}

#[test]
fn segment_ranges_tile_the_image() {
    assert_eq!(segment_range(0, 2200, 22000), (0, 2200 * 22000));
    assert_eq!(segment_range(2200, 2200, 22000), (2200 * 22000, 4400 * 22000));
    assert_eq!(segment_range_within(9, 3, 10, 100), (90, 100));
    assert_eq!(segment_range_within(2, 3, 10, 100), (20, 50));
}

#[test]
fn lut_table_index_is_row_major() {
    let bytes = lut_bytes([3, 4, 5, 6], 0);
    let l = lut_layout(&bytes).unwrap();
    // dimension order: solar zenith, viewing zenith, elevation, relative azimuth
    assert_eq!(l.table_index(0, 0, 0, 0), 0);
    assert_eq!(l.table_index(0, 0, 0, 1), 1);
    assert_eq!(l.table_index(0, 0, 1, 0), 6);
    assert_eq!(l.table_index(0, 1, 0, 0), 18);
    assert_eq!(l.table_index(1, 0, 0, 0), 90);
    assert_eq!(l.table_index(3, 4, 2, 5), l.total - 1);
}

#[test]
fn path_is_kept_as_given() {
    let p = PathBuf::from("HS_H08_20231001_0000_B01_FLDK_R10_S0110.DAT.bz2");
    let i = HsdFileInfo::try_from_path(p.clone()).unwrap();
    assert_eq!(i.path, p);
    assert_eq!(i.band, "B01");
    assert_eq!(i.segment, 1);
    assert_eq!(i.timestamp, "20231001_0000");
    let p = PathBuf::from("/data/02/hs_h09_20240101_1230_b03_fldk_r05_s0510.dat");
    let i = HsdFileInfo::try_from_path(p.clone()).unwrap();
    assert_eq!(i.path, p);
    assert_eq!(i.band, "B03");
    assert_eq!(i.segment, 5);
    assert_eq!(i.timestamp, "20240101_1230");
    // a multi-byte character where the segment digits are
    assert!(info("HS_H09_20231001_0000_B01_FLDK_R10_S\u{20ac}1.DAT").is_none());
}

#[test]
fn arrangement_does_not_depend_on_file_order() {
    let names = [
        "HS_H09_20231001_0000_B13_FLDK_R20_S0210.DAT.bz2",
        "HS_H09_20231001_0000_B01_FLDK_R10_S0110.DAT.bz2",
        "HS_H09_20231001_0000_B03_FLDK_R05_S0110.DAT.bz2",
        "HS_H09_20231001_0000_B01_FLDK_R10_S1010.DAT.bz2",
        "HS_H09_20231001_0000_B16_FLDK_R20_S0710.DAT.bz2",
    ];
    let mut reordered = names;
    reordered.reverse();
    reordered.swap(0, 2);
    let a = FullDiskRawDataStructure::build_from_files(infos(&names));
    let b = FullDiskRawDataStructure::build_from_files(infos(&reordered));
    assert_eq!(a.band_names, b.band_names);
    assert_eq!(a.band_names, vec!["B01", "B03", "B13", "B16"]);
    assert_eq!(a.segments.len(), b.segments.len());
    for (x, y) in a.segments.iter().zip(b.segments.iter()) {
        assert_eq!(x.segment_index, y.segment_index);
        assert_eq!(x.files, y.files);
    }
}

#[test]
fn organize_paths_keeps_every_accepted_file() {
    let paths = vec![
        PathBuf::from("/d/hs_h09_20231001_0010_b01_fldk_r10_s0110.dat.bz2"),
        PathBuf::from("/d/HS_H09_20231001_0000_B02_FLDK_R10_S0210.DAT.bz2"),
        PathBuf::from("/d/readme.txt"),
        PathBuf::from("/d/HS_H09_20231001_0000_B01_FLDK_R10_S0110.DAT.bz2"),
    ];
    let groups = organize_hsd_files_by_time(paths).unwrap();
    let times: Vec<&str> = groups.iter().map(|(t, _)| t.as_str()).collect();
    assert_eq!(times, vec!["20231001_0000", "20231001_0010"]);
    assert_eq!(groups[0].1.band_names, vec!["B01", "B02"]);
    assert_eq!(
        slot(&groups[0].1, 2, "B02"),
        Some(PathBuf::from("/d/HS_H09_20231001_0000_B02_FLDK_R10_S0210.DAT.bz2"))
    );
    assert_eq!(
        slot(&groups[0].1, 1, "B01"),
        Some(PathBuf::from("/d/HS_H09_20231001_0000_B01_FLDK_R10_S0110.DAT.bz2"))
    );
    assert_eq!(groups[1].1.band_names, vec!["B01"]);
    assert_eq!(
        slot(&groups[1].1, 1, "B01"),
        Some(PathBuf::from("/d/hs_h09_20231001_0010_b01_fldk_r10_s0110.dat.bz2"))
    );
}
