use file_index::{
    file_type_name, get_file_type_info, modification_text, DiskInfo, EntryMetadata, FileInfo,
};

#[test]
fn format_size_bytes() {
    assert_eq!(FileInfo::format_size(0), "0 B");
    assert_eq!(FileInfo::format_size(7), "7 B");
    assert_eq!(FileInfo::format_size(1023), "1023 B");
}

#[test]
fn format_size_units() {
    assert_eq!(FileInfo::format_size(1024), "1.0 KB");
    assert_eq!(FileInfo::format_size(1536), "1.5 KB");
    assert_eq!(FileInfo::format_size(2048), "2.0 KB");
    assert_eq!(FileInfo::format_size(1048576), "1.0 MB");
    assert_eq!(FileInfo::format_size(5 * 1073741824 / 2), "2.5 GB");
    assert_eq!(FileInfo::format_size(1099511627776), "1.0 TB");
    assert_eq!(FileInfo::format_size(1048575), "1024.0 KB");
}

#[test]
fn format_size_rounds_ties_to_even() {
    // 1280 B is exactly 1.25 KB, 1792 B exactly 1.75 KB.
    assert_eq!(FileInfo::format_size(1280), "1.2 KB");
    assert_eq!(FileInfo::format_size(1792), "1.8 KB");
}

#[test]
fn format_size_matches_float_rendering() {
    let units: [(u64, &str); 4] = [
        (1024, "KB"),
        (1048576, "MB"),
        (1073741824, "GB"),
        (1099511627776, "TB"),
    ];
    let mut bytes: u64 = 1024;
    while bytes < (1u64 << 52) {
        let mut expected = String::new();
        for (i, (unit, suffix)) in units.iter().enumerate() {
            let next = if i + 1 < units.len() { units[i + 1].0 } else { u64::MAX };
            if bytes >= *unit && (bytes < next || i + 1 == units.len()) {
                expected = format!("{:.1} {}", bytes as f64 / *unit as f64, suffix);
            }
        }
        assert_eq!(FileInfo::format_size(bytes), expected, "bytes = {}", bytes);
        bytes = bytes + bytes / 37 + 13;
    }
    for bytes in 1024u64..20000 {
        let expected = format!("{:.1} KB", bytes as f64 / 1024.0);
        assert_eq!(FileInfo::format_size(bytes), expected, "bytes = {}", bytes);
    }
}

#[test]
fn format_size_largest() {
    assert_eq!(FileInfo::format_size(u64::MAX), "16777216.0 TB");
}

#[test]
fn new_lowercases_name_and_formats_size() {
    let f = FileInfo::new(
        "Report.PDF".to_string(),
        2048,
        "Unknown".to_string(),
        "/tmp/Report.PDF".to_string(),
        "file".to_string(),
    );
    assert_eq!(f.file_name, "Report.PDF");
    assert_eq!(f.lower_name, "report.pdf");
    assert_eq!(f.formatted_size, "2.0 KB");
    assert_eq!(f.file_path, "/tmp/Report.PDF");
    assert_eq!(f.file_type, "file");
    assert_eq!(f.file_size, 2048);
}

#[test]
fn new_lowercases_non_ascii() {
    let f = FileInfo::new(
        "ÄRGER.TXT".to_string(),
        1,
        "Unknown".to_string(),
        "/x".to_string(),
        "file".to_string(),
    );
    assert_eq!(f.lower_name, "ärger.txt");
}

#[test]
fn duplicate_copies_every_field() {
    let f = FileInfo::new(
        "a.txt".to_string(),
        3,
        "Unknown".to_string(),
        "/a.txt".to_string(),
        "file".to_string(),
    );
    let g = f.duplicate();
    assert_eq!(g.file_name, f.file_name);
    assert_eq!(g.lower_name, f.lower_name);
    assert_eq!(g.formatted_size, f.formatted_size);
    assert_eq!(g.file_path, f.file_path);
    assert_eq!(g.modification_date, f.modification_date);
    assert_eq!(g.file_type, f.file_type);
    assert_eq!(g.file_size, f.file_size);
}

#[test]
fn type_names_from_flags() {
    assert_eq!(file_type_name(true, false, false), "directory");
    assert_eq!(file_type_name(true, true, true), "directory");
    assert_eq!(file_type_name(false, true, true), "file");
    assert_eq!(file_type_name(false, false, true), "symlink");
    assert_eq!(file_type_name(false, false, false), "unknown");
}

#[test]
fn type_info_of_missing_path() {
    let (name, is_file, is_dir, is_symlink) = get_file_type_info(false, false, false, false);
    assert_eq!(name, "not_found");
    assert!(!is_file && !is_dir && !is_symlink);
}

#[test]
fn type_info_passes_flags_through() {
    assert_eq!(
        get_file_type_info(true, true, false, false),
        ("file".to_string(), true, false, false)
    );
    assert_eq!(
        get_file_type_info(true, false, true, true),
        ("directory".to_string(), false, true, true)
    );
    assert_eq!(
        get_file_type_info(true, false, false, true),
        ("symlink".to_string(), false, false, true)
    );
    assert_eq!(
        get_file_type_info(true, false, false, false),
        ("unknown".to_string(), false, false, false)
    );
}

#[test]
fn modification_text_renders_rfc3339() {
    assert_eq!(modification_text(Some(0)), "1970-01-01T00:00:00+00:00");
    assert_eq!(modification_text(Some(1431648000)), "2015-05-15T00:00:00+00:00");
}

#[test]
fn modification_text_unknown() {
    assert_eq!(modification_text(None), "Unknown");
    assert_eq!(modification_text(Some(i64::MAX as u64)), "Unknown");
}

#[test]
fn from_metadata_takes_type_and_size() {
    let meta = EntryMetadata {
        size: 1536,
        modified_secs: Some(0),
        is_dir: true,
        is_file: false,
        is_symlink: false,
    };
    let f = FileInfo::from_metadata("Photos".to_string(), "/home/u/Photos".to_string(), &meta);
    assert_eq!(f.file_type, "directory");
    assert_eq!(f.formatted_size, "1.5 KB");
    assert_eq!(f.lower_name, "photos");
    assert_eq!(f.modification_date, "1970-01-01T00:00:00+00:00");
}

#[test]
fn disk_info_used_space() {
    let d = DiskInfo::new("sda1".to_string(), "SSD".to_string(), 2048, 1024);
    assert_eq!(d.used_space, 1024);
    assert_eq!(d.formatted_total, "2.0 KB");
    assert_eq!(d.formatted_available, "1.0 KB");
    assert_eq!(d.formatted_used, "1.0 KB");
    assert_eq!(d.name, "sda1");
    assert_eq!(d.kind, "SSD");
}
