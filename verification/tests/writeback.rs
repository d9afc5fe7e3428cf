use std::path::PathBuf;
use stakhal::marker_scan::scan_source;
use stakhal::writeback::{check_region_fresh, splice_region, WritebackError};

const INITIAL: &str = "/* USER CODE BEGIN PV */\nint old_var = 0;\n/* USER CODE END PV */\n";

#[test]
fn test_successful_write_region() {
    let path = PathBuf::from("main.c");
    let regions = scan_source(&path, INITIAL).unwrap();
    assert_eq!(regions.len(), 1);
    let region = &regions[0];
    let replacement = "\nint new_var = 42;\n";

    let fresh = scan_source(&path, INITIAL).unwrap();
    check_region_fresh(&fresh, region).unwrap();
    let bytes = splice_region(INITIAL.as_bytes(), region.byte_range, replacement).unwrap();
    let updated = String::from_utf8(bytes).unwrap();
    let expected = "/* USER CODE BEGIN PV */\nint new_var = 42;\n/* USER CODE END PV */\n";
    assert_eq!(updated, expected);

    let rescan = scan_source(&path, &updated).unwrap();
    assert_eq!(rescan.len(), 1);
    let new_range = rescan[0].byte_range;
    assert_eq!(&updated[new_range.0..new_range.1], replacement);
}

#[test]
fn test_stale_region_detection() {
    let path = PathBuf::from("main.c");
    let region = scan_source(&path, INITIAL).unwrap()[0].clone();
    let modified = "// Extra line inserted at top\n/* USER CODE BEGIN PV */\nint old_var = 0;\n/* USER CODE END PV */\n";
    let fresh = scan_source(&path, modified).unwrap();
    let res = check_region_fresh(&fresh, &region);
    assert!(matches!(res, Err(WritebackError::StaleRegion)));
}

#[test]
fn test_region_not_found() {
    let path = PathBuf::from("main.c");
    let mut dummy = scan_source(&path, INITIAL).unwrap()[0].clone();
    dummy.tag = "NONEXISTENT".to_string();
    let fresh = scan_source(&path, INITIAL).unwrap();
    let res = check_region_fresh(&fresh, &dummy);
    assert!(matches!(res, Err(WritebackError::RegionNotFound(tag)) if tag == "NONEXISTENT"));
}

#[test]
fn splice_rejects_ranges_outside_the_file() {
    let res = splice_region(b"abc", (2, 5), "x");
    assert!(matches!(res, Err(WritebackError::InvalidRange((2, 5), 3))));
    let res = splice_region(b"abc", (2, 1), "x");
    assert!(matches!(res, Err(WritebackError::InvalidRange((2, 1), 3))));
    assert_eq!(splice_region(b"abc", (1, 2), "XY").unwrap(), b"aXYc".to_vec());
    assert_eq!(splice_region(b"abc", (3, 3), "").unwrap(), b"abc".to_vec());
}
