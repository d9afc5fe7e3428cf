use std::path::PathBuf;
use stakhal::marker_scan::{find_loop_body_gap, is_byte_in_user_region, scan_source, ScanError};

fn main_c() -> PathBuf {
    PathBuf::from("main.c")
}

#[test]
fn test_single_well_formed_region() {
    let source = r#"
/* USER CODE BEGIN PV */
int my_var = 42;
/* USER CODE END PV */
"#;
    let path = main_c();
    let regions = scan_source(&path, source).unwrap();
    assert_eq!(regions.len(), 1);
    assert_eq!(regions[0].tag, "PV");
    assert_eq!(regions[0].file, path);
    assert_eq!(
        &source[regions[0].byte_range.0..regions[0].byte_range.1],
        "\nint my_var = 42;\n"
    );

    assert_eq!(
        &source[regions[0].begin_marker_range.0..regions[0].begin_marker_range.1],
        "/* USER CODE BEGIN PV */"
    );
    assert_eq!(
        &source[regions[0].end_marker_range.0..regions[0].end_marker_range.1],
        "/* USER CODE END PV */"
    );
}

#[test]
fn test_two_sibling_regions() {
    let source = r#"
/* USER CODE BEGIN Includes */
#include <stdio.h>
/* USER CODE END Includes */

/* USER CODE BEGIN PV */
static int x = 0;
/* USER CODE END PV */
"#;
    let path = main_c();
    let regions = scan_source(&path, source).unwrap();
    assert_eq!(regions.len(), 2);
    assert_eq!(regions[0].tag, "Includes");
    assert_eq!(
        &source[regions[0].byte_range.0..regions[0].byte_range.1],
        "\n#include <stdio.h>\n"
    );

    assert_eq!(regions[1].tag, "PV");
    assert_eq!(
        &source[regions[1].byte_range.0..regions[1].byte_range.1],
        "\nstatic int x = 0;\n"
    );
}

#[test]
fn test_unmatched_begin() {
    let source = r#"
/* USER CODE BEGIN PV */
int x = 1;
"#;
    let path = main_c();
    let res = scan_source(&path, source);
    assert!(matches!(res, Err(ScanError::MismatchedMarkers(tag)) if tag == "PV"));
}

#[test]
fn test_mismatched_begin_end_tags() {
    let source = r#"
/* USER CODE BEGIN PV */
int x = 1;
/* USER CODE END 0 */
"#;
    let path = main_c();
    let res = scan_source(&path, source);
    assert!(matches!(res, Err(ScanError::MismatchedMarkers(tag)) if tag == "PV"));
}

#[test]
fn test_unknown_end_tag() {
    let source = r#"
/* USER CODE END PV */
"#;
    let path = main_c();
    let res = scan_source(&path, source);
    assert!(matches!(res, Err(ScanError::UnknownEndTag(tag)) if tag == "PV"));
}

#[test]
fn test_comment_mentioning_user_code_ignored() {
    let source = r#"
// this mentions USER CODE but isn't a real marker elsewhere in the file
/* USER CODE BEGIN PV */
int val = 10;
/* USER CODE END PV */
"#;
    let path = main_c();
    let regions = scan_source(&path, source).unwrap();
    assert_eq!(regions.len(), 1);
    assert_eq!(regions[0].tag, "PV");
}

#[test]
fn test_string_literal_user_code_ignored() {
    let source = r#"
const char* s = "USER CODE BEGIN PV";
/* USER CODE BEGIN PV */
int val = 20;
/* USER CODE END PV */
const char* e = "USER CODE END PV";
"#;
    let path = main_c();
    let regions = scan_source(&path, source).unwrap();
    assert_eq!(regions.len(), 1);
    assert_eq!(regions[0].tag, "PV");
}

#[test]
fn test_find_loop_body_gap_realistic() {
    let source = r#"
  /* USER CODE BEGIN WHILE */
  while (1)
  {
    /* USER CODE END WHILE */

    /* USER CODE BEGIN 3 */
  }
  /* USER CODE END 3 */
"#;
    let path = main_c();
    let regions = scan_source(&path, source).unwrap();
    let gap = find_loop_body_gap(&regions).unwrap();

    assert_eq!(gap.tag, "__loop_body__");
    assert_eq!(gap.begin_marker_range, (0, 0));
    assert_eq!(gap.end_marker_range, (0, 0));

    let gap_text = &source[gap.byte_range.0..gap.byte_range.1];
    assert_eq!(gap_text, "\n\n    ");
}

#[test]
fn test_find_loop_body_gap_with_user_code() {
    let source = r#"
  /* USER CODE BEGIN WHILE */
  while (1)
  {
    /* USER CODE END WHILE */
    HAL_GPIO_TogglePin(GPIOA, GPIO_PIN_5);
    HAL_Delay(500);
    /* USER CODE BEGIN 3 */
  }
  /* USER CODE END 3 */
"#;
    let path = main_c();
    let regions = scan_source(&path, source).unwrap();
    let gap = find_loop_body_gap(&regions).unwrap();

    assert_eq!(gap.tag, "__loop_body__");
    let gap_text = &source[gap.byte_range.0..gap.byte_range.1];
    assert_eq!(
        gap_text,
        "\n    HAL_GPIO_TogglePin(GPIOA, GPIO_PIN_5);\n    HAL_Delay(500);\n    "
    );
}

#[test]
fn test_find_loop_body_gap_no_while_tag() {
    let source = r#"
/* USER CODE BEGIN PV */
int x = 0;
/* USER CODE END PV */
"#;
    let path = main_c();
    let regions = scan_source(&path, source).unwrap();
    assert!(find_loop_body_gap(&regions).is_none());
}

#[test]
fn test_find_loop_body_gap_while_is_last_region() {
    let source = r#"
/* USER CODE BEGIN WHILE */
while (1) {
/* USER CODE END WHILE */
"#;
    let path = main_c();
    let regions = scan_source(&path, source).unwrap();
    assert!(find_loop_body_gap(&regions).is_none());
}

#[test]
fn line_comment_markers_and_line_numbers() {
    let source = "int a;\n// USER CODE BEGIN Tag \nint b;\n// USER CODE END Tag\n";
    let path = main_c();
    let regions = scan_source(&path, source).unwrap();
    assert_eq!(regions.len(), 1);
    assert_eq!(regions[0].tag, "Tag");
    assert_eq!(regions[0].line_range, (2, 4));
}

#[test]
fn nested_regions_close_innermost_first() {
    let source = "/* USER CODE BEGIN A */\n/* USER CODE BEGIN B */\nx;\n/* USER CODE END B */\n/* USER CODE END A */\n";
    let path = main_c();
    let regions = scan_source(&path, source).unwrap();
    assert_eq!(regions.len(), 2);
    assert_eq!(regions[0].tag, "B");
    assert_eq!(regions[1].tag, "A");
}

#[test]
fn byte_in_region_is_half_open() {
    let source = "/* USER CODE BEGIN PV */\nint x;\n/* USER CODE END PV */\n";
    let path = main_c();
    let regions = scan_source(&path, source).unwrap();
    let (s, e) = regions[0].byte_range;
    assert!(is_byte_in_user_region(s, &regions));
    assert!(!is_byte_in_user_region(e, &regions));
    assert!(!is_byte_in_user_region(0, &regions));
}
