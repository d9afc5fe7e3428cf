use std::path::PathBuf;
use stakhal::pv_extract::{extract_pv_declarations, PvExtractError};

fn main_c() -> PathBuf {
    PathBuf::from("main.c")
}

#[test]
fn test_single_simple_declaration() {
    let content = r#"
/* USER CODE BEGIN PV */
uint32_t counter = 0;
/* USER CODE END PV */
"#;
    let decls = extract_pv_declarations(&main_c(), content).unwrap();
    assert_eq!(decls.len(), 1);
    let decl = &decls[0];
    assert_eq!(decl.name, "counter");
    assert_eq!(decl.type_str, "uint32_t");
    assert_eq!(decl.initial_value, Some("0".to_string()));
    assert!(!decl.is_pointer);
    assert!(!decl.is_array);
    assert_eq!(decl.array_dims, None);
    assert_eq!(decl.raw_text, "uint32_t counter = 0;");
    assert_eq!(decl.line, 3);
}

#[test]
fn test_multiple_declarators_in_one_statement() {
    let content = r#"
/* USER CODE BEGIN PV */
int a, b = 5;
/* USER CODE END PV */
"#;
    let decls = extract_pv_declarations(&main_c(), content).unwrap();
    assert_eq!(decls.len(), 2);

    assert_eq!(decls[0].name, "a");
    assert_eq!(decls[0].type_str, "int");
    assert_eq!(decls[0].initial_value, None);
    assert_eq!(decls[0].raw_text, "int a, b = 5;");
    assert_eq!(decls[0].line, 3);

    assert_eq!(decls[1].name, "b");
    assert_eq!(decls[1].type_str, "int");
    assert_eq!(decls[1].initial_value, Some("5".to_string()));
    assert_eq!(decls[1].raw_text, "int a, b = 5;");
    assert_eq!(decls[1].line, 3);
}

#[test]
fn test_array_declaration() {
    let content = r#"
/* USER CODE BEGIN PV */
uint8_t buffer[64];
/* USER CODE END PV */
"#;
    let decls = extract_pv_declarations(&main_c(), content).unwrap();
    assert_eq!(decls.len(), 1);
    let decl = &decls[0];
    assert_eq!(decl.name, "buffer");
    assert_eq!(decl.type_str, "uint8_t");
    assert!(decl.is_array);
    assert_eq!(decl.array_dims, Some("64".to_string()));
    assert!(!decl.is_pointer);
    assert_eq!(decl.initial_value, None);
    assert_eq!(decl.line, 3);
}

#[test]
fn test_pointer_declaration() {
    let content = r#"
/* USER CODE BEGIN PV */
TIM_HandleTypeDef *htim2;
/* USER CODE END PV */
"#;
    let decls = extract_pv_declarations(&main_c(), content).unwrap();
    assert_eq!(decls.len(), 1);
    let decl = &decls[0];
    assert_eq!(decl.name, "htim2");
    assert_eq!(decl.type_str, "TIM_HandleTypeDef");
    assert!(decl.is_pointer);
    assert!(!decl.is_array);
    assert_eq!(decl.line, 3);
}

#[test]
fn test_pv_region_with_only_comments() {
    let content = r#"
/* USER CODE BEGIN PV */
/* Just a comment inside PV */
// Another comment
/* USER CODE END PV */
"#;
    let decls = extract_pv_declarations(&main_c(), content).unwrap();
    assert!(decls.is_empty());
}

#[test]
fn test_no_pv_region_error() {
    let content = r#"
/* USER CODE BEGIN 0 */
int x = 1;
/* USER CODE END 0 */
"#;
    let res = extract_pv_declarations(&main_c(), content);
    assert!(matches!(res, Err(PvExtractError::NoPvRegion)));
}

#[test]
fn declarations_outside_the_region_are_left_out() {
    let content = "int before = 1;\n/* USER CODE BEGIN PV */\nstatic char *names[4] = {0};\n/* USER CODE END PV */\nint after;\n";
    let decls = extract_pv_declarations(&main_c(), content).unwrap();
    assert_eq!(decls.len(), 1);
    assert_eq!(decls[0].name, "names");
    assert!(decls[0].is_pointer);
    assert!(decls[0].is_array);
    assert_eq!(decls[0].array_dims, Some("4".to_string()));
    assert_eq!(decls[0].initial_value, Some("{0}".to_string()));
    assert_eq!(decls[0].type_str, "static char");
    assert_eq!(decls[0].line, 3);
}

#[test]
fn scan_errors_pass_through() {
    let res = extract_pv_declarations(&main_c(), "/* USER CODE END PV */\n");
    assert!(matches!(res, Err(PvExtractError::ScanError(_))));
}
