use std::path::PathBuf;
use stakhal::marker_scan::scan_source;
use stakhal::render_model::{build_source_render_model_from_str, LineTier};

#[test]
fn test_small_fixture_all_four_tiers() {
    let source = "/* USER CODE BEGIN Header */\n * Some header comment\n/* USER CODE END Header */\nint unused = 0;\n/* USER CODE BEGIN PV */\nint counter = 0;\n/* USER CODE END PV */\n\nvoid step(void) {\n/* USER CODE BEGIN 0 */\n    counter = 1;\n/* USER CODE END 0 */\n}\n";
    let path = PathBuf::from("main.c");
    let regions = scan_source(&path, source).unwrap();

    let decl_range = (
        source.find("int counter = 0;").unwrap(),
        source.find("int counter = 0;").unwrap() + "int counter = 0;".len(),
    );

    let usage_idx = source.find("counter = 1;").unwrap();
    let usage_range = (usage_idx, usage_idx + "counter".len());

    let model = build_source_render_model_from_str(source, &regions, decl_range, &[usage_range]);

    let line4 = model.iter().find(|l| l.line_number == 4).unwrap();
    assert_eq!(line4.text, "int unused = 0;");
    assert_eq!(line4.tier, LineTier::Generated);

    let line6 = model.iter().find(|l| l.line_number == 6).unwrap();
    assert_eq!(line6.text, "int counter = 0;");
    assert_eq!(line6.tier, LineTier::Declaration);

    let line11 = model.iter().find(|l| l.line_number == 11).unwrap();
    assert_eq!(line11.text, "    counter = 1;");
    assert_eq!(line11.tier, LineTier::Usage);

    let line2 = model.iter().find(|l| l.line_number == 2).unwrap();
    assert_eq!(line2.text, " * Some header comment");
    assert_eq!(line2.tier, LineTier::Normal);
}

#[test]
fn test_crlf_fixture_line_splitting() {
    let content = "/* USER CODE BEGIN PV */\r\nint val = 42;\r\n/* USER CODE END PV */\r\n\r\nval++;\r\n";
    let path = PathBuf::from("main.c");
    let regions = scan_source(&path, content).unwrap();

    let decl_start = content.find("int val = 42;").unwrap();
    let decl_range = (decl_start, decl_start + "int val = 42;".len());

    let usage_start = content.find("val++").unwrap();
    let usage_range = (usage_start, usage_start + "val".len());

    let model = build_source_render_model_from_str(content, &regions, decl_range, &[usage_range]);

    assert_eq!(model.len(), 5);
    assert_eq!(model[0].text, "/* USER CODE BEGIN PV */");
    assert_eq!(model[1].text, "int val = 42;");
    assert_eq!(model[1].tier, LineTier::Declaration);
    assert_eq!(model[4].text, "val++;");
    assert_eq!(model[4].tier, LineTier::Usage);
}

#[test]
fn last_line_without_newline_and_empty_text() {
    let model = build_source_render_model_from_str("a\nb", &[], (100, 100), &[]);
    assert_eq!(model.len(), 2);
    assert_eq!(model[1].line_number, 2);
    assert_eq!(model[1].text, "b");
    assert_eq!(model[1].tier, LineTier::Generated);
    assert!(build_source_render_model_from_str("", &[], (0, 0), &[]).is_empty());
}
