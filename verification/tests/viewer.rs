use std::path::PathBuf;
use stakhal::ioc::{parse_ioc_str, IocParseError};
use stakhal::marker_scan::{scan_source, ScanError};
use stakhal::project::DiscoveryError;
use stakhal::pv_extract::{extract_pv_declarations, PvExtractError};
use stakhal::viewer::{DirectoryContents, StakHalEguiApp};

const IOC: &str = "Mcu.Family=STM32F4\nMcu.Name=STM32F446RETx\nUSART2.Mode=Asynchronous\nTIM2.Prescaler=83\n";

const MAIN_C: &str = "/* USER CODE BEGIN Includes */\n#include <stdio.h>\n/* USER CODE END Includes */\n/* USER CODE BEGIN PV */\nstatic int isrCount = 0;\nuint8_t buf[4];\n/* USER CODE END PV */\nint main(void) {\n  /* USER CODE BEGIN WHILE */\n  while (1) {\n    /* USER CODE END WHILE */\n    toggle();\n    /* USER CODE BEGIN 3 */\n  }\n  /* USER CODE END 3 */\n}\n";

fn found(
    ioc: Result<stakhal::ioc::IocProject, IocParseError>,
    regions: Result<Vec<stakhal::marker_scan::UserRegion>, ScanError>,
    pvs: Result<Vec<stakhal::pv_extract::PvDeclaration>, PvExtractError>,
) -> DirectoryContents {
    DirectoryContents::Found {
        ioc_path: PathBuf::from("proj/blink.ioc"),
        main_c_path: PathBuf::from("proj/Core/Src/main.c"),
        ioc,
        regions,
        pv_declarations: pvs,
    }
}

#[test]
fn viewer_starts_empty() {
    let app = StakHalEguiApp::default();
    assert!(app.project_path.is_none());
    assert!(app.loaded_project.is_none());
    assert!(app.user_regions.is_empty());
    assert!(app.pv_declarations.is_empty());
    assert!(app.error_message.is_none());
}

#[test]
fn viewer_loads_a_project() {
    let path = PathBuf::from("proj/Core/Src/main.c");
    let mut app = StakHalEguiApp::default();
    let contents = found(
        parse_ioc_str(IOC),
        scan_source(&path, MAIN_C),
        extract_pv_declarations(&path, MAIN_C),
    );
    app.load_project_from_dir(PathBuf::from("proj"), contents);
    assert!(app.error_message.is_none(), "{:?}", app.error_message);
    assert_eq!(app.project_path, Some(PathBuf::from("proj")));
    assert_eq!(app.ioc_path, Some(PathBuf::from("proj/blink.ioc")));
    let proj = app.loaded_project.as_ref().unwrap();
    assert_eq!(proj.mcu_family, "STM32F4");
    assert_eq!(proj.mcu_name, "STM32F446RETx");
    assert_eq!(proj.peripherals.len(), 2);
    assert_eq!(app.user_regions.len(), 5);
    assert!(app.user_regions.iter().any(|r| r.tag == "Includes"));
    let gap = app.user_regions.last().unwrap();
    assert_eq!(gap.tag, "__loop_body__");
    assert_eq!(gap.begin_marker_range, (0, 0));
    assert_eq!(app.pv_declarations.len(), 2);
    assert!(app.pv_declarations.iter().any(|pv| pv.name == "isrCount"));
}

#[test]
fn viewer_reports_the_first_error() {
    let path = PathBuf::from("main.c");
    let mut app = StakHalEguiApp::default();
    app.load_project_from_dir(
        PathBuf::from("p"),
        found(
            Err(IocParseError::MissingRequiredKey("Mcu.Family".to_string())),
            Err(ScanError::IoError("denied".to_string())),
            Ok(vec![]),
        ),
    );
    assert_eq!(app.error_message.as_deref(), Some("IOC parse error: missing required key: Mcu.Family"));
    assert!(app.loaded_project.is_none());
    assert!(app.user_regions.is_empty());

    app.load_project_from_dir(
        PathBuf::from("p"),
        found(parse_ioc_str(IOC), Err(ScanError::MismatchedMarkers("PV".to_string())), Ok(vec![])),
    );
    assert_eq!(
        app.error_message.as_deref(),
        Some("User region scan error: mismatched USER CODE BEGIN/END for tag 'PV'")
    );
    assert!(app.loaded_project.is_some());

    app.load_project_from_dir(
        PathBuf::from("p"),
        found(parse_ioc_str(IOC), scan_source(&path, MAIN_C), Err(PvExtractError::NoPvRegion)),
    );
    assert_eq!(app.error_message.as_deref(), Some("PV extract error: no region tagged 'PV' found in file"));
    assert_eq!(app.user_regions.len(), 5);
    assert!(app.pv_declarations.is_empty());

    app.load_project_from_dir(
        PathBuf::from("p"),
        found(
            Err(IocParseError::MalformedLine(3, "oops".to_string())),
            Ok(vec![]),
            Ok(vec![]),
        ),
    );
    assert_eq!(
        app.error_message.as_deref(),
        Some("IOC parse error: malformed line 3: expected key=value, got 'oops'")
    );
}

#[test]
fn viewer_reports_discovery_errors() {
    let mut app = StakHalEguiApp::default();
    app.load_project_from_dir(PathBuf::from("p"), found(parse_ioc_str(IOC), Ok(vec![]), Ok(vec![])));
    app.load_project_from_dir(PathBuf::from("empty"), DirectoryContents::NotFound(DiscoveryError::NoIocFound(PathBuf::from("empty"))));
    assert_eq!(app.error_message.as_deref(), Some("Discovery error: no .ioc file found in empty"));
    assert_eq!(app.project_path, Some(PathBuf::from("empty")));
    assert_eq!(app.ioc_path, Some(PathBuf::from("proj/blink.ioc")));
    assert!(app.loaded_project.is_none());
    assert!(app.user_regions.is_empty());
    assert!(app.pv_declarations.is_empty());

    let err = DiscoveryError::NoMainCFound(vec![PathBuf::from("a/main.c")]);
    assert_eq!(err.message(), "no main.c found \u{2014} checked: [\"a/main.c\"]");
}
