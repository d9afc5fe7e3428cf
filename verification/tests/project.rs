use std::path::PathBuf;
use stakhal::ioc::{parse_ioc_str, IocParseError};
use stakhal::marker_scan::ScanError;
use stakhal::project::{load_project, project_name, select_project_files, DiscoveryError, ProjectLoadError, ProjectSources};
use stakhal::pv_extract::PvExtractError;
use stakhal::state_transition::build_project_state_model;

const IOC: &str = "Mcu.Family=STM32F4\nMcu.Name=STM32F446RETx\nPA5.Signal=GPIO_Output\nUSART2.Mode=Asynchronous\n";

const MAIN_C: &str = "int main(void) {\n  /* USER CODE BEGIN WHILE */\n  while (1) {\n    /* USER CODE END WHILE */\n    /* USER CODE BEGIN 3 */\n  }\n  /* USER CODE END 3 */\n}\n";

fn sources(main_c: Result<String, ScanError>, pv: Result<Vec<stakhal::pv_extract::PvDeclaration>, PvExtractError>) -> ProjectSources {
    ProjectSources {
        ioc: parse_ioc_str(IOC),
        main_c,
        pv_declarations: pv,
        state_machines: vec![],
        pins: vec![],
        modules: vec!["main".to_string()],
    }
}

#[test]
fn load_project_assembles_parts() {
    let s = sources(Ok(MAIN_C.to_string()), Err(PvExtractError::NoPvRegion));
    let p = load_project(&PathBuf::from("blink.ioc"), Some("blink.ioc"), &PathBuf::from("Core/Src/main.c"), s).unwrap();
    assert_eq!(p.meta.name, "blink");
    assert_eq!(p.meta.mcu_family, "STM32F4");
    assert_eq!(p.meta.mcu_name, "STM32F446RETx");
    assert_eq!(p.meta.main_c_path, PathBuf::from("Core/Src/main.c"));
    assert_eq!(p.user_regions.len(), 2);
    assert!(p.loop_body.is_some());
    assert!(p.pv_declarations.is_empty());
    assert_eq!(p.peripherals.len(), 1);
    assert_eq!(p.call_graph_edges.len(), 1);
    assert_eq!(p.modules, vec!["main".to_string()]);
    let model = build_project_state_model(&p);
    assert_eq!(model.machines.len(), 1);
    assert_eq!(model.machines[0].peripheral, "USART2");
}

#[test]
fn load_project_reports_first_error() {
    let mut s = sources(Ok(MAIN_C.to_string()), Ok(vec![]));
    s.ioc = Err(IocParseError::IoError("denied".to_string()));
    let r = load_project(&PathBuf::from("a.ioc"), Some("a.ioc"), &PathBuf::from("main.c"), s);
    assert!(matches!(r, Err(ProjectLoadError::IocError(_))));

    let s = sources(Err(ScanError::IoError("denied".to_string())), Ok(vec![]));
    let r = load_project(&PathBuf::from("a.ioc"), Some("a.ioc"), &PathBuf::from("main.c"), s);
    assert!(matches!(r, Err(ProjectLoadError::ScanError(ScanError::IoError(_)))));

    let s = sources(Ok("/* USER CODE END X */\n".to_string()), Ok(vec![]));
    let r = load_project(&PathBuf::from("a.ioc"), Some("a.ioc"), &PathBuf::from("main.c"), s);
    assert!(matches!(r, Err(ProjectLoadError::ScanError(ScanError::UnknownEndTag(t))) if t == "X"));

    let s = sources(Ok(MAIN_C.to_string()), Err(PvExtractError::ParseError("bad".to_string())));
    let r = load_project(&PathBuf::from("a.ioc"), Some("a.ioc"), &PathBuf::from("main.c"), s);
    assert!(matches!(r, Err(ProjectLoadError::PvExtractError(PvExtractError::ParseError(_)))));
}

#[test]
fn select_project_files_cases() {
    let dir = PathBuf::from("proj");
    let core = PathBuf::from("proj/Core/Src/main.c");
    let src = PathBuf::from("proj/Src/main.c");
    let r = select_project_files(&dir, vec![], core.clone(), true, src.clone(), true);
    assert!(matches!(r, Err(DiscoveryError::NoIocFound(d)) if d == dir));

    let two = vec![PathBuf::from("proj/a.ioc"), PathBuf::from("proj/b.ioc")];
    let r = select_project_files(&dir, two, core.clone(), true, src.clone(), true);
    assert!(matches!(r, Err(DiscoveryError::MultipleIocFound(_, fs)) if fs.len() == 2));

    let one = vec![PathBuf::from("proj/a.ioc")];
    let (ioc, main_c) = select_project_files(&dir, one.clone(), core.clone(), true, src.clone(), true).unwrap();
    assert_eq!(ioc, PathBuf::from("proj/a.ioc"));
    assert_eq!(main_c, core);

    let (_, main_c) = select_project_files(&dir, one.clone(), core.clone(), false, src.clone(), true).unwrap();
    assert_eq!(main_c, src);

    let r = select_project_files(&dir, one, core.clone(), false, src.clone(), false);
    assert!(matches!(r, Err(DiscoveryError::NoMainCFound(c)) if c == vec![core, src]));
}

#[test]
fn project_name_is_the_ioc_stem() {
    assert_eq!(project_name("proj/blink.ioc"), "blink");
    assert_eq!(project_name("proj/03_timers.ioc"), "03_timers");
    assert_eq!(project_name("a/archive.tar.gz"), "archive.tar");
    assert_eq!(project_name("a/.hidden"), ".hidden");
    assert_eq!(project_name("a/noext"), "noext");
    assert_eq!(project_name("/"), "project");
}

#[test]
fn load_project_without_path_text_is_named_project() {
    let s = sources(Ok(MAIN_C.to_string()), Err(PvExtractError::NoPvRegion));
    let p = load_project(&PathBuf::from("x.ioc"), None, &PathBuf::from("main.c"), s).unwrap();
    assert_eq!(p.meta.name, "project");
    let s = sources(Ok(MAIN_C.to_string()), Err(PvExtractError::NoPvRegion));
    let p = load_project(&PathBuf::from("d/03_timers.ioc"), Some("d/03_timers.ioc"), &PathBuf::from("main.c"), s).unwrap();
    assert_eq!(p.meta.name, "03_timers");
}
