use stakhal::pin_modules::is_infra_file;

#[test]
fn test_is_infra_file() {
    assert!(is_infra_file("Core/Src/stm32f4xx_it.c"));
    assert!(is_infra_file("Core/Src/stm32f4xx_hal_msp.c"));
    assert!(is_infra_file("Core/Src/system_stm32f4xx.c"));
    assert!(is_infra_file("Core/Src/syscalls.c"));
    assert!(is_infra_file("Core/Src/sysmem.c"));

    assert!(!is_infra_file("Core/Src/system.c"));
    assert!(!is_infra_file("Core/Src/alignment.c"));
    assert!(!is_infra_file("Core/Src/hatch.c"));
    assert!(!is_infra_file("Core/Src/main.c"));
}

#[test]
fn path_without_file_name_is_not_infra() {
    assert!(!is_infra_file(""));
    assert!(!is_infra_file("/"));
}

use stakhal::ioc::PinConfig;
use stakhal::pin_modules::{assign_pin_modules, build_pin_patterns, extract_ast_identifiers, project_c_files, select_module_files};

#[test]
fn test_shared_pin_ownership() {
    let pins = vec![PinConfig {
        pin: "PB10".to_string(),
        signal: "GPIO_Input".to_string(),
        label: Some("SHARED_FLAG".to_string()),
        modules: Vec::new(),
    }];

    let (patterns, _) = build_pin_patterns(&pins);
    let source1 = "void f1(void) { if (HAL_GPIO_ReadPin(SHARED_FLAG_GPIO_Port, SHARED_FLAG_Pin)) {} }";
    let source2 = "void f2(void) { HAL_GPIO_WritePin(SHARED_FLAG_GPIO_Port, SHARED_FLAG_Pin, 1); }";

    let idents1 = extract_ast_identifiers(source1, false);
    let idents2 = extract_ast_identifiers(source2, false);

    assert!(idents1.iter().any(|s| s == "SHARED_FLAG_Pin"));
    assert!(idents2.iter().any(|s| s == "SHARED_FLAG_Pin"));
    assert!(patterns[0].label_macros.contains(&"SHARED_FLAG_Pin".to_string()));
}

fn pin(name: &str, signal: &str, label: Option<&str>) -> PinConfig {
    PinConfig { pin: name.to_string(), signal: signal.to_string(), label: label.map(|s| s.to_string()), modules: Vec::new() }
}

#[test]
fn patterns_for_labels_raw_pins_and_peripherals() {
    let pins = vec![
        pin("PA5", "GPIO_Output", Some("LD2 [green]")),
        pin("PC13", "GPIO_EXTI13", Some("B1_Pin")),
        pin("PA2", "USART2_TX", None),
        pin("PB6", "I2C1_SCL", None),
    ];
    let (patterns, counts) = build_pin_patterns(&pins);
    assert_eq!(patterns[0].label_macros, vec!["LD2_Pin", "LD2_GPIO_Port", "LD2"]);
    assert_eq!(patterns[1].label_macros, vec!["B1_Pin", "B1_GPIO_Port", "B1"]);
    assert_eq!(patterns[0].raw_port, Some("GPIOA".to_string()));
    assert_eq!(patterns[0].raw_pin, Some("GPIO_PIN_5".to_string()));
    assert_eq!(patterns[2].periph_tokens, vec!["USART2", "huart2"]);
    assert_eq!(patterns[2].periph_family, Some("USART".to_string()));
    assert_eq!(patterns[3].periph_tokens, vec!["I2C1", "hi2c1"]);
    assert_eq!(counts, vec![1, 0, 0, 1, 0, 0, 0]);
}

#[test]
fn modules_by_token_family_and_raw_pin() {
    let pins = vec![pin("PA2", "USART2_TX", None), pin("PA5", "GPIO_Output", None)];
    let files = vec![
        ("comms".to_string(), "extern UART_HandleTypeDef huart2;\nvoid send(void) { HAL_UART_Transmit(&huart2, 0, 0, 10); }\n".to_string()),
        ("led".to_string(), "void blink(void) { HAL_GPIO_TogglePin(GPIOA, GPIO_PIN_5); }\n".to_string()),
        ("main".to_string(), "void MX_USART2_UART_Init(void) { huart2.Instance = USART2; }\nint main(void) { return 0; }\n".to_string()),
    ];
    let (updated, modules) = assign_pin_modules(&pins, &files);
    assert_eq!(updated[0].modules, vec!["comms".to_string()]);
    assert_eq!(updated[1].modules, vec!["led".to_string()]);
    assert_eq!(modules, vec!["comms".to_string(), "led".to_string(), "main".to_string()]);

    let (_, only_main) = assign_pin_modules(&pins, &[]);
    assert_eq!(only_main, vec!["main".to_string()]);
}

#[test]
fn main_init_functions_are_skipped() {
    let src = "void MX_GPIO_Init(void) { int hidden; }\nint visible(void) { return 0; }\n";
    let in_main = extract_ast_identifiers(src, true);
    assert!(!in_main.iter().any(|s| s == "hidden"));
    assert!(!in_main.iter().any(|s| s == "MX_GPIO_Init"));
    assert!(in_main.iter().any(|s| s == "visible"));
    let elsewhere = extract_ast_identifiers(src, false);
    assert!(elsewhere.iter().any(|s| s == "hidden"));
}

#[test]
fn module_files_are_the_application_c_files() {
    let names: Vec<String> = ["main.c", "relay.c", "alignment.c", "stm32f4xx_it.c", "notes.txt", ".c", "x.h", "syscalls.c", "a.b.c"]
        .iter()
        .map(|s| s.to_string())
        .collect();
    let (mods, alone) = select_module_files(&names, "Core/Src/main.c", true);
    assert_eq!(mods, vec!["a.b.c".to_string(), "alignment.c".to_string(), "relay.c".to_string()]);
    assert!(!alone);

    let only_main = vec!["main.c".to_string(), "stm32f4xx_it.c".to_string()];
    let (mods, alone) = select_module_files(&only_main, "Core/Src/main.c", true);
    assert!(mods.is_empty());
    assert!(alone);
    let (_, alone) = select_module_files(&only_main, "Core/Src/main.c", false);
    assert!(!alone);
    let (_, alone) = select_module_files(&Vec::<String>::new(), "Core/Src/stm32f4xx_it.c", true);
    assert!(!alone);
}

#[test]
fn project_c_files_keep_first_places_and_add_main() {
    let paths: Vec<String> = ["p/Src/app.c", "p/Src/notes.md", "p/Src/app.c", "p/Core/Src/io.c", "p/.c", "p/Src/util.h"]
        .iter()
        .map(|s| s.to_string())
        .collect();
    let files = project_c_files(&paths, "p/Core/Src/main.c");
    assert_eq!(files, vec!["p/Src/app.c", "p/Core/Src/io.c", "p/Core/Src/main.c"]);
    let with_main = vec!["p/Core/Src/main.c".to_string(), "p/Core/Src/io.c".to_string()];
    assert_eq!(project_c_files(&with_main, "p/Core/Src/main.c"), with_main);
}
