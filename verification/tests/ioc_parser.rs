use stakhal::ioc::{parse_ioc_str, IocParseError};

const REALISTIC_IOC_FIXTURE: &str = r#"
# MicroXplorer Configuration settings - Do not modify
Mcu.Family=STM32F4
Mcu.IP0=NVIC
Mcu.IP1=RCC
Mcu.IP2=SYS
Mcu.IP3=USART2
Mcu.Name=STM32F446RETx
Mcu.UserName=STM32F446RETx
PA2.Signal=USART2_TX
PA3.Signal=USART2_RX
ProjectManager.CustomerFirmwarePackage=STM32Cube_FW_F4_V1.27.1
USART2.BaudRate=115200
USART2.IPParameters=VirtualMode,BaudRate
USART2.Mode=Asynchronous
USART2.VirtualMode=VM_ASYNC
"#;

#[test]
fn test_parse_well_formed_ioc() {
    let project = parse_ioc_str(REALISTIC_IOC_FIXTURE).unwrap();
    assert_eq!(project.mcu_family, "STM32F4");
    assert_eq!(project.mcu_name, "STM32F446RETx");

    assert_eq!(project.pins.len(), 2);
    let pa2 = project.pins.iter().find(|p| p.pin == "PA2").unwrap();
    assert_eq!(pa2.signal, "USART2_TX");

    let usart2 = project
        .peripherals
        .iter()
        .find(|p| p.name == "USART2")
        .unwrap();
    assert_eq!(usart2.mode, Some("Asynchronous".to_string()));
    assert_eq!(usart2.parameters.get("BaudRate").unwrap(), "115200");
    assert_eq!(
        usart2.parameters.get("IPParameters").unwrap(),
        "VirtualMode,BaudRate"
    );

    assert_eq!(
        project.raw.get("ProjectManager.CustomerFirmwarePackage").unwrap(),
        "STM32Cube_FW_F4_V1.27.1"
    );
    assert_eq!(project.raw.get("PA2.Signal").unwrap(), "USART2_TX");
    assert_eq!(project.raw.get("Mcu.Family").unwrap(), "STM32F4");
}

#[test]
fn test_malformed_line_no_equals() {
    let fixture = r#"
Mcu.Family=STM32F4
Mcu.UserName=STM32F446RETx
This is a malformed line with no equals sign
PA2.Signal=USART2_TX
"#;
    let res = parse_ioc_str(fixture);
    assert!(matches!(res, Err(IocParseError::MalformedLine(4, ref line)) if line.contains("This is a malformed line")));
}

#[test]
fn test_parse_gpio_label() {
    let fixture = r#"
Mcu.Family=STM32F4
Mcu.UserName=STM32F446RETx
PA5.Signal=GPIO_Output
PA5.GPIO_Label=LD2
PB3.Signal=GPIO_Output
"#;
    let project = parse_ioc_str(fixture).unwrap();
    let pa5 = project.pins.iter().find(|p| p.pin == "PA5").unwrap();
    assert_eq!(pa5.label, Some("LD2".to_string()));

    let pb3 = project.pins.iter().find(|p| p.pin == "PB3").unwrap();
    assert_eq!(pb3.label, None);
}
