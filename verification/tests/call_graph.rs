use stakhal::assoc::StringMap;
use stakhal::builder::{build_call_graph, EdgeType};
use stakhal::ioc::{IocProject, PeripheralConfig};

fn make_test_ioc(nvic_value: Option<&str>) -> IocProject {
    let mut raw = StringMap::new();
    if let Some(val) = nvic_value {
        raw.insert("NVIC.USART2_IRQn".to_string(), val.to_string());
    }

    IocProject {
        mcu_family: "STM32F4".to_string(),
        mcu_name: "STM32F446RETx".to_string(),
        pins: vec![],
        peripherals: vec![PeripheralConfig {
            name: "USART2".to_string(),
            mode: Some("Asynchronous".to_string()),
            parameters: StringMap::new(),
        }],
        raw,
    }
}

#[test]
fn test_nvic_enabled_emits_full_chain() {
    let ioc = make_test_ioc(Some("true:5:0:true:false:true:true"));
    let edges = build_call_graph(&ioc);

    assert!(edges.iter().any(|e| e.from == "main"
        && e.to == "MX_USART2_Init"
        && e.edge_type == EdgeType::Init));
    assert!(edges.iter().any(|e| e.from == "USART2_IRQHandler"
        && e.to == "HAL_UART_IRQHandler"
        && e.edge_type == EdgeType::IrqEntry));
    assert!(edges.iter().any(|e| e.from == "HAL_UART_IRQHandler"
        && e.to == "HAL_UART_RxCpltCallback"
        && e.edge_type == EdgeType::WeakOverride));
}

#[test]
fn test_nvic_disabled_emits_only_init() {
    let ioc = make_test_ioc(Some("false:5:0:true:false:true:true"));
    let edges = build_call_graph(&ioc);

    assert_eq!(edges.len(), 1);
    assert_eq!(edges[0].from, "main");
    assert_eq!(edges[0].to, "MX_USART2_Init");
    assert_eq!(edges[0].edge_type, EdgeType::Init);
}

#[test]
fn test_nvic_absent_emits_only_init() {
    let ioc = make_test_ioc(None);
    let edges = build_call_graph(&ioc);

    assert_eq!(edges.len(), 1);
    assert_eq!(edges[0].from, "main");
    assert_eq!(edges[0].to, "MX_USART2_Init");
    assert_eq!(edges[0].edge_type, EdgeType::Init);
}

#[test]
fn enabled_irq_edges_are_all_generated() {
    let ioc = make_test_ioc(Some("true:5:0:true:false:true:true"));
    let edges = build_call_graph(&ioc);
    assert!(edges.len() > 2);
    assert!(edges.iter().all(|e| e.generated));
    assert_eq!(edges[1].from, "USART2_IRQHandler");
    assert_eq!(edges[1].to, "HAL_UART_IRQHandler");
}
