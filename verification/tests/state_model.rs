use stakhal::builder::{EdgeType, GraphEdge};
use stakhal::assoc::StringMap;
use stakhal::ioc::PeripheralConfig;
use stakhal::state_transition::{build_state_machine_for_peripheral, build_state_model_from_parts, StateKind};

#[test]
fn test_polling_peripheral_state_machine() {
    let edges = vec![GraphEdge {
        from: "main".to_string(),
        to: "MX_I2C1_Init".to_string(),
        edge_type: EdgeType::Init,
        generated: true,
    }];

    let sm = build_state_machine_for_peripheral("I2C1", &edges);
    assert_eq!(sm.peripheral, "I2C1");
    assert_eq!(sm.states.len(), 3);
    assert_eq!(sm.transitions.len(), 3);
    assert_eq!(sm.states[0].kind, StateKind::Reset);
    assert_eq!(sm.states[1].kind, StateKind::Ready);
    assert_eq!(sm.states[2].kind, StateKind::Active);
}

#[test]
fn peripheral_without_edges_has_reset_ready_busy() {
    let sm = build_state_machine_for_peripheral("SPI1", &[]);
    assert_eq!(sm.states.len(), 3);
    assert_eq!(sm.states[0].kind, StateKind::Reset);
}

#[test]
fn test_irq_peripheral_state_machine() {
    let edges = vec![
        GraphEdge { from: "main".to_string(), to: "MX_USART2_Init".to_string(), edge_type: EdgeType::Init, generated: true },
        GraphEdge {
            from: "USART2_IRQHandler".to_string(),
            to: "HAL_UART_IRQHandler".to_string(),
            edge_type: EdgeType::IrqEntry,
            generated: true,
        },
        GraphEdge {
            from: "HAL_UART_IRQHandler".to_string(),
            to: "HAL_UART_RxCpltCallback".to_string(),
            edge_type: EdgeType::WeakOverride,
            generated: true,
        },
        GraphEdge {
            from: "HAL_UART_IRQHandler".to_string(),
            to: "HAL_UART_ErrorCallback".to_string(),
            edge_type: EdgeType::WeakOverride,
            generated: true,
        },
    ];
    let sm = build_state_machine_for_peripheral("USART2", &edges);
    assert_eq!(sm.peripheral, "USART2");
    let state_names: Vec<&str> = sm.states.iter().map(|s| s.name.as_str()).collect();
    assert!(state_names.contains(&"RESET"));
    assert!(state_names.contains(&"READY"));
    assert!(state_names.contains(&"ACTIVE"));
    assert!(state_names.contains(&"ISR"));
    assert!(state_names.contains(&"RxCplt"));
    assert!(state_names.contains(&"ERROR"));
}

#[test]
fn test_project_state_layout_computation() {
    let peripherals = vec![
        PeripheralConfig { name: "USART2".to_string(), mode: Some("Asynchronous".to_string()), parameters: StringMap::new() },
        PeripheralConfig { name: "TIM2".to_string(), mode: None, parameters: StringMap::new() },
    ];
    let edges = vec![
        GraphEdge { from: "main".to_string(), to: "MX_USART2_Init".to_string(), edge_type: EdgeType::Init, generated: true },
        GraphEdge { from: "main".to_string(), to: "MX_TIM2_Init".to_string(), edge_type: EdgeType::Init, generated: true },
    ];
    let model = build_state_model_from_parts(&peripherals, &edges);
    assert_eq!(model.machines.len(), 2);
    let usart2 = model.machines.iter().find(|m| m.peripheral == "USART2").unwrap();
    // A polling peripheral has three states, each placed once.
    assert_eq!(usart2.states.len(), 3);
}

#[test]
fn machine_ids_are_distinct_and_transitions_join_states() {
    let mk = |from: &str, to: &str, t: EdgeType| GraphEdge {
        from: from.to_string(),
        to: to.to_string(),
        edge_type: t,
        generated: true,
    };
    let edges = vec![
        mk("main", "MX_USART2_UART_Init", EdgeType::Init),
        mk("USART2_IRQHandler", "HAL_UART_IRQHandler", EdgeType::HalDispatch),
        mk("HAL_UART_IRQHandler", "HAL_UART_RxCpltCallback", EdgeType::WeakOverride),
        mk("HAL_UART_IRQHandler", "HAL_UART_TxCpltCallback", EdgeType::WeakOverride),
        mk("HAL_UART_IRQHandler", "HAL_UART_ErrorCallback", EdgeType::WeakOverride),
    ];
    for p in ["USART2", "I2C1", "TIM1"] {
        let sm = build_state_machine_for_peripheral(p, &edges);
        for (i, a) in sm.states.iter().enumerate() {
            for b in sm.states.iter().skip(i + 1) {
                assert_ne!(a.id, b.id);
            }
        }
        for (i, a) in sm.transitions.iter().enumerate() {
            for b in sm.transitions.iter().skip(i + 1) {
                assert_ne!(a.id, b.id);
            }
            assert!(sm.states.iter().any(|s| s.id == a.from));
            assert!(sm.states.iter().any(|s| s.id == a.to));
        }
    }
}
