use stakhal::builder::{EdgeType, GraphEdge};
use stakhal::graph_lanes::graph_lanes;

fn edge(from: &str, to: &str, t: EdgeType) -> GraphEdge {
    GraphEdge { from: from.to_string(), to: to.to_string(), edge_type: t, generated: true }
}

#[test]
fn graph_lanes_empty() {
    assert!(graph_lanes(&[]).is_empty());
}

#[test]
fn graph_lanes_orders_gpio_first() {
    let edges = vec![
        edge("main", "MX_USART2_UART_Init", EdgeType::Init),
        edge("main", "MX_TIM2_Init", EdgeType::Init),
        edge("main", "MX_GPIO_Init", EdgeType::Init),
        edge("TIM2_IRQHandler", "HAL_TIM_IRQHandler", EdgeType::IrqEntry),
        edge("HAL_TIM_IRQHandler", "HAL_TIM_PeriodElapsedCallback", EdgeType::WeakOverride),
        edge("EXTI15_10_IRQHandler", "HAL_GPIO_EXTI_IRQHandler", EdgeType::IrqEntry),
        edge("DMA1_Stream5_IRQHandler", "HAL_DMA_IRQHandler", EdgeType::IrqEntry),
    ];
    let lanes = graph_lanes(&edges);
    let names: Vec<&str> = lanes.iter().map(|l| l.name.as_str()).collect();
    assert_eq!(names, vec!["GPIO", "DMA1", "TIM2", "USART2_UART"]);
    assert_eq!(lanes[0].init_node.as_deref(), Some("MX_GPIO_Init"));
    assert_eq!(lanes[0].irq_chains.len(), 1);
    assert_eq!(lanes[0].irq_chains[0].handler_id, "EXTI15_10_IRQHandler");
    assert!(lanes[1].init_node.is_none());
    assert_eq!(lanes[1].irq_chains[0].dispatch_id, "HAL_DMA_IRQHandler");
    let tim = &lanes[2];
    assert_eq!(tim.init_node.as_deref(), Some("MX_TIM2_Init"));
    assert_eq!(tim.irq_chains[0].override_targets, vec!["HAL_TIM_PeriodElapsedCallback".to_string()]);
    assert!(lanes[3].irq_chains.is_empty());
}

#[test]
fn graph_lanes_handler_without_suffix() {
    let edges = vec![edge("SysTick_Handler", "HAL_IncTick", EdgeType::IrqEntry)];
    let lanes = graph_lanes(&edges);
    assert_eq!(lanes.len(), 1);
    assert_eq!(lanes[0].name, "PERIPHERAL");
}

#[test]
fn graph_lanes_digit_after_prefix_is_another_peripheral() {
    let edges = vec![
        edge("main", "MX_TIM1_Init", EdgeType::Init),
        edge("TIM10_IRQHandler", "HAL_TIM_IRQHandler", EdgeType::IrqEntry),
        edge("TIM1_UP_IRQHandler", "HAL_TIM_IRQHandler", EdgeType::IrqEntry),
    ];
    let lanes = graph_lanes(&edges);
    let names: Vec<&str> = lanes.iter().map(|l| l.name.as_str()).collect();
    assert_eq!(names, vec!["TIM1", "TIM10"]);
    assert_eq!(lanes[0].irq_chains[0].handler_id, "TIM1_UP_IRQHandler");
}
