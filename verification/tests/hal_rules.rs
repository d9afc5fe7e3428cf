use stakhal::hal_rules::{mapping_for_irq_handler, mappings_for_peripheral_prefix};

#[test]
fn test_mapping_usart2() {
    let mapping = mapping_for_irq_handler("USART2_IRQHandler").unwrap();
    assert_eq!(mapping.hal_dispatch_fn, "HAL_UART_IRQHandler");
    assert_eq!(mapping.peripheral_prefix, "USART");
    assert!(mapping.weak_callbacks.contains(&"HAL_UART_RxCpltCallback"));
    assert!(mapping.weak_callbacks.contains(&"HAL_UART_TxCpltCallback"));
}

#[test]
fn test_mappings_for_prefix_tim() {
    let tim_mappings = mappings_for_peripheral_prefix("TIM");
    assert!(!tim_mappings.is_empty());
    assert!(tim_mappings.iter().any(|m| m.irq_handler_name == "TIM2_IRQHandler"));
}

#[test]
fn test_unknown_handler_returns_none() {
    assert!(mapping_for_irq_handler("NotARealHandler").is_none());
}

#[test]
fn test_exti_shared_handlers_distinct() {
    let exti9_5 = mapping_for_irq_handler("EXTI9_5_IRQHandler").unwrap();
    let exti15_10 = mapping_for_irq_handler("EXTI15_10_IRQHandler").unwrap();

    assert_eq!(exti9_5.hal_dispatch_fn, "HAL_GPIO_EXTI_IRQHandler");
    assert_eq!(exti15_10.hal_dispatch_fn, "HAL_GPIO_EXTI_IRQHandler");
    assert_ne!(exti9_5.irq_handler_name, exti15_10.irq_handler_name);
}

#[test]
fn prefix_lookup_keeps_only_that_prefix() {
    let uarts = mappings_for_peripheral_prefix("USART");
    assert!(!uarts.is_empty());
    assert!(uarts.iter().all(|m| m.peripheral_prefix == "USART"));
    assert!(mappings_for_peripheral_prefix("NOPE").is_empty());
}

#[test]
fn every_prefix_row_round_trips_by_handler_name() {
    for prefix in ["USART", "TIM", "EXTI", "I2C", "SPI", "DMA", "ADC", "RCC", "NONE"] {
        for m in mappings_for_peripheral_prefix(prefix) {
            let back = mapping_for_irq_handler(m.irq_handler_name).expect("row found by its name");
            assert_eq!(back.irq_handler_name, m.irq_handler_name);
            assert_eq!(back.hal_dispatch_fn, m.hal_dispatch_fn);
            assert_eq!(back.peripheral_prefix, m.peripheral_prefix);
            assert_eq!(back.weak_callbacks, m.weak_callbacks);
        }
    }
}
