//! The HAL interrupt table names each handler once, so that every row is
//! the one that a lookup by its handler's name finds.
use vstd::prelude::*;
use crate::hal_rules::{hal_irq_table, irq_row_index_from, HalIrqView};

verus! {

/// The value of a decimal digit.
pub open spec fn digit(c: char) -> int {
    c as int - '0' as int
}

/// The row of the table that a handler name stands in, read from a few of
/// its characters: the family letter, the instance digits and, for I2C,
/// whether it is the error line.
pub open spec fn row_code(n: Seq<char>) -> int {
    if n.len() < 12 {
        -1
    } else if n[0] == 'U' {
        if n[1] == 'S' {
            if n[5] == '6' {
                5
            } else {
                digit(n[5]) - 1
            }
        } else {
            digit(n[4]) - 1
        }
    } else if n[0] == 'E' {
        if n[4] == '9' {
            11
        } else if n[5] == '5' {
            12
        } else {
            6 + digit(n[4])
        }
    } else if n[0] == 'T' {
        11 + digit(n[3])
    } else if n[0] == 'I' {
        15 + 2 * digit(n[3]) + if n[6] == 'R' {
            1int
        } else {
            0int
        }
    } else if n[0] == 'S' {
        22 + digit(n[3])
    } else if n[0] == 'D' {
        18 + 8 * digit(n[3]) + digit(n[11])
    } else {
        -1
    }
}

/// Read back from its handler's name, every row gives its own index.
proof fn lemma_row_codes(k: int)
    requires
        0 <= k < hal_irq_table().len(),
    ensures
        row_code(hal_irq_table()[k].irq_handler_name) == k,
{
    let t = hal_irq_table();
    assert(t.len() == 42);
    if k == 0 {
        reveal_strlit("USART1_IRQHandler");
        assert(t[0].irq_handler_name == "USART1_IRQHandler"@);
    } else if k == 1 {
        reveal_strlit("USART2_IRQHandler");
        assert(t[1].irq_handler_name == "USART2_IRQHandler"@);
    } else if k == 2 {
        reveal_strlit("USART3_IRQHandler");
        assert(t[2].irq_handler_name == "USART3_IRQHandler"@);
    } else if k == 3 {
        reveal_strlit("UART4_IRQHandler");
        assert(t[3].irq_handler_name == "UART4_IRQHandler"@);
    } else if k == 4 {
        reveal_strlit("UART5_IRQHandler");
        assert(t[4].irq_handler_name == "UART5_IRQHandler"@);
    } else if k == 5 {
        reveal_strlit("USART6_IRQHandler");
        assert(t[5].irq_handler_name == "USART6_IRQHandler"@);
    } else if k == 6 {
        reveal_strlit("EXTI0_IRQHandler");
        assert(t[6].irq_handler_name == "EXTI0_IRQHandler"@);
    } else if k == 7 {
        reveal_strlit("EXTI1_IRQHandler");
        assert(t[7].irq_handler_name == "EXTI1_IRQHandler"@);
    } else if k == 8 {
        reveal_strlit("EXTI2_IRQHandler");
        assert(t[8].irq_handler_name == "EXTI2_IRQHandler"@);
    } else if k == 9 {
        reveal_strlit("EXTI3_IRQHandler");
        assert(t[9].irq_handler_name == "EXTI3_IRQHandler"@);
    } else if k == 10 {
        reveal_strlit("EXTI4_IRQHandler");
        assert(t[10].irq_handler_name == "EXTI4_IRQHandler"@);
    } else if k == 11 {
        reveal_strlit("EXTI9_5_IRQHandler");
        assert(t[11].irq_handler_name == "EXTI9_5_IRQHandler"@);
    } else if k == 12 {
        reveal_strlit("EXTI15_10_IRQHandler");
        assert(t[12].irq_handler_name == "EXTI15_10_IRQHandler"@);
    } else if k == 13 {
        reveal_strlit("TIM2_IRQHandler");
        assert(t[13].irq_handler_name == "TIM2_IRQHandler"@);
    } else if k == 14 {
        reveal_strlit("TIM3_IRQHandler");
        assert(t[14].irq_handler_name == "TIM3_IRQHandler"@);
    } else if k == 15 {
        reveal_strlit("TIM4_IRQHandler");
        assert(t[15].irq_handler_name == "TIM4_IRQHandler"@);
    } else if k == 16 {
        reveal_strlit("TIM5_IRQHandler");
        assert(t[16].irq_handler_name == "TIM5_IRQHandler"@);
    } else if k == 17 {
        reveal_strlit("I2C1_EV_IRQHandler");
        assert(t[17].irq_handler_name == "I2C1_EV_IRQHandler"@);
    } else if k == 18 {
        reveal_strlit("I2C1_ER_IRQHandler");
        assert(t[18].irq_handler_name == "I2C1_ER_IRQHandler"@);
    } else if k == 19 {
        reveal_strlit("I2C2_EV_IRQHandler");
        assert(t[19].irq_handler_name == "I2C2_EV_IRQHandler"@);
    } else if k == 20 {
        reveal_strlit("I2C2_ER_IRQHandler");
        assert(t[20].irq_handler_name == "I2C2_ER_IRQHandler"@);
    } else if k == 21 {
        reveal_strlit("I2C3_EV_IRQHandler");
        assert(t[21].irq_handler_name == "I2C3_EV_IRQHandler"@);
    } else if k == 22 {
        reveal_strlit("I2C3_ER_IRQHandler");
        assert(t[22].irq_handler_name == "I2C3_ER_IRQHandler"@);
    } else if k == 23 {
        reveal_strlit("SPI1_IRQHandler");
        assert(t[23].irq_handler_name == "SPI1_IRQHandler"@);
    } else if k == 24 {
        reveal_strlit("SPI2_IRQHandler");
        assert(t[24].irq_handler_name == "SPI2_IRQHandler"@);
    } else if k == 25 {
        reveal_strlit("SPI3_IRQHandler");
        assert(t[25].irq_handler_name == "SPI3_IRQHandler"@);
    } else if k == 26 {
        reveal_strlit("DMA1_Stream0_IRQHandler");
        assert(t[26].irq_handler_name == "DMA1_Stream0_IRQHandler"@);
    } else if k == 27 {
        reveal_strlit("DMA1_Stream1_IRQHandler");
        assert(t[27].irq_handler_name == "DMA1_Stream1_IRQHandler"@);
    } else if k == 28 {
        reveal_strlit("DMA1_Stream2_IRQHandler");
        assert(t[28].irq_handler_name == "DMA1_Stream2_IRQHandler"@);
    } else if k == 29 {
        reveal_strlit("DMA1_Stream3_IRQHandler");
        assert(t[29].irq_handler_name == "DMA1_Stream3_IRQHandler"@);
    } else if k == 30 {
        reveal_strlit("DMA1_Stream4_IRQHandler");
        assert(t[30].irq_handler_name == "DMA1_Stream4_IRQHandler"@);
    } else if k == 31 {
        reveal_strlit("DMA1_Stream5_IRQHandler");
        assert(t[31].irq_handler_name == "DMA1_Stream5_IRQHandler"@);
    } else if k == 32 {
        reveal_strlit("DMA1_Stream6_IRQHandler");
        assert(t[32].irq_handler_name == "DMA1_Stream6_IRQHandler"@);
    } else if k == 33 {
        reveal_strlit("DMA1_Stream7_IRQHandler");
        assert(t[33].irq_handler_name == "DMA1_Stream7_IRQHandler"@);
    } else if k == 34 {
        reveal_strlit("DMA2_Stream0_IRQHandler");
        assert(t[34].irq_handler_name == "DMA2_Stream0_IRQHandler"@);
    } else if k == 35 {
        reveal_strlit("DMA2_Stream1_IRQHandler");
        assert(t[35].irq_handler_name == "DMA2_Stream1_IRQHandler"@);
    } else if k == 36 {
        reveal_strlit("DMA2_Stream2_IRQHandler");
        assert(t[36].irq_handler_name == "DMA2_Stream2_IRQHandler"@);
    } else if k == 37 {
        reveal_strlit("DMA2_Stream3_IRQHandler");
        assert(t[37].irq_handler_name == "DMA2_Stream3_IRQHandler"@);
    } else if k == 38 {
        reveal_strlit("DMA2_Stream4_IRQHandler");
        assert(t[38].irq_handler_name == "DMA2_Stream4_IRQHandler"@);
    } else if k == 39 {
        reveal_strlit("DMA2_Stream5_IRQHandler");
        assert(t[39].irq_handler_name == "DMA2_Stream5_IRQHandler"@);
    } else if k == 40 {
        reveal_strlit("DMA2_Stream6_IRQHandler");
        assert(t[40].irq_handler_name == "DMA2_Stream6_IRQHandler"@);
    } else if k == 41 {
        reveal_strlit("DMA2_Stream7_IRQHandler");
        assert(t[41].irq_handler_name == "DMA2_Stream7_IRQHandler"@);
    }
}

/// The lookup from `i` finds row `k` when no row from `i` on before it
/// has the same handler name.
proof fn lemma_lookup_finds(t: Seq<HalIrqView>, k: int, i: int)
    requires
        0 <= i <= k < t.len(),
        forall|j: int| i <= j < k ==> #[trigger] t[j].irq_handler_name != t[k].irq_handler_name,
    ensures
        irq_row_index_from(t, t[k].irq_handler_name, i) == Some(k),
    decreases k - i,
{
    if i < k {
        lemma_lookup_finds(t, k, i + 1);
    }
}

/// Every row of the HAL table is the row that a lookup by its handler's
/// name finds: the table names each handler once.
pub proof fn law_irq_rows_round_trip(k: int)
    requires
        0 <= k < hal_irq_table().len(),
    ensures
        irq_row_index_from(hal_irq_table(), hal_irq_table()[k].irq_handler_name, 0) == Some(k),
{
    let t = hal_irq_table();
    lemma_row_codes(k);
    assert forall|j: int| 0 <= j < k implies #[trigger] t[j].irq_handler_name != t[k].irq_handler_name by {
        lemma_row_codes(j);
    }
    lemma_lookup_finds(t, k, 0);
}

/// Every row that the query for a peripheral family gives is the row that
/// a lookup by its handler's name finds.
pub proof fn law_prefix_rows_round_trip(prefix: Seq<char>, m: HalIrqView)
    requires
        hal_irq_table().filter(|x: HalIrqView| x.peripheral_prefix == prefix).contains(m),
    ensures
        irq_row_index_from(hal_irq_table(), m.irq_handler_name, 0) matches Some(i) && hal_irq_table()[i] == m,
{
    let t = hal_irq_table();
    t.lemma_filter_contains_rev(|x: HalIrqView| x.peripheral_prefix == prefix, m);
    let k = choose|k: int| 0 <= k < t.len() && t[k] == m;
    law_irq_rows_round_trip(k);
}

} // verus!
