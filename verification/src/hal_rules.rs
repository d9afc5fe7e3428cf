//! The STM32F4 HAL interrupt table: for each IRQ handler, the HAL routine
//! it dispatches to and the weak callbacks that routine may call.
//!
//! Peripherals not yet covered: ADC, CAN, USB OTG, RTC, DAC, SDIO/SDMMC,
//! FMC, ETH, COMP, OPAMP, RNG, CRC, and MCU families other than STM32F4.
use vstd::prelude::*;
use crate::text::str_eq;

verus! {

/// One row of the HAL interrupt table.
#[derive(Debug, Clone, PartialEq, Eq)]
pub struct HalIrqMapping {
    pub irq_handler_name: &'static str,
    pub hal_dispatch_fn: &'static str,
    pub weak_callbacks: Vec<&'static str>,
    pub peripheral_prefix: &'static str,
}

pub struct HalIrqView {
    pub irq_handler_name: Seq<char>,
    pub hal_dispatch_fn: Seq<char>,
    pub weak_callbacks: Seq<Seq<char>>,
    pub peripheral_prefix: Seq<char>,
}

pub open spec fn strs_view(v: Seq<&str>) -> Seq<Seq<char>> {
    v.map_values(|s: &str| s@)
}

impl View for HalIrqMapping {
    type V = HalIrqView;

    open spec fn view(&self) -> HalIrqView {
        HalIrqView {
            irq_handler_name: self.irq_handler_name@,
            hal_dispatch_fn: self.hal_dispatch_fn@,
            weak_callbacks: strs_view(self.weak_callbacks@),
            peripheral_prefix: self.peripheral_prefix@,
        }
    }
}

pub open spec fn mappings_view(v: Seq<HalIrqMapping>) -> Seq<HalIrqView> {
    v.map_values(|m: HalIrqMapping| m@)
}
pub open spec fn uart_callbacks() -> Seq<Seq<char>> {
    seq!["HAL_UART_TxCpltCallback"@, "HAL_UART_RxCpltCallback"@, "HAL_UART_ErrorCallback"@, "HAL_UART_TxHalfCpltCallback"@, "HAL_UART_RxHalfCpltCallback"@]
}
fn uart_callback_list() -> (v: Vec<&'static str>)
    ensures
        strs_view(v@) == uart_callbacks(),
{
    let mut v: Vec<&'static str> = Vec::new();
    v.push("HAL_UART_TxCpltCallback");
    v.push("HAL_UART_RxCpltCallback");
    v.push("HAL_UART_ErrorCallback");
    v.push("HAL_UART_TxHalfCpltCallback");
    v.push("HAL_UART_RxHalfCpltCallback");
    assert(strs_view(v@) =~= uart_callbacks());
    v
}
pub open spec fn exti_callbacks() -> Seq<Seq<char>> {
    seq!["HAL_GPIO_EXTI_Callback"@]
}
fn exti_callback_list() -> (v: Vec<&'static str>)
    ensures
        strs_view(v@) == exti_callbacks(),
{
    let mut v: Vec<&'static str> = Vec::new();
    v.push("HAL_GPIO_EXTI_Callback");
    assert(strs_view(v@) =~= exti_callbacks());
    v
}
pub open spec fn tim_callbacks() -> Seq<Seq<char>> {
    seq!["HAL_TIM_PeriodElapsedCallback"@, "HAL_TIM_OC_DelayElapsedCallback"@, "HAL_TIM_IC_CaptureCallback"@, "HAL_TIM_PWM_PulseFinishedCallback"@, "HAL_TIM_TriggerCallback"@, "HAL_TIM_ErrorCallback"@]
}
fn tim_callback_list() -> (v: Vec<&'static str>)
    ensures
        strs_view(v@) == tim_callbacks(),
{
    let mut v: Vec<&'static str> = Vec::new();
    v.push("HAL_TIM_PeriodElapsedCallback");
    v.push("HAL_TIM_OC_DelayElapsedCallback");
    v.push("HAL_TIM_IC_CaptureCallback");
    v.push("HAL_TIM_PWM_PulseFinishedCallback");
    v.push("HAL_TIM_TriggerCallback");
    v.push("HAL_TIM_ErrorCallback");
    assert(strs_view(v@) =~= tim_callbacks());
    v
}
pub open spec fn i2c_ev_callbacks() -> Seq<Seq<char>> {
    seq!["HAL_I2C_MasterTxCpltCallback"@, "HAL_I2C_MasterRxCpltCallback"@, "HAL_I2C_SlaveTxCpltCallback"@, "HAL_I2C_SlaveRxCpltCallback"@, "HAL_I2C_AddrCallback"@, "HAL_I2C_ListenCpltCallback"@, "HAL_I2C_MemTxCpltCallback"@, "HAL_I2C_MemRxCpltCallback"@]
}
fn i2c_ev_callback_list() -> (v: Vec<&'static str>)
    ensures
        strs_view(v@) == i2c_ev_callbacks(),
{
    let mut v: Vec<&'static str> = Vec::new();
    v.push("HAL_I2C_MasterTxCpltCallback");
    v.push("HAL_I2C_MasterRxCpltCallback");
    v.push("HAL_I2C_SlaveTxCpltCallback");
    v.push("HAL_I2C_SlaveRxCpltCallback");
    v.push("HAL_I2C_AddrCallback");
    v.push("HAL_I2C_ListenCpltCallback");
    v.push("HAL_I2C_MemTxCpltCallback");
    v.push("HAL_I2C_MemRxCpltCallback");
    assert(strs_view(v@) =~= i2c_ev_callbacks());
    v
}
pub open spec fn i2c_er_callbacks() -> Seq<Seq<char>> {
    seq!["HAL_I2C_ErrorCallback"@]
}
fn i2c_er_callback_list() -> (v: Vec<&'static str>)
    ensures
        strs_view(v@) == i2c_er_callbacks(),
{
    let mut v: Vec<&'static str> = Vec::new();
    v.push("HAL_I2C_ErrorCallback");
    assert(strs_view(v@) =~= i2c_er_callbacks());
    v
}
pub open spec fn spi_callbacks() -> Seq<Seq<char>> {
    seq!["HAL_SPI_TxCpltCallback"@, "HAL_SPI_RxCpltCallback"@, "HAL_SPI_TxRxCpltCallback"@, "HAL_SPI_ErrorCallback"@]
}
fn spi_callback_list() -> (v: Vec<&'static str>)
    ensures
        strs_view(v@) == spi_callbacks(),
{
    let mut v: Vec<&'static str> = Vec::new();
    v.push("HAL_SPI_TxCpltCallback");
    v.push("HAL_SPI_RxCpltCallback");
    v.push("HAL_SPI_TxRxCpltCallback");
    v.push("HAL_SPI_ErrorCallback");
    assert(strs_view(v@) =~= spi_callbacks());
    v
}
pub open spec fn dma_callbacks() -> Seq<Seq<char>> {
    seq![]
}
fn dma_callback_list() -> (v: Vec<&'static str>)
    ensures
        strs_view(v@) == dma_callbacks(),
{
    let mut v: Vec<&'static str> = Vec::new();
    assert(strs_view(v@) =~= dma_callbacks());
    v
}
pub open spec fn row(irq: Seq<char>, dispatch: Seq<char>, callbacks: Seq<Seq<char>>, prefix: Seq<char>) -> HalIrqView {
    HalIrqView { irq_handler_name: irq, hal_dispatch_fn: dispatch, weak_callbacks: callbacks, peripheral_prefix: prefix }
}
/// The HAL interrupt table, row by row.
pub open spec fn hal_irq_table() -> Seq<HalIrqView> {
    seq![
        row("USART1_IRQHandler"@, "HAL_UART_IRQHandler"@, uart_callbacks(), "USART"@),
        row("USART2_IRQHandler"@, "HAL_UART_IRQHandler"@, uart_callbacks(), "USART"@),
        row("USART3_IRQHandler"@, "HAL_UART_IRQHandler"@, uart_callbacks(), "USART"@),
        row("UART4_IRQHandler"@, "HAL_UART_IRQHandler"@, uart_callbacks(), "UART"@),
        row("UART5_IRQHandler"@, "HAL_UART_IRQHandler"@, uart_callbacks(), "UART"@),
        row("USART6_IRQHandler"@, "HAL_UART_IRQHandler"@, uart_callbacks(), "USART"@),
        row("EXTI0_IRQHandler"@, "HAL_GPIO_EXTI_IRQHandler"@, exti_callbacks(), "GPIO"@),
        row("EXTI1_IRQHandler"@, "HAL_GPIO_EXTI_IRQHandler"@, exti_callbacks(), "GPIO"@),
        row("EXTI2_IRQHandler"@, "HAL_GPIO_EXTI_IRQHandler"@, exti_callbacks(), "GPIO"@),
        row("EXTI3_IRQHandler"@, "HAL_GPIO_EXTI_IRQHandler"@, exti_callbacks(), "GPIO"@),
        row("EXTI4_IRQHandler"@, "HAL_GPIO_EXTI_IRQHandler"@, exti_callbacks(), "GPIO"@),
        row("EXTI9_5_IRQHandler"@, "HAL_GPIO_EXTI_IRQHandler"@, exti_callbacks(), "GPIO"@),
        row("EXTI15_10_IRQHandler"@, "HAL_GPIO_EXTI_IRQHandler"@, exti_callbacks(), "GPIO"@),
        row("TIM2_IRQHandler"@, "HAL_TIM_IRQHandler"@, tim_callbacks(), "TIM"@),
        row("TIM3_IRQHandler"@, "HAL_TIM_IRQHandler"@, tim_callbacks(), "TIM"@),
        row("TIM4_IRQHandler"@, "HAL_TIM_IRQHandler"@, tim_callbacks(), "TIM"@),
        row("TIM5_IRQHandler"@, "HAL_TIM_IRQHandler"@, tim_callbacks(), "TIM"@),
        row("I2C1_EV_IRQHandler"@, "HAL_I2C_EV_IRQHandler"@, i2c_ev_callbacks(), "I2C"@),
        row("I2C1_ER_IRQHandler"@, "HAL_I2C_ER_IRQHandler"@, i2c_er_callbacks(), "I2C"@),
        row("I2C2_EV_IRQHandler"@, "HAL_I2C_EV_IRQHandler"@, i2c_ev_callbacks(), "I2C"@),
        row("I2C2_ER_IRQHandler"@, "HAL_I2C_ER_IRQHandler"@, i2c_er_callbacks(), "I2C"@),
        row("I2C3_EV_IRQHandler"@, "HAL_I2C_EV_IRQHandler"@, i2c_ev_callbacks(), "I2C"@),
        row("I2C3_ER_IRQHandler"@, "HAL_I2C_ER_IRQHandler"@, i2c_er_callbacks(), "I2C"@),
        row("SPI1_IRQHandler"@, "HAL_SPI_IRQHandler"@, spi_callbacks(), "SPI"@),
        row("SPI2_IRQHandler"@, "HAL_SPI_IRQHandler"@, spi_callbacks(), "SPI"@),
        row("SPI3_IRQHandler"@, "HAL_SPI_IRQHandler"@, spi_callbacks(), "SPI"@),
        row("DMA1_Stream0_IRQHandler"@, "HAL_DMA_IRQHandler"@, dma_callbacks(), "DMA"@),
        row("DMA1_Stream1_IRQHandler"@, "HAL_DMA_IRQHandler"@, dma_callbacks(), "DMA"@),
        row("DMA1_Stream2_IRQHandler"@, "HAL_DMA_IRQHandler"@, dma_callbacks(), "DMA"@),
        row("DMA1_Stream3_IRQHandler"@, "HAL_DMA_IRQHandler"@, dma_callbacks(), "DMA"@),
        row("DMA1_Stream4_IRQHandler"@, "HAL_DMA_IRQHandler"@, dma_callbacks(), "DMA"@),
        row("DMA1_Stream5_IRQHandler"@, "HAL_DMA_IRQHandler"@, dma_callbacks(), "DMA"@),
        row("DMA1_Stream6_IRQHandler"@, "HAL_DMA_IRQHandler"@, dma_callbacks(), "DMA"@),
        row("DMA1_Stream7_IRQHandler"@, "HAL_DMA_IRQHandler"@, dma_callbacks(), "DMA"@),
        row("DMA2_Stream0_IRQHandler"@, "HAL_DMA_IRQHandler"@, dma_callbacks(), "DMA"@),
        row("DMA2_Stream1_IRQHandler"@, "HAL_DMA_IRQHandler"@, dma_callbacks(), "DMA"@),
        row("DMA2_Stream2_IRQHandler"@, "HAL_DMA_IRQHandler"@, dma_callbacks(), "DMA"@),
        row("DMA2_Stream3_IRQHandler"@, "HAL_DMA_IRQHandler"@, dma_callbacks(), "DMA"@),
        row("DMA2_Stream4_IRQHandler"@, "HAL_DMA_IRQHandler"@, dma_callbacks(), "DMA"@),
        row("DMA2_Stream5_IRQHandler"@, "HAL_DMA_IRQHandler"@, dma_callbacks(), "DMA"@),
        row("DMA2_Stream6_IRQHandler"@, "HAL_DMA_IRQHandler"@, dma_callbacks(), "DMA"@),
        row("DMA2_Stream7_IRQHandler"@, "HAL_DMA_IRQHandler"@, dma_callbacks(), "DMA"@),
    ]
}
/// The HAL interrupt table.
#[verifier::rlimit(60)]
pub fn hal_irq_mappings() -> (v: Vec<HalIrqMapping>)
    ensures
        mappings_view(v@) == hal_irq_table(),
{
    let mut v: Vec<HalIrqMapping> = Vec::new();
    v.push(HalIrqMapping { irq_handler_name: "USART1_IRQHandler", hal_dispatch_fn: "HAL_UART_IRQHandler", weak_callbacks: uart_callback_list(), peripheral_prefix: "USART" });
    v.push(HalIrqMapping { irq_handler_name: "USART2_IRQHandler", hal_dispatch_fn: "HAL_UART_IRQHandler", weak_callbacks: uart_callback_list(), peripheral_prefix: "USART" });
    v.push(HalIrqMapping { irq_handler_name: "USART3_IRQHandler", hal_dispatch_fn: "HAL_UART_IRQHandler", weak_callbacks: uart_callback_list(), peripheral_prefix: "USART" });
    v.push(HalIrqMapping { irq_handler_name: "UART4_IRQHandler", hal_dispatch_fn: "HAL_UART_IRQHandler", weak_callbacks: uart_callback_list(), peripheral_prefix: "UART" });
    v.push(HalIrqMapping { irq_handler_name: "UART5_IRQHandler", hal_dispatch_fn: "HAL_UART_IRQHandler", weak_callbacks: uart_callback_list(), peripheral_prefix: "UART" });
    v.push(HalIrqMapping { irq_handler_name: "USART6_IRQHandler", hal_dispatch_fn: "HAL_UART_IRQHandler", weak_callbacks: uart_callback_list(), peripheral_prefix: "USART" });
    v.push(HalIrqMapping { irq_handler_name: "EXTI0_IRQHandler", hal_dispatch_fn: "HAL_GPIO_EXTI_IRQHandler", weak_callbacks: exti_callback_list(), peripheral_prefix: "GPIO" });
    v.push(HalIrqMapping { irq_handler_name: "EXTI1_IRQHandler", hal_dispatch_fn: "HAL_GPIO_EXTI_IRQHandler", weak_callbacks: exti_callback_list(), peripheral_prefix: "GPIO" });
    v.push(HalIrqMapping { irq_handler_name: "EXTI2_IRQHandler", hal_dispatch_fn: "HAL_GPIO_EXTI_IRQHandler", weak_callbacks: exti_callback_list(), peripheral_prefix: "GPIO" });
    v.push(HalIrqMapping { irq_handler_name: "EXTI3_IRQHandler", hal_dispatch_fn: "HAL_GPIO_EXTI_IRQHandler", weak_callbacks: exti_callback_list(), peripheral_prefix: "GPIO" });
    v.push(HalIrqMapping { irq_handler_name: "EXTI4_IRQHandler", hal_dispatch_fn: "HAL_GPIO_EXTI_IRQHandler", weak_callbacks: exti_callback_list(), peripheral_prefix: "GPIO" });
    v.push(HalIrqMapping { irq_handler_name: "EXTI9_5_IRQHandler", hal_dispatch_fn: "HAL_GPIO_EXTI_IRQHandler", weak_callbacks: exti_callback_list(), peripheral_prefix: "GPIO" });
    v.push(HalIrqMapping { irq_handler_name: "EXTI15_10_IRQHandler", hal_dispatch_fn: "HAL_GPIO_EXTI_IRQHandler", weak_callbacks: exti_callback_list(), peripheral_prefix: "GPIO" });
    v.push(HalIrqMapping { irq_handler_name: "TIM2_IRQHandler", hal_dispatch_fn: "HAL_TIM_IRQHandler", weak_callbacks: tim_callback_list(), peripheral_prefix: "TIM" });
    v.push(HalIrqMapping { irq_handler_name: "TIM3_IRQHandler", hal_dispatch_fn: "HAL_TIM_IRQHandler", weak_callbacks: tim_callback_list(), peripheral_prefix: "TIM" });
    v.push(HalIrqMapping { irq_handler_name: "TIM4_IRQHandler", hal_dispatch_fn: "HAL_TIM_IRQHandler", weak_callbacks: tim_callback_list(), peripheral_prefix: "TIM" });
    v.push(HalIrqMapping { irq_handler_name: "TIM5_IRQHandler", hal_dispatch_fn: "HAL_TIM_IRQHandler", weak_callbacks: tim_callback_list(), peripheral_prefix: "TIM" });
    v.push(HalIrqMapping { irq_handler_name: "I2C1_EV_IRQHandler", hal_dispatch_fn: "HAL_I2C_EV_IRQHandler", weak_callbacks: i2c_ev_callback_list(), peripheral_prefix: "I2C" });
    v.push(HalIrqMapping { irq_handler_name: "I2C1_ER_IRQHandler", hal_dispatch_fn: "HAL_I2C_ER_IRQHandler", weak_callbacks: i2c_er_callback_list(), peripheral_prefix: "I2C" });
    v.push(HalIrqMapping { irq_handler_name: "I2C2_EV_IRQHandler", hal_dispatch_fn: "HAL_I2C_EV_IRQHandler", weak_callbacks: i2c_ev_callback_list(), peripheral_prefix: "I2C" });
    v.push(HalIrqMapping { irq_handler_name: "I2C2_ER_IRQHandler", hal_dispatch_fn: "HAL_I2C_ER_IRQHandler", weak_callbacks: i2c_er_callback_list(), peripheral_prefix: "I2C" });
    v.push(HalIrqMapping { irq_handler_name: "I2C3_EV_IRQHandler", hal_dispatch_fn: "HAL_I2C_EV_IRQHandler", weak_callbacks: i2c_ev_callback_list(), peripheral_prefix: "I2C" });
    v.push(HalIrqMapping { irq_handler_name: "I2C3_ER_IRQHandler", hal_dispatch_fn: "HAL_I2C_ER_IRQHandler", weak_callbacks: i2c_er_callback_list(), peripheral_prefix: "I2C" });
    v.push(HalIrqMapping { irq_handler_name: "SPI1_IRQHandler", hal_dispatch_fn: "HAL_SPI_IRQHandler", weak_callbacks: spi_callback_list(), peripheral_prefix: "SPI" });
    v.push(HalIrqMapping { irq_handler_name: "SPI2_IRQHandler", hal_dispatch_fn: "HAL_SPI_IRQHandler", weak_callbacks: spi_callback_list(), peripheral_prefix: "SPI" });
    v.push(HalIrqMapping { irq_handler_name: "SPI3_IRQHandler", hal_dispatch_fn: "HAL_SPI_IRQHandler", weak_callbacks: spi_callback_list(), peripheral_prefix: "SPI" });
    v.push(HalIrqMapping { irq_handler_name: "DMA1_Stream0_IRQHandler", hal_dispatch_fn: "HAL_DMA_IRQHandler", weak_callbacks: dma_callback_list(), peripheral_prefix: "DMA" });
    v.push(HalIrqMapping { irq_handler_name: "DMA1_Stream1_IRQHandler", hal_dispatch_fn: "HAL_DMA_IRQHandler", weak_callbacks: dma_callback_list(), peripheral_prefix: "DMA" });
    v.push(HalIrqMapping { irq_handler_name: "DMA1_Stream2_IRQHandler", hal_dispatch_fn: "HAL_DMA_IRQHandler", weak_callbacks: dma_callback_list(), peripheral_prefix: "DMA" });
    v.push(HalIrqMapping { irq_handler_name: "DMA1_Stream3_IRQHandler", hal_dispatch_fn: "HAL_DMA_IRQHandler", weak_callbacks: dma_callback_list(), peripheral_prefix: "DMA" });
    v.push(HalIrqMapping { irq_handler_name: "DMA1_Stream4_IRQHandler", hal_dispatch_fn: "HAL_DMA_IRQHandler", weak_callbacks: dma_callback_list(), peripheral_prefix: "DMA" });
    v.push(HalIrqMapping { irq_handler_name: "DMA1_Stream5_IRQHandler", hal_dispatch_fn: "HAL_DMA_IRQHandler", weak_callbacks: dma_callback_list(), peripheral_prefix: "DMA" });
    v.push(HalIrqMapping { irq_handler_name: "DMA1_Stream6_IRQHandler", hal_dispatch_fn: "HAL_DMA_IRQHandler", weak_callbacks: dma_callback_list(), peripheral_prefix: "DMA" });
    v.push(HalIrqMapping { irq_handler_name: "DMA1_Stream7_IRQHandler", hal_dispatch_fn: "HAL_DMA_IRQHandler", weak_callbacks: dma_callback_list(), peripheral_prefix: "DMA" });
    v.push(HalIrqMapping { irq_handler_name: "DMA2_Stream0_IRQHandler", hal_dispatch_fn: "HAL_DMA_IRQHandler", weak_callbacks: dma_callback_list(), peripheral_prefix: "DMA" });
    v.push(HalIrqMapping { irq_handler_name: "DMA2_Stream1_IRQHandler", hal_dispatch_fn: "HAL_DMA_IRQHandler", weak_callbacks: dma_callback_list(), peripheral_prefix: "DMA" });
    v.push(HalIrqMapping { irq_handler_name: "DMA2_Stream2_IRQHandler", hal_dispatch_fn: "HAL_DMA_IRQHandler", weak_callbacks: dma_callback_list(), peripheral_prefix: "DMA" });
    v.push(HalIrqMapping { irq_handler_name: "DMA2_Stream3_IRQHandler", hal_dispatch_fn: "HAL_DMA_IRQHandler", weak_callbacks: dma_callback_list(), peripheral_prefix: "DMA" });
    v.push(HalIrqMapping { irq_handler_name: "DMA2_Stream4_IRQHandler", hal_dispatch_fn: "HAL_DMA_IRQHandler", weak_callbacks: dma_callback_list(), peripheral_prefix: "DMA" });
    v.push(HalIrqMapping { irq_handler_name: "DMA2_Stream5_IRQHandler", hal_dispatch_fn: "HAL_DMA_IRQHandler", weak_callbacks: dma_callback_list(), peripheral_prefix: "DMA" });
    v.push(HalIrqMapping { irq_handler_name: "DMA2_Stream6_IRQHandler", hal_dispatch_fn: "HAL_DMA_IRQHandler", weak_callbacks: dma_callback_list(), peripheral_prefix: "DMA" });
    v.push(HalIrqMapping { irq_handler_name: "DMA2_Stream7_IRQHandler", hal_dispatch_fn: "HAL_DMA_IRQHandler", weak_callbacks: dma_callback_list(), peripheral_prefix: "DMA" });
    assert(mappings_view(v@) =~= hal_irq_table());
    v
}

/// The first row whose IRQ handler is `name`.
pub open spec fn irq_row_index_from(t: Seq<HalIrqView>, name: Seq<char>, i: int) -> Option<int>
    decreases t.len() - i,
{
    if i < 0 || i >= t.len() {
        None
    } else if t[i].irq_handler_name == name {
        Some(i)
    } else {
        irq_row_index_from(t, name, i + 1)
    }
}

/// The rows for peripherals of the family `prefix`, in table order.
pub fn mappings_for_peripheral_prefix(prefix: &str) -> (r: Vec<HalIrqMapping>)
    ensures
        mappings_view(r@) == hal_irq_table().filter(|m: HalIrqView| m.peripheral_prefix == prefix@),
{
    let mut t = hal_irq_mappings();
    let ghost table = hal_irq_table();
    let ghost pred = |m: HalIrqView| m.peripheral_prefix == prefix@;
    let mut out: Vec<HalIrqMapping> = Vec::new();
    let ghost k: int = 0;
    assert(table.subrange(0, 0) =~= Seq::<HalIrqView>::empty());
    proof {
        reveal(Seq::filter);
    }
    assert(mappings_view(out@) =~= table.subrange(0, 0).filter(pred));
    assert(mappings_view(t@) =~= table.subrange(0, table.len() as int));
    while t.len() > 0
        invariant
            0 <= k <= table.len(),
            table == hal_irq_table(),
            mappings_view(t@) == table.subrange(k, table.len() as int),
            mappings_view(out@) == table.subrange(0, k).filter(pred),
            pred == (|m: HalIrqView| m.peripheral_prefix == prefix@),
        decreases t.len(),
    {
        assert(mappings_view(t@).len() == table.len() - k);
        assert(mappings_view(t@)[0] == table[k]);
        let ghost old_t = t@;
        let m = t.remove(0);
        assert(m == old_t[0]);
        assert(m@ == table[k]);
        assert(table.subrange(0, k + 1).drop_last() =~= table.subrange(0, k));
        proof {
            reveal(Seq::filter);
        }
        if str_eq(m.peripheral_prefix, prefix) {
            out.push(m);
            assert(mappings_view(out@) =~= table.subrange(0, k + 1).filter(pred));
        } else {
            assert(mappings_view(out@) =~= table.subrange(0, k + 1).filter(pred));
        }
        assert forall|j: int| 0 <= j < t@.len() implies mappings_view(t@)[j] == table.subrange(
            k + 1,
            table.len() as int,
        )[j] by {
            assert(t@[j] == old_t[j + 1]);
            assert(mappings_view(old_t)[j + 1] == table.subrange(k, table.len() as int)[j + 1]);
        }
        assert(mappings_view(t@) =~= table.subrange(k + 1, table.len() as int));
        proof {
            k = k + 1;
        }
    }
    assert(table.subrange(0, k) =~= table);
    out
}

/// The first row whose IRQ handler is `irq_handler_name`.
pub fn mapping_for_irq_handler(irq_handler_name: &str) -> (r: Option<HalIrqMapping>)
    ensures
        match irq_row_index_from(hal_irq_table(), irq_handler_name@, 0) {
            Some(i) => r matches Some(m) && m@ == hal_irq_table()[i],
            None => r is None,
        },
{
    let mut t = hal_irq_mappings();
    let ghost table = hal_irq_table();
    let mut i: usize = 0;
    while i < t.len()
        invariant
            0 <= i <= t@.len(),
            t@.len() == table.len(),
            table == hal_irq_table(),
            mappings_view(t@) == table,
            irq_row_index_from(table, irq_handler_name@, 0) == irq_row_index_from(
                table,
                irq_handler_name@,
                i as int,
            ),
        decreases t.len() - i,
    {
        if str_eq(t[i].irq_handler_name, irq_handler_name) {
            assert(table[i as int] == t@[i as int]@);
            return Some(t.remove(i));
        }
        assert(table[i as int] == t@[i as int]@);
        i += 1;
    }
    None
}

} // verus!
