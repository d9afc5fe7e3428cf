//! Physical connector pinout of the NUCLEO-F446RE board.
//!
//! Source: ST UM1724 "STM32 Nucleo-64 boards" user manual, the Arduino
//! connector table (CN5, CN6, CN8, CN9) and the Morpho connector table (CN7,
//! CN10) for NUCLEO-F446RE. The table is board-specific: other Nucleo-64 MCU
//! variants remap a handful of these pins.
use vstd::prelude::*;
use crate::text::str_eq;

verus! {

/// Where an MCU GPIO pin lands on the board: on the Morpho header, the
/// Arduino header, or both.
#[derive(Debug, Clone, Copy)]
pub struct PinLocation {
    /// The MCU pin name as the `.ioc` file writes it, e.g. "PA5".
    pub mcu_pin: &'static str,
    /// Morpho connector and physical pin number.
    pub morpho: Option<(&'static str, u8)>,
    /// Arduino connector, physical pin number and Arduino label ("D13", "A0").
    pub arduino: Option<(&'static str, u8, &'static str)>,
}

pub struct PinLocationView {
    pub mcu_pin: Seq<char>,
    pub morpho: Option<(Seq<char>, u8)>,
    pub arduino: Option<(Seq<char>, u8, Seq<char>)>,
}

impl View for PinLocation {
    type V = PinLocationView;

    open spec fn view(&self) -> PinLocationView {
        PinLocationView {
            mcu_pin: self.mcu_pin@,
            morpho: match self.morpho {
                Some(m) => Some((m.0@, m.1)),
                None => None,
            },
            arduino: match self.arduino {
                Some(a) => Some((a.0@, a.1, a.2@)),
                None => None,
            },
        }
    }
}

pub open spec fn loc(
    pin: Seq<char>,
    morpho: Option<(Seq<char>, u8)>,
    arduino: Option<(Seq<char>, u8, Seq<char>)>,
) -> PinLocationView {
    PinLocationView { mcu_pin: pin, morpho: morpho, arduino: arduino }
}

/// The pinout table of NUCLEO-F446RE: GPIO-capable pins only (power, ground,
/// reset and boot pins never appear as a pin of a `.ioc` file).
pub open spec fn pinout_table() -> Seq<PinLocationView> {
    seq![
        loc("PC10"@, Some(("CN7"@, 1u8)), None),
        loc("PC11"@, Some(("CN7"@, 2u8)), None),
        loc("PC12"@, Some(("CN7"@, 3u8)), None),
        loc("PD2"@, Some(("CN7"@, 4u8)), None),
        loc("PA13"@, Some(("CN7"@, 13u8)), None),
        loc("PA14"@, Some(("CN7"@, 15u8)), None),
        loc("PA15"@, Some(("CN7"@, 17u8)), None),
        loc("PB7"@, Some(("CN7"@, 21u8)), None),
        loc("PC13"@, Some(("CN7"@, 23u8)), None),
        loc("PC14"@, Some(("CN7"@, 25u8)), None),
        loc("PC15"@, Some(("CN7"@, 27u8)), None),
        loc("PH0"@, Some(("CN7"@, 29u8)), None),
        loc("PH1"@, Some(("CN7"@, 31u8)), None),
        loc("PC2"@, Some(("CN7"@, 35u8)), None),
        loc("PC3"@, Some(("CN7"@, 37u8)), None),
        loc("PA0"@, Some(("CN7"@, 28u8)), Some(("CN8"@, 1u8, "A0"@))),
        loc("PA1"@, Some(("CN7"@, 30u8)), Some(("CN8"@, 2u8, "A1"@))),
        loc("PA4"@, Some(("CN7"@, 32u8)), Some(("CN8"@, 3u8, "A2"@))),
        loc("PB0"@, Some(("CN7"@, 34u8)), Some(("CN8"@, 4u8, "A3"@))),
        loc("PC1"@, Some(("CN7"@, 36u8)), Some(("CN8"@, 5u8, "A4"@))),
        loc("PC0"@, Some(("CN7"@, 38u8)), Some(("CN8"@, 6u8, "A5"@))),
        loc("PC9"@, Some(("CN10"@, 1u8)), None),
        loc("PC8"@, Some(("CN10"@, 2u8)), None),
        loc("PC6"@, Some(("CN10"@, 4u8)), None),
        loc("PC5"@, Some(("CN10"@, 6u8)), None),
        loc("PA12"@, Some(("CN10"@, 12u8)), None),
        loc("PA11"@, Some(("CN10"@, 14u8)), None),
        loc("PB12"@, Some(("CN10"@, 16u8)), None),
        loc("PB2"@, Some(("CN10"@, 22u8)), None),
        loc("PB1"@, Some(("CN10"@, 24u8)), None),
        loc("PB15"@, Some(("CN10"@, 26u8)), None),
        loc("PB14"@, Some(("CN10"@, 28u8)), None),
        loc("PB13"@, Some(("CN10"@, 30u8)), None),
        loc("PC4"@, Some(("CN10"@, 34u8)), None),
        loc("PB8"@, Some(("CN10"@, 3u8)), Some(("CN5"@, 10u8, "D15"@))),
        loc("PB9"@, Some(("CN10"@, 5u8)), Some(("CN5"@, 9u8, "D14"@))),
        loc("PA5"@, Some(("CN10"@, 11u8)), Some(("CN5"@, 6u8, "D13"@))),
        loc("PA6"@, Some(("CN10"@, 13u8)), Some(("CN5"@, 5u8, "D12"@))),
        loc("PA7"@, Some(("CN10"@, 15u8)), Some(("CN5"@, 4u8, "D11"@))),
        loc("PB6"@, Some(("CN10"@, 17u8)), Some(("CN5"@, 3u8, "D10"@))),
        loc("PC7"@, Some(("CN10"@, 19u8)), Some(("CN5"@, 2u8, "D9"@))),
        loc("PA9"@, Some(("CN10"@, 21u8)), Some(("CN5"@, 1u8, "D8"@))),
        loc("PA8"@, Some(("CN10"@, 23u8)), Some(("CN9"@, 8u8, "D7"@))),
        loc("PB10"@, Some(("CN10"@, 25u8)), Some(("CN9"@, 7u8, "D6"@))),
        loc("PB4"@, Some(("CN10"@, 27u8)), Some(("CN9"@, 6u8, "D5"@))),
        loc("PB5"@, Some(("CN10"@, 29u8)), Some(("CN9"@, 5u8, "D4"@))),
        loc("PB3"@, Some(("CN10"@, 31u8)), Some(("CN9"@, 4u8, "D3"@))),
        loc("PA10"@, Some(("CN10"@, 33u8)), Some(("CN9"@, 3u8, "D2"@))),
        loc("PA2"@, Some(("CN10"@, 35u8)), Some(("CN9"@, 2u8, "D1"@))),
        loc("PA3"@, Some(("CN10"@, 37u8)), Some(("CN9"@, 1u8, "D0"@))),
    ]
}

pub open spec fn locations_view(v: Seq<PinLocation>) -> Seq<PinLocationView> {
    v.map_values(|l: PinLocation| l@)
}

/// The pinout table of NUCLEO-F446RE.
#[verifier::rlimit(80)]
pub fn nucleo_f446re_pinout() -> (v: Vec<PinLocation>)
    ensures
        locations_view(v@) == pinout_table(),
{
    let mut v: Vec<PinLocation> = Vec::new();
    v.push(PinLocation { mcu_pin: "PC10", morpho: Some(("CN7", 1)), arduino: None });
    v.push(PinLocation { mcu_pin: "PC11", morpho: Some(("CN7", 2)), arduino: None });
    v.push(PinLocation { mcu_pin: "PC12", morpho: Some(("CN7", 3)), arduino: None });
    v.push(PinLocation { mcu_pin: "PD2", morpho: Some(("CN7", 4)), arduino: None });
    v.push(PinLocation { mcu_pin: "PA13", morpho: Some(("CN7", 13)), arduino: None });
    v.push(PinLocation { mcu_pin: "PA14", morpho: Some(("CN7", 15)), arduino: None });
    v.push(PinLocation { mcu_pin: "PA15", morpho: Some(("CN7", 17)), arduino: None });
    v.push(PinLocation { mcu_pin: "PB7", morpho: Some(("CN7", 21)), arduino: None });
    v.push(PinLocation { mcu_pin: "PC13", morpho: Some(("CN7", 23)), arduino: None });
    v.push(PinLocation { mcu_pin: "PC14", morpho: Some(("CN7", 25)), arduino: None });
    v.push(PinLocation { mcu_pin: "PC15", morpho: Some(("CN7", 27)), arduino: None });
    v.push(PinLocation { mcu_pin: "PH0", morpho: Some(("CN7", 29)), arduino: None });
    v.push(PinLocation { mcu_pin: "PH1", morpho: Some(("CN7", 31)), arduino: None });
    v.push(PinLocation { mcu_pin: "PC2", morpho: Some(("CN7", 35)), arduino: None });
    v.push(PinLocation { mcu_pin: "PC3", morpho: Some(("CN7", 37)), arduino: None });
    v.push(PinLocation { mcu_pin: "PA0", morpho: Some(("CN7", 28)), arduino: Some(("CN8", 1, "A0")) });
    v.push(PinLocation { mcu_pin: "PA1", morpho: Some(("CN7", 30)), arduino: Some(("CN8", 2, "A1")) });
    v.push(PinLocation { mcu_pin: "PA4", morpho: Some(("CN7", 32)), arduino: Some(("CN8", 3, "A2")) });
    v.push(PinLocation { mcu_pin: "PB0", morpho: Some(("CN7", 34)), arduino: Some(("CN8", 4, "A3")) });
    v.push(PinLocation { mcu_pin: "PC1", morpho: Some(("CN7", 36)), arduino: Some(("CN8", 5, "A4")) });
    v.push(PinLocation { mcu_pin: "PC0", morpho: Some(("CN7", 38)), arduino: Some(("CN8", 6, "A5")) });
    v.push(PinLocation { mcu_pin: "PC9", morpho: Some(("CN10", 1)), arduino: None });
    v.push(PinLocation { mcu_pin: "PC8", morpho: Some(("CN10", 2)), arduino: None });
    v.push(PinLocation { mcu_pin: "PC6", morpho: Some(("CN10", 4)), arduino: None });
    v.push(PinLocation { mcu_pin: "PC5", morpho: Some(("CN10", 6)), arduino: None });
    v.push(PinLocation { mcu_pin: "PA12", morpho: Some(("CN10", 12)), arduino: None });
    v.push(PinLocation { mcu_pin: "PA11", morpho: Some(("CN10", 14)), arduino: None });
    v.push(PinLocation { mcu_pin: "PB12", morpho: Some(("CN10", 16)), arduino: None });
    v.push(PinLocation { mcu_pin: "PB2", morpho: Some(("CN10", 22)), arduino: None });
    v.push(PinLocation { mcu_pin: "PB1", morpho: Some(("CN10", 24)), arduino: None });
    v.push(PinLocation { mcu_pin: "PB15", morpho: Some(("CN10", 26)), arduino: None });
    v.push(PinLocation { mcu_pin: "PB14", morpho: Some(("CN10", 28)), arduino: None });
    v.push(PinLocation { mcu_pin: "PB13", morpho: Some(("CN10", 30)), arduino: None });
    v.push(PinLocation { mcu_pin: "PC4", morpho: Some(("CN10", 34)), arduino: None });
    v.push(PinLocation { mcu_pin: "PB8", morpho: Some(("CN10", 3)), arduino: Some(("CN5", 10, "D15")) });
    v.push(PinLocation { mcu_pin: "PB9", morpho: Some(("CN10", 5)), arduino: Some(("CN5", 9, "D14")) });
    v.push(PinLocation { mcu_pin: "PA5", morpho: Some(("CN10", 11)), arduino: Some(("CN5", 6, "D13")) });
    v.push(PinLocation { mcu_pin: "PA6", morpho: Some(("CN10", 13)), arduino: Some(("CN5", 5, "D12")) });
    v.push(PinLocation { mcu_pin: "PA7", morpho: Some(("CN10", 15)), arduino: Some(("CN5", 4, "D11")) });
    v.push(PinLocation { mcu_pin: "PB6", morpho: Some(("CN10", 17)), arduino: Some(("CN5", 3, "D10")) });
    v.push(PinLocation { mcu_pin: "PC7", morpho: Some(("CN10", 19)), arduino: Some(("CN5", 2, "D9")) });
    v.push(PinLocation { mcu_pin: "PA9", morpho: Some(("CN10", 21)), arduino: Some(("CN5", 1, "D8")) });
    v.push(PinLocation { mcu_pin: "PA8", morpho: Some(("CN10", 23)), arduino: Some(("CN9", 8, "D7")) });
    v.push(PinLocation { mcu_pin: "PB10", morpho: Some(("CN10", 25)), arduino: Some(("CN9", 7, "D6")) });
    v.push(PinLocation { mcu_pin: "PB4", morpho: Some(("CN10", 27)), arduino: Some(("CN9", 6, "D5")) });
    v.push(PinLocation { mcu_pin: "PB5", morpho: Some(("CN10", 29)), arduino: Some(("CN9", 5, "D4")) });
    v.push(PinLocation { mcu_pin: "PB3", morpho: Some(("CN10", 31)), arduino: Some(("CN9", 4, "D3")) });
    v.push(PinLocation { mcu_pin: "PA10", morpho: Some(("CN10", 33)), arduino: Some(("CN9", 3, "D2")) });
    v.push(PinLocation { mcu_pin: "PA2", morpho: Some(("CN10", 35)), arduino: Some(("CN9", 2, "D1")) });
    v.push(PinLocation { mcu_pin: "PA3", morpho: Some(("CN10", 37)), arduino: Some(("CN9", 1, "D0")) });
    assert(locations_view(v@) =~= pinout_table());
    v
}

/// The first entry of `t` at or after `i` for the MCU pin `pin`.
pub open spec fn location_index_from(t: Seq<PinLocationView>, pin: Seq<char>, i: int) -> Option<int>
    decreases t.len() - i,
{
    if i < 0 || i >= t.len() {
        None
    } else if t[i].mcu_pin == pin {
        Some(i)
    } else {
        location_index_from(t, pin, i + 1)
    }
}

/// Where the MCU pin `mcu_pin` (e.g. "PA5") lands on the board; `None` when
/// it is not broken out.
pub fn lookup_pin(mcu_pin: &str) -> (r: Option<PinLocation>)
    ensures
        match location_index_from(pinout_table(), mcu_pin@, 0) {
            Some(i) => r matches Some(l) && l@ == pinout_table()[i],
            None => r is None,
        },
{
    let t = nucleo_f446re_pinout();
    let ghost table = pinout_table();
    let mut i: usize = 0;
    while i < t.len()
        invariant
            0 <= i <= t@.len(),
            table == pinout_table(),
            locations_view(t@) == table,
            t@.len() == table.len(),
            location_index_from(table, mcu_pin@, 0) == location_index_from(table, mcu_pin@, i as int),
        decreases t.len() - i,
    {
        assert(table[i as int] == t@[i as int]@);
        if str_eq(t[i].mcu_pin, mcu_pin) {
            return Some(t[i]);
        }
        i += 1;
    }
    None
}

#[derive(Debug, Clone, Copy, PartialEq, Eq, Structural)]
pub enum ReservedSeverity {
    Critical,
    Caution,
}

/// A pin with a dedicated board function, and why reusing it is risky.
#[derive(Debug, Clone, Copy)]
pub struct ReservedPin {
    pub mcu_pin: &'static str,
    pub reason: &'static str,
    pub severity: ReservedSeverity,
}

pub struct ReservedPinView {
    pub mcu_pin: Seq<char>,
    pub reason: Seq<char>,
    pub severity: ReservedSeverity,
}

impl View for ReservedPin {
    type V = ReservedPinView;

    open spec fn view(&self) -> ReservedPinView {
        ReservedPinView { mcu_pin: self.mcu_pin@, reason: self.reason@, severity: self.severity }
    }
}

pub open spec fn reserved_view(v: Seq<ReservedPin>) -> Seq<ReservedPinView> {
    v.map_values(|r: ReservedPin| r@)
}

/// The reserved pins of the board.
pub open spec fn reserved_table() -> Seq<ReservedPinView> {
    seq![
        ReservedPinView { mcu_pin: "PA13"@, reason: "PA13 is SWDIO — used by the onboard debugger. Reusing this pin will break reprogramming."@, severity: ReservedSeverity::Critical },
        ReservedPinView { mcu_pin: "PA14"@, reason: "PA14 is SWCLK — used by the onboard debugger. Reusing this pin will break reprogramming."@, severity: ReservedSeverity::Critical },
        ReservedPinView { mcu_pin: "PH0"@, reason: "PH0 is OSC_IN — system main oscillator input."@, severity: ReservedSeverity::Caution },
        ReservedPinView { mcu_pin: "PH1"@, reason: "PH1 is OSC_OUT — system main oscillator output."@, severity: ReservedSeverity::Caution },
        ReservedPinView { mcu_pin: "PC14"@, reason: "PC14 is OSC32_IN — 32.768 kHz RTC oscillator input."@, severity: ReservedSeverity::Caution },
        ReservedPinView { mcu_pin: "PC15"@, reason: "PC15 is OSC32_OUT — 32.768 kHz RTC oscillator output."@, severity: ReservedSeverity::Caution },
    ]
}

/// The reserved pins of the board.
pub fn reserved_pins() -> (v: Vec<ReservedPin>)
    ensures
        reserved_view(v@) == reserved_table(),
{
    let mut v: Vec<ReservedPin> = Vec::new();
    v.push(ReservedPin { mcu_pin: "PA13", reason: "PA13 is SWDIO — used by the onboard debugger. Reusing this pin will break reprogramming.", severity: ReservedSeverity::Critical });
    v.push(ReservedPin { mcu_pin: "PA14", reason: "PA14 is SWCLK — used by the onboard debugger. Reusing this pin will break reprogramming.", severity: ReservedSeverity::Critical });
    v.push(ReservedPin { mcu_pin: "PH0", reason: "PH0 is OSC_IN — system main oscillator input.", severity: ReservedSeverity::Caution });
    v.push(ReservedPin { mcu_pin: "PH1", reason: "PH1 is OSC_OUT — system main oscillator output.", severity: ReservedSeverity::Caution });
    v.push(ReservedPin { mcu_pin: "PC14", reason: "PC14 is OSC32_IN — 32.768 kHz RTC oscillator input.", severity: ReservedSeverity::Caution });
    v.push(ReservedPin { mcu_pin: "PC15", reason: "PC15 is OSC32_OUT — 32.768 kHz RTC oscillator output.", severity: ReservedSeverity::Caution });
    assert(reserved_view(v@) =~= reserved_table());
    v
}

/// The first reserved entry of `t` at or after `i` for the MCU pin `pin`.
pub open spec fn reserved_index_from(t: Seq<ReservedPinView>, pin: Seq<char>, i: int) -> Option<int>
    decreases t.len() - i,
{
    if i < 0 || i >= t.len() {
        None
    } else if t[i].mcu_pin == pin {
        Some(i)
    } else {
        reserved_index_from(t, pin, i + 1)
    }
}

/// The reservation of the MCU pin `mcu_pin`, if it has one.
pub fn check_reserved(mcu_pin: &str) -> (r: Option<ReservedPin>)
    ensures
        match reserved_index_from(reserved_table(), mcu_pin@, 0) {
            Some(i) => r matches Some(p) && p@ == reserved_table()[i],
            None => r is None,
        },
{
    let t = reserved_pins();
    let ghost table = reserved_table();
    let mut i: usize = 0;
    while i < t.len()
        invariant
            0 <= i <= t@.len(),
            table == reserved_table(),
            reserved_view(t@) == table,
            t@.len() == table.len(),
            reserved_index_from(table, mcu_pin@, 0) == reserved_index_from(table, mcu_pin@, i as int),
        decreases t.len() - i,
    {
        assert(table[i as int] == t@[i as int]@);
        if str_eq(t[i].mcu_pin, mcu_pin) {
            return Some(t[i]);
        }
        i += 1;
    }
    None
}

} // verus!
