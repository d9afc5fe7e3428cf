//! What the library's tables and naming rules say of the HAL, of CubeMX
//! files and of the board, stated apart from the tables themselves: the
//! HAL routine and callbacks of each interrupt and the call-graph edges of
//! an enabled one, the peripherals and pins that `.ioc` settings yield, the
//! handle names that tie a module to a pin, and the board's Arduino,
//! morpho and reserved pins.
use vstd::prelude::*;
use crate::assoc::{assoc_insert, key_index, lemma_key_index_from, lookup, Entries};
use crate::builder::{call_graph, edge, peripheral_edges, row_edges, table_edges, EdgeType, EdgeView};
use crate::hal_rules::{hal_irq_table, HalIrqView};
use crate::ioc::PeriphView;
use crate::machine_laws::handler_of;
use crate::pin_modules::{
    alnum_end, any_ident, families, family_from, handle_of, is_source_ident, pattern_matches, pattern_of, periph_tokens_of,
    pin_uses,
};
use crate::ioc::{
    apply_param, ioc_apply, ioc_line, ioc_scan, peripheral_and_param, peripheral_prefixes, periph_index_from, pin_signal_name,
    IocScan, PinView,
};
use crate::text::{find_char, find_from, is_ascii_alnum, lemma_find_from_props, occurs_at, split_once, starts_with};
use crate::nucleo_pinout::{
    location_index_from, pinout_table, reserved_index_from, reserved_table, PinLocationView, ReservedPinView, ReservedSeverity,
};

verus! {

/// The weak callbacks that the HAL's I2C event interrupt handler,
/// `HAL_I2C_EV_IRQHandler`, may call.
pub open spec fn hal_i2c_event_callbacks() -> Seq<Seq<char>> {
    seq![
        "HAL_I2C_MasterTxCpltCallback"@,
        "HAL_I2C_MasterRxCpltCallback"@,
        "HAL_I2C_SlaveTxCpltCallback"@,
        "HAL_I2C_SlaveRxCpltCallback"@,
        "HAL_I2C_AddrCallback"@,
        "HAL_I2C_ListenCpltCallback"@,
        "HAL_I2C_MemTxCpltCallback"@,
        "HAL_I2C_MemRxCpltCallback"@,
    ]
}

/// An edge of the edges of peripheral `k` is an edge of the call graph.
proof fn lemma_call_graph_has(raw: Entries, ps: Seq<PeriphView>, k: int, e: EdgeView)
    requires
        0 <= k < ps.len(),
        peripheral_edges(raw, ps[k].name).contains(e),
    ensures
        call_graph(raw, ps).contains(e),
    decreases ps.len(),
{
    let q = ps.drop_last();
    let a = call_graph(raw, q);
    let b = peripheral_edges(raw, ps.last().name);
    assert(call_graph(raw, ps) == a + b);
    if k < ps.len() - 1 {
        assert(q[k] == ps[k]);
        lemma_call_graph_has(raw, q, k, e);
        let i = choose|i: int| 0 <= i < a.len() && a[i] == e;
        assert((a + b)[i] == e);
    } else {
        let i = choose|i: int| 0 <= i < b.len() && b[i] == e;
        assert((a + b)[a.len() + i] == e);
    }
}

/// An edge of row `j` is an edge of the table's edges.
proof fn lemma_table_has(raw: Entries, name: Seq<char>, t: Seq<HalIrqView>, j: int, e: EdgeView)
    requires
        0 <= j < t.len(),
        row_edges(raw, name, t[j]).contains(e),
    ensures
        table_edges(raw, name, t).contains(e),
    decreases t.len(),
{
    let q = t.drop_last();
    let a = table_edges(raw, name, q);
    let b = row_edges(raw, name, t.last());
    assert(table_edges(raw, name, t) == a + b);
    if j < t.len() - 1 {
        assert(q[j] == t[j]);
        lemma_table_has(raw, name, q, j, e);
        let i = choose|i: int| 0 <= i < a.len() && a[i] == e;
        assert((a + b)[i] == e);
    } else {
        let i = choose|i: int| 0 <= i < b.len() && b[i] == e;
        assert((a + b)[a.len() + i] == e);
    }
}

/// For a configured I2C instance `I2C<d>` whose event interrupt the `.ioc`
/// settings enable (`NVIC.I2C<d>_EV_IRQn` starts with `true`), the call
/// graph enters `I2C<d>_EV_IRQHandler`, which dispatches to
/// `HAL_I2C_EV_IRQHandler`, and that reaches every HAL I2C event callback
/// through a weak override.
pub proof fn law_i2c_event_callbacks(raw: Entries, ps: Seq<PeriphView>, k: int, d: char, cb: Seq<char>)
    requires
        0 <= k < ps.len(),
        '1' <= d <= '3',
        ps[k].name == "I2C"@.push(d),
        lookup(raw, "NVIC.I2C"@.push(d) + "_EV_IRQn"@) matches Some(v) && v.len() >= 4 && v.subrange(0, 4)
            == "true"@,
        hal_i2c_event_callbacks().contains(cb),
    ensures
        call_graph(raw, ps).contains(
            EdgeView {
                from: "I2C"@.push(d) + "_EV_IRQHandler"@,
                to: "HAL_I2C_EV_IRQHandler"@,
                edge_type: EdgeType::IrqEntry,
                generated: true,
            },
        ),
        call_graph(raw, ps).contains(
            EdgeView { from: "HAL_I2C_EV_IRQHandler"@, to: cb, edge_type: EdgeType::WeakOverride, generated: true },
        ),
{
    let t = hal_irq_table();
    let name = ps[k].name;
    let j: int = if d == '1' {
        17
    } else if d == '2' {
        19
    } else {
        21
    };
    reveal_strlit("I2C");
    reveal_strlit("_EV_IRQHandler");
    reveal_strlit("_IRQHandler");
    reveal_strlit("NVIC.");
    reveal_strlit("NVIC.I2C");
    reveal_strlit("_EV_IRQn");
    reveal_strlit("_IRQn");
    reveal_strlit("true");
    let h = "I2C"@.push(d) + "_EV_IRQHandler"@;
    if d == '1' {
        reveal_strlit("I2C1_EV_IRQHandler");
        assert(t[j].irq_handler_name =~= h);
    } else if d == '2' {
        reveal_strlit("I2C2_EV_IRQHandler");
        assert(t[j].irq_handler_name =~= h);
    } else {
        reveal_strlit("I2C3_EV_IRQHandler");
        assert(t[j].irq_handler_name =~= h);
    }
    let m = t[j];
    assert(m.hal_dispatch_fn == "HAL_I2C_EV_IRQHandler"@);
    assert(m.weak_callbacks == hal_i2c_event_callbacks());
    assert(h.subrange(0, name.len() as int) =~= name);
    assert(h[name.len() as int] == '_');
    assert(crate::builder::handler_matches(h, name));
    assert(crate::text::strip_suffix_or(h, "_IRQHandler"@) =~= "I2C"@.push(d) + "_EV"@) by {
        reveal_strlit("_EV");
        assert(h.subrange(h.len() - 11, h.len() as int) =~= "_IRQHandler"@);
    }
    assert(crate::builder::nvic_key(h) =~= "NVIC.I2C"@.push(d) + "_EV_IRQn"@) by {
        reveal_strlit("_EV");
    }
    assert(crate::builder::irq_enabled(raw, h));
    let es = row_edges(raw, name, m);
    let first = edge(h, "HAL_I2C_EV_IRQHandler"@, EdgeType::IrqEntry);
    let cbs = m.weak_callbacks.map_values(|c: Seq<char>| edge(m.hal_dispatch_fn, c, EdgeType::WeakOverride));
    assert(es == seq![first] + cbs);
    assert(es[0] == first);
    let ci = choose|i: int| 0 <= i < hal_i2c_event_callbacks().len() && hal_i2c_event_callbacks()[i] == cb;
    assert(es[1 + ci] == edge("HAL_I2C_EV_IRQHandler"@, cb, EdgeType::WeakOverride));
    let pe = peripheral_edges(raw, name);
    let te = table_edges(raw, name, t);
    lemma_table_has(raw, name, t, j, first);
    lemma_table_has(raw, name, t, j, es[1 + ci]);
    assert(pe == seq![edge("main"@, "MX_"@ + name + "_Init"@, EdgeType::Init)] + te);
    let i1 = choose|i: int| 0 <= i < te.len() && te[i] == first;
    assert(pe[1 + i1] == first);
    let i2 = choose|i: int| 0 <= i < te.len() && te[i] == es[1 + ci];
    assert(pe[1 + i2] == es[1 + ci]);
    lemma_call_graph_has(raw, ps, k, first);
    lemma_call_graph_has(raw, ps, k, es[1 + ci]);
}

/// The Arduino connectors of NUCLEO-F446RE, position by position: the
/// connector, the pin number on it, the Arduino label and the MCU pin
/// wired there (`D0`/`D1` carry USART2 RX/TX on `PA3`/`PA2`).
pub open spec fn arduino_headers() -> Seq<(Seq<char>, u8, Seq<char>, Seq<char>)> {
    seq![
        ("CN9"@, 1u8, "D0"@, "PA3"@),
        ("CN9"@, 2u8, "D1"@, "PA2"@),
        ("CN9"@, 3u8, "D2"@, "PA10"@),
        ("CN9"@, 4u8, "D3"@, "PB3"@),
        ("CN9"@, 5u8, "D4"@, "PB5"@),
        ("CN9"@, 6u8, "D5"@, "PB4"@),
        ("CN9"@, 7u8, "D6"@, "PB10"@),
        ("CN9"@, 8u8, "D7"@, "PA8"@),
        ("CN5"@, 1u8, "D8"@, "PA9"@),
        ("CN5"@, 2u8, "D9"@, "PC7"@),
        ("CN5"@, 3u8, "D10"@, "PB6"@),
        ("CN5"@, 4u8, "D11"@, "PA7"@),
        ("CN5"@, 5u8, "D12"@, "PA6"@),
        ("CN5"@, 6u8, "D13"@, "PA5"@),
        ("CN5"@, 9u8, "D14"@, "PB9"@),
        ("CN5"@, 10u8, "D15"@, "PB8"@),
        ("CN8"@, 1u8, "A0"@, "PA0"@),
        ("CN8"@, 2u8, "A1"@, "PA1"@),
        ("CN8"@, 3u8, "A2"@, "PA4"@),
        ("CN8"@, 4u8, "A3"@, "PB0"@),
        ("CN8"@, 5u8, "A4"@, "PC1"@),
        ("CN8"@, 6u8, "A5"@, "PC0"@),
    ]
}

/// A number for a pin name `P<port><n>` with one or two digits: the
/// port's place in the alphabet times a hundred, plus `n`.
pub open spec fn pin_code(n: Seq<char>) -> int {
    let port = (n[1] as int - 'A' as int) * 100;
    if n.len() == 3 {
        port + (n[2] as int - '0' as int)
    } else if n.len() == 4 {
        port + (n[2] as int - '0' as int) * 10 + (n[3] as int - '0' as int)
    } else {
        -1
    }
}

/// The row of the pinout table for the pin name `n`, read from its number.
pub open spec fn pin_row(n: Seq<char>) -> int {
    let c = pin_code(n);
    if c == 210 {
        0
    } else if c == 211 {
        1
    } else if c == 212 {
        2
    } else if c == 302 {
        3
    } else if c == 13 {
        4
    } else if c == 14 {
        5
    } else if c == 15 {
        6
    } else if c == 107 {
        7
    } else if c == 213 {
        8
    } else if c == 214 {
        9
    } else if c == 215 {
        10
    } else if c == 700 {
        11
    } else if c == 701 {
        12
    } else if c == 202 {
        13
    } else if c == 203 {
        14
    } else if c == 0 {
        15
    } else if c == 1 {
        16
    } else if c == 4 {
        17
    } else if c == 100 {
        18
    } else if c == 201 {
        19
    } else if c == 200 {
        20
    } else if c == 209 {
        21
    } else if c == 208 {
        22
    } else if c == 206 {
        23
    } else if c == 205 {
        24
    } else if c == 12 {
        25
    } else if c == 11 {
        26
    } else if c == 112 {
        27
    } else if c == 102 {
        28
    } else if c == 101 {
        29
    } else if c == 115 {
        30
    } else if c == 114 {
        31
    } else if c == 113 {
        32
    } else if c == 204 {
        33
    } else if c == 108 {
        34
    } else if c == 109 {
        35
    } else if c == 5 {
        36
    } else if c == 6 {
        37
    } else if c == 7 {
        38
    } else if c == 106 {
        39
    } else if c == 207 {
        40
    } else if c == 9 {
        41
    } else if c == 8 {
        42
    } else if c == 110 {
        43
    } else if c == 104 {
        44
    } else if c == 105 {
        45
    } else if c == 103 {
        46
    } else if c == 10 {
        47
    } else if c == 2 {
        48
    } else if c == 3 {
        49
    } else {
        -1
    }
}

/// Read back from its pin name, every row of the pinout table gives its own
/// index.
proof fn lemma_pin_rows(k: int)
    requires
        0 <= k < pinout_table().len(),
    ensures
        pin_row(pinout_table()[k].mcu_pin) == k,
{
    let t = pinout_table();
    assert(t.len() == 50);
    if k == 0 {
        reveal_strlit("PC10");
        let n = "PC10"@;
        assert(t[0].mcu_pin == n);
    } else if k == 1 {
        reveal_strlit("PC11");
        let n = "PC11"@;
        assert(t[1].mcu_pin == n);
    } else if k == 2 {
        reveal_strlit("PC12");
        let n = "PC12"@;
        assert(t[2].mcu_pin == n);
    } else if k == 3 {
        reveal_strlit("PD2");
        let n = "PD2"@;
        assert(t[3].mcu_pin == n);
    } else if k == 4 {
        reveal_strlit("PA13");
        let n = "PA13"@;
        assert(t[4].mcu_pin == n);
    } else if k == 5 {
        reveal_strlit("PA14");
        let n = "PA14"@;
        assert(t[5].mcu_pin == n);
    } else if k == 6 {
        reveal_strlit("PA15");
        let n = "PA15"@;
        assert(t[6].mcu_pin == n);
    } else if k == 7 {
        reveal_strlit("PB7");
        let n = "PB7"@;
        assert(t[7].mcu_pin == n);
    } else if k == 8 {
        reveal_strlit("PC13");
        let n = "PC13"@;
        assert(t[8].mcu_pin == n);
    } else if k == 9 {
        reveal_strlit("PC14");
        let n = "PC14"@;
        assert(t[9].mcu_pin == n);
    } else if k == 10 {
        reveal_strlit("PC15");
        let n = "PC15"@;
        assert(t[10].mcu_pin == n);
    } else if k == 11 {
        reveal_strlit("PH0");
        let n = "PH0"@;
        assert(t[11].mcu_pin == n);
    } else if k == 12 {
        reveal_strlit("PH1");
        let n = "PH1"@;
        assert(t[12].mcu_pin == n);
    } else if k == 13 {
        reveal_strlit("PC2");
        let n = "PC2"@;
        assert(t[13].mcu_pin == n);
    } else if k == 14 {
        reveal_strlit("PC3");
        let n = "PC3"@;
        assert(t[14].mcu_pin == n);
    } else if k == 15 {
        reveal_strlit("PA0");
        let n = "PA0"@;
        assert(t[15].mcu_pin == n);
    } else if k == 16 {
        reveal_strlit("PA1");
        let n = "PA1"@;
        assert(t[16].mcu_pin == n);
    } else if k == 17 {
        reveal_strlit("PA4");
        let n = "PA4"@;
        assert(t[17].mcu_pin == n);
    } else if k == 18 {
        reveal_strlit("PB0");
        let n = "PB0"@;
        assert(t[18].mcu_pin == n);
    } else if k == 19 {
        reveal_strlit("PC1");
        let n = "PC1"@;
        assert(t[19].mcu_pin == n);
    } else if k == 20 {
        reveal_strlit("PC0");
        let n = "PC0"@;
        assert(t[20].mcu_pin == n);
    } else if k == 21 {
        reveal_strlit("PC9");
        let n = "PC9"@;
        assert(t[21].mcu_pin == n);
    } else if k == 22 {
        reveal_strlit("PC8");
        let n = "PC8"@;
        assert(t[22].mcu_pin == n);
    } else if k == 23 {
        reveal_strlit("PC6");
        let n = "PC6"@;
        assert(t[23].mcu_pin == n);
    } else if k == 24 {
        reveal_strlit("PC5");
        let n = "PC5"@;
        assert(t[24].mcu_pin == n);
    } else if k == 25 {
        reveal_strlit("PA12");
        let n = "PA12"@;
        assert(t[25].mcu_pin == n);
    } else if k == 26 {
        reveal_strlit("PA11");
        let n = "PA11"@;
        assert(t[26].mcu_pin == n);
    } else if k == 27 {
        reveal_strlit("PB12");
        let n = "PB12"@;
        assert(t[27].mcu_pin == n);
    } else if k == 28 {
        reveal_strlit("PB2");
        let n = "PB2"@;
        assert(t[28].mcu_pin == n);
    } else if k == 29 {
        reveal_strlit("PB1");
        let n = "PB1"@;
        assert(t[29].mcu_pin == n);
    } else if k == 30 {
        reveal_strlit("PB15");
        let n = "PB15"@;
        assert(t[30].mcu_pin == n);
    } else if k == 31 {
        reveal_strlit("PB14");
        let n = "PB14"@;
        assert(t[31].mcu_pin == n);
    } else if k == 32 {
        reveal_strlit("PB13");
        let n = "PB13"@;
        assert(t[32].mcu_pin == n);
    } else if k == 33 {
        reveal_strlit("PC4");
        let n = "PC4"@;
        assert(t[33].mcu_pin == n);
    } else if k == 34 {
        reveal_strlit("PB8");
        let n = "PB8"@;
        assert(t[34].mcu_pin == n);
    } else if k == 35 {
        reveal_strlit("PB9");
        let n = "PB9"@;
        assert(t[35].mcu_pin == n);
    } else if k == 36 {
        reveal_strlit("PA5");
        let n = "PA5"@;
        assert(t[36].mcu_pin == n);
    } else if k == 37 {
        reveal_strlit("PA6");
        let n = "PA6"@;
        assert(t[37].mcu_pin == n);
    } else if k == 38 {
        reveal_strlit("PA7");
        let n = "PA7"@;
        assert(t[38].mcu_pin == n);
    } else if k == 39 {
        reveal_strlit("PB6");
        let n = "PB6"@;
        assert(t[39].mcu_pin == n);
    } else if k == 40 {
        reveal_strlit("PC7");
        let n = "PC7"@;
        assert(t[40].mcu_pin == n);
    } else if k == 41 {
        reveal_strlit("PA9");
        let n = "PA9"@;
        assert(t[41].mcu_pin == n);
    } else if k == 42 {
        reveal_strlit("PA8");
        let n = "PA8"@;
        assert(t[42].mcu_pin == n);
    } else if k == 43 {
        reveal_strlit("PB10");
        let n = "PB10"@;
        assert(t[43].mcu_pin == n);
    } else if k == 44 {
        reveal_strlit("PB4");
        let n = "PB4"@;
        assert(t[44].mcu_pin == n);
    } else if k == 45 {
        reveal_strlit("PB5");
        let n = "PB5"@;
        assert(t[45].mcu_pin == n);
    } else if k == 46 {
        reveal_strlit("PB3");
        let n = "PB3"@;
        assert(t[46].mcu_pin == n);
    } else if k == 47 {
        reveal_strlit("PA10");
        let n = "PA10"@;
        assert(t[47].mcu_pin == n);
    } else if k == 48 {
        reveal_strlit("PA2");
        let n = "PA2"@;
        assert(t[48].mcu_pin == n);
    } else if k == 49 {
        reveal_strlit("PA3");
        let n = "PA3"@;
        assert(t[49].mcu_pin == n);
    }
}

/// The lookup from `i` finds row `j` when no row from `i` on before it has
/// the same pin name.
proof fn lemma_location_finds(t: Seq<PinLocationView>, j: int, i: int)
    requires
        0 <= i <= j < t.len(),
        forall|m: int| i <= m < j ==> #[trigger] t[m].mcu_pin != t[j].mcu_pin,
    ensures
        location_index_from(t, t[j].mcu_pin, i) == Some(j),
    decreases j - i,
{
    if i < j {
        lemma_location_finds(t, j, i + 1);
    }
}

/// Looking up the pin of any row of the pinout table finds that row: the
/// table names each pin once.
proof fn lemma_lookup_row(j: int)
    requires
        0 <= j < pinout_table().len(),
    ensures
        location_index_from(pinout_table(), pinout_table()[j].mcu_pin, 0) == Some(j),
{
    let t = pinout_table();
    lemma_pin_rows(j);
    assert forall|m: int| 0 <= m < j implies #[trigger] t[m].mcu_pin != t[j].mcu_pin by {
        lemma_pin_rows(m);
    }
    lemma_location_finds(t, j, 0);
}

/// The lookup of `pin` finds only a row of that pin.
proof fn lemma_location_hit(t: Seq<PinLocationView>, pin: Seq<char>, i: int)
    requires
        0 <= i,
    ensures
        location_index_from(t, pin, i) matches Some(k) ==> 0 <= k < t.len() && t[k].mcu_pin == pin,
    decreases t.len() - i,
{
    if i < t.len() && t[i].mcu_pin != pin {
        lemma_location_hit(t, pin, i + 1);
    }
}

/// Every position of the Arduino connectors is where the board wires it:
/// looking up the MCU pin of a header position gives that connector, pin
/// number and label.
pub proof fn law_arduino_header_positions(k: int)
    requires
        0 <= k < arduino_headers().len(),
    ensures
        location_index_from(pinout_table(), arduino_headers()[k].3, 0) matches Some(i) && pinout_table()[i].arduino
            == Some((arduino_headers()[k].0, arduino_headers()[k].1, arduino_headers()[k].2)),
{
    let t = pinout_table();
    let h = arduino_headers();
    let j: int =
        if k == 0 {
            49
        } else if k == 1 {
            48
        } else if k == 2 {
            47
        } else if k == 3 {
            46
        } else if k == 4 {
            45
        } else if k == 5 {
            44
        } else if k == 6 {
            43
        } else if k == 7 {
            42
        } else if k == 8 {
            41
        } else if k == 9 {
            40
        } else if k == 10 {
            39
        } else if k == 11 {
            38
        } else if k == 12 {
            37
        } else if k == 13 {
            36
        } else if k == 14 {
            35
        } else if k == 15 {
            34
        } else if k == 16 {
            15
        } else if k == 17 {
            16
        } else if k == 18 {
            17
        } else if k == 19 {
            18
        } else if k == 20 {
            19
        } else if k == 21 {
            20
        } else {
            0
        };
    assert(t[j].mcu_pin == h[k].3);
    assert(t[j].arduino == Some((h[k].0, h[k].1, h[k].2)));
    lemma_lookup_row(j);
}

/// A pin that the lookup places on an Arduino connector sits at that
/// position of the board's Arduino headers.
pub proof fn law_arduino_pins_on_headers(pin: Seq<char>)
    ensures
        location_index_from(pinout_table(), pin, 0) matches Some(i) ==> (pinout_table()[i].arduino matches Some(a)
            ==> arduino_headers().contains((a.0, a.1, a.2, pin))),
{
    let t = pinout_table();
    let h = arduino_headers();
    lemma_location_hit(t, pin, 0);
    if let Some(i) = location_index_from(t, pin, 0) {
        assert(0 <= i < 50);
        if i == 0 {
            assert(t[0].arduino is None);
        } else if i == 1 {
            assert(t[1].arduino is None);
        } else if i == 2 {
            assert(t[2].arduino is None);
        } else if i == 3 {
            assert(t[3].arduino is None);
        } else if i == 4 {
            assert(t[4].arduino is None);
        } else if i == 5 {
            assert(t[5].arduino is None);
        } else if i == 6 {
            assert(t[6].arduino is None);
        } else if i == 7 {
            assert(t[7].arduino is None);
        } else if i == 8 {
            assert(t[8].arduino is None);
        } else if i == 9 {
            assert(t[9].arduino is None);
        } else if i == 10 {
            assert(t[10].arduino is None);
        } else if i == 11 {
            assert(t[11].arduino is None);
        } else if i == 12 {
            assert(t[12].arduino is None);
        } else if i == 13 {
            assert(t[13].arduino is None);
        } else if i == 14 {
            assert(t[14].arduino is None);
        } else if i == 15 {
            assert(h[16] == (t[15].arduino->Some_0.0, t[15].arduino->Some_0.1, t[15].arduino->Some_0.2, t[15].mcu_pin));
        } else if i == 16 {
            assert(h[17] == (t[16].arduino->Some_0.0, t[16].arduino->Some_0.1, t[16].arduino->Some_0.2, t[16].mcu_pin));
        } else if i == 17 {
            assert(h[18] == (t[17].arduino->Some_0.0, t[17].arduino->Some_0.1, t[17].arduino->Some_0.2, t[17].mcu_pin));
        } else if i == 18 {
            assert(h[19] == (t[18].arduino->Some_0.0, t[18].arduino->Some_0.1, t[18].arduino->Some_0.2, t[18].mcu_pin));
        } else if i == 19 {
            assert(h[20] == (t[19].arduino->Some_0.0, t[19].arduino->Some_0.1, t[19].arduino->Some_0.2, t[19].mcu_pin));
        } else if i == 20 {
            assert(h[21] == (t[20].arduino->Some_0.0, t[20].arduino->Some_0.1, t[20].arduino->Some_0.2, t[20].mcu_pin));
        } else if i == 21 {
            assert(t[21].arduino is None);
        } else if i == 22 {
            assert(t[22].arduino is None);
        } else if i == 23 {
            assert(t[23].arduino is None);
        } else if i == 24 {
            assert(t[24].arduino is None);
        } else if i == 25 {
            assert(t[25].arduino is None);
        } else if i == 26 {
            assert(t[26].arduino is None);
        } else if i == 27 {
            assert(t[27].arduino is None);
        } else if i == 28 {
            assert(t[28].arduino is None);
        } else if i == 29 {
            assert(t[29].arduino is None);
        } else if i == 30 {
            assert(t[30].arduino is None);
        } else if i == 31 {
            assert(t[31].arduino is None);
        } else if i == 32 {
            assert(t[32].arduino is None);
        } else if i == 33 {
            assert(t[33].arduino is None);
        } else if i == 34 {
            assert(h[15] == (t[34].arduino->Some_0.0, t[34].arduino->Some_0.1, t[34].arduino->Some_0.2, t[34].mcu_pin));
        } else if i == 35 {
            assert(h[14] == (t[35].arduino->Some_0.0, t[35].arduino->Some_0.1, t[35].arduino->Some_0.2, t[35].mcu_pin));
        } else if i == 36 {
            assert(h[13] == (t[36].arduino->Some_0.0, t[36].arduino->Some_0.1, t[36].arduino->Some_0.2, t[36].mcu_pin));
        } else if i == 37 {
            assert(h[12] == (t[37].arduino->Some_0.0, t[37].arduino->Some_0.1, t[37].arduino->Some_0.2, t[37].mcu_pin));
        } else if i == 38 {
            assert(h[11] == (t[38].arduino->Some_0.0, t[38].arduino->Some_0.1, t[38].arduino->Some_0.2, t[38].mcu_pin));
        } else if i == 39 {
            assert(h[10] == (t[39].arduino->Some_0.0, t[39].arduino->Some_0.1, t[39].arduino->Some_0.2, t[39].mcu_pin));
        } else if i == 40 {
            assert(h[9] == (t[40].arduino->Some_0.0, t[40].arduino->Some_0.1, t[40].arduino->Some_0.2, t[40].mcu_pin));
        } else if i == 41 {
            assert(h[8] == (t[41].arduino->Some_0.0, t[41].arduino->Some_0.1, t[41].arduino->Some_0.2, t[41].mcu_pin));
        } else if i == 42 {
            assert(h[7] == (t[42].arduino->Some_0.0, t[42].arduino->Some_0.1, t[42].arduino->Some_0.2, t[42].mcu_pin));
        } else if i == 43 {
            assert(h[6] == (t[43].arduino->Some_0.0, t[43].arduino->Some_0.1, t[43].arduino->Some_0.2, t[43].mcu_pin));
        } else if i == 44 {
            assert(h[5] == (t[44].arduino->Some_0.0, t[44].arduino->Some_0.1, t[44].arduino->Some_0.2, t[44].mcu_pin));
        } else if i == 45 {
            assert(h[4] == (t[45].arduino->Some_0.0, t[45].arduino->Some_0.1, t[45].arduino->Some_0.2, t[45].mcu_pin));
        } else if i == 46 {
            assert(h[3] == (t[46].arduino->Some_0.0, t[46].arduino->Some_0.1, t[46].arduino->Some_0.2, t[46].mcu_pin));
        } else if i == 47 {
            assert(h[2] == (t[47].arduino->Some_0.0, t[47].arduino->Some_0.1, t[47].arduino->Some_0.2, t[47].mcu_pin));
        } else if i == 48 {
            assert(h[1] == (t[48].arduino->Some_0.0, t[48].arduino->Some_0.1, t[48].arduino->Some_0.2, t[48].mcu_pin));
        } else if i == 49 {
            assert(h[0] == (t[49].arduino->Some_0.0, t[49].arduino->Some_0.1, t[49].arduino->Some_0.2, t[49].mcu_pin));
        }
    }
}

/// The peripheral families that pins are matched by, each with the prefix
/// of the HAL handle through which CubeMX code drives an instance of it
/// (`USART2` through `huart2`, `TIM3` through `htim3`).
pub open spec fn handle_prefixes() -> Seq<(Seq<char>, Seq<char>)> {
    seq![
        ("USART"@, "huart"@),
        ("UART"@, "huart"@),
        ("SPI"@, "hspi"@),
        ("I2C"@, "hi2c"@),
        ("TIM"@, "htim"@),
        ("ADC"@, "hadc"@),
        ("CAN"@, "hcan"@),
    ]
}

/// The run of letters and digits at the start of `s[i..]` ends at `e`.
proof fn lemma_alnum_end(s: Seq<char>, i: int, e: int)
    requires
        0 <= i <= e <= s.len(),
        forall|j: int| i <= j < e ==> is_ascii_alnum(#[trigger] s[j]),
        e == s.len() || !is_ascii_alnum(s[e]),
    ensures
        alnum_end(s, i) == e,
    decreases e - i,
{
    if i < e {
        lemma_alnum_end(s, i + 1, e);
    }
}

/// `s` does not start with `p` where they differ at `i`.
proof fn lemma_not_prefix(s: Seq<char>, p: Seq<char>, i: int)
    requires
        0 <= i < p.len(),
        i < s.len(),
        s[i] != p[i],
    ensures
        !starts_with(s, p),
{
    if starts_with(s, p) {
        assert(s.subrange(0, p.len() as int)[i] == s[i]);
    }
}

/// The first family that `sig` starts with, from `i` on, is the `k`-th.
proof fn lemma_family_from(sig: Seq<char>, i: int, k: int)
    requires
        0 <= i <= k < 7,
        starts_with(sig, families()[k]),
        forall|j: int| i <= j < k ==> !starts_with(sig, #[trigger] families()[j]),
    ensures
        family_from(sig, i) == Some(k),
    decreases k - i,
{
    if i < k {
        lemma_family_from(sig, i + 1, k);
    }
}

/// A module that names the HAL handle of a pin's peripheral instance uses
/// the pin: for a signal `<family><n>_...` (such as `TIM3_CH1`), a module
/// whose C text has the identifier `<handle prefix><n>` (`htim3`) is among
/// the modules that the pin is assigned to.
pub proof fn law_handle_names_assign_pin(
    pins: Seq<PinView>,
    files: Seq<(Seq<char>, Seq<char>)>,
    idx: int,
    f: int,
    k: int,
    ds: Seq<char>,
    rest: Seq<char>,
)
    requires
        0 <= idx < pins.len(),
        0 <= f < files.len(),
        0 <= k < handle_prefixes().len(),
        ds.len() > 0,
        forall|i: int| 0 <= i < ds.len() ==> '0' <= #[trigger] ds[i] <= '9',
        rest.len() == 0 || rest[0] == '_',
        pins[idx].signal == handle_prefixes()[k].0 + ds + rest,
        is_source_ident(files[f].1, files[f].0 == "main"@, handle_prefixes()[k].1 + ds),
    ensures
        pin_uses(pins, files, idx, files[f].0),
{
    reveal_strlit("USART");
    reveal_strlit("UART");
    reveal_strlit("SPI");
    reveal_strlit("I2C");
    reveal_strlit("TIM");
    reveal_strlit("ADC");
    reveal_strlit("CAN");
    reveal_strlit("huart");
    reveal_strlit("hspi");
    reveal_strlit("hi2c");
    reveal_strlit("htim");
    reveal_strlit("hadc");
    reveal_strlit("hcan");
    let fam = handle_prefixes()[k].0;
    let hp = handle_prefixes()[k].1;
    let sig = pins[idx].signal;
    let n = fam + ds;
    assert(families()[k] == fam);
    assert(sig =~= n + rest);
    assert forall|j: int| 0 <= j < n.len() implies is_ascii_alnum(#[trigger] sig[j]) by {
        assert(sig[j] == n[j]);
        if j >= fam.len() {
            assert(n[j] == ds[j - fam.len()]);
        }
    }
    if n.len() < sig.len() {
        assert(sig[n.len() as int] == rest[0]);
    }
    lemma_alnum_end(sig, 0, n.len() as int);
    assert(sig.take(n.len() as int) =~= n);
    assert(sig.subrange(0, fam.len() as int) =~= fam);
    assert(n.subrange(0, fam.len() as int) =~= fam);
    assert(n.skip(fam.len() as int) =~= ds);
    assert(sig[0] == fam[0] && sig[1] == fam[1] && n[0] == fam[0] && n[1] == fam[1]);
    if k == 0 {
        lemma_family_from(sig, 0, 0);
        assert(handle_of(n) == hp + ds);
    } else if k == 1 {
        lemma_not_prefix(sig, families()[0], 1);
        lemma_family_from(sig, 0, 1);
        lemma_not_prefix(n, "USART"@, 1);
        assert(handle_of(n) == hp + ds);
    } else if k == 2 {
        lemma_not_prefix(sig, families()[0], 0);
        lemma_not_prefix(sig, families()[1], 0);
        lemma_family_from(sig, 0, 2);
        lemma_not_prefix(n, "USART"@, 0);
        lemma_not_prefix(n, "UART"@, 0);
        lemma_not_prefix(n, "TIM"@, 0);
        assert(handle_of(n) == hp + ds);
    } else if k == 3 {
        lemma_not_prefix(sig, families()[0], 0);
        lemma_not_prefix(sig, families()[1], 0);
        lemma_not_prefix(sig, families()[2], 0);
        lemma_family_from(sig, 0, 3);
        lemma_not_prefix(n, "USART"@, 0);
        lemma_not_prefix(n, "UART"@, 0);
        lemma_not_prefix(n, "TIM"@, 0);
        lemma_not_prefix(n, "SPI"@, 0);
        assert(handle_of(n) == hp + ds);
    } else if k == 4 {
        lemma_not_prefix(sig, families()[0], 0);
        lemma_not_prefix(sig, families()[1], 0);
        lemma_not_prefix(sig, families()[2], 0);
        lemma_not_prefix(sig, families()[3], 0);
        lemma_family_from(sig, 0, 4);
        lemma_not_prefix(n, "USART"@, 0);
        lemma_not_prefix(n, "UART"@, 0);
        assert(handle_of(n) == hp + ds);
    } else if k == 5 {
        lemma_not_prefix(sig, families()[0], 0);
        lemma_not_prefix(sig, families()[1], 0);
        lemma_not_prefix(sig, families()[2], 0);
        lemma_not_prefix(sig, families()[3], 0);
        lemma_not_prefix(sig, families()[4], 0);
        lemma_family_from(sig, 0, 5);
        lemma_not_prefix(n, "USART"@, 0);
        lemma_not_prefix(n, "UART"@, 0);
        lemma_not_prefix(n, "TIM"@, 0);
        lemma_not_prefix(n, "SPI"@, 0);
        lemma_not_prefix(n, "I2C"@, 0);
        assert(handle_of(n) == hp + ds);
    } else if k == 6 {
        lemma_not_prefix(sig, families()[0], 0);
        lemma_not_prefix(sig, families()[1], 0);
        lemma_not_prefix(sig, families()[2], 0);
        lemma_not_prefix(sig, families()[3], 0);
        lemma_not_prefix(sig, families()[4], 0);
        lemma_not_prefix(sig, families()[5], 0);
        lemma_family_from(sig, 0, 6);
        lemma_not_prefix(n, "USART"@, 0);
        lemma_not_prefix(n, "UART"@, 0);
        lemma_not_prefix(n, "TIM"@, 0);
        lemma_not_prefix(n, "SPI"@, 0);
        lemma_not_prefix(n, "I2C"@, 0);
        lemma_not_prefix(n, "ADC"@, 0);
        assert(handle_of(n) == hp + ds);
    }
    let toks = periph_tokens_of(sig);
    assert(toks == seq![n, hp + ds]);
    let pat = pattern_of(pins[idx], idx);
    let main = files[f].0 == "main"@;
    assert(toks[1] == hp + ds);
    assert(any_ident(pat.periph_tokens, files[f].1, main));
    assert(pattern_matches(pat, pins, files[f].1, main));
}

/// The name prefixes of the peripherals that CubeMX writes settings for in
/// a `.ioc` file (`SPI1.Mode=...`, `USART2.BaudRate=...`).
pub open spec fn cubemx_peripheral_prefixes() -> Seq<Seq<char>> {
    seq![
        "USART"@, "UART"@, "SPI"@, "I2C"@, "TIM"@, "ADC"@, "DMA"@, "GPIO"@, "CAN"@, "USB"@,
        "RTC"@, "DAC"@, "CRC"@, "RNG"@, "I2S"@, "SAI"@, "FMC"@, "SDMMC"@, "SDIO"@,
    ]
}

/// Some peripheral of `ps` is named `name` and holds a setting `param`.
pub open spec fn holds_setting(ps: Seq<PeriphView>, name: Seq<char>, param: Seq<char>) -> bool {
    exists|q: int| 0 <= q < ps.len() && ps[q].name == name && exists|m: int|
        0 <= m < ps[q].params.len() && (#[trigger] ps[q].params[m]).0 == param
}

/// Storing under `k` keeps every key and adds `k`.
proof fn lemma_insert_keys(es: Entries, k: Seq<char>, v: Seq<char>, x: Seq<char>)
    requires
        x == k || exists|m: int| 0 <= m < es.len() && (#[trigger] es[m]).0 == x,
    ensures
        exists|m: int| 0 <= m < assoc_insert(es, k, v).len() && (#[trigger] assoc_insert(es, k, v)[m]).0 == x,
{
    let r = assoc_insert(es, k, v);
    lemma_key_index_from(es, k, 0);
    match key_index(es, k) {
        Some(i) => {
            if x == k {
                assert(r[i].0 == x);
            } else {
                let m = choose|m: int| 0 <= m < es.len() && (#[trigger] es[m]).0 == x;
                assert(r[m].0 == x);
            }
        },
        None => {
            if x == k {
                assert(r[es.len() as int].0 == x);
            } else {
                let m = choose|m: int| 0 <= m < es.len() && (#[trigger] es[m]).0 == x;
                assert(r[m].0 == x);
            }
        },
    }
}

/// A setting, once held, stays held through any further entry.
proof fn lemma_apply_keeps(st: IocScan, key: Seq<char>, value: Seq<char>, name: Seq<char>, param: Seq<char>)
    requires
        holds_setting(st.periphs, name, param),
    ensures
        holds_setting(ioc_apply(st, key, value).periphs, name, param),
{
    let q = choose|q: int| 0 <= q < st.periphs.len() && st.periphs[q].name == name && exists|m: int|
        0 <= m < st.periphs[q].params.len() && (#[trigger] st.periphs[q].params[m]).0 == param;
    if pin_signal_name(key) is None {
        if let Some((n2, p2)) = peripheral_and_param(key) {
            let ps = st.periphs;
            let r = apply_param(ps, n2, p2, value);
            assert(ioc_apply(st, key, value).periphs == r);
            lemma_periph_index(ps, n2, 0);
            match periph_index_from(ps, n2, 0) {
                Some(i2) => {
                    if i2 == q {
                        lemma_insert_keys(ps[q].params, p2, value, param);
                        assert(r[q].params == assoc_insert(ps[q].params, p2, value));
                    } else {
                        assert(r[q] == ps[q]);
                    }
                },
                None => {
                    assert(r[q] == ps[q]);
                },
            }
            lemma_holds_at(r, q, name, param);
        }
    }
}

/// Row `q` of `ps` is named `name` and holds `param`.
proof fn lemma_holds_at(ps: Seq<PeriphView>, q: int, name: Seq<char>, param: Seq<char>)
    requires
        0 <= q < ps.len(),
        ps[q].name == name,
        exists|m: int| 0 <= m < ps[q].params.len() && (#[trigger] ps[q].params[m]).0 == param,
    ensures
        holds_setting(ps, name, param),
{
}

proof fn lemma_scan_keeps(ls: Seq<Seq<char>>, i: int, name: Seq<char>, param: Seq<char>)
    requires
        0 <= i <= ls.len(),
        ioc_scan(ls) is Ok,
        ioc_scan(ls.take(i)) matches Ok(st) && holds_setting(st.periphs, name, param),
    ensures
        holds_setting(ioc_scan(ls)->Ok_0.periphs, name, param),
    decreases ls.len() - i,
{
    if i == ls.len() {
        assert(ls.take(i) =~= ls);
    } else {
        let st = ioc_scan(ls.take(i))->Ok_0;
        assert(ls.take(i + 1).drop_last() =~= ls.take(i));
        assert(ls.take(i + 1).last() == ls[i]);
        if ioc_scan(ls.take(i + 1)) is Err {
            assert(ls.subrange(0, i + 1) =~= ls.take(i + 1));
            crate::ioc::lemma_scan_err_extends(ls, i + 1);
        }
        match ioc_line(ls[i]) {
            Some(Some((k, v))) => {
                lemma_apply_keeps(st, k, v, name, param);
            },
            _ => {},
        }
        lemma_scan_keeps(ls, i + 1, name, param);
    }
}

/// A setting `<name>.<param>=<value>` of a peripheral that CubeMX
/// configures (its name starts with one of the CubeMX peripheral prefixes)
/// makes, in every `.ioc` text that parses, a peripheral `name` holding the
/// setting `param`: `SPI1.Mode=...` gives the peripheral `SPI1`.
pub proof fn law_peripheral_settings_kept(
    ls: Seq<Seq<char>>,
    i: int,
    j: int,
    name: Seq<char>,
    param: Seq<char>,
    value: Seq<char>,
)
    requires
        0 <= i < ls.len(),
        ioc_scan(ls) is Ok,
        ioc_line(ls[i]) == Some(Some((name + "."@ + param, value))),
        !name.contains('.'),
        0 <= j < cubemx_peripheral_prefixes().len(),
        starts_with(name, cubemx_peripheral_prefixes()[j]),
    ensures
        ioc_scan(ls) matches Ok(st) && exists|q: int|
            0 <= q < st.periphs.len() && st.periphs[q].name == name && lookup(st.periphs[q].params, param) is Some,
{
    reveal_strlit(".");
    let key = name + "."@ + param;
    let pre = cubemx_peripheral_prefixes()[j];
    assert(pre.len() > 0 && pre[0] != 'P') by {
        if j == 0 {
            reveal_strlit("USART");
        } else if j == 1 {
            reveal_strlit("UART");
        } else if j == 2 {
            reveal_strlit("SPI");
        } else if j == 3 {
            reveal_strlit("I2C");
        } else if j == 4 {
            reveal_strlit("TIM");
        } else if j == 5 {
            reveal_strlit("ADC");
        } else if j == 6 {
            reveal_strlit("DMA");
        } else if j == 7 {
            reveal_strlit("GPIO");
        } else if j == 8 {
            reveal_strlit("CAN");
        } else if j == 9 {
            reveal_strlit("USB");
        } else if j == 10 {
            reveal_strlit("RTC");
        } else if j == 11 {
            reveal_strlit("DAC");
        } else if j == 12 {
            reveal_strlit("CRC");
        } else if j == 13 {
            reveal_strlit("RNG");
        } else if j == 14 {
            reveal_strlit("I2S");
        } else if j == 15 {
            reveal_strlit("SAI");
        } else if j == 16 {
            reveal_strlit("FMC");
        } else if j == 17 {
            reveal_strlit("SDMMC");
        } else if j == 18 {
            reveal_strlit("SDIO");
        }
    }
    assert(cubemx_peripheral_prefixes() =~= peripheral_prefixes());
    assert(name[0] == pre[0]);
    // The key splits at the `.` after the name.
    let dot = seq!['.'];
    assert(key[name.len() as int] == '.');
    assert(occurs_at(key, dot, name.len() as int)) by {
        assert(key.subrange(name.len() as int, name.len() as int + 1) =~= dot);
    }
    lemma_find_from_props(key, dot, 0);
    match find_from(key, dot, 0) {
        Some(k) => {
            if k < name.len() {
                assert(key.subrange(k, k + 1)[0] == key[k]);
                assert(name[k] == '.');
                assert(name.contains('.'));
            }
            assert(k == name.len());
        },
        None => {},
    }
    assert(find_char(key, '.') == Some(name.len() as int));
    assert(key.subrange(0, name.len() as int) =~= name);
    assert(key.subrange(name.len() as int + 1, key.len() as int) =~= param);
    assert(split_once(key, '.') == Some((name, param)));
    assert(pin_signal_name(key) is None);
    assert(peripheral_and_param(key) == Some((name, param)));
    // The line adds the setting.
    assert(ls.take(i + 1).drop_last() =~= ls.take(i));
    assert(ls.take(i + 1).last() == ls[i]);
    if ioc_scan(ls.take(i)) is Err {
        assert(ls.subrange(0, i) =~= ls.take(i));
        crate::ioc::lemma_scan_err_extends(ls, i);
    }
    let st = ioc_scan(ls.take(i))->Ok_0;
    let st1 = ioc_apply(st, key, value);
    let ps = st.periphs;
    let r = apply_param(ps, name, param, value);
    assert(st1.periphs == r);
    match periph_index_from(ps, name, 0) {
        Some(q) => {
            lemma_periph_index(ps, name, 0);
            lemma_insert_keys(ps[q].params, param, value, param);
            assert(r[q].params == assoc_insert(ps[q].params, param, value));
            lemma_holds_at(r, q, name, param);
        },
        None => {
            let q = ps.len() as int;
            lemma_insert_keys(Seq::<(Seq<char>, Seq<char>)>::empty(), param, value, param);
            assert(r[q].params == assoc_insert(Seq::<(Seq<char>, Seq<char>)>::empty(), param, value));
            lemma_holds_at(r, q, name, param);
        },
    }
    assert(holds_setting(st1.periphs, name, param));
    lemma_scan_keeps(ls, i + 1, name, param);
    let fin = ioc_scan(ls)->Ok_0;
    let q = choose|q: int| 0 <= q < fin.periphs.len() && fin.periphs[q].name == name && exists|m: int|
        0 <= m < fin.periphs[q].params.len() && (#[trigger] fin.periphs[q].params[m]).0 == param;
    lemma_key_index_from(fin.periphs[q].params, param, 0);
}

proof fn lemma_periph_index(ps: Seq<PeriphView>, name: Seq<char>, i: int)
    requires
        0 <= i,
    ensures
        periph_index_from(ps, name, i) matches Some(q) ==> i <= q < ps.len() && ps[q].name == name,
    decreases ps.len() - i,
{
    if i < ps.len() && ps[i].name != name {
        lemma_periph_index(ps, name, i + 1);
    }
}

/// What the STM32F4 HAL does with an interrupt, told by the handler's
/// name: the HAL routine it dispatches to, the weak callbacks that routine
/// may call, and the peripheral family. USART and UART interrupts go to
/// the UART routine, `EXTI` lines to the GPIO EXTI routine, timers to the
/// TIM routine, I2C event and error lines to the I2C event and error
/// routines, SPI to the SPI routine and DMA streams to the DMA routine,
/// which calls no weak callback by name.
pub open spec fn hal_row_for(h: Seq<char>) -> (Seq<char>, Seq<Seq<char>>, Seq<char>) {
    if h.len() < 7 {
        (seq![], seq![], seq![])
    } else if h[0] == 'U' {
        (
            "HAL_UART_IRQHandler"@,
            seq![
                "HAL_UART_TxCpltCallback"@,
                "HAL_UART_RxCpltCallback"@,
                "HAL_UART_ErrorCallback"@,
                "HAL_UART_TxHalfCpltCallback"@,
                "HAL_UART_RxHalfCpltCallback"@,
            ],
            if h[1] == 'S' {
                "USART"@
            } else {
                "UART"@
            },
        )
    } else if h[0] == 'E' {
        ("HAL_GPIO_EXTI_IRQHandler"@, seq!["HAL_GPIO_EXTI_Callback"@], "GPIO"@)
    } else if h[0] == 'T' {
        (
            "HAL_TIM_IRQHandler"@,
            seq![
                "HAL_TIM_PeriodElapsedCallback"@,
                "HAL_TIM_OC_DelayElapsedCallback"@,
                "HAL_TIM_IC_CaptureCallback"@,
                "HAL_TIM_PWM_PulseFinishedCallback"@,
                "HAL_TIM_TriggerCallback"@,
                "HAL_TIM_ErrorCallback"@,
            ],
            "TIM"@,
        )
    } else if h[0] == 'I' && h[6] == 'V' {
        ("HAL_I2C_EV_IRQHandler"@, hal_i2c_event_callbacks(), "I2C"@)
    } else if h[0] == 'I' {
        ("HAL_I2C_ER_IRQHandler"@, seq!["HAL_I2C_ErrorCallback"@], "I2C"@)
    } else if h[0] == 'S' {
        (
            "HAL_SPI_IRQHandler"@,
            seq![
                "HAL_SPI_TxCpltCallback"@,
                "HAL_SPI_RxCpltCallback"@,
                "HAL_SPI_TxRxCpltCallback"@,
                "HAL_SPI_ErrorCallback"@,
            ],
            "SPI"@,
        )
    } else if h[0] == 'D' {
        ("HAL_DMA_IRQHandler"@, seq![], "DMA"@)
    } else {
        (seq![], seq![], seq![])
    }
}

/// Every row of the HAL interrupt table dispatches its handler to the HAL
/// routine, the weak callbacks and the family that the HAL gives it.
pub proof fn law_hal_table_rows(j: int)
    requires
        0 <= j < hal_irq_table().len(),
    ensures
        hal_irq_table()[j].hal_dispatch_fn == hal_row_for(hal_irq_table()[j].irq_handler_name).0,
        hal_irq_table()[j].weak_callbacks == hal_row_for(hal_irq_table()[j].irq_handler_name).1,
        hal_irq_table()[j].peripheral_prefix == hal_row_for(hal_irq_table()[j].irq_handler_name).2,
{
    let t = hal_irq_table();
    assert(t.len() == 42);
    if j == 0 {
        reveal_strlit("USART1_IRQHandler");
        assert(t[0].irq_handler_name == "USART1_IRQHandler"@);
    } else if j == 1 {
        reveal_strlit("USART2_IRQHandler");
        assert(t[1].irq_handler_name == "USART2_IRQHandler"@);
    } else if j == 2 {
        reveal_strlit("USART3_IRQHandler");
        assert(t[2].irq_handler_name == "USART3_IRQHandler"@);
    } else if j == 3 {
        reveal_strlit("UART4_IRQHandler");
        assert(t[3].irq_handler_name == "UART4_IRQHandler"@);
    } else if j == 4 {
        reveal_strlit("UART5_IRQHandler");
        assert(t[4].irq_handler_name == "UART5_IRQHandler"@);
    } else if j == 5 {
        reveal_strlit("USART6_IRQHandler");
        assert(t[5].irq_handler_name == "USART6_IRQHandler"@);
    } else if j == 6 {
        reveal_strlit("EXTI0_IRQHandler");
        assert(t[6].irq_handler_name == "EXTI0_IRQHandler"@);
    } else if j == 7 {
        reveal_strlit("EXTI1_IRQHandler");
        assert(t[7].irq_handler_name == "EXTI1_IRQHandler"@);
    } else if j == 8 {
        reveal_strlit("EXTI2_IRQHandler");
        assert(t[8].irq_handler_name == "EXTI2_IRQHandler"@);
    } else if j == 9 {
        reveal_strlit("EXTI3_IRQHandler");
        assert(t[9].irq_handler_name == "EXTI3_IRQHandler"@);
    } else if j == 10 {
        reveal_strlit("EXTI4_IRQHandler");
        assert(t[10].irq_handler_name == "EXTI4_IRQHandler"@);
    } else if j == 11 {
        reveal_strlit("EXTI9_5_IRQHandler");
        assert(t[11].irq_handler_name == "EXTI9_5_IRQHandler"@);
    } else if j == 12 {
        reveal_strlit("EXTI15_10_IRQHandler");
        assert(t[12].irq_handler_name == "EXTI15_10_IRQHandler"@);
    } else if j == 13 {
        reveal_strlit("TIM2_IRQHandler");
        assert(t[13].irq_handler_name == "TIM2_IRQHandler"@);
    } else if j == 14 {
        reveal_strlit("TIM3_IRQHandler");
        assert(t[14].irq_handler_name == "TIM3_IRQHandler"@);
    } else if j == 15 {
        reveal_strlit("TIM4_IRQHandler");
        assert(t[15].irq_handler_name == "TIM4_IRQHandler"@);
    } else if j == 16 {
        reveal_strlit("TIM5_IRQHandler");
        assert(t[16].irq_handler_name == "TIM5_IRQHandler"@);
    } else if j == 17 {
        reveal_strlit("I2C1_EV_IRQHandler");
        assert(t[17].irq_handler_name == "I2C1_EV_IRQHandler"@);
    } else if j == 18 {
        reveal_strlit("I2C1_ER_IRQHandler");
        assert(t[18].irq_handler_name == "I2C1_ER_IRQHandler"@);
    } else if j == 19 {
        reveal_strlit("I2C2_EV_IRQHandler");
        assert(t[19].irq_handler_name == "I2C2_EV_IRQHandler"@);
    } else if j == 20 {
        reveal_strlit("I2C2_ER_IRQHandler");
        assert(t[20].irq_handler_name == "I2C2_ER_IRQHandler"@);
    } else if j == 21 {
        reveal_strlit("I2C3_EV_IRQHandler");
        assert(t[21].irq_handler_name == "I2C3_EV_IRQHandler"@);
    } else if j == 22 {
        reveal_strlit("I2C3_ER_IRQHandler");
        assert(t[22].irq_handler_name == "I2C3_ER_IRQHandler"@);
    } else if j == 23 {
        reveal_strlit("SPI1_IRQHandler");
        assert(t[23].irq_handler_name == "SPI1_IRQHandler"@);
    } else if j == 24 {
        reveal_strlit("SPI2_IRQHandler");
        assert(t[24].irq_handler_name == "SPI2_IRQHandler"@);
    } else if j == 25 {
        reveal_strlit("SPI3_IRQHandler");
        assert(t[25].irq_handler_name == "SPI3_IRQHandler"@);
    } else if j == 26 {
        reveal_strlit("DMA1_Stream0_IRQHandler");
        assert(t[26].irq_handler_name == "DMA1_Stream0_IRQHandler"@);
    } else if j == 27 {
        reveal_strlit("DMA1_Stream1_IRQHandler");
        assert(t[27].irq_handler_name == "DMA1_Stream1_IRQHandler"@);
    } else if j == 28 {
        reveal_strlit("DMA1_Stream2_IRQHandler");
        assert(t[28].irq_handler_name == "DMA1_Stream2_IRQHandler"@);
    } else if j == 29 {
        reveal_strlit("DMA1_Stream3_IRQHandler");
        assert(t[29].irq_handler_name == "DMA1_Stream3_IRQHandler"@);
    } else if j == 30 {
        reveal_strlit("DMA1_Stream4_IRQHandler");
        assert(t[30].irq_handler_name == "DMA1_Stream4_IRQHandler"@);
    } else if j == 31 {
        reveal_strlit("DMA1_Stream5_IRQHandler");
        assert(t[31].irq_handler_name == "DMA1_Stream5_IRQHandler"@);
    } else if j == 32 {
        reveal_strlit("DMA1_Stream6_IRQHandler");
        assert(t[32].irq_handler_name == "DMA1_Stream6_IRQHandler"@);
    } else if j == 33 {
        reveal_strlit("DMA1_Stream7_IRQHandler");
        assert(t[33].irq_handler_name == "DMA1_Stream7_IRQHandler"@);
    } else if j == 34 {
        reveal_strlit("DMA2_Stream0_IRQHandler");
        assert(t[34].irq_handler_name == "DMA2_Stream0_IRQHandler"@);
    } else if j == 35 {
        reveal_strlit("DMA2_Stream1_IRQHandler");
        assert(t[35].irq_handler_name == "DMA2_Stream1_IRQHandler"@);
    } else if j == 36 {
        reveal_strlit("DMA2_Stream2_IRQHandler");
        assert(t[36].irq_handler_name == "DMA2_Stream2_IRQHandler"@);
    } else if j == 37 {
        reveal_strlit("DMA2_Stream3_IRQHandler");
        assert(t[37].irq_handler_name == "DMA2_Stream3_IRQHandler"@);
    } else if j == 38 {
        reveal_strlit("DMA2_Stream4_IRQHandler");
        assert(t[38].irq_handler_name == "DMA2_Stream4_IRQHandler"@);
    } else if j == 39 {
        reveal_strlit("DMA2_Stream5_IRQHandler");
        assert(t[39].irq_handler_name == "DMA2_Stream5_IRQHandler"@);
    } else if j == 40 {
        reveal_strlit("DMA2_Stream6_IRQHandler");
        assert(t[40].irq_handler_name == "DMA2_Stream6_IRQHandler"@);
    } else if j == 41 {
        reveal_strlit("DMA2_Stream7_IRQHandler");
        assert(t[41].irq_handler_name == "DMA2_Stream7_IRQHandler"@);
    }
}

/// For a configured peripheral whose interrupt `<stem>_IRQHandler` (a
/// handler of the HAL table, belonging to that peripheral) the `.ioc`
/// settings enable (`NVIC.<stem>_IRQn` starts with `true`), the call graph
/// enters the handler, which dispatches to the HAL routine, and that
/// reaches each of the routine's weak callbacks.
pub proof fn law_enabled_interrupt_edges(
    raw: Entries,
    ps: Seq<PeriphView>,
    k: int,
    j: int,
    stem: Seq<char>,
    cb: Seq<char>,
)
    requires
        0 <= k < ps.len(),
        0 <= j < hal_irq_table().len(),
        hal_irq_table()[j].irq_handler_name == stem + "_IRQHandler"@,
        handler_of(stem + "_IRQHandler"@, ps[k].name),
        lookup(raw, "NVIC."@ + stem + "_IRQn"@) matches Some(v) && v.len() >= 4 && v.subrange(0, 4) == "true"@,
        hal_row_for(stem + "_IRQHandler"@).1.contains(cb),
    ensures
        call_graph(raw, ps).contains(
            EdgeView {
                from: stem + "_IRQHandler"@,
                to: hal_row_for(stem + "_IRQHandler"@).0,
                edge_type: EdgeType::IrqEntry,
                generated: true,
            },
        ),
        call_graph(raw, ps).contains(
            EdgeView {
                from: hal_row_for(stem + "_IRQHandler"@).0,
                to: cb,
                edge_type: EdgeType::WeakOverride,
                generated: true,
            },
        ),
{
    reveal_strlit("true");
    let t = hal_irq_table();
    let name = ps[k].name;
    let h = stem + "_IRQHandler"@;
    law_hal_table_rows(j);
    let m = t[j];
    let d = hal_row_for(h).0;
    assert(crate::builder::handler_matches(h, name));
    let suf = "_IRQHandler"@;
    assert(h.subrange(h.len() - suf.len(), h.len() as int) =~= suf);
    assert(h.subrange(0, h.len() - suf.len()) =~= stem);
    assert(crate::text::strip_suffix_or(h, suf) == stem);
    assert(crate::builder::irq_enabled(raw, h));
    let es = row_edges(raw, name, m);
    let first = edge(h, d, EdgeType::IrqEntry);
    let cbs = m.weak_callbacks.map_values(|c: Seq<char>| edge(m.hal_dispatch_fn, c, EdgeType::WeakOverride));
    assert(es == seq![first] + cbs);
    assert(es[0] == first);
    let ci = choose|i: int| 0 <= i < m.weak_callbacks.len() && m.weak_callbacks[i] == cb;
    assert(es[1 + ci] == edge(d, cb, EdgeType::WeakOverride));
    let pe = peripheral_edges(raw, name);
    let te = table_edges(raw, name, t);
    lemma_table_has(raw, name, t, j, first);
    lemma_table_has(raw, name, t, j, es[1 + ci]);
    assert(pe == seq![edge("main"@, "MX_"@ + name + "_Init"@, EdgeType::Init)] + te);
    let i1 = choose|i: int| 0 <= i < te.len() && te[i] == first;
    assert(pe[1 + i1] == first);
    let i2 = choose|i: int| 0 <= i < te.len() && te[i] == es[1 + ci];
    assert(pe[1 + i2] == es[1 + ci]);
    lemma_call_graph_has(raw, ps, k, first);
    lemma_call_graph_has(raw, ps, k, es[1 + ci]);
}

/// The morpho connectors of NUCLEO-F446RE, pin by pin: the connector, the
/// pin number on it and the MCU pin wired there (GPIO pins only).
pub open spec fn morpho_headers() -> Seq<(Seq<char>, u8, Seq<char>)> {
    seq![
        ("CN7"@, 1u8, "PC10"@),
        ("CN7"@, 2u8, "PC11"@),
        ("CN7"@, 3u8, "PC12"@),
        ("CN7"@, 4u8, "PD2"@),
        ("CN7"@, 13u8, "PA13"@),
        ("CN7"@, 15u8, "PA14"@),
        ("CN7"@, 17u8, "PA15"@),
        ("CN7"@, 21u8, "PB7"@),
        ("CN7"@, 23u8, "PC13"@),
        ("CN7"@, 25u8, "PC14"@),
        ("CN7"@, 27u8, "PC15"@),
        ("CN7"@, 28u8, "PA0"@),
        ("CN7"@, 29u8, "PH0"@),
        ("CN7"@, 30u8, "PA1"@),
        ("CN7"@, 31u8, "PH1"@),
        ("CN7"@, 32u8, "PA4"@),
        ("CN7"@, 34u8, "PB0"@),
        ("CN7"@, 35u8, "PC2"@),
        ("CN7"@, 36u8, "PC1"@),
        ("CN7"@, 37u8, "PC3"@),
        ("CN7"@, 38u8, "PC0"@),
        ("CN10"@, 1u8, "PC9"@),
        ("CN10"@, 2u8, "PC8"@),
        ("CN10"@, 3u8, "PB8"@),
        ("CN10"@, 4u8, "PC6"@),
        ("CN10"@, 5u8, "PB9"@),
        ("CN10"@, 6u8, "PC5"@),
        ("CN10"@, 11u8, "PA5"@),
        ("CN10"@, 12u8, "PA12"@),
        ("CN10"@, 13u8, "PA6"@),
        ("CN10"@, 14u8, "PA11"@),
        ("CN10"@, 15u8, "PA7"@),
        ("CN10"@, 16u8, "PB12"@),
        ("CN10"@, 17u8, "PB6"@),
        ("CN10"@, 19u8, "PC7"@),
        ("CN10"@, 21u8, "PA9"@),
        ("CN10"@, 22u8, "PB2"@),
        ("CN10"@, 23u8, "PA8"@),
        ("CN10"@, 24u8, "PB1"@),
        ("CN10"@, 25u8, "PB10"@),
        ("CN10"@, 26u8, "PB15"@),
        ("CN10"@, 27u8, "PB4"@),
        ("CN10"@, 28u8, "PB14"@),
        ("CN10"@, 29u8, "PB5"@),
        ("CN10"@, 30u8, "PB13"@),
        ("CN10"@, 31u8, "PB3"@),
        ("CN10"@, 33u8, "PA10"@),
        ("CN10"@, 34u8, "PC4"@),
        ("CN10"@, 35u8, "PA2"@),
        ("CN10"@, 37u8, "PA3"@),
    ]
}

/// Every GPIO pin of the morpho connectors is where the board wires it:
/// looking up the MCU pin of a morpho position gives that connector and
/// pin number.
pub proof fn law_morpho_positions(k: int)
    requires
        0 <= k < morpho_headers().len(),
    ensures
        location_index_from(pinout_table(), morpho_headers()[k].2, 0) matches Some(i) && pinout_table()[i].morpho
            == Some((morpho_headers()[k].0, morpho_headers()[k].1)),
{
    let t = pinout_table();
    let h = morpho_headers();
    let j: int =
        if k == 0 {
            0
        } else if k == 1 {
            1
        } else if k == 2 {
            2
        } else if k == 3 {
            3
        } else if k == 4 {
            4
        } else if k == 5 {
            5
        } else if k == 6 {
            6
        } else if k == 7 {
            7
        } else if k == 8 {
            8
        } else if k == 9 {
            9
        } else if k == 10 {
            10
        } else if k == 11 {
            15
        } else if k == 12 {
            11
        } else if k == 13 {
            16
        } else if k == 14 {
            12
        } else if k == 15 {
            17
        } else if k == 16 {
            18
        } else if k == 17 {
            13
        } else if k == 18 {
            19
        } else if k == 19 {
            14
        } else if k == 20 {
            20
        } else if k == 21 {
            21
        } else if k == 22 {
            22
        } else if k == 23 {
            34
        } else if k == 24 {
            23
        } else if k == 25 {
            35
        } else if k == 26 {
            24
        } else if k == 27 {
            36
        } else if k == 28 {
            25
        } else if k == 29 {
            37
        } else if k == 30 {
            26
        } else if k == 31 {
            38
        } else if k == 32 {
            27
        } else if k == 33 {
            39
        } else if k == 34 {
            40
        } else if k == 35 {
            41
        } else if k == 36 {
            28
        } else if k == 37 {
            42
        } else if k == 38 {
            29
        } else if k == 39 {
            43
        } else if k == 40 {
            30
        } else if k == 41 {
            44
        } else if k == 42 {
            31
        } else if k == 43 {
            45
        } else if k == 44 {
            32
        } else if k == 45 {
            46
        } else if k == 46 {
            47
        } else if k == 47 {
            33
        } else if k == 48 {
            48
        } else if k == 49 {
            49
        } else {
            0
        };
    assert(t[j].mcu_pin == h[k].2);
    assert(t[j].morpho == Some((h[k].0, h[k].1)));
    lemma_lookup_row(j);
}

/// A pin that the lookup finds sits at that position of the board's morpho
/// connectors.
pub proof fn law_morpho_pins_on_headers(pin: Seq<char>)
    ensures
        location_index_from(pinout_table(), pin, 0) matches Some(i) ==> (pinout_table()[i].morpho matches Some(m)
            && morpho_headers().contains((m.0, m.1, pin))),
{
    let t = pinout_table();
    let h = morpho_headers();
    lemma_location_hit(t, pin, 0);
    if let Some(i) = location_index_from(t, pin, 0) {
        assert(0 <= i < 50);
        if i == 0 {
            assert(h[0] == (t[0].morpho->Some_0.0, t[0].morpho->Some_0.1, t[0].mcu_pin));
        } else if i == 1 {
            assert(h[1] == (t[1].morpho->Some_0.0, t[1].morpho->Some_0.1, t[1].mcu_pin));
        } else if i == 2 {
            assert(h[2] == (t[2].morpho->Some_0.0, t[2].morpho->Some_0.1, t[2].mcu_pin));
        } else if i == 3 {
            assert(h[3] == (t[3].morpho->Some_0.0, t[3].morpho->Some_0.1, t[3].mcu_pin));
        } else if i == 4 {
            assert(h[4] == (t[4].morpho->Some_0.0, t[4].morpho->Some_0.1, t[4].mcu_pin));
        } else if i == 5 {
            assert(h[5] == (t[5].morpho->Some_0.0, t[5].morpho->Some_0.1, t[5].mcu_pin));
        } else if i == 6 {
            assert(h[6] == (t[6].morpho->Some_0.0, t[6].morpho->Some_0.1, t[6].mcu_pin));
        } else if i == 7 {
            assert(h[7] == (t[7].morpho->Some_0.0, t[7].morpho->Some_0.1, t[7].mcu_pin));
        } else if i == 8 {
            assert(h[8] == (t[8].morpho->Some_0.0, t[8].morpho->Some_0.1, t[8].mcu_pin));
        } else if i == 9 {
            assert(h[9] == (t[9].morpho->Some_0.0, t[9].morpho->Some_0.1, t[9].mcu_pin));
        } else if i == 10 {
            assert(h[10] == (t[10].morpho->Some_0.0, t[10].morpho->Some_0.1, t[10].mcu_pin));
        } else if i == 11 {
            assert(h[12] == (t[11].morpho->Some_0.0, t[11].morpho->Some_0.1, t[11].mcu_pin));
        } else if i == 12 {
            assert(h[14] == (t[12].morpho->Some_0.0, t[12].morpho->Some_0.1, t[12].mcu_pin));
        } else if i == 13 {
            assert(h[17] == (t[13].morpho->Some_0.0, t[13].morpho->Some_0.1, t[13].mcu_pin));
        } else if i == 14 {
            assert(h[19] == (t[14].morpho->Some_0.0, t[14].morpho->Some_0.1, t[14].mcu_pin));
        } else if i == 15 {
            assert(h[11] == (t[15].morpho->Some_0.0, t[15].morpho->Some_0.1, t[15].mcu_pin));
        } else if i == 16 {
            assert(h[13] == (t[16].morpho->Some_0.0, t[16].morpho->Some_0.1, t[16].mcu_pin));
        } else if i == 17 {
            assert(h[15] == (t[17].morpho->Some_0.0, t[17].morpho->Some_0.1, t[17].mcu_pin));
        } else if i == 18 {
            assert(h[16] == (t[18].morpho->Some_0.0, t[18].morpho->Some_0.1, t[18].mcu_pin));
        } else if i == 19 {
            assert(h[18] == (t[19].morpho->Some_0.0, t[19].morpho->Some_0.1, t[19].mcu_pin));
        } else if i == 20 {
            assert(h[20] == (t[20].morpho->Some_0.0, t[20].morpho->Some_0.1, t[20].mcu_pin));
        } else if i == 21 {
            assert(h[21] == (t[21].morpho->Some_0.0, t[21].morpho->Some_0.1, t[21].mcu_pin));
        } else if i == 22 {
            assert(h[22] == (t[22].morpho->Some_0.0, t[22].morpho->Some_0.1, t[22].mcu_pin));
        } else if i == 23 {
            assert(h[24] == (t[23].morpho->Some_0.0, t[23].morpho->Some_0.1, t[23].mcu_pin));
        } else if i == 24 {
            assert(h[26] == (t[24].morpho->Some_0.0, t[24].morpho->Some_0.1, t[24].mcu_pin));
        } else if i == 25 {
            assert(h[28] == (t[25].morpho->Some_0.0, t[25].morpho->Some_0.1, t[25].mcu_pin));
        } else if i == 26 {
            assert(h[30] == (t[26].morpho->Some_0.0, t[26].morpho->Some_0.1, t[26].mcu_pin));
        } else if i == 27 {
            assert(h[32] == (t[27].morpho->Some_0.0, t[27].morpho->Some_0.1, t[27].mcu_pin));
        } else if i == 28 {
            assert(h[36] == (t[28].morpho->Some_0.0, t[28].morpho->Some_0.1, t[28].mcu_pin));
        } else if i == 29 {
            assert(h[38] == (t[29].morpho->Some_0.0, t[29].morpho->Some_0.1, t[29].mcu_pin));
        } else if i == 30 {
            assert(h[40] == (t[30].morpho->Some_0.0, t[30].morpho->Some_0.1, t[30].mcu_pin));
        } else if i == 31 {
            assert(h[42] == (t[31].morpho->Some_0.0, t[31].morpho->Some_0.1, t[31].mcu_pin));
        } else if i == 32 {
            assert(h[44] == (t[32].morpho->Some_0.0, t[32].morpho->Some_0.1, t[32].mcu_pin));
        } else if i == 33 {
            assert(h[47] == (t[33].morpho->Some_0.0, t[33].morpho->Some_0.1, t[33].mcu_pin));
        } else if i == 34 {
            assert(h[23] == (t[34].morpho->Some_0.0, t[34].morpho->Some_0.1, t[34].mcu_pin));
        } else if i == 35 {
            assert(h[25] == (t[35].morpho->Some_0.0, t[35].morpho->Some_0.1, t[35].mcu_pin));
        } else if i == 36 {
            assert(h[27] == (t[36].morpho->Some_0.0, t[36].morpho->Some_0.1, t[36].mcu_pin));
        } else if i == 37 {
            assert(h[29] == (t[37].morpho->Some_0.0, t[37].morpho->Some_0.1, t[37].mcu_pin));
        } else if i == 38 {
            assert(h[31] == (t[38].morpho->Some_0.0, t[38].morpho->Some_0.1, t[38].mcu_pin));
        } else if i == 39 {
            assert(h[33] == (t[39].morpho->Some_0.0, t[39].morpho->Some_0.1, t[39].mcu_pin));
        } else if i == 40 {
            assert(h[34] == (t[40].morpho->Some_0.0, t[40].morpho->Some_0.1, t[40].mcu_pin));
        } else if i == 41 {
            assert(h[35] == (t[41].morpho->Some_0.0, t[41].morpho->Some_0.1, t[41].mcu_pin));
        } else if i == 42 {
            assert(h[37] == (t[42].morpho->Some_0.0, t[42].morpho->Some_0.1, t[42].mcu_pin));
        } else if i == 43 {
            assert(h[39] == (t[43].morpho->Some_0.0, t[43].morpho->Some_0.1, t[43].mcu_pin));
        } else if i == 44 {
            assert(h[41] == (t[44].morpho->Some_0.0, t[44].morpho->Some_0.1, t[44].mcu_pin));
        } else if i == 45 {
            assert(h[43] == (t[45].morpho->Some_0.0, t[45].morpho->Some_0.1, t[45].mcu_pin));
        } else if i == 46 {
            assert(h[45] == (t[46].morpho->Some_0.0, t[46].morpho->Some_0.1, t[46].mcu_pin));
        } else if i == 47 {
            assert(h[46] == (t[47].morpho->Some_0.0, t[47].morpho->Some_0.1, t[47].mcu_pin));
        } else if i == 48 {
            assert(h[48] == (t[48].morpho->Some_0.0, t[48].morpho->Some_0.1, t[48].mcu_pin));
        } else if i == 49 {
            assert(h[49] == (t[49].morpho->Some_0.0, t[49].morpho->Some_0.1, t[49].mcu_pin));
        }
    }
}

/// The pins of the onboard debugger's SWD link: `PA13` (SWDIO) and `PA14`
/// (SWCLK).
pub open spec fn debug_pins() -> Seq<Seq<char>> {
    seq!["PA13"@, "PA14"@]
}

/// The pins of the main and the 32.768 kHz oscillators.
pub open spec fn oscillator_pins() -> Seq<Seq<char>> {
    seq!["PH0"@, "PH1"@, "PC14"@, "PC15"@]
}

proof fn lemma_reserved_found(t: Seq<ReservedPinView>, pin: Seq<char>, i: int)
    requires
        0 <= i,
    ensures
        reserved_index_from(t, pin, i) matches Some(k) ==> i <= k < t.len() && t[k].mcu_pin == pin,
        reserved_index_from(t, pin, i) is None ==> forall|m: int| i <= m < t.len() ==> t[m].mcu_pin != pin,
    decreases t.len() - i,
{
    if i < t.len() && t[i].mcu_pin != pin {
        lemma_reserved_found(t, pin, i + 1);
    }
}

/// A pin has a reservation exactly when it is a debugger or an oscillator
/// pin, and the reservation is critical exactly for the debugger pins.
pub proof fn law_reserved_pins(pin: Seq<char>)
    ensures
        reserved_index_from(reserved_table(), pin, 0) is Some <==> (debug_pins().contains(pin)
            || oscillator_pins().contains(pin)),
        reserved_index_from(reserved_table(), pin, 0) matches Some(i) ==> (reserved_table()[i].severity
            == ReservedSeverity::Critical <==> debug_pins().contains(pin)),
{
    reveal_strlit("PA13");
    reveal_strlit("PA14");
    reveal_strlit("PH0");
    reveal_strlit("PH1");
    reveal_strlit("PC14");
    reveal_strlit("PC15");
    let t = reserved_table();
    let dp = debug_pins();
    let op = oscillator_pins();
    lemma_reserved_found(t, pin, 0);
    assert(t[0].mcu_pin == dp[0] && t[1].mcu_pin == dp[1]);
    assert(t[2].mcu_pin == op[0] && t[3].mcu_pin == op[1] && t[4].mcu_pin == op[2] && t[5].mcu_pin == op[3]);
    if dp.contains(pin) {
        let m = choose|m: int| 0 <= m < dp.len() && dp[m] == pin;
        assert(t[m].mcu_pin == pin);
    }
    if op.contains(pin) {
        let m = choose|m: int| 0 <= m < op.len() && op[m] == pin;
        assert(t[m + 2].mcu_pin == pin);
    }
    if let Some(i) = reserved_index_from(t, pin, 0) {
        if i < 2 {
            assert(dp[i] == pin);
        } else {
            assert(op[i - 2] == pin);
            assert(dp[0][1] != op[2][1] && dp[0][1] != op[3][1]);
            assert(dp[1][1] != op[2][1] && dp[1][1] != op[3][1]);
            assert(dp[0].len() != op[0].len() && dp[0].len() != op[1].len());
            assert(!dp.contains(pin)) by {
                if dp.contains(pin) {
                    let m = choose|m: int| 0 <= m < dp.len() && dp[m] == pin;
                    assert(dp[m] == op[i - 2]);
                    assert(dp[m][1] == op[i - 2][1]);
                    assert(dp[m].len() == op[i - 2].len());
                }
            }
        }
    }
}

/// Some pin of `pins` is `pin` with the signal `signal`.
pub open spec fn holds_pin(pins: Seq<PinView>, pin: Seq<char>, signal: Seq<char>) -> bool {
    exists|q: int| 0 <= q < pins.len() && (#[trigger] pins[q]).pin == pin && pins[q].signal == signal
}

proof fn lemma_scan_keeps_pin(ls: Seq<Seq<char>>, i: int, pin: Seq<char>, signal: Seq<char>)
    requires
        0 <= i <= ls.len(),
        ioc_scan(ls) is Ok,
        ioc_scan(ls.take(i)) matches Ok(st) && holds_pin(st.pins, pin, signal),
    ensures
        holds_pin(ioc_scan(ls)->Ok_0.pins, pin, signal),
    decreases ls.len() - i,
{
    if i == ls.len() {
        assert(ls.take(i) =~= ls);
    } else {
        let st = ioc_scan(ls.take(i))->Ok_0;
        assert(ls.take(i + 1).drop_last() =~= ls.take(i));
        assert(ls.take(i + 1).last() == ls[i]);
        if ioc_scan(ls.take(i + 1)) is Err {
            assert(ls.subrange(0, i + 1) =~= ls.take(i + 1));
            crate::ioc::lemma_scan_err_extends(ls, i + 1);
        }
        match ioc_line(ls[i]) {
            Some(Some((k, v))) => {
                let q = choose|q: int| 0 <= q < st.pins.len() && (#[trigger] st.pins[q]).pin == pin && st.pins[q].signal
                    == signal;
                assert(ioc_apply(st, k, v).pins[q] == st.pins[q]);
            },
            _ => {},
        }
        lemma_scan_keeps_pin(ls, i + 1, pin, signal);
    }
}

/// A `<pin>.Signal=<signal>` setting of a GPIO pin (`P`, a port letter
/// from `A` to `H`, then digits) makes, in every `.ioc` text that parses, a
/// pin `pin` carrying `signal`: `PA5.Signal=GPIO_Output` gives the pin `PA5`.
pub proof fn law_pin_signals_kept(ls: Seq<Seq<char>>, i: int, port: char, digits: Seq<char>, signal: Seq<char>)
    requires
        0 <= i < ls.len(),
        ioc_scan(ls) is Ok,
        'A' <= port <= 'H',
        digits.len() > 0,
        forall|m: int| 0 <= m < digits.len() ==> '0' <= #[trigger] digits[m] <= '9',
        ioc_line(ls[i]) == Some(Some((seq!['P', port] + digits + ".Signal"@, signal))),
    ensures
        ioc_scan(ls) matches Ok(st) && exists|q: int|
            0 <= q < st.pins.len() && st.pins[q].pin == seq!['P', port] + digits && st.pins[q].signal == signal,
{
    reveal_strlit(".Signal");
    reveal_strlit("Signal");
    let pin = seq!['P', port] + digits;
    let key = pin + ".Signal"@;
    let dot = seq!['.'];
    assert(key[pin.len() as int] == '.');
    assert(occurs_at(key, dot, pin.len() as int)) by {
        assert(key.subrange(pin.len() as int, pin.len() as int + 1) =~= dot);
    }
    lemma_find_from_props(key, dot, 0);
    match find_from(key, dot, 0) {
        Some(k) => {
            if k < pin.len() {
                assert(key.subrange(k, k + 1)[0] == key[k]);
                assert(key[k] == pin[k]);
                if k >= 2 {
                    assert(pin[k] == digits[k - 2]);
                }
            }
            assert(k == pin.len());
        },
        None => {},
    }
    assert(find_char(key, '.') == Some(pin.len() as int));
    assert(key.subrange(0, pin.len() as int) =~= pin);
    assert(key.subrange(pin.len() as int + 1, key.len() as int) =~= "Signal"@);
    assert(split_once(key, '.') == Some((pin, "Signal"@)));
    assert forall|m: int| 2 <= m < pin.len() implies crate::text::is_ascii_digit(#[trigger] pin[m]) by {
        assert(pin[m] == digits[m - 2]);
    }
    assert(pin_signal_name(key) == Some(pin));
    assert(ls.take(i + 1).drop_last() =~= ls.take(i));
    assert(ls.take(i + 1).last() == ls[i]);
    if ioc_scan(ls.take(i)) is Err {
        assert(ls.subrange(0, i) =~= ls.take(i));
        crate::ioc::lemma_scan_err_extends(ls, i);
    }
    let st = ioc_scan(ls.take(i))->Ok_0;
    let st1 = ioc_apply(st, key, signal);
    assert(st1.pins[st.pins.len() as int].pin == pin);
    assert(holds_pin(st1.pins, pin, signal));
    lemma_scan_keeps_pin(ls, i + 1, pin, signal);
}

} // verus!
