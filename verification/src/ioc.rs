//! Parsing of STM32CubeMX `.ioc` project files: `key=value` lines from which
//! the MCU, the pin signals and the peripheral parameters are read.
use vstd::prelude::*;
use std::path::PathBuf;
use crate::assoc::{assoc_insert, lookup, Entries, StringMap};
use crate::text::{
    chars_of, char_is_digit, concat_str, find_char_in, is_ascii_digit, lemma_find_char_bounds, line_spans,
    lines, range_eq, split_once, starts_with, starts_with_in, str_eq, string_of, string_of_all, trim,
    trim_range,
};

verus! {

/// One configured MCU pin.
#[derive(Debug, Clone)]
pub struct PinConfig {
    pub pin: String,
    pub signal: String,
    pub label: Option<String>,
    pub modules: Vec<String>,
}

pub struct PinView {
    pub pin: Seq<char>,
    pub signal: Seq<char>,
    pub label: Option<Seq<char>>,
    pub modules: Seq<Seq<char>>,
}

impl View for PinConfig {
    type V = PinView;

    open spec fn view(&self) -> PinView {
        PinView {
            pin: self.pin@,
            signal: self.signal@,
            label: self.label.deep_view(),
            modules: self.modules.deep_view(),
        }
    }
}

/// One peripheral instance with its `<Name>.<Param>` settings.
#[derive(Debug, Clone)]
pub struct PeripheralConfig {
    pub name: String,
    pub mode: Option<String>,
    pub parameters: StringMap,
}

pub struct PeriphView {
    pub name: Seq<char>,
    pub mode: Option<Seq<char>>,
    pub params: Entries,
}

impl View for PeripheralConfig {
    type V = PeriphView;

    open spec fn view(&self) -> PeriphView {
        PeriphView { name: self.name@, mode: self.mode.deep_view(), params: self.parameters@ }
    }
}

/// A parsed `.ioc` file.
#[derive(Debug, Clone)]
pub struct IocProject {
    pub mcu_family: String,
    pub mcu_name: String,
    pub pins: Vec<PinConfig>,
    pub peripherals: Vec<PeripheralConfig>,
    pub raw: StringMap,
}

pub struct IocView {
    pub mcu_family: Seq<char>,
    pub mcu_name: Seq<char>,
    pub pins: Seq<PinView>,
    pub peripherals: Seq<PeriphView>,
    pub raw: Entries,
}

pub open spec fn pins_view(v: Seq<PinConfig>) -> Seq<PinView> {
    v.map_values(|p: PinConfig| p@)
}

pub open spec fn periphs_view(v: Seq<PeripheralConfig>) -> Seq<PeriphView> {
    v.map_values(|p: PeripheralConfig| p@)
}

impl View for IocProject {
    type V = IocView;

    open spec fn view(&self) -> IocView {
        IocView {
            mcu_family: self.mcu_family@,
            mcu_name: self.mcu_name@,
            pins: pins_view(self.pins@),
            peripherals: periphs_view(self.peripherals@),
            raw: self.raw@,
        }
    }
}

#[derive(Debug)]
pub enum IocParseError {
    FileNotFound(PathBuf),
    IoError(String),
    MalformedLine(usize, String),
    MissingRequiredKey(String),
}

/// `m` is the message of `e`; the text of a path is left open.
pub open spec fn ioc_message(e: IocParseError, m: Seq<char>) -> bool {
    match e {
        IocParseError::FileNotFound(_) => exists|t: Seq<char>| m == #[trigger] "file not found: "@.add(t),
        IocParseError::IoError(x) => m == "I/O error: "@ + x@,
        IocParseError::MalformedLine(n, l) => m == "malformed line "@ + crate::text::decimal(n as nat)
            + ": expected key=value, got '"@ + l@ + "'"@,
        IocParseError::MissingRequiredKey(k) => m == "missing required key: "@ + k@,
    }
}

impl IocParseError {
    /// The message that describes the error.
    pub fn message(&self) -> (r: String)
        ensures
            ioc_message(*self, r@),
    {
        match self {
            IocParseError::FileNotFound(p) => {
                let t = crate::paths::display_path(p);
                let r = concat_str("file not found: ", t.as_str());
                assert(r@ == "file not found: "@.add(t@));
                r
            },
            IocParseError::IoError(e) => concat_str("I/O error: ", e.as_str()),
            IocParseError::MalformedLine(n, l) => {
                let num = crate::text::decimal_string(*n);
                let a = concat_str("malformed line ", num.as_str());
                let b = concat_str(a.as_str(), ": expected key=value, got '");
                crate::text::concat3(b.as_str(), l.as_str(), "'")
            },
            IocParseError::MissingRequiredKey(k) => concat_str("missing required key: ", k.as_str()),
        }
    }
}

/// The prefixes that mark a key as a peripheral setting.
pub open spec fn peripheral_prefixes() -> Seq<Seq<char>> {
    seq![
        "USART"@, "UART"@, "SPI"@, "I2C"@, "TIM"@, "ADC"@, "DMA"@, "GPIO"@, "CAN"@, "USB"@,
        "RTC"@, "DAC"@, "CRC"@, "RNG"@, "I2S"@, "SAI"@, "FMC"@, "SDMMC"@, "SDIO"@,
    ]
}

/// `p` names a GPIO pin: `P`, a port letter `A`..`H`, then digits.
pub open spec fn is_pin_name(p: Seq<char>) -> bool {
    &&& p.len() >= 3
    &&& p[0] == 'P'
    &&& 'A' <= p[1] && p[1] <= 'H'
    &&& forall|i: int| 2 <= i < p.len() ==> is_ascii_digit(#[trigger] p[i])
}

/// The pin of a `<Pin>.Signal` key.
pub open spec fn pin_signal_name(key: Seq<char>) -> Option<Seq<char>> {
    match split_once(key, '.') {
        Some((p, attr)) => if attr == "Signal"@ && is_pin_name(p) {
            Some(p)
        } else {
            None
        },
        None => None,
    }
}

/// The peripheral and parameter of a `<Peripheral>.<Param>` key.
pub open spec fn peripheral_and_param(key: Seq<char>) -> Option<(Seq<char>, Seq<char>)> {
    match split_once(key, '.') {
        Some((name, param)) => if pin_signal_name(key) is None && exists|j: int|
            0 <= j < peripheral_prefixes().len() && starts_with(
                name,
                #[trigger] peripheral_prefixes()[j],
            ) {
            Some((name, param))
        } else {
            None
        },
        None => None,
    }
}

/// How one line reads: `None` for a malformed line, `Some(None)` for a blank
/// or comment line, else the key (trimmed) and the value (as written).
pub open spec fn ioc_line(line: Seq<char>) -> Option<Option<(Seq<char>, Seq<char>)>> {
    let t = trim(line);
    if t.len() == 0 || t[0] == '#' {
        Some(None)
    } else {
        match split_once(t, '=') {
            Some((k, v)) => Some(Some((trim(k), v))),
            None => None,
        }
    }
}

/// What the scan of the lines has gathered so far.
pub struct IocScan {
    pub raw: Entries,
    pub pins: Seq<PinView>,
    pub periphs: Seq<PeriphView>,
}

/// The first peripheral named `name`.
pub open spec fn periph_index_from(ps: Seq<PeriphView>, name: Seq<char>, i: int) -> Option<int>
    decreases ps.len() - i,
{
    if i < 0 || i >= ps.len() {
        None
    } else if ps[i].name == name {
        Some(i)
    } else {
        periph_index_from(ps, name, i + 1)
    }
}

pub open spec fn set_param(p: PeriphView, param: Seq<char>, value: Seq<char>) -> PeriphView {
    PeriphView {
        name: p.name,
        mode: if param == "Mode"@ {
            Some(value)
        } else {
            p.mode
        },
        params: assoc_insert(p.params, param, value),
    }
}

/// The peripherals after one `<name>.<param>=<value>` setting; a new
/// peripheral goes to the end.
pub open spec fn apply_param(
    ps: Seq<PeriphView>,
    name: Seq<char>,
    param: Seq<char>,
    value: Seq<char>,
) -> Seq<PeriphView> {
    match periph_index_from(ps, name, 0) {
        Some(i) => ps.update(i, set_param(ps[i], param, value)),
        None => ps.push(
            set_param(PeriphView { name: name, mode: None, params: seq![] }, param, value),
        ),
    }
}

/// The scan after one entry.
pub open spec fn ioc_apply(st: IocScan, key: Seq<char>, value: Seq<char>) -> IocScan {
    let raw = assoc_insert(st.raw, key, value);
    match pin_signal_name(key) {
        Some(p) => IocScan {
            raw: raw,
            pins: st.pins.push(PinView { pin: p, signal: value, label: None, modules: seq![] }),
            periphs: st.periphs,
        },
        None => match peripheral_and_param(key) {
            Some((name, param)) => IocScan {
                raw: raw,
                pins: st.pins,
                periphs: apply_param(st.periphs, name, param, value),
            },
            None => IocScan { raw: raw, pins: st.pins, periphs: st.periphs },
        },
    }
}

/// The scan of `ls`, or the index of its first malformed line.
pub open spec fn ioc_scan(ls: Seq<Seq<char>>) -> Result<IocScan, int>
    decreases ls.len(),
{
    if ls.len() == 0 {
        Ok(IocScan { raw: seq![], pins: seq![], periphs: seq![] })
    } else {
        match ioc_scan(ls.drop_last()) {
            Err(i) => Err(i),
            Ok(st) => match ioc_line(ls.last()) {
                None => Err(ls.len() - 1),
                Some(None) => Ok(st),
                Some(Some((k, v))) => Ok(ioc_apply(st, k, v)),
            },
        }
    }
}

/// A malformed line stops the scan for good: the scan of every longer list
/// reports the same line.
pub proof fn lemma_scan_err_extends(ls: Seq<Seq<char>>, k: int)
    requires
        0 <= k <= ls.len(),
        ioc_scan(ls.subrange(0, k)) is Err,
    ensures
        ioc_scan(ls) == ioc_scan(ls.subrange(0, k)),
    decreases ls.len() - k,
{
    if k < ls.len() {
        assert(ls.subrange(0, k + 1).drop_last() =~= ls.subrange(0, k));
        lemma_scan_err_extends(ls, k + 1);
    } else {
        assert(ls.subrange(0, k) =~= ls);
    }
}

/// A pin with its `<Pin>.GPIO_Label` value (trimmed, when not blank).
pub open spec fn with_label(raw: Entries, p: PinView) -> PinView {
    match lookup(raw, p.pin + ".GPIO_Label"@) {
        Some(l) => if trim(l).len() > 0 {
            PinView { pin: p.pin, signal: p.signal, label: Some(trim(l)), modules: p.modules }
        } else {
            p
        },
        None => p,
    }
}

pub open spec fn non_empty(o: Option<Seq<char>>) -> Option<Seq<char>> {
    match o {
        Some(s) => if s.len() > 0 {
            Some(s)
        } else {
            None
        },
        None => None,
    }
}

/// `Mcu.UserName`, else `Mcu.Name`; absent when the one found is empty.
pub open spec fn mcu_name_of(raw: Entries) -> Option<Seq<char>> {
    non_empty(
        match lookup(raw, "Mcu.UserName"@) {
            Some(v) => Some(v),
            None => lookup(raw, "Mcu.Name"@),
        },
    )
}

/// The project that a complete scan gives.
pub open spec fn ioc_project_of(st: IocScan, family: Seq<char>, name: Seq<char>) -> IocView {
    IocView {
        mcu_family: family,
        mcu_name: name,
        pins: st.pins.map_values(|p: PinView| with_label(st.raw, p)),
        peripherals: st.periphs,
        raw: st.raw,
    }
}

/// `key[0..i]` is the pin of a `<Pin>.Signal` key, where `i` is the result.
#[verifier::loop_isolation(false)]
fn pin_signal_end(key: &[char]) -> (r: Option<usize>)
    ensures
        r matches Some(i) ==> i <= key@.len() && pin_signal_name(key@) == Some(
            key@.subrange(0, i as int),
        ),
        r is None ==> pin_signal_name(key@) is None,
{
    proof {
        lemma_find_char_bounds(key@, '.');
        assert(key@.subrange(0, key@.len() as int) =~= key@);
    }
    let dot = match find_char_in(key, 0, key.len(), '.') {
        Some(d) => d,
        None => return None,
    };
    let signal = chars_of("Signal");
    if !range_eq(key, dot + 1, key.len(), &signal) {
        return None;
    }
    if dot < 3 || key[0] != 'P' || !('A' <= key[1] && key[1] <= 'H') {
        return None;
    }
    let mut i: usize = 2;
    while i < dot
        invariant
            2 <= i <= dot < key@.len(),
            forall|j: int| 2 <= j < i ==> is_ascii_digit(#[trigger] key@[j]),
        decreases dot - i,
    {
        if !char_is_digit(key[i]) {
            assert(key@.subrange(0, dot as int)[i as int] == key@[i as int]);
            assert(!is_pin_name(key@.subrange(0, dot as int)));
            return None;
        }
        i += 1;
    }
    assert(is_pin_name(key@.subrange(0, dot as int)));
    Some(dot)
}

/// The bounds of the peripheral name and parameter of a `<Peripheral>.<Param>` key.
#[verifier::loop_isolation(false)]
fn peripheral_param_split(key: &[char]) -> (r: Option<usize>)
    ensures
        r matches Some(d) ==> d < key@.len() && peripheral_and_param(key@) == Some(
            (key@.subrange(0, d as int), key@.subrange(d + 1, key@.len() as int)),
        ),
        r is None ==> peripheral_and_param(key@) is None,
{
    proof {
        lemma_find_char_bounds(key@, '.');
        assert(key@.subrange(0, key@.len() as int) =~= key@);
    }
    let dot = match find_char_in(key, 0, key.len(), '.') {
        Some(d) => d,
        None => return None,
    };
    if pin_signal_end(key).is_some() {
        return None;
    }
    let prefixes: [&str; 19] = [
        "USART",
        "UART",
        "SPI",
        "I2C",
        "TIM",
        "ADC",
        "DMA",
        "GPIO",
        "CAN",
        "USB",
        "RTC",
        "DAC",
        "CRC",
        "RNG",
        "I2S",
        "SAI",
        "FMC",
        "SDMMC",
        "SDIO",
    ];
    assert(prefixes@.map_values(|p: &str| p@) =~= peripheral_prefixes());
    let mut j: usize = 0;
    while j < 19
        invariant
            0 <= j <= 19,
            dot < key@.len(),
            prefixes@.map_values(|p: &str| p@) == peripheral_prefixes(),
            forall|m: int|
                0 <= m < j ==> !starts_with(
                    key@.subrange(0, dot as int),
                    #[trigger] peripheral_prefixes()[m],
                ),
        decreases 19 - j,
    {
        let pc = chars_of(prefixes[j]);
        assert(pc@ == peripheral_prefixes()[j as int]);
        if starts_with_in(key, 0, dot, &pc) {
            assert(starts_with(key@.subrange(0, dot as int), peripheral_prefixes()[j as int]));
            assert(split_once(key@, '.') == Some(
                (key@.subrange(0, dot as int), key@.subrange(dot + 1, key@.len() as int)),
            ));
            return Some(dot);
        }
        j += 1;
    }
    None
}

/// The index of the first peripheral named `name`.
fn periph_position(periphs: &Vec<PeripheralConfig>, name: &String) -> (r: Option<usize>)
    ensures
        r matches Some(i) ==> i < periphs@.len() && periph_index_from(periphs_view(periphs@), name@, 0) == Some(i as int),
        r is None ==> periph_index_from(periphs_view(periphs@), name@, 0) is None,
{
    let ghost ps = periphs_view(periphs@);
    let mut i: usize = 0;
    while i < periphs.len()
        invariant
            0 <= i <= periphs@.len(),
            ps == periphs_view(periphs@),
            periph_index_from(ps, name@, 0) == periph_index_from(ps, name@, i as int),
        decreases periphs.len() - i,
    {
        if periphs[i].name == *name {
            assert(ps[i as int].name == name@);
            return Some(i);
        }
        i += 1;
    }
    None
}

/// Records `<name>.<param>=<value>` on the peripheral `name`, adding it at
/// the end when it is new.
fn add_param(periphs: &mut Vec<PeripheralConfig>, name: String, param: String, value: String)
    ensures
        periphs_view(final(periphs)@) == apply_param(
            periphs_view(old(periphs)@),
            name@,
            param@,
            value@,
        ),
{
    let ghost ps = periphs_view(periphs@);
    let found = periph_position(periphs, &name);
    let i = match found {
        Some(k) => k,
        None => periphs.len(),
    };
    let is_mode = str_eq(param.as_str(), "Mode");
    if i < periphs.len() {
        let ghost prev = periphs@;
        let mut p = periphs.remove(i);
        assert(p@ == ps[i as int]);
        if is_mode {
            p.mode = Some(value.clone());
        }
        p.parameters.insert(param, value);
        assert(p@ == set_param(ps[i as int], param@, value@));
        let ghost pv = p;
        periphs.insert(i, p);
        assert(periphs@ =~= prev.update(i as int, pv));
        assert(periphs_view(periphs@) =~= apply_param(ps, name@, param@, value@));
    } else {
        let mut p = PeripheralConfig { name: name, mode: None, parameters: StringMap::new() };
        if is_mode {
            p.mode = Some(value.clone());
        }
        p.parameters.insert(param, value);
        assert(p@ == set_param(PeriphView { name: name@, mode: None, params: seq![] }, param@, value@));
        periphs.push(p);
        assert(periphs_view(periphs@) =~= apply_param(ps, name@, param@, value@));
    }
}

/// Gives each pin the label stored under `<Pin>.GPIO_Label`.
fn attach_labels(pins: &mut Vec<PinConfig>, raw: &StringMap)
    ensures
        pins_view(final(pins)@) == pins_view(old(pins)@).map_values(
            |p: PinView| with_label(raw@, p),
        ),
{
    let ghost orig = pins_view(pins@);
    let mut i: usize = 0;
    while i < pins.len()
        invariant
            0 <= i <= pins@.len(),
            pins@.len() == orig.len(),
            orig == pins_view(old(pins)@),
            forall|j: int| 0 <= j < i ==> #[trigger] pins_view(pins@)[j] == with_label(raw@, orig[j]),
            forall|j: int| i <= j < pins@.len() ==> #[trigger] pins_view(pins@)[j] == orig[j],
        decreases pins.len() - i,
    {
        let ghost before = pins@;
        let ghost cur = orig[i as int];
        assert(pins_view(pins@)[i as int] == cur);
        assert(pins@[i as int]@ == cur);
        let key = concat_str(pins[i].pin.as_str(), ".GPIO_Label");
        assert(key@ == cur.pin + ".GPIO_Label"@);
        match raw.get(key.as_str()) {
            Some(l) => {
                let lc = chars_of(l.as_str());
                let (a, b) = trim_range(&lc, 0, lc.len());
                assert(lc@.subrange(0, lc@.len() as int) =~= lc@);
                if a < b {
                    let mut p = pins.remove(i);
                    p.label = Some(string_of(&lc, a, b));
                    assert(p@ == with_label(raw@, cur));
                    let ghost pv = p;
                    pins.insert(i, p);
                    assert(pins@ =~= before.update(i as int, pv));
                } else {
                    assert(with_label(raw@, cur) == cur);
                }
            },
            None => {
                assert(with_label(raw@, cur) == cur);
            },
        }
        assert(pins_view(pins@)[i as int] == with_label(raw@, cur));
        assert forall|j: int| 0 <= j < pins@.len() && j != i implies #[trigger] pins@[j] == before[j] by {}
        assert forall|j: int| 0 <= j < i + 1 implies #[trigger] pins_view(pins@)[j] == with_label(
            raw@,
            orig[j],
        ) by {
            if j < i {
                assert(pins_view(pins@)[j] == pins@[j]@);
                assert(pins_view(before)[j] == before[j]@);
            }
        }
        assert forall|j: int| i + 1 <= j < pins@.len() implies #[trigger] pins_view(pins@)[j] == orig[j] by {
            assert(pins_view(pins@)[j] == pins@[j]@);
            assert(pins_view(before)[j] == before[j]@);
        }
        i += 1;
    }
    assert(pins_view(pins@) =~= orig.map_values(|p: PinView| with_label(raw@, p)));
}

/// How the line `src[a..b]` reads; see `ioc_line`.
fn classify_line(src: &[char], a: usize, b: usize) -> (r: Option<Option<(String, String)>>)
    requires
        a <= b <= src@.len(),
    ensures
        r is None ==> ioc_line(src@.subrange(a as int, b as int)) is None,
        r matches Some(None) ==> ioc_line(src@.subrange(a as int, b as int)) == Some(
            None::<(Seq<char>, Seq<char>)>,
        ),
        r matches Some(Some((k, v))) ==> ioc_line(src@.subrange(a as int, b as int)) == Some(
            Some((k@, v@)),
        ),
{
    let ghost line = src@.subrange(a as int, b as int);
    let (ta, tb) = trim_range(src, a, b);
    assert(src@.subrange(ta as int, tb as int) == trim(line));
    if ta == tb || src[ta] == '#' {
        return Some(None);
    }
    proof {
        lemma_find_char_bounds(trim(line), '=');
    }
    let eq = match find_char_in(src, ta, tb, '=') {
        Some(k) => k,
        None => return None,
    };
    let (ka, kb) = trim_range(src, ta, ta + eq);
    assert(src@.subrange(ta as int, ta + eq) =~= trim(line).subrange(0, eq as int));
    assert(src@.subrange(ta + eq + 1, tb as int) =~= trim(line).subrange(
        eq + 1,
        trim(line).len() as int,
    ));
    let key = string_of(src, ka, kb);
    let value = string_of(src, ta + eq + 1, tb);
    Some(Some((key, value)))
}

/// Applies one `key=value` entry to what the scan has gathered.
fn apply_entry(
    raw: &mut StringMap,
    pins: &mut Vec<PinConfig>,
    periphs: &mut Vec<PeripheralConfig>,
    key: String,
    value: String,
)
    ensures
        (IocScan {
            raw: final(raw)@,
            pins: pins_view(final(pins)@),
            periphs: periphs_view(final(periphs)@),
        }) == ioc_apply(
            IocScan { raw: old(raw)@, pins: pins_view(old(pins)@), periphs: periphs_view(old(periphs)@) },
            key@,
            value@,
        ),
{
    let ghost st = IocScan {
        raw: raw@,
        pins: pins_view(pins@),
        periphs: periphs_view(periphs@),
    };
    raw.insert(key.clone(), value.clone());
    let kc = chars_of(key.as_str());
    match pin_signal_end(&kc) {
        Some(d) => {
            let pin_name = string_of(&kc, 0, d);
            let modules: Vec<String> = Vec::new();
            assert(modules.deep_view() =~= Seq::<Seq<char>>::empty());
            let label: Option<String> = None;
            assert(label.deep_view() == None::<Seq<char>>);
            pins.push(PinConfig { pin: pin_name, signal: value, label, modules });
            assert(pins_view(pins@) =~= st.pins.push(
                PinView { pin: kc@.subrange(0, d as int), signal: value@, label: None, modules: seq![] },
            ));
        },
        None => {
            match peripheral_param_split(&kc) {
                Some(d) => {
                    let n = kc.len();
                    let name = string_of(&kc, 0, d);
                    let param = string_of(&kc, d + 1, n);
                    add_param(periphs, name, param, value);
                },
                None => {},
            }
        },
    }
}

/// Parses the text of a `.ioc` file.
pub fn parse_ioc_str(source: &str) -> (r: Result<IocProject, IocParseError>)
    ensures
        match ioc_scan(lines(source@)) {
            Err(i) => r matches Err(IocParseError::MalformedLine(n, l)) && n == i + 1 && l@
                == lines(source@)[i],
            Ok(st) => if non_empty(lookup(st.raw, "Mcu.Family"@)) is None {
                r matches Err(IocParseError::MissingRequiredKey(k)) && k@ == "Mcu.Family"@
            } else if mcu_name_of(st.raw) is None {
                r matches Err(IocParseError::MissingRequiredKey(k)) && k@
                    == "Mcu.UserName or Mcu.Name"@
            } else {
                r matches Ok(p) && p@ == ioc_project_of(
                    st,
                    non_empty(lookup(st.raw, "Mcu.Family"@))->0,
                    mcu_name_of(st.raw)->0,
                )
            },
        },
{
    let src = chars_of(source);
    let spans = line_spans(&src);
    let ghost ls = lines(src@);
    let mut raw = StringMap::new();
    let mut pins: Vec<PinConfig> = Vec::new();
    let mut periphs: Vec<PeripheralConfig> = Vec::new();
    let mut idx: usize = 0;
    assert(ls.subrange(0, 0) =~= Seq::<Seq<char>>::empty());
    assert(pins_view(pins@) =~= Seq::<PinView>::empty());
    assert(periphs_view(periphs@) =~= Seq::<PeriphView>::empty());
    while idx < spans.len()
        invariant
            0 <= idx <= spans@.len(),
            src@ == source@,
            ls == lines(src@),
            spans@.len() == ls.len(),
            forall|j: int| 0 <= j < spans@.len() ==> (#[trigger] spans@[j]).0 <= spans@[j].1 <= src@.len(),
            forall|j: int|
                0 <= j < spans@.len() ==> #[trigger] src@.subrange(spans@[j].0 as int, spans@[j].1 as int) == lines(src@)[j],
            ioc_scan(ls.subrange(0, idx as int)) == Ok::<IocScan, int>(
                IocScan { raw: raw@, pins: pins_view(pins@), periphs: periphs_view(periphs@) },
            ),
        decreases spans.len() - idx,
    {
        let (a, b) = spans[idx];
        let ghost line = ls[idx as int];
        assert(src@.subrange(a as int, b as int) == line);
        assert(ls.subrange(0, idx + 1).drop_last() =~= ls.subrange(0, idx as int));
        assert(ls.subrange(0, idx + 1).last() == line);
        match classify_line(&src, a, b) {
            None => {
                let l = string_of(&src, a, b);
                proof {
                    lemma_scan_err_extends(ls, idx as int + 1);
                }
                return Err(IocParseError::MalformedLine(idx + 1, l));
            },
            Some(None) => {},
            Some(Some((key, value))) => {
                apply_entry(&mut raw, &mut pins, &mut periphs, key, value);
            },
        }
        idx += 1;
    }
    assert(ls.subrange(0, idx as int) =~= ls);
    let ghost st = IocScan { raw: raw@, pins: pins_view(pins@), periphs: periphs_view(periphs@) };
    attach_labels(&mut pins, &raw);
    let family = match raw.get("Mcu.Family") {
        Some(v) => {
            if v.as_str().is_empty() {
                return Err(IocParseError::MissingRequiredKey(string_of_all(&chars_of("Mcu.Family"))));
            }
            v.clone()
        },
        None => {
            return Err(IocParseError::MissingRequiredKey(string_of_all(&chars_of("Mcu.Family"))));
        },
    };
    let name_found = match raw.get("Mcu.UserName") {
        Some(v) => Some(v),
        None => raw.get("Mcu.Name"),
    };
    let mcu_name = match name_found {
        Some(v) => {
            if v.as_str().is_empty() {
                return Err(
                    IocParseError::MissingRequiredKey(
                        string_of_all(&chars_of("Mcu.UserName or Mcu.Name")),
                    ),
                );
            }
            v.clone()
        },
        None => {
            return Err(
                IocParseError::MissingRequiredKey(
                    string_of_all(&chars_of("Mcu.UserName or Mcu.Name")),
                ),
            );
        },
    };
    let p = IocProject { mcu_family: family, mcu_name: mcu_name, pins, peripherals: periphs, raw };
    assert(p@.pins =~= ioc_project_of(st, family@, mcu_name@).pins);
    Ok(p)
}

} // verus!
