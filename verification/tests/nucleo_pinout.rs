use stakhal::nucleo_pinout::{check_reserved, lookup_pin, nucleo_f446re_pinout, ReservedSeverity};

#[test]
fn known_pin_has_both_headers() {
    let loc = lookup_pin("PA5").expect("PA5 should be in the table");
    assert_eq!(loc.morpho, Some(("CN10", 11)));
    assert_eq!(loc.arduino, Some(("CN5", 6, "D13")));
}

#[test]
fn morpho_only_pin_has_no_arduino_entry() {
    let loc = lookup_pin("PC10").expect("PC10 should be in the table");
    assert_eq!(loc.morpho, Some(("CN7", 1)));
    assert_eq!(loc.arduino, None);
}

#[test]
fn unknown_pin_returns_none() {
    assert!(lookup_pin("PZ99").is_none());
}

#[test]
fn no_duplicate_mcu_pin_entries() {
    let mut seen = std::collections::HashSet::new();
    for entry in nucleo_f446re_pinout() {
        assert!(seen.insert(entry.mcu_pin), "duplicate entry for {}", entry.mcu_pin);
    }
}

#[test]
fn test_reserved_pins_critical_and_none() {
    let pa13 = check_reserved("PA13").expect("PA13 should be reserved");
    assert_eq!(pa13.severity, ReservedSeverity::Critical);

    let pa14 = check_reserved("PA14").expect("PA14 should be reserved");
    assert_eq!(pa14.severity, ReservedSeverity::Critical);

    let ph0 = check_reserved("PH0").expect("PH0 should be reserved");
    assert_eq!(ph0.severity, ReservedSeverity::Caution);

    assert!(check_reserved("PB0").is_none());
}

#[test]
fn lookup_returns_the_pin_asked_for() {
    let loc = lookup_pin("PB8").expect("PB8 should be in the table");
    assert_eq!(loc.mcu_pin, "PB8");
}

#[test]
fn every_reserved_pin_is_on_the_board() {
    for pin in ["PA13", "PA14", "PH0", "PH1", "PC14", "PC15"] {
        let r = check_reserved(pin).expect("reserved");
        assert_eq!(r.mcu_pin, pin);
        let loc = lookup_pin(pin).expect("on the board");
        assert_eq!(loc.mcu_pin, pin);
    }
}
