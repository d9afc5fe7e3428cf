use stakhal::labels::{clean_guard_text, clean_printf_literal, extract_command_string, has_matching_outer_parens, to_title_case_identifier};
use stakhal::machine::{infer_cluster_name, is_fault_state, AppTransition, TransitionType};
use stakhal::prettify::{extract_timeout_pattern, is_camel_case_ident, prettify_guard, prettify_operand, strip_variant_prefix};

#[test]
fn title_case_splits_camel_and_separators() {
    assert_eq!(to_title_case_identifier("motorSpeed_max"), "Motor Speed Max");
    assert_eq!(to_title_case_identifier("HTTPServer()"), "HTTP Server");
    assert_eq!(to_title_case_identifier("hatch.isOpen"), "Hatch Is Open");
    assert_eq!(to_title_case_identifier(""), "");
}

#[test]
fn guard_equality_uses_variant_suffix() {
    assert_eq!(prettify_guard("(pendingState == HATCH_OPENING)"), "pendingState is OPENING");
    assert_eq!(prettify_guard("mode == 1 && now - stateStart > T"), "Mode is 1");
}

#[test]
fn guard_timeout_pattern() {
    assert_eq!(prettify_guard("now - stateStart > CAL_TIMEOUT_MS"), "Timeout (CAL_TIMEOUT_MS)");
    assert_eq!(
        extract_timeout_pattern("(now - stateStart > LIMIT_1)"),
        Some("Timeout (LIMIT_1)".to_string())
    );
    assert_eq!(extract_timeout_pattern("now - other > LIMIT"), None);
}

#[test]
fn guard_disjunction_and_conjunction() {
    assert_eq!(prettify_guard("a || !b"), "A or not B");
    assert_eq!(prettify_guard("x != 0 && ready"), "X is not 0 and Ready");
    assert_eq!(prettify_guard("   "), "");
    assert_eq!(prettify_guard("flag [note]"), "Flag");
}

#[test]
fn operand_literals_keep_spelling() {
    assert_eq!(prettify_operand("(NULL)"), "NULL");
    assert_eq!(prettify_operand("true"), "true");
    assert_eq!(prettify_operand("door_open"), "Door Open");
    assert!(is_camel_case_ident(" pendingState "));
    assert!(!is_camel_case_ident("pending"));
    assert!(!is_camel_case_ident("arr[iState]"));
    assert_eq!(strip_variant_prefix("ST_IDLE"), Some("IDLE".to_string()));
    assert_eq!(strip_variant_prefix("IDLE"), None);
    assert_eq!(strip_variant_prefix("St_idle"), None);
}

#[test]
fn guard_cleaning() {
    assert_eq!(clean_guard_text("  ((a  &&   b))  "), "a && b");
    assert!(has_matching_outer_parens("(a && b)"));
    assert!(!has_matching_outer_parens("(a) || (b)"));
    assert_eq!(extract_command_string("strcmp(cmd, \"GO\") == 0"), Some("GO".to_string()));
    assert_eq!(extract_command_string("strcmp(cmd, \"\") == 0"), None);
    assert_eq!(clean_printf_literal("Opening hatch...\\r\\n"), "Opening hatch");
}

fn transition(label: &str, guard: &str) -> AppTransition {
    AppTransition {
        from: "IDLE".to_string(),
        to: "GOING".to_string(),
        guard: guard.to_string(),
        label: label.to_string(),
        is_fault: false,
        transition_type: TransitionType::Direct,
        line: 1,
    }
}

#[test]
fn display_guard_prefers_label_and_cuts() {
    assert_eq!(transition("Go", "cmd == GO").display_guard(35), "Go");
    assert_eq!(transition("", "abcdefgh").display_guard(5), "ab...");
    assert_eq!(transition("", "abcdefgh").display_guard(2), "...");
    assert_eq!(transition("", "abc").display_guard(3), "abc");
}

#[test]
fn fault_states_and_clusters() {
    assert!(is_fault_state("motor_fault"));
    assert!(is_fault_state("Error_x"));
    assert!(!is_fault_state("IDLE"));
    assert_eq!(infer_cluster_name("CAL_START", "IDLE"), "CALIBRATION");
    assert_eq!(infer_cluster_name("IDLE", "IDLE"), "INITIAL");
    assert_eq!(infer_cluster_name("FAULT", "FAULT"), "FAULT");
    assert_eq!(infer_cluster_name("HOLD", "IDLE"), "MOTION");
    assert_eq!(infer_cluster_name("OPENING", "IDLE"), "MECHANISM");
    assert_eq!(infer_cluster_name("RECOVER", "IDLE"), "RECOVERY");
    assert_eq!(infer_cluster_name("X", "IDLE"), "GENERAL");
}

#[test]
fn trailing_bracket_note_leaves_guard_label() {
    for g in ["x == ST_A", "now - stateStart > CAL_TIMEOUT_MS", "(pendingState == HATCH_OPENING)", "ready"] {
        for tag in ["fault: CAL TIMEOUT", "startCal()", ""] {
            let noted = format!("{} [{}]", g, tag);
            assert_eq!(prettify_guard(&noted), prettify_guard(g));
        }
    }
}

#[test]
fn title_case_is_idempotent_and_keeps_letters() {
    for ident in ["motorSpeed_max", "HTTPServer()", "startCal()", "a_b_c", "x2Y", "__init__", "2fast", "ALL_CAPS_9", ""] {
        let once = to_title_case_identifier(ident);
        assert!(!once.contains('_'));
        assert_eq!(to_title_case_identifier(&once), once);
        assert_eq!(
            once.replace(' ', "").to_ascii_lowercase(),
            ident.trim_end_matches("()").replace('_', "").to_ascii_lowercase()
        );
    }
}
