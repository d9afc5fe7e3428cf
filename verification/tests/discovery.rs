use stakhal::discovery::{discover_state_machines_in_file, discover_state_machines_in_project};
use stakhal::machine::VariableScope;

const SWITCH_SRC: &str = "typedef enum { STATE_IDLE, STATE_RUN, STATE_FAULT } AppState;\n\
static AppState app_state = STATE_IDLE;\n\
static AppState shadow;\n\
void step(int x)\n\
{\n\
  switch (app_state) {\n\
    case STATE_IDLE: app_state = STATE_RUN; break;\n\
    case STATE_RUN: if (x) { app_state = STATE_FAULT; } break;\n\
    default: break;\n\
  }\n\
}\n";

#[test]
fn discovers_switch_dispatch_in_one_file() {
    let found = discover_state_machines_in_file("main.c", SWITCH_SRC).expect("parses");
    assert_eq!(found.len(), 1);
    let c = &found[0];
    assert_eq!(c.id, "AppState_app_state");
    assert_eq!(c.display_name, "AppState (app_state)");
    assert_eq!(c.enum_def.name, "AppState");
    assert_eq!(c.enum_def.variants, vec!["STATE_IDLE", "STATE_RUN", "STATE_FAULT"]);
    assert_eq!(c.enum_def.line, 1);
    assert_eq!(c.enum_def.file_path, "main.c");
    assert_eq!(c.var.name, "app_state");
    assert_eq!(c.var.enum_type, "AppState");
    assert_eq!(c.var.scope, VariableScope::Global);
    assert_eq!(c.var.initial_value, Some("STATE_IDLE".to_string()));
    assert_eq!(c.var.line, 2);
}

const HELPER_SRC: &str = "enum Mode { MODE_OFF, MODE_ON };\n\
enum Mode mode;\n\
static void turn_on(void) { mode = MODE_ON; }\n\
static void start(void) { turn_on(); }\n\
void loop(void)\n\
{\n\
  enum Mode local = MODE_OFF;\n\
  if (mode == MODE_OFF) {\n\
    start();\n\
  }\n\
}\n";

#[test]
fn discovers_dispatch_through_delegating_helpers() {
    let found = discover_state_machines_in_file("app.c", HELPER_SRC).expect("parses");
    assert_eq!(found.len(), 1);
    assert_eq!(found[0].display_name, "Mode (mode)");
    assert_eq!(found[0].var.scope, VariableScope::Global);
    assert_eq!(found[0].var.initial_value, None);
}

#[test]
fn no_candidate_without_dispatch() {
    let src = "typedef enum { A_ONE, A_TWO } Kind;\nKind k = A_ONE;\nvoid f(void) { k = A_TWO; }\n";
    let found = discover_state_machines_in_file("k.c", src).expect("parses");
    assert!(found.is_empty());
}

#[test]
fn function_scope_is_recorded() {
    let src = "typedef enum { S_A, S_B } St;\nvoid run(void)\n{\n  St st = S_A;\n  while (1) {\n    if (st == S_A) { st = S_B; } else if (st == S_B) { st = S_A; }\n  }\n}\n";
    let found = discover_state_machines_in_file("run.c", src).expect("parses");
    assert_eq!(found.len(), 1);
    assert_eq!(found[0].var.scope, VariableScope::Function("run".to_string()));
    assert_eq!(found[0].var.line, 4);
}

#[test]
fn project_candidates_are_sorted_and_use_header_enums() {
    let header = ("Inc/states.h".to_string(), "typedef enum { Z_IDLE, Z_BUSY } ZState;\ntypedef enum { B_IDLE, B_BUSY } BState;\n".to_string());
    let main_c = ("Src/main.c".to_string(), "ZState zs;\nBState bs;\n".to_string());
    let logic_c = ("Src/logic.c".to_string(),
        "extern ZState zs;\nextern BState bs;\nvoid tick(void) {\n  switch (zs) { case Z_IDLE: zs = Z_BUSY; break; default: break; }\n  if (bs == B_IDLE) bs = B_BUSY;\n}\n".to_string());
    let found = discover_state_machines_in_project(&[header], &[logic_c, main_c]);
    let names: Vec<&str> = found.iter().map(|c| c.display_name.as_str()).collect();
    assert_eq!(names, vec!["BState (bs)", "BState (bs)", "ZState (zs)", "ZState (zs)"]);
    assert_eq!(found[0].enum_def.file_path, "Inc/states.h");
}
