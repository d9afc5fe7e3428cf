use stakhal::user_call_graph::build_user_call_graph;

#[test]
fn test_two_user_functions_calling_each_other() {
    let content = r#"
void worker(void) {
    // work
}

void caller(void) {
    worker();
}
"#;
    let (fns, edges) = build_user_call_graph(content).unwrap();
    assert_eq!(fns.len(), 2);
    assert!(fns.iter().any(|f| f.name == "worker"));
    assert!(fns.iter().any(|f| f.name == "caller"));

    assert_eq!(edges.len(), 1);
    assert_eq!(edges[0].from, "caller");
    assert_eq!(edges[0].to, "worker");
}

#[test]
fn test_hal_library_calls_filtered_out() {
    let content = r#"
void do_something(void) {
    HAL_GPIO_TogglePin(GPIOA, GPIO_PIN_5);
    memcpy(dest, src, 10);
}
"#;
    let (fns, edges) = build_user_call_graph(content).unwrap();
    assert_eq!(fns.len(), 1);
    assert_eq!(fns[0].name, "do_something");
    assert_eq!(fns[0].is_hal_callback, false);

    assert!(edges.is_empty());
}

#[test]
fn test_weak_callback_identification() {
    let content = r#"
void HAL_TIM_PeriodElapsedCallback(TIM_HandleTypeDef *htim) {
    // callback
}

void normal_user_func(void) {
    // normal
}
"#;
    let (fns, _) = build_user_call_graph(content).unwrap();
    assert_eq!(fns.len(), 2);

    let cb = fns.iter().find(|f| f.name == "HAL_TIM_PeriodElapsedCallback").unwrap();
    assert!(cb.is_hal_callback);

    let normal = fns.iter().find(|f| f.name == "normal_user_func").unwrap();
    assert!(!normal.is_hal_callback);
}

#[test]
fn repeated_calls_give_one_edge_and_lines_count_from_one() {
    let content = "int *get(void) { return 0; }\nvoid a(void) { get(); get(); a(); }\n";
    let (fns, edges) = build_user_call_graph(content).unwrap();
    assert_eq!(fns.len(), 2);
    assert_eq!(fns[0].name, "get");
    assert_eq!(fns[0].line, 1);
    assert_eq!(fns[1].line, 2);
    assert_eq!(edges.len(), 2);
    assert_eq!((edges[0].from.as_str(), edges[0].to.as_str()), ("a", "get"));
    assert_eq!((edges[1].from.as_str(), edges[1].to.as_str()), ("a", "a"));
}
