//! Inspection of STM32CubeMX firmware projects: `.ioc` configuration,
//! generated call graphs, peripheral state models and C source scanning.
pub mod text;
pub mod assoc;
pub mod paths;
pub mod ioc;
pub mod hal_rules;
pub mod builder;
pub mod state_transition;
pub mod nucleo_pinout;
pub mod unicode;
pub mod labels;
pub mod prettify;
pub mod machine;
pub mod syntax;
pub mod marker_scan;
pub mod usage_finder;
pub mod render_model;
pub mod pv_extract;
pub mod project;
pub mod pin_modules;
pub mod sorted;
pub mod user_call_graph;
pub mod writeback;
pub mod laws;
pub mod console_uart;
pub mod ctree;
pub mod discovery;
pub mod transitions;
pub mod sm_laws;
pub mod viewer;
pub mod state_graph;
pub mod graph_lanes;
pub mod layout_plan;
pub mod machine_laws;
pub mod irq_table_laws;
pub mod title_laws;
pub mod table_laws;
