use stakhal::console_uart::{detect_console_uart, extract_project_command_names};

const MAIN_C: &str = "#include \"main.h\"\n\
UART_HandleTypeDef huart1;\n\
UART_HandleTypeDef huart2;\n\
int _write(int file, char *ptr, int len)\n\
{\n\
  HAL_UART_Transmit(&huart2, (uint8_t *)ptr, len, HAL_MAX_DELAY);\n\
  return len;\n\
}\n\
static void MX_USART1_UART_Init(void)\n\
{\n\
  huart1.Instance = USART1;\n\
  huart1.Init.BaudRate = 9600;\n\
}\n\
static void MX_USART2_UART_Init(void)\n\
{\n\
  huart2.Instance = USART2;\n\
  huart2.Init.BaudRate = 115200;\n\
}\n";

fn texts(files: &[&str]) -> Vec<String> {
    files.iter().map(|s| s.to_string()).collect()
}

#[test]
fn console_uart_follows_the_retarget_function() {
    let info = detect_console_uart(&texts(&[MAIN_C])).expect("console uart");
    assert_eq!(info.uart_instance, "huart2");
    assert_eq!(info.baud_rate, 115200);
}

#[test]
fn console_uart_baud_rate_may_stand_in_another_file() {
    let retarget = "int __io_putchar(int ch)\n{\n  HAL_UART_Transmit_IT(& huart3, (uint8_t *)&ch, 1);\n  return ch;\n}\n";
    let init = "void MX_USART3_UART_Init(void) {\n  huart3.Init.BaudRate =   57600;\n}\n";
    let info = detect_console_uart(&texts(&[retarget, init])).expect("console uart");
    assert_eq!(info.uart_instance, "huart3");
    assert_eq!(info.baud_rate, 57600);
}

#[test]
fn console_uart_falls_back_to_any_initialised_uart() {
    let init = "void init(void) {\n  huart1.Init.BaudRate = 9600;\n}\n";
    let info = detect_console_uart(&texts(&[init])).expect("console uart");
    assert_eq!(info.uart_instance, "huart1");
    assert_eq!(info.baud_rate, 9600);
}

#[test]
fn console_uart_keeps_retarget_handle_with_another_uarts_rate() {
    let retarget = "int _write(int f, char *p, int n) { HAL_UART_Transmit(&huart2, p, n, 10); return n; }\n";
    let init = "void init(void) { huart1.Init.BaudRate = 9600; }\n";
    let info = detect_console_uart(&texts(&[retarget, init])).expect("console uart");
    assert_eq!(info.uart_instance, "huart2");
    assert_eq!(info.baud_rate, 9600);
}

#[test]
fn console_uart_defaults_to_115200() {
    let retarget = "int fputc(int ch, FILE *f) { HAL_UART_Transmit_DMA(&huart6, (uint8_t *)&ch, 1); return ch; }\n";
    let info = detect_console_uart(&texts(&[retarget])).expect("console uart");
    assert_eq!(info.uart_instance, "huart6");
    assert_eq!(info.baud_rate, 115200);
}

#[test]
fn console_uart_absent_without_uart() {
    assert_eq!(detect_console_uart(&texts(&["int main(void) { return 0; }\n"])), None);
    assert_eq!(detect_console_uart(&[]), None);
}

#[test]
fn console_uart_name_must_stand_alone() {
    // `my_write` is not the retarget function `_write`.
    let text = "int my_write(int f) { HAL_UART_Transmit(&huart4, 0, 0, 0); }\n";
    assert_eq!(detect_console_uart(&texts(&[text])), None);
}

#[test]
fn console_uart_baud_rate_too_large_is_skipped() {
    let text = "void init(void) { huart1.Init.BaudRate = 99999999999; huart2.Init.BaudRate = 19200; }\n";
    let info = detect_console_uart(&texts(&[text])).expect("console uart");
    assert_eq!(info.uart_instance, "huart2");
    assert_eq!(info.baud_rate, 19200);
}

#[test]
fn command_names_from_a_command_table() {
    let text = "const Command commandTable[] = {\n  { \"GO\", cmd_go },\n  { \"CAL\", cmd_cal },\n  { \"RST\",  cmd_rst },\n};\n";
    let names = extract_project_command_names(&texts(&[text]));
    assert_eq!(names, vec!["GO", "CAL", "RST"]);
}

#[test]
fn command_names_once_across_files() {
    let a = "Command t[] = { { \"ON\", cmd_on }, { \"OFF\", cmd_off } };\n";
    let b = "Command u[] = { { \"OFF\", other_off }, { \"STOP\", cmd_stop } };\n";
    let names = extract_project_command_names(&texts(&[a, b]));
    assert_eq!(names, vec!["ON", "OFF", "STOP"]);
}

#[test]
fn command_names_skip_blocks_that_are_not_entries() {
    let text = "void f(void) { printf(\"hello world\", x); }\n\
        X y[] = { { \"\", cmd_empty }, { \"TOO_LONG_COMMAND_NAME\", cmd_long }, { \"A-B\", &x }, { \"OK_1\", handler } };\n";
    let names = extract_project_command_names(&texts(&[text]));
    assert_eq!(names, vec!["OK_1"]);
}
