use std::path::{Path, PathBuf};
use stakhal::builder::EdgeType;
use stakhal::discovery::discover_state_machines_in_project;
use stakhal::ioc::parse_ioc_str;
use stakhal::pin_modules::{assign_pin_modules, select_module_files};
use stakhal::project::{load_project, Project, ProjectLoadError, ProjectSources};
use stakhal::pv_extract::extract_pv_declarations;
use stakhal::transitions::extract_state_machine_transitions;

/// Loads a project held in memory: the `.ioc` text and the C files of its
/// source directory (`main.c` among them), the way the application loads
/// one from disk.
fn load_in_memory(ioc_path: &str, ioc_text: &str, main_c_path: &str, c_files: &[(&str, &str)]) -> Result<Project, ProjectLoadError> {
    let mut files: Vec<(String, String)> = c_files.iter().map(|(p, t)| (p.to_string(), t.to_string())).collect();
    files.sort();
    let main_text = files.iter().find(|(p, _)| p == main_c_path).map(|(_, t)| t.clone()).expect("main.c");
    let main_c = PathBuf::from(main_c_path);

    let ioc = parse_ioc_str(ioc_text);
    let pv_declarations = extract_pv_declarations(&main_c, &main_text);

    let mut state_machines = Vec::new();
    for c in discover_state_machines_in_project(&[], &files) {
        let source = files.iter().find(|(p, _)| *p == c.var.file_path).map(|(_, t)| t.clone()).expect("candidate file");
        let others: Vec<(String, String)> = files.iter().filter(|(p, _)| *p != c.var.file_path).cloned().collect();
        if let Ok(sm) = extract_state_machine_transitions(&c, &source, &others) {
            state_machines.push(sm);
        }
    }

    let names: Vec<String> = files
        .iter()
        .map(|(p, _)| Path::new(p).file_name().unwrap().to_str().unwrap().to_string())
        .collect();
    let (selected, main_alone) = select_module_files(&names, main_c_path, true);
    let module_files: Vec<(String, String)> = if main_alone {
        vec![(main_c_path.to_string(), main_text.clone())]
    } else {
        selected
            .iter()
            .map(|n| files.iter().find(|(p, _)| p.ends_with(&format!("/{}", n))).cloned().expect("selected file"))
            .collect()
    };
    let stems: Vec<(String, String)> = module_files
        .iter()
        .map(|(p, t)| (Path::new(p).file_stem().unwrap().to_str().unwrap().to_string(), t.clone()))
        .collect();
    let (pins, modules) = match &ioc {
        Ok(project) => assign_pin_modules(&project.pins, &stems),
        Err(_) => (vec![], vec![]),
    };

    let sources = ProjectSources {
        ioc,
        main_c: Ok(main_text),
        pv_declarations,
        state_machines,
        pins,
        modules,
    };
    load_project(&PathBuf::from(ioc_path), Some(ioc_path), &main_c, sources)
}

const BLINK_IOC: &str = "#MicroXplorer Configuration settings - do not modify\n\
Mcu.Family=STM32F4\n\
Mcu.IP0=NVIC\n\
Mcu.IP1=RCC\n\
Mcu.IP2=SYS\n\
Mcu.Name=STM32F446R(C-E)Tx\n\
Mcu.UserName=STM32F446RETx\n\
PA13.Signal=SYS_JTMS-SWDIO\n\
PA14.Signal=SYS_JTCK-SWCLK\n\
PA2.Signal=USART2_TX\n\
PA3.Signal=USART2_RX\n\
PA5.GPIO_Label=LD2 [Green Led]\n\
PA5.Signal=GPIO_Output\n\
PC13.GPIO_Label=B1 [Blue PushButton]\n\
PC13.Signal=GPXTI13\n\
PH0.Signal=RCC_OSC_IN\n\
NVIC.SysTick_IRQn=true\\:15\\:0\\:false\\:false\\:true\\:false\\:true\\:false\n";

const BLINK_MAIN: &str = "#include \"main.h\"\n\
/* USER CODE BEGIN Includes */\n\
/* USER CODE END Includes */\n\
int main(void)\n\
{\n\
  HAL_Init();\n\
  /* USER CODE BEGIN WHILE */\n\
  while (1)\n\
  {\n\
    /* USER CODE END WHILE */\n\
    /* USER CODE BEGIN 3 */\n\
    HAL_GPIO_TogglePin(LD2_GPIO_Port, LD2_Pin);\n\
    HAL_Delay(500);\n\
  }\n\
  /* USER CODE END 3 */\n\
}\n";

#[test]
fn test_load_project_stakhal_blink_f446re() {
    let project = load_in_memory(
        "fixtures/stakhal_blink_f446re/stakhal_blink_f446re.ioc",
        BLINK_IOC,
        "fixtures/stakhal_blink_f446re/Core/Src/main.c",
        &[("fixtures/stakhal_blink_f446re/Core/Src/main.c", BLINK_MAIN)],
    )
    .expect("failed to load blink project");

    assert_eq!(project.meta.name, "stakhal_blink_f446re");
    assert_eq!(project.meta.mcu_family, "STM32F4");
    assert_eq!(project.meta.mcu_name, "STM32F446RETx");
    assert_eq!(project.pins.len(), 7);
    assert_eq!(project.peripherals.len(), 0);
    assert!(project.loop_body.is_some());
    assert!(project.pv_declarations.is_empty());
}

const TIMERS_IOC: &str = "Mcu.Family=STM32F4\n\
Mcu.UserName=STM32F446RETx\n\
PA2.Signal=USART2_TX\n\
PA3.Signal=USART2_RX\n\
PA0.Signal=ADCx_IN0\n\
ADC1.Resolution=ADC_RESOLUTION_12B\n\
TIM2.Prescaler=8399\n\
TIM2.Period=9999\n\
TIM3.Prescaler=8399\n\
TIM4.Prescaler=83\n\
USART2.Mode=MODE_TX_RX\n\
USART2.BaudRate=115200\n\
NVIC.TIM2_IRQn=true\\:0\\:0\\:false\\:false\\:true\\:true\\:true\\:true\n\
NVIC.TIM3_IRQn=true\\:0\\:0\\:false\\:false\\:true\\:true\\:true\\:true\n";

const TIMERS_MAIN: &str = "#include \"main.h\"\n\
/* USER CODE BEGIN PV */\n\
volatile uint32_t isrCount = 0;\n\
volatile uint32_t tim3Count = 0;\n\
uint32_t lastTick = 0;\n\
uint32_t blinkPeriod = 500;\n\
uint8_t ledState = 0;\n\
uint16_t adcValue = 0;\n\
char txBuffer[64];\n\
int errorCount = 0;\n\
/* USER CODE END PV */\n\
void HAL_TIM_PeriodElapsedCallback(TIM_HandleTypeDef *htim)\n\
{\n\
  /* USER CODE BEGIN Callback */\n\
  isrCount++;\n\
  /* USER CODE END Callback */\n\
}\n\
int main(void)\n\
{\n\
  HAL_Init();\n\
  /* USER CODE BEGIN WHILE */\n\
  while (1)\n\
  {\n\
    /* USER CODE END WHILE */\n\
    /* USER CODE BEGIN 3 */\n\
  }\n\
  /* USER CODE END 3 */\n\
}\n";

#[test]
fn test_load_project_stm32_03_timers() {
    let project = load_in_memory(
        "fixtures/stm32_03_timers/03_timers.ioc",
        TIMERS_IOC,
        "fixtures/stm32_03_timers/Core/Src/main.c",
        &[("fixtures/stm32_03_timers/Core/Src/main.c", TIMERS_MAIN)],
    )
    .expect("failed to load timers project");

    assert_eq!(project.meta.name, "03_timers");
    assert_eq!(project.peripherals.len(), 5);
    assert!(
        project.call_graph_edges.iter().any(|e| e.edge_type == EdgeType::IrqEntry),
        "Expected at least one IrqEntry edge in timers project"
    );
    assert_eq!(project.pv_declarations.len(), 8);
    assert!(
        project.pv_declarations.iter().any(|d| d.name == "isrCount"),
        "Expected isrCount in pv_declarations"
    );
}

const DOCKING_IOC: &str = "Mcu.Family=STM32F4\n\
Mcu.UserName=STM32F446RETx\n\
PA5.Signal=GPIO_Output\n\
PA5.GPIO_Label=LD2\n";

const DOCKING_MAIN: &str = "#include \"main.h\"\n\
typedef enum {\n\
  SYS_BOOT,\n\
  SYS_IDLE,\n\
  SYS_HOMING,\n\
  SYS_READY,\n\
  SYS_APPROACH,\n\
  SYS_ALIGN,\n\
  SYS_LATCH,\n\
  SYS_DOCKED,\n\
  SYS_CHARGING,\n\
  SYS_UNLATCH,\n\
  SYS_RELEASE,\n\
  SYS_DEPART,\n\
  SYS_ESTOP,\n\
  SYS_ERROR\n\
} SystemState;\n\
/* USER CODE BEGIN PV */\n\
static SystemState systemState = SYS_BOOT;\n\
/* USER CODE END PV */\n\
static void System_Step(int ok)\n\
{\n\
  switch (systemState) {\n\
    case SYS_BOOT: systemState = SYS_IDLE; break;\n\
    case SYS_IDLE: if (ok) { systemState = SYS_HOMING; } break;\n\
    case SYS_HOMING: systemState = SYS_READY; break;\n\
    case SYS_READY: systemState = SYS_APPROACH; break;\n\
    case SYS_APPROACH: systemState = SYS_ALIGN; break;\n\
    case SYS_ALIGN: systemState = SYS_LATCH; break;\n\
    case SYS_LATCH: systemState = SYS_DOCKED; break;\n\
    case SYS_DOCKED: systemState = SYS_CHARGING; break;\n\
    case SYS_CHARGING: systemState = SYS_UNLATCH; break;\n\
    case SYS_UNLATCH: systemState = SYS_RELEASE; break;\n\
    case SYS_RELEASE: systemState = SYS_DEPART; break;\n\
    case SYS_DEPART: systemState = SYS_IDLE; break;\n\
    case SYS_ESTOP: if (ok) { systemState = SYS_IDLE; } break;\n\
    default: systemState = SYS_ERROR; break;\n\
  }\n\
}\n\
int main(void)\n\
{\n\
  /* USER CODE BEGIN WHILE */\n\
  while (1)\n\
  {\n\
    /* USER CODE END WHILE */\n\
    /* USER CODE BEGIN 3 */\n\
    System_Step(1);\n\
  }\n\
  /* USER CODE END 3 */\n\
}\n";

#[test]
fn test_load_project_docking_firmware_v2() {
    let project = load_in_memory(
        "fixtures/docking_firmware_v2/docking_firmware_v2.ioc",
        DOCKING_IOC,
        "fixtures/docking_firmware_v2/Core/Src/main.c",
        &[("fixtures/docking_firmware_v2/Core/Src/main.c", DOCKING_MAIN)],
    )
    .expect("failed to load docking_firmware_v2");

    assert_eq!(project.state_machines.len(), 1);
    assert_eq!(project.state_machines[0].enum_def.name, "SystemState");
    assert_eq!(project.state_machines[0].states.len(), 14);
}

const AA_IOC: &str = "Mcu.Family=STM32F4\n\
Mcu.UserName=STM32F446RETx\n\
PA0.Signal=GPIO_Input\n\
PA0.GPIO_Label=Z1_LIMIT\n\
PA8.Signal=GPIO_Output\n\
PA8.GPIO_Label=Z1_STEP\n\
PB0.Signal=GPIO_Input\n\
PB0.GPIO_Label=GRIP_IN1\n\
PC0.Signal=GPIO_Output\n\
PC0.GPIO_Label=RELAY_FAN\n\
PC1.Signal=GPIO_Output\n\
PC1.GPIO_Label=RELAY_LIGHT\n\
PA2.Signal=USART2_TX\n\
PA3.Signal=USART2_RX\n\
USART2.Mode=MODE_TX_RX\n\
USART2.BaudRate=115200\n";

const AA_MAIN: &str = "#include \"main.h\"\n\
UART_HandleTypeDef huart2;\n\
int main(void)\n\
{\n\
  /* USER CODE BEGIN WHILE */\n\
  while (1)\n\
  {\n\
    /* USER CODE END WHILE */\n\
    /* USER CODE BEGIN 3 */\n\
    Align_Tick();\n\
    Hatch_Tick();\n\
  }\n\
  /* USER CODE END 3 */\n\
}\n";

const AA_ALIGNMENT: &str = "#include \"alignment.h\"\n\
typedef enum { ALIGN_IDLE, CALIBRATING, GOING, HOLD, RETURNING, RETURNED } AlignState;\n\
static AlignState state = ALIGN_IDLE;\n\
void Align_Tick(void)\n\
{\n\
  switch (state) {\n\
    case ALIGN_IDLE:\n\
      if (HAL_GPIO_ReadPin(Z1_LIMIT_GPIO_Port, Z1_LIMIT_Pin)) { state = CALIBRATING; }\n\
      break;\n\
    case CALIBRATING: state = GOING; break;\n\
    case GOING:\n\
      HAL_GPIO_TogglePin(Z1_STEP_GPIO_Port, Z1_STEP_Pin);\n\
      state = HOLD;\n\
      break;\n\
    case HOLD: state = RETURNING; break;\n\
    case RETURNING: state = RETURNED; break;\n\
    default: break;\n\
  }\n\
}\n";

const AA_HATCH: &str = "#include \"hatch.h\"\n\
typedef enum { HATCH_IDLE, HATCH_OPENING, HATCH_CLOSING } HatchState;\n\
static HatchState hatchState = HATCH_IDLE;\n\
void Hatch_Tick(void)\n\
{\n\
  switch (hatchState) {\n\
    case HATCH_IDLE:\n\
      if (HAL_GPIO_ReadPin(GRIP_IN1_GPIO_Port, GRIP_IN1_Pin)) { hatchState = HATCH_OPENING; }\n\
      break;\n\
    case HATCH_OPENING: hatchState = HATCH_CLOSING; break;\n\
    case HATCH_CLOSING: hatchState = HATCH_IDLE; break;\n\
    default: break;\n\
  }\n\
}\n";

const AA_COMMANDS: &str = "#include \"commands.h\"\n\
extern UART_HandleTypeDef huart2;\n\
void Commands_Send(const char *s, int n)\n\
{\n\
  HAL_UART_Transmit(&huart2, (uint8_t *)s, n, 100);\n\
}\n";

const AA_RELAY: &str = "#include \"relay.h\"\n\
void Relay_Fan(int on) { HAL_GPIO_WritePin(RELAY_FAN_GPIO_Port, RELAY_FAN_Pin, on); }\n\
void Relay_Light(int on) { HAL_GPIO_WritePin(RELAY_LIGHT_GPIO_Port, RELAY_LIGHT_Pin, on); }\n";

const AA_SYSTEM: &str = "#include \"system.h\"\n\
static unsigned int uptime;\n\
void System_Tick(void) { uptime++; }\n";

const AA_IT: &str = "#include \"stm32f4xx_it.h\"\n\
extern UART_HandleTypeDef huart2;\n\
void USART2_IRQHandler(void) { HAL_UART_IRQHandler(&huart2); }\n";

fn load_aa() -> Project {
    let dir = "fixtures/aa_ns_stm_port/Core/Src";
    let paths: Vec<String> = ["main.c", "alignment.c", "hatch.c", "commands.c", "relay.c", "system.c", "stm32f4xx_it.c"]
        .iter()
        .map(|f| format!("{}/{}", dir, f))
        .collect();
    let texts = [AA_MAIN, AA_ALIGNMENT, AA_HATCH, AA_COMMANDS, AA_RELAY, AA_SYSTEM, AA_IT];
    let files: Vec<(&str, &str)> = paths.iter().map(|p| p.as_str()).zip(texts.iter().copied()).collect();
    load_in_memory("fixtures/aa_ns_stm_port/aa_ns_stm_port.ioc", AA_IOC, &paths[0], &files)
        .expect("failed to load aa_ns_stm_port")
}

#[test]
fn test_load_project_aa_ns_stm_port() {
    let project = load_aa();
    assert_eq!(project.state_machines.len(), 2);
    let names: Vec<&str> = project.state_machines.iter().map(|sm| sm.enum_def.name.as_str()).collect();
    assert!(names.contains(&"AlignState"));
    assert!(names.contains(&"HatchState"));
}

#[test]
fn test_pin_to_module_mapping_aa_ns_stm_port() {
    let project = load_aa();
    assert_eq!(project.modules, vec!["alignment", "commands", "hatch", "relay", "system"]);

    let find_pin_modules = |name: &str| -> Vec<String> {
        project
            .pins
            .iter()
            .find(|p| p.label.as_deref() == Some(name) || p.signal == name || p.pin == name)
            .map(|p| p.modules.clone())
            .unwrap_or_default()
    };

    assert_eq!(find_pin_modules("Z1_LIMIT"), vec!["alignment"]);
    assert_eq!(find_pin_modules("GRIP_IN1"), vec!["hatch"]);
    assert_eq!(find_pin_modules("RELAY_FAN"), vec!["relay"]);
    assert_eq!(find_pin_modules("RELAY_LIGHT"), vec!["relay"]);
    assert_eq!(find_pin_modules("Z1_STEP"), vec!["alignment"]);
    assert_eq!(find_pin_modules("USART2_TX"), vec!["commands"]);
}
