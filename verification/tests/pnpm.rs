use nuupa::pnpm::{parse_ls, snapshot};
use nuupa::kernel::{ClaseError, ErrorIo, Runner, RunnerOutput};
use std::cell::RefCell;

struct FakeRunner {
    gestor: String,
    node: Option<String>,
    salidas: Vec<(&'static str, String, i32)>,
    llamadas: RefCell<Vec<String>>,
}

impl FakeRunner {
    fn new(gestor: &str) -> Self {
        Self { gestor: gestor.into(), node: Some("26.2.0".into()), salidas: Vec::new(), llamadas: RefCell::new(Vec::new()) }
    }

    #[allow(dead_code)]
    fn con_node(mut self, node: Option<&str>) -> Self {
        self.node = node.map(str::to_string);
        self
    }

    fn respuesta(mut self, cmd: &'static str, stdout: &str, exit: i32) -> Self {
        self.salidas.push((cmd, stdout.into(), exit));
        self
    }

    #[allow(dead_code)]
    fn se_llamo_a(&self, cmd: &str) -> bool {
        self.llamadas.borrow().iter().any(|c| c == cmd)
    }
}

impl Runner for FakeRunner {
    fn version_gestor(&self) -> String {
        self.gestor.clone()
    }
    fn version_node(&self) -> Option<String> {
        self.node.clone()
    }
    fn run(&self, args: &[&str]) -> Result<RunnerOutput, ErrorIo> {
        self.llamadas.borrow_mut().push(args.join(" "));
        let primero = args.first().copied().unwrap_or_default();
        self.salidas
            .iter()
            .find(|(cmd, _, _)| *cmd == primero)
            .map(|(_, stdout, exit)| RunnerOutput { stdout: stdout.clone(), stderr: String::new(), exit_code: *exit })
            .ok_or_else(|| ErrorIo { clase: ClaseError::InvalidInput, mensaje: format!("unexpected command: {primero}") })
    }
}

const LS_JSON: &str = r#"[{"path":"/Users/ejemplo/Library/pnpm/global/5","private":false,"dependencies":{"cowsay":{"from":"cowsay","version":"1.0.0","resolved":"https://registry.npmjs.org/"},"@org/paquete":{"version":"2.0.0"}}}]"#;
const OUTDATED_JSON: &str = r#"{"cowsay":{"current":"1.0.0","latest":"1.6.0","wanted":"1.0.0","isDeprecated":false}}"#;

fn runner_pnpm() -> FakeRunner {
    FakeRunner::new("10.33.0")
        .con_node(Some("26.2.0"))
        .respuesta("ls", LS_JSON, 0)
        .respuesta("outdated", OUTDATED_JSON, 0)
        .respuesta("add", "Done in 1.5s", 0)
}

#[test]
fn parse_ls_lee_el_array_de_importers() {
    let pares = parse_ls(LS_JSON);
    assert_eq!(pares.len(), 2);
    assert!(pares.contains(&("cowsay".to_string(), "1.0.0".to_string())));
    assert!(pares.contains(&("@org/paquete".to_string(), "2.0.0".to_string())));
}

#[test]
fn snapshot_detecta_desactualizados_con_scoped() {
    let snap = snapshot(&runner_pnpm()).expect("valid snapshot");
    assert_eq!(snap.version_gestor, "10.33.0");
    assert_eq!(snap.version_node.as_deref(), Some("26.2.0"));
    assert_eq!(snap.packages.len(), 2);
    let cowsay = snap.packages.iter().find(|p| p.name == "cowsay").unwrap();
    assert!(cowsay.outdated);
    assert_eq!(cowsay.latest.as_deref(), Some("1.6.0"));
    let scoped = snap.packages.iter().find(|p| p.name == "@org/paquete").unwrap();
    assert!(!scoped.outdated);
}

#[test]
fn pnpm_snapshot_vacio_no_llama_a_outdated() {
    let runner = FakeRunner::new("10.33.0").respuesta("ls", "[]", 0);
    let snap = snapshot(&runner).expect("empty is valid");
    assert!(snap.packages.is_empty());
    assert!(runner.se_llamo_a("ls -g --depth=0 --json"));
    assert!(!runner.se_llamo_a("outdated -g --json"));
}

#[test]
fn pnpm_snapshot_trata_exit_1_de_outdated_como_valido() {
    let runner = FakeRunner::new("10.33.0").respuesta("ls", LS_JSON, 0).respuesta("outdated", OUTDATED_JSON, 1);
    let snap = snapshot(&runner).expect("exit 1 is not an error");
    assert!(snap.packages.iter().any(|p| p.outdated));
}

// ---- further cases ----

#[test]
fn pnpm_parse_ls_varios_importers_y_basura() {
    let ls = r#"[{"dependencies":{"a":{"version":"1"}}},{"x":1},{"dependencies":{"b":{"version":"2"}}}]"#;
    assert_eq!(parse_ls(ls), vec![("a".to_string(), "1".to_string()), ("b".to_string(), "2".to_string())]);
    assert!(parse_ls("").is_empty());
    assert!(parse_ls(r#"{"dependencies":{"a":{"version":"1"}}}"#).is_empty());
}

#[test]
fn pnpm_snapshot_ls_roto_es_error() {
    let runner = FakeRunner::new("10.33.0").respuesta("ls", "boom", 2);
    assert_eq!(snapshot(&runner).unwrap_err(), "pnpm ls failed (exit 2): ");
}
