use nuupa::npm::{parse_ls, snapshot};
use nuupa::kernel::{ClaseError, ErrorIo, Runner, RunnerOutput};
use std::cell::RefCell;

struct FakeRunner {
    gestor: String,
    node: Option<String>,
    salidas: Vec<(&'static str, String, i32)>,
    llamadas: RefCell<Vec<String>>,
}

impl FakeRunner {
    fn new(gestor: &str) -> Self {
        Self { gestor: gestor.into(), node: Some("26.2.0".into()), salidas: Vec::new(), llamadas: RefCell::new(Vec::new()) }
    }

    #[allow(dead_code)]
    fn con_node(mut self, node: Option<&str>) -> Self {
        self.node = node.map(str::to_string);
        self
    }

    fn respuesta(mut self, cmd: &'static str, stdout: &str, exit: i32) -> Self {
        self.salidas.push((cmd, stdout.into(), exit));
        self
    }

    #[allow(dead_code)]
    fn se_llamo_a(&self, cmd: &str) -> bool {
        self.llamadas.borrow().iter().any(|c| c == cmd)
    }
}

impl Runner for FakeRunner {
    fn version_gestor(&self) -> String {
        self.gestor.clone()
    }
    fn version_node(&self) -> Option<String> {
        self.node.clone()
    }
    fn run(&self, args: &[&str]) -> Result<RunnerOutput, ErrorIo> {
        self.llamadas.borrow_mut().push(args.join(" "));
        let primero = args.first().copied().unwrap_or_default();
        self.salidas
            .iter()
            .find(|(cmd, _, _)| *cmd == primero)
            .map(|(_, stdout, exit)| RunnerOutput { stdout: stdout.clone(), stderr: String::new(), exit_code: *exit })
            .ok_or_else(|| ErrorIo { clase: ClaseError::InvalidInput, mensaje: format!("unexpected command: {primero}") })
    }
}

const LS_JSON: &str = r#"{
    "dependencies": {
        "@alibaba-group/open-code-review": {"version": "1.10.2"},
        "context-mode": {"version": "1.0.169"},
        "hunkdiff": {"version": "0.17.2"}
    }
}"#;
const OUTDATED_JSON: &str = r#"{
    "context-mode": {"current": "1.0.169", "wanted": "1.0.169", "latest": "1.0.170"},
    "hunkdiff": {"current": "0.17.2", "wanted": "0.17.3", "latest": "0.18.0"}
}"#;

fn runner_npm() -> FakeRunner {
    FakeRunner::new("11.4.2")
        .con_node(Some("26.2.0"))
        .respuesta("ls", LS_JSON, 0)
        .respuesta("outdated", OUTDATED_JSON, 0)
        .respuesta("install", "added 1 package in 2s", 0)
}

#[test]
fn parse_ls_toma_las_dependencies_del_objeto() {
    let pares = parse_ls(LS_JSON);
    assert_eq!(pares.len(), 3);
    assert!(pares.contains(&("hunkdiff".to_string(), "0.17.2".to_string())));
}

#[test]
fn parse_ls_ignora_entradas_sin_version() {
    let ls = r#"{"dependencies": {"roto": {"missing": true}, "sano": {"version": "1.0.0"}}}"#;
    let pares = parse_ls(ls);
    assert_eq!(pares, vec![("sano".to_string(), "1.0.0".to_string())]);
}

#[test]
fn snapshot_detecta_desactualizados_y_reporta_amblas_versiones() {
    let snap = snapshot(&runner_npm()).expect("valid snapshot");
    assert_eq!(snap.version_gestor, "11.4.2");
    assert_eq!(snap.version_node.as_deref(), Some("26.2.0"));
    assert_eq!(snap.packages.len(), 3);
    let hunkdiff = snap.packages.iter().find(|p| p.name == "hunkdiff").unwrap();
    assert!(hunkdiff.outdated);
    assert_eq!(hunkdiff.latest.as_deref(), Some("0.18.0"));
}

#[test]
fn snapshot_filtra_al_propio_npm_de_la_lista() {
    let ls = r#"{"dependencies": {"npm": {"version": "11.4.2"}, "hunkdiff": {"version": "0.17.2"}}}"#;
    let runner = FakeRunner::new("11.4.2").respuesta("ls", ls, 0).respuesta("outdated", "", 0);
    let snap = snapshot(&runner).expect("valid snapshot");
    assert_eq!(snap.packages.len(), 1);
    assert_eq!(snap.packages[0].name, "hunkdiff");
}

#[test]
fn snapshot_con_outdated_vacio_deja_todo_al_dia() {
    let runner = FakeRunner::new("11.4.2").respuesta("ls", LS_JSON, 0).respuesta("outdated", "", 0);
    let snap = snapshot(&runner).expect("empty is valid");
    assert_eq!(snap.packages.len(), 3);
    assert!(snap.packages.iter().all(|p| !p.outdated));
}

#[test]
fn npm_snapshot_trata_exit_1_de_outdated_como_valido() {
    let runner = FakeRunner::new("11.4.2").respuesta("ls", LS_JSON, 0).respuesta("outdated", OUTDATED_JSON, 1);
    let snap = snapshot(&runner).expect("exit 1 is not an error");
    assert!(snap.packages.iter().any(|p| p.outdated));
}

#[test]
fn snapshot_falla_si_ls_no_produce_json() {
    let runner = FakeRunner::new("11.4.2").respuesta("ls", "ENOTFOUND registry", 1);
    assert!(snapshot(&runner).is_err());
}

#[test]
fn snapshot_falla_si_outdated_falla_sin_json() {
    let runner = FakeRunner::new("11.4.2").respuesta("ls", LS_JSON, 0).respuesta("outdated", "", 1);
    assert!(snapshot(&runner).is_err());
}

#[test]
fn snapshot_propaga_fallo_de_spawn() {
    struct Roto;
    impl Runner for Roto {
        fn version_gestor(&self) -> String {
            "11.4.2".into()
        }
        fn run(&self, _args: &[&str]) -> Result<RunnerOutput, ErrorIo> {
            Err(ErrorIo { clase: ClaseError::NotFound, mensaje: ("spawn").into() })
        }
    }
    assert!(snapshot(&Roto).is_err());
}

// ---- further cases ----

#[test]
fn npm_snapshot_no_consulta_outdated_si_ls_falla() {
    let runner = FakeRunner::new("11.4.2").respuesta("ls", "", 1).respuesta("outdated", OUTDATED_JSON, 0);
    assert_eq!(snapshot(&runner).unwrap_err(), "npm ls failed (exit 1): ");
    assert!(!runner.se_llamo_a("outdated -g --json"));
}

#[test]
fn npm_parse_ls_de_documentos_raros() {
    assert!(parse_ls("no json").is_empty());
    assert!(parse_ls("[1, 2]").is_empty());
    assert!(parse_ls(r#"{"dependencies": [1]}"#).is_empty());
    assert_eq!(parse_ls(r#"{"dependencies": {"a": {"version": 3}, "b": {"version": "2"}}}"#), vec![("b".to_string(), "2".to_string())]);
}
