use nuupa::gestores::{correr_snapshot, correr_update, def_gestor_en, gestores, validar_gestor, DefinicionGestor, Gestor};
use nuupa::kernel::{ClaseError, ErrorIo, Runner, RunnerOutput};

struct FakeRunner {
    gestor: String,
    salidas: Vec<(&'static str, String, i32)>,
}

impl FakeRunner {
    fn new(gestor: &str) -> Self {
        Self { gestor: gestor.into(), salidas: Vec::new() }
    }

    fn respuesta(mut self, cmd: &'static str, stdout: &str, exit: i32) -> Self {
        self.salidas.push((cmd, stdout.into(), exit));
        self
    }
}

impl Runner for FakeRunner {
    fn version_gestor(&self) -> String {
        self.gestor.clone()
    }
    fn version_node(&self) -> Option<String> {
        Some("26.2.0".into())
    }
    fn run(&self, args: &[&str]) -> Result<RunnerOutput, ErrorIo> {
        let primero = args.first().copied().unwrap_or_default();
        self.salidas
            .iter()
            .find(|(cmd, _, _)| *cmd == primero)
            .map(|(_, stdout, exit)| RunnerOutput { stdout: stdout.clone(), stderr: String::new(), exit_code: *exit })
            .ok_or_else(|| ErrorIo { clase: ClaseError::InvalidInput, mensaje: format!("unexpected command: {primero}") })
    }
}

const LS_JSON: &str = r#"{"dependencies": {"hunkdiff": {"version": "0.17.2"}}}"#;
const OUTDATED_JSON: &str = r#"{"hunkdiff": {"latest": "0.18.0"}}"#;

fn def_falsa() -> DefinicionGestor {
    DefinicionGestor { gestor: Gestor::Npm, nombre: "falso".into(), comando: "falso i -g".into(), verbo: "install".into() }
}

fn runner_falso() -> Result<FakeRunner, ErrorIo> {
    Ok(FakeRunner::new("1.0.0")
        .respuesta("ls", LS_JSON, 0)
        .respuesta("outdated", OUTDATED_JSON, 0)
        .respuesta("install", "added 1 package in 2s", 0))
}

#[test]
fn npm_pnpm_y_bun_soportados() {
    assert!(validar_gestor("npm").is_ok());
    assert!(validar_gestor("pnpm").is_ok());
    assert!(validar_gestor("bun").is_ok());
}

#[test]
fn gestores_no_soportados_rechazados() {
    for g in ["yarn", "", "--force"] {
        assert!(validar_gestor(g).is_err(), "{g} must not pass");
    }
}

#[test]
fn correr_snapshot_ensambla_el_comando_visible_del_def() {
    let snap = correr_snapshot(&def_falsa(), runner_falso()).expect("valid snapshot");
    assert_eq!(snap.comando_actualizar, "falso i -g");
    assert_eq!(snap.espacio.version_gestor, "1.0.0");
    assert!(snap.espacio.packages.iter().any(|p| p.outdated));
}

#[test]
fn correr_update_usa_el_verbo_del_def_y_streamea_lineas() {
    let mut lineas = Vec::new();
    let out = correr_update(&def_falsa(), runner_falso(), "hunkdiff", &mut |l| lineas.push(l.to_string())).expect("valid update");
    assert!(out.success);
    assert_eq!(lineas, vec!["added 1 package in 2s"]);
}

#[test]
fn correr_update_con_gestor_roto_propaga_el_error() {
    let roto: Result<FakeRunner, ErrorIo> = Err(ErrorIo { clase: ClaseError::NotFound, mensaje: ("no binary").into() });
    let err = correr_update(&def_falsa(), roto, "hunkdiff", &mut |_| {}).unwrap_err();
    assert!(err.contains("no binary"));
}

#[test]
fn exclusiones_gestor_desconocido_rechazado_por_el_wrapper() {
    assert!(validar_gestor("yarn").is_err());
}

// ---- further cases ----

#[test]
fn tabla_de_gestores_y_mensaje() {
    let t = gestores();
    let pnpm = def_gestor_en(&t, "pnpm").unwrap();
    assert_eq!(pnpm.comando, "pnpm add -g");
    assert_eq!(pnpm.verbo, "add");
    assert_eq!(def_gestor_en(&t, "npm").unwrap().verbo, "install");
    assert_eq!(def_gestor_en(&t, "yarn").unwrap_err(), "unsupported manager: yarn");
    assert_eq!(validar_gestor("yarn").unwrap_err(), "unsupported manager: yarn");
}
