use nuupa::kernel::{ClaseError, ErrorIo, TipoFallo, tipo_de_error, 
    armar, con_extension, elegir_version, guard_json, instalar, interpretar_alias, no_encontrado, parse_outdated,
    plazo_vencido, plazo_consulta, primer_existente, resultado_instalacion, sin_v, validar_nombre, version_de_salida,
    version_key, EspacioGlobal, MapaVersiones, PasoAlias, Runner, RunnerOutput,
};
use std::cell::RefCell;

struct FakeRunner {
    gestor: String,
    node: Option<String>,
    salidas: Vec<(&'static str, String, i32)>,
    llamadas: RefCell<Vec<String>>,
}

impl FakeRunner {
    fn new(gestor: &str) -> Self {
        Self { gestor: gestor.into(), node: Some("26.2.0".into()), salidas: Vec::new(), llamadas: RefCell::new(Vec::new()) }
    }

    fn respuesta(mut self, cmd: &'static str, stdout: &str, exit: i32) -> Self {
        self.salidas.push((cmd, stdout.into(), exit));
        self
    }

    fn se_llamo_a(&self, cmd: &str) -> bool {
        self.llamadas.borrow().iter().any(|c| c == cmd)
    }
}

impl Runner for FakeRunner {
    fn version_gestor(&self) -> String {
        self.gestor.clone()
    }
    fn version_node(&self) -> Option<String> {
        self.node.clone()
    }
    fn run(&self, args: &[&str]) -> Result<RunnerOutput, ErrorIo> {
        self.llamadas.borrow_mut().push(args.join(" "));
        let primero = args.first().copied().unwrap_or_default();
        self.salidas
            .iter()
            .find(|(cmd, _, _)| *cmd == primero)
            .map(|(_, stdout, exit)| RunnerOutput { stdout: stdout.clone(), stderr: String::new(), exit_code: *exit })
            .ok_or_else(|| ErrorIo { clase: ClaseError::InvalidInput, mensaje: format!("unexpected command: {primero}") })
    }
}

const LS_JSON: &str = r#"{
    "dependencies": {
        "@alibaba-group/open-code-review": {"version": "1.10.2"},
        "context-mode": {"version": "1.0.169"},
        "hunkdiff": {"version": "0.17.2"}
    }
}"#;
const OUTDATED_JSON: &str = r#"{
    "context-mode": {"current": "1.0.169", "wanted": "1.0.169", "latest": "1.0.170"},
    "hunkdiff": {"current": "0.17.2", "wanted": "0.17.3", "latest": "0.18.0"}
}"#;

fn runner_npm() -> FakeRunner {
    FakeRunner::new("11.4.2")
        .respuesta("ls", LS_JSON, 0)
        .respuesta("outdated", OUTDATED_JSON, 0)
        .respuesta("install", "added 1 package in 2s", 0)
}

#[test]
fn parse_outdated_mapea_nombre_a_latest() {
    let map = parse_outdated(OUTDATED_JSON);
    assert_eq!(map.len(), 2);
    assert_eq!(map.get("context-mode").map(String::as_str), Some("1.0.170"));
    assert_eq!(map.get("hunkdiff").map(String::as_str), Some("0.18.0"));
}

#[test]
fn parse_outdated_con_basura_da_mapa_vacio() {
    assert!(parse_outdated("ENOTFOUND registry").is_empty());
    assert!(parse_outdated("").is_empty());
}

#[test]
fn armar_ordena_hereda_latest_y_marca_desactualizados() {
    let pares = vec![
        ("hunkdiff".to_string(), "0.17.2".to_string()),
        ("@alibaba-group/open-code-review".to_string(), "1.10.2".to_string()),
    ];
    let mut outdated = MapaVersiones::new();
    outdated.insert("hunkdiff".to_string(), "0.18.0".to_string());
    let pkgs = armar(pares, &outdated);
    assert_eq!(pkgs.len(), 2);
    assert_eq!(pkgs[0].name, "@alibaba-group/open-code-review");
    assert!(!pkgs[0].outdated);
    assert_eq!(pkgs[0].latest.as_deref(), Some("1.10.2"));
    assert!(pkgs[1].outdated);
    assert_eq!(pkgs[1].latest.as_deref(), Some("0.18.0"));
}

#[test]
fn armar_filtra_los_paquetes_de_gestor() {
    let pares = vec![
        ("npm".to_string(), "11.4.2".to_string()),
        ("hunkdiff".to_string(), "0.17.2".to_string()),
        ("pnpm".to_string(), "10.33.0".to_string()),
        ("bun".to_string(), "1.3.14".to_string()),
    ];
    let pkgs = armar(pares, &MapaVersiones::new());
    assert_eq!(pkgs.len(), 1);
    assert_eq!(pkgs[0].name, "hunkdiff");
}

#[test]
fn guard_json_deja_pasar_exit_1_con_json_utilizable() {
    let out = RunnerOutput { stdout: "{...}".into(), stderr: String::new(), exit_code: 1 };
    assert!(guard_json(&out, "npm", "outdated", '{').is_ok());
}

#[test]
fn guard_json_falla_exit_1_sin_json() {
    let out = RunnerOutput { stdout: String::new(), stderr: "ENOTFOUND".into(), exit_code: 1 };
    assert!(guard_json(&out, "npm", "outdated", '{').is_err());
}

#[test]
fn instalar_usa_el_verbo_del_gestor_y_streamea() {
    let runner = runner_npm();
    let mut lineas = Vec::new();
    let out = instalar(&runner, "install", "hunkdiff", &mut |l| lineas.push(l.to_string())).expect("valid install");
    assert!(runner.se_llamo_a("install -g hunkdiff@latest"));
    assert!(out.success);
    assert_eq!(lineas, vec!["added 1 package in 2s"]);
}

#[test]
fn instalar_con_verbo_add_sirve_a_pnpm_y_bun() {
    let runner = FakeRunner::new("10.33.0").respuesta("add", "Done in 1.5s", 0);
    let out = instalar(&runner, "add", "cowsay", &mut |_| {}).unwrap();
    assert!(out.success);
    assert!(runner.se_llamo_a("add -g cowsay@latest"));
}

#[test]
fn instalar_fallido_devuelve_success_false() {
    let runner = FakeRunner::new("11.4.2").respuesta("install", "EACCES", 1);
    let out = instalar(&runner, "install", "hunkdiff", &mut |_| {}).unwrap();
    assert!(!out.success);
}

#[test]
fn instalar_rechaza_nombres_invalidos() {
    let runner = runner_npm();
    assert!(instalar(&runner, "install", "", &mut |_| {}).is_err());
    let mut lineas: Vec<String> = Vec::new();
    let falla = instalar(&runner, "install", "--force", &mut |l| lineas.push(l.to_string())).unwrap_err();
    assert_eq!(falla.clase, ClaseError::InvalidInput);
    assert!(lineas.is_empty());
    assert!(!runner.se_llamo_a("install -g --force@latest"));
}

#[test]
fn instalar_funciona_con_paquetes_scoped() {
    let runner = runner_npm();
    let out = instalar(&runner, "install", "@alibaba-group/open-code-review", &mut |_| {}).expect("valid scoped name");
    assert!(out.success);
    assert!(runner.se_llamo_a("install -g @alibaba-group/open-code-review@latest"));
}

#[test]
fn espacio_global_con_comando_agrega_el_verbo_visible() {
    let espacio = EspacioGlobal { version_gestor: "11.4.2".into(), version_node: Some("26.2.0".into()), packages: Vec::new() };
    let snap = espacio.con_comando("npm i -g");
    assert_eq!(snap.comando_actualizar, "npm i -g");
    assert_eq!(snap.espacio.version_gestor, "11.4.2");
    assert_eq!(snap.espacio.version_node.as_deref(), Some("26.2.0"));
}

/// The installed versions as nvm lists them (`versions/node/v*`).
fn versiones_nvm(carpetas: &[&str]) -> Vec<String> {
    carpetas.iter().map(|c| sin_v(c).to_string()).collect()
}

/// Follows the alias chain from `default`, as the app does over
/// `~/.nvm/alias`, here over a table of alias files: at most five steps,
/// until a version.
fn alias_default(archivos: &[(&str, &str)]) -> Option<String> {
    let mut nombre = "default".to_string();
    for _ in 0..5 {
        let texto = archivos.iter().find(|(n, _)| *n == nombre)?.1;
        match interpretar_alias(texto) {
            PasoAlias::Version(v) => return Some(v),
            PasoAlias::Alias(a) => nombre = a,
        }
    }
    None
}

fn bin_de(elegida: Option<String>) -> Option<String> {
    elegida.map(|v| format!("versions/node/v{v}/bin"))
}

#[test]
fn resolver_nvm_prefiere_alias_default() {
    let versiones = versiones_nvm(&["v24.1.0", "v26.2.0"]);
    let alias = alias_default(&[("default", "24.1.0")]);
    assert_eq!(bin_de(elegir_version(versiones, alias)).as_deref(), Some("versions/node/v24.1.0/bin"));
}

#[test]
fn resolver_nvm_sigue_cadena_de_alias() {
    let versiones = versiones_nvm(&["v24.1.0", "v26.2.0"]);
    let alias = alias_default(&[("default", "node"), ("node", "lts/iron"), ("lts/iron", "24.1.0")]);
    assert_eq!(bin_de(elegir_version(versiones, alias)).as_deref(), Some("versions/node/v24.1.0/bin"));
}

#[test]
fn resolver_nvm_sin_alias_toma_la_mayor() {
    let versiones = versiones_nvm(&["v24.1.0", "v26.2.0"]);
    let alias = alias_default(&[]);
    assert_eq!(bin_de(elegir_version(versiones, alias)).as_deref(), Some("versions/node/v26.2.0/bin"));
}

#[test]
fn sin_v_quita_la_v_inicial() {
    assert_eq!(sin_v("v26.2.0"), "26.2.0");
    assert_eq!(sin_v("26.2.0"), "26.2.0");
    assert_eq!(sin_v(" v1.0.0 "), "1.0.0");
}

#[test]
fn no_encontrado_lista_el_path_y_las_rutas_exploradas() {
    let msg = no_encontrado("pnpm", &vec!["/Users/ejemplo/Library/pnpm".to_string(), "/opt/pnpm".to_string()]);
    assert!(msg.starts_with("pnpm not found. Searched in: PATH"), "{msg}");
    assert!(msg.contains("/Users/ejemplo/Library/pnpm"), "{msg}");
    assert!(msg.contains("/opt/pnpm"), "{msg}");
}

// ---- further cases ----

#[test]
fn no_encontrado_une_con_comas_en_orden() {
    let msg = no_encontrado("bun", &vec!["/a".to_string(), "/b".to_string()]);
    assert_eq!(msg, "bun not found. Searched in: PATH, /a, /b");
    assert_eq!(no_encontrado("npm", &Vec::new()), "npm not found. Searched in: PATH");
}

#[test]
fn guard_json_mensaje_con_exit_y_stderr_recortado() {
    let out = RunnerOutput { stdout: "nada".into(), stderr: "  ENOTFOUND registry \n".into(), exit_code: -2 };
    assert_eq!(guard_json(&out, "npm", "ls", '{').unwrap_err(), "npm ls failed (exit -2): ENOTFOUND registry");
    let ok = RunnerOutput { stdout: "  \n [1]".into(), stderr: String::new(), exit_code: 3 };
    assert!(guard_json(&ok, "pnpm", "ls", '[').is_ok());
    let cero = RunnerOutput { stdout: String::new(), stderr: "x".into(), exit_code: 0 };
    assert!(guard_json(&cero, "npm", "outdated", '{').is_ok());
}

#[test]
fn validar_nombre_casos() {
    assert!(validar_nombre("hunkdiff").is_ok());
    assert!(validar_nombre("@org/paquete").is_ok());
    let e = validar_nombre("-x").unwrap_err();
    assert_eq!(e.mensaje, "invalid package name: \"-x\"");
    assert_eq!(e.clase, ClaseError::InvalidInput);
    assert_eq!(validar_nombre("").unwrap_err().mensaje, "invalid package name: \"\"");
}

#[test]
fn resultado_instalacion_une_stderr_solo_si_dice_algo() {
    let u = resultado_instalacion(RunnerOutput { stdout: "a\n".into(), stderr: "warn".into(), exit_code: 0 });
    assert!(u.success);
    assert_eq!(u.output, "a\n\nwarn");
    let v = resultado_instalacion(RunnerOutput { stdout: "a".into(), stderr: " \n".into(), exit_code: 7 });
    assert!(!v.success);
    assert_eq!(v.output, "a");
}

#[test]
fn instalar_streamea_stdout_y_luego_stderr() {
    struct ConStderr;
    impl Runner for ConStderr {
        fn version_gestor(&self) -> String {
            "1".into()
        }
        fn run(&self, _args: &[&str]) -> Result<RunnerOutput, ErrorIo> {
            Ok(RunnerOutput { stdout: "uno\r\ndos\n".into(), stderr: "tres".into(), exit_code: 0 })
        }
    }
    let mut lineas = Vec::new();
    let out = instalar(&ConStderr, "add", "x", &mut |l| lineas.push(l.to_string())).unwrap();
    assert_eq!(lineas, vec!["uno", "dos", "tres"]);
    assert_eq!(out.output, "uno\r\ndos\n\ntres");
}

#[test]
fn elegir_version_prefiere_alias_instalado() {
    let versiones = vec!["24.1.0".to_string(), "26.2.0".to_string()];
    assert_eq!(elegir_version(versiones.clone(), Some("24.1.0".to_string())).as_deref(), Some("24.1.0"));
    assert_eq!(elegir_version(versiones, Some("20.0.0".to_string())).as_deref(), Some("26.2.0"));
    assert_eq!(elegir_version(Vec::new(), Some("1".to_string())), None);
    // numeric, not textual, order: 9 < 10
    assert_eq!(elegir_version(vec!["10.0.0".to_string(), "9.9.9".to_string()], None).as_deref(), Some("10.0.0"));
}

#[test]
fn version_key_partes_numericas() {
    assert_eq!(version_key("26.2.0"), vec![26, 2, 0]);
    assert_eq!(version_key("1.x.+3"), vec![1, 0, 3]);
    assert_eq!(version_key("99999999999999999999"), vec![0]);
}

#[test]
fn alias_versiones_y_cadenas() {
    assert_eq!(interpretar_alias(" v24.1.0\n"), PasoAlias::Version("24.1.0".to_string()));
    assert_eq!(interpretar_alias("lts/iron"), PasoAlias::Alias("lts/iron".to_string()));
    assert_eq!(interpretar_alias("node\n"), PasoAlias::Alias("node".to_string()));
}

#[test]
fn con_extension_por_plataforma() {
    assert_eq!(con_extension("pnpm", true), "pnpm.exe");
    assert_eq!(con_extension("pnpm", false), "pnpm");
}

#[test]
fn primer_existente_toma_el_primero_que_existe_en_orden() {
    assert_eq!(primer_existente(vec!["a", "b", "c"], &vec![false, true, true]), Some("b"));
    assert_eq!(primer_existente(vec!["a"], &vec![false]), None);
}

#[test]
fn version_de_salida_recorta_y_exige_exito() {
    let ok = RunnerOutput { stdout: " 11.4.2\n".into(), stderr: String::new(), exit_code: 0 };
    assert_eq!(version_de_salida(&ok).as_deref(), Some("11.4.2"));
    let mal = RunnerOutput { stdout: "11.4.2".into(), stderr: String::new(), exit_code: 1 };
    assert_eq!(version_de_salida(&mal), None);
    let vacio = RunnerOutput { stdout: "  ".into(), stderr: String::new(), exit_code: 0 };
    assert_eq!(version_de_salida(&vacio), None);
}

#[test]
fn plazo_vencido_nombra_el_programa_y_los_segundos() {
    assert_eq!(plazo_vencido("npm", plazo_consulta()), "npm no respondió en 60 s (proceso finalizado)");
}

#[test]
fn mapa_versiones_reemplaza_y_cuenta() {
    let mut m = MapaVersiones::new();
    m.insert("a".into(), "1".into());
    m.insert("a".into(), "2".into());
    assert_eq!(m.len(), 1);
    assert_eq!(m.get("a").map(String::as_str), Some("2"));
    assert_eq!(m.get("b"), None);
}

#[test]
fn el_error_del_runner_se_clasifica_por_su_clase() {
    assert_eq!(tipo_de_error(ClaseError::TimedOut), TipoFallo::PlazoVencido);
    assert_eq!(tipo_de_error(ClaseError::Interrupted), TipoFallo::Interrumpida);
    assert_eq!(tipo_de_error(ClaseError::NotFound), TipoFallo::Otro);
    assert_eq!(tipo_de_error(ClaseError::Otra), TipoFallo::Otro);
    struct Vencido;
    impl Runner for Vencido {
        fn version_gestor(&self) -> String {
            "1".into()
        }
        fn run(&self, _args: &[&str]) -> Result<RunnerOutput, ErrorIo> {
            Err(ErrorIo { clase: ClaseError::TimedOut, mensaje: "npm no respondió en 300 s (proceso finalizado)".into() })
        }
    }
    let falla = instalar(&Vencido, "install", "hunkdiff", &mut |_| {}).unwrap_err();
    assert_eq!(falla.tipo, TipoFallo::PlazoVencido);
    assert_eq!(falla.mensaje, "npm no respondió en 300 s (proceso finalizado)");
}
