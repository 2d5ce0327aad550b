use nuupa::cola::{Cola, EventoCola, EventoPaquete, Motivo, Paso, ResultadoCola, Resumen};
use nuupa::kernel::{ClaseError, ErrorIo, instalar, Runner, RunnerOutput, Snapshot};
use nuupa::npm::snapshot;
use std::cell::{Cell, RefCell};
use std::rc::Rc;

// Toy manager with npm's protocol: two outdated (context-mode, hunkdiff)
// and one up to date.
const LS_JSON: &str = r#"{"dependencies": {
    "@alibaba-group/open-code-review": {"version": "1.10.2"},
    "context-mode": {"version": "1.0.169"},
    "hunkdiff": {"version": "0.17.2"}
}}"#;
const OUTDATED_JSON: &str = r#"{"context-mode": {"latest": "1.0.170"}, "hunkdiff": {"latest": "0.18.0"}}"#;

/// What the queue reads before each step, shared with the runner: the
/// Stop flag and the manager's exclusions.
#[derive(Clone, Default)]
struct Entorno {
    parar: Rc<Cell<bool>>,
    excluidos: Rc<RefCell<Vec<String>>>,
}

/// How the fake's installs behave.
#[derive(Clone, Copy)]
enum Instalacion {
    /// Every install succeeds.
    Bien,
    /// Installing context-mode excludes hunkdiff meanwhile.
    ExcluyeAlSegundo,
    /// Only the first install fails (exit 1).
    FallaLaPrimera,
    /// The first install hits its deadline.
    VenceLaPrimera,
}

struct FakeRunner {
    outdated: &'static str,
    entorno: Entorno,
    instalacion: Instalacion,
    intentos: Cell<usize>,
}

impl FakeRunner {
    fn new(entorno: &Entorno, instalacion: Instalacion) -> Self {
        FakeRunner { outdated: OUTDATED_JSON, entorno: entorno.clone(), instalacion, intentos: Cell::new(0) }
    }

    fn salida(stdout: &str, exit_code: i32) -> Result<RunnerOutput, ErrorIo> {
        Ok(RunnerOutput { stdout: stdout.into(), stderr: String::new(), exit_code })
    }
}

impl Runner for FakeRunner {
    fn version_gestor(&self) -> String {
        "11.4.2".into()
    }
    fn run(&self, args: &[&str]) -> Result<RunnerOutput, ErrorIo> {
        match args.first().copied() {
            Some("ls") => Self::salida(LS_JSON, 0),
            Some("outdated") => Self::salida(self.outdated, 0),
            Some("install") => {
                // faithful to the engine: Stop cuts the install in flight
                if self.entorno.parar.get() {
                    return Err(ErrorIo { clase: ClaseError::Interrupted, mensaje: ("detenido").into() });
                }
                let n = self.intentos.get();
                self.intentos.set(n + 1);
                match self.instalacion {
                    Instalacion::Bien => Self::salida("added 1 package in 2s", 0),
                    Instalacion::ExcluyeAlSegundo => {
                        if args.contains(&"context-mode@latest") {
                            // while the 1st runs, someone excludes the 2nd
                            self.entorno.excluidos.borrow_mut().push("hunkdiff".to_string());
                        }
                        Self::salida("added 1 package in 2s", 0)
                    }
                    Instalacion::FallaLaPrimera => {
                        if n == 0 {
                            Self::salida("EACCES", 1)
                        } else {
                            Self::salida("ok", 0)
                        }
                    }
                    Instalacion::VenceLaPrimera => {
                        if n == 0 {
                            Err(ErrorIo { clase: ClaseError::TimedOut, mensaje: ("npm no respondió en 300 s (proceso finalizado)").into() })
                        } else {
                            Self::salida("added 1 package in 2s", 0)
                        }
                    }
                }
            }
            otro => Err(ErrorIo { clase: ClaseError::InvalidInput, mensaje: format!("unexpected command: {otro:?}") }),
        }
    }
}

/// Drives the queue as the app does: built on the state at start, each
/// step asked with the exclusions and the Stop flag as they are now, the
/// install reported back, a single refresh at the end.
fn correr(runner: &FakeRunner, entorno: &Entorno, emitir: &mut dyn FnMut(&EventoCola)) -> (Resumen, Snapshot) {
    entorno.parar.set(false);
    let inicio = snapshot(runner).unwrap();
    let excluidos = entorno.excluidos.borrow().clone();
    let mut cola = Cola::nueva(&inicio.packages, &excluidos);
    loop {
        let excluidos = entorno.excluidos.borrow().clone();
        match cola.paso(entorno.parar.get(), &excluidos) {
            Paso::Terminar => break,
            Paso::Saltar(_) => {}
            Paso::Instalar(paquete) => {
                emitir(&EventoCola::Empieza { paquete: paquete.clone() });
                let fin = instalar(runner, "install", &paquete, &mut |linea: &str| {
                    emitir(&EventoCola::Linea { paquete: paquete.clone(), linea: linea.to_string() })
                });
                let resultado = cola.registrar(paquete, fin);
                emitir(&EventoCola::Resultado(resultado));
            }
        }
    }
    let final_ = snapshot(runner).unwrap().con_comando("npm i -g");
    (cola.resumen(), final_)
}

fn cola_con(runner: &FakeRunner, entorno: &Entorno) -> (Resumen, Snapshot) {
    correr(runner, entorno, &mut |_| {})
}

#[test]
fn actualiza_solo_los_desactualizados_en_orden_y_refresca_al_final() {
    let entorno = Entorno::default();
    let (resumen, snap) = cola_con(&FakeRunner::new(&entorno, Instalacion::Bien), &entorno);
    assert_eq!(resumen, Resumen { total: 2, ok: 2, failed: 0, detenidos: 0, detenida: false });
    assert_eq!(snap.comando_actualizar, "npm i -g");
    assert_eq!(snap.espacio.packages.len(), 3);
}

#[test]
fn salta_a_los_excluidos_desde_el_arranque() {
    let entorno = Entorno::default();
    entorno.excluidos.borrow_mut().push("hunkdiff".to_string());
    let (resumen, _) = cola_con(&FakeRunner::new(&entorno, Instalacion::Bien), &entorno);
    // hunkdiff excluded: the queue is built WITHOUT it
    assert_eq!(resumen.total, 1);
    assert_eq!(resumen.ok, 1);
}

#[test]
fn excluir_a_mitad_de_cola_salta_al_ya_encolado() {
    let entorno = Entorno::default();
    let (resumen, _) = cola_con(&FakeRunner::new(&entorno, Instalacion::ExcluyeAlSegundo), &entorno);
    // context-mode ran; hunkdiff got excluded mid-queue: skipped
    assert_eq!(resumen.total, 2); // built with both
    assert_eq!(resumen.ok, 1);
    assert!(!resumen.detenida); // skipping is not stopping
}

#[test]
fn detener_finaliza_el_en_curso_como_detenido_y_no_toca_los_pendientes() {
    let entorno = Entorno::default();
    let runner = FakeRunner::new(&entorno, Instalacion::Bien);
    let mut eventos = Vec::new();
    let parar = entorno.parar.clone();
    let (resumen, _) = correr(&runner, &entorno, &mut |ev| match ev {
        EventoCola::Empieza { paquete } => {
            // Stop requested AS the first package starts: the install is
            // cut mid-flight, the second one never starts.
            if paquete == "context-mode" {
                parar.set(true);
            }
            eventos.push(format!("empieza {paquete}"));
        }
        EventoCola::Resultado(r) => eventos.push(format!("resultado {} {:?}", r.paquete, r.motivo)),
        EventoCola::Linea { .. } => {}
    });
    // the in-flight one was CUT (not failed), the pending one intact
    assert_eq!(eventos, vec!["empieza context-mode".to_string(), "resultado context-mode Detenido".to_string()]);
    assert_eq!(resumen, Resumen { total: 2, ok: 0, failed: 0, detenidos: 1, detenida: true });
}

#[test]
fn sin_desactualizados_la_cola_es_cero_y_no_detenida() {
    let entorno = Entorno::default();
    let mut runner = FakeRunner::new(&entorno, Instalacion::Bien);
    runner.outdated = "";
    let (resumen, snap) = cola_con(&runner, &entorno);
    assert_eq!(resumen, Resumen { total: 0, ok: 0, failed: 0, detenidos: 0, detenida: false });
    assert!(snap.espacio.packages.iter().all(|p| !p.outdated));
}

#[test]
fn un_fallo_puntual_no_detiene_a_los_demas() {
    let entorno = Entorno::default();
    let (resumen, _) = cola_con(&FakeRunner::new(&entorno, Instalacion::FallaLaPrimera), &entorno);
    assert_eq!(resumen, Resumen { total: 2, ok: 1, failed: 1, detenidos: 0, detenida: false });
}

#[test]
fn timeout_de_un_paquete_lo_marca_con_motivo_y_la_cola_sigue() {
    let entorno = Entorno::default();
    let runner = FakeRunner::new(&entorno, Instalacion::VenceLaPrimera);
    let mut resultados = Vec::new();
    let (resumen, _) = correr(&runner, &entorno, &mut |ev| {
        if let EventoCola::Resultado(r) = ev {
            resultados.push((r.paquete.clone(), r.motivo));
        }
    });
    // the deadlined one is failed WITH its reason; the next one ran
    assert_eq!(resumen, Resumen { total: 2, ok: 1, failed: 1, detenidos: 0, detenida: false });
    assert_eq!(
        resultados,
        vec![("context-mode".to_string(), Motivo::PlazoVencido), ("hunkdiff".to_string(), Motivo::Exito)]
    );
}

// ---- further cases ----

#[test]
fn la_salida_del_resultado_es_la_del_comando_o_la_del_error() {
    let entorno = Entorno::default();
    let runner = FakeRunner::new(&entorno, Instalacion::VenceLaPrimera);
    let mut salidas = Vec::new();
    let mut lineas = Vec::new();
    correr(&runner, &entorno, &mut |ev| match ev {
        EventoCola::Resultado(r) => salidas.push(r.salida.clone()),
        EventoCola::Linea { paquete, linea } => lineas.push(format!("{paquete}: {linea}")),
        EventoCola::Empieza { .. } => {}
    });
    assert_eq!(
        salidas,
        vec!["npm no respondió en 300 s (proceso finalizado)".to_string(), "added 1 package in 2s".to_string()]
    );
    assert_eq!(lineas, vec!["hunkdiff: added 1 package in 2s".to_string()]);
}

#[test]
fn stop_antes_de_empezar_no_instala_nada() {
    let entorno = Entorno::default();
    let paquetes = snapshot(&FakeRunner::new(&entorno, Instalacion::Bien)).unwrap().packages;
    let mut cola = Cola::nueva(&paquetes, &Vec::new());
    assert_eq!(cola.paso(true, &Vec::new()), Paso::Terminar);
    assert_eq!(cola.resumen(), Resumen { total: 2, ok: 0, failed: 0, detenidos: 0, detenida: true });
}

#[test]
fn eventos_de_fila_empieza_y_resultado() {
    let e = EventoPaquete::empieza("npm", "hunkdiff");
    assert_eq!((e.tipo.as_str(), e.gestor.as_str(), e.paquete.as_str()), ("empieza", "npm", "hunkdiff"));
    assert!(e.salida.is_none() && e.motivo.is_none());
    let r = ResultadoCola { paquete: "hunkdiff".into(), salida: "EACCES".into(), motivo: Motivo::Fallo };
    let e = EventoPaquete::resultado("pnpm", &r);
    assert_eq!((e.tipo.as_str(), e.gestor.as_str(), e.paquete.as_str()), ("resultado", "pnpm", "hunkdiff"));
    assert_eq!(e.salida.as_deref(), Some("EACCES"));
    assert_eq!(e.motivo, Some(Motivo::Fallo));
}
