//! Shared manager kernel: the domain types, the seam through which a
//! manager's process enters ([`Runner`]), and the logic every manager
//! shares: assembling the package list, recognising a failed JSON command,
//! validating names and installing.

use vstd::prelude::*;
use crate::orden::{Clave, ConNombre, ordenado_por_nombre, ordenar_por_nombre, en_orden, lema_ordenado_por_nombre, lema_ordenado_imagen};
use crate::json::{Json, JsonV, campo_texto, campo_texto_exec, json_de_texto, leer_json, vista_doc};
use vstd::string::StrSliceExecFns;
use crate::texto::{es_digito, leer_u64, leer_u64_exec, limites_recorte, sin_prefijo_repetido, trozos, trozos_exec, unir, anexar, caracteres, decimal, decimal_i32, decimal_nat, decimal_u64, depurado, empieza_con, lineas_exec, literal, recortado, sin_espacio_inicial, texto_de, texto_depurado};

verus! {

/// Global package: name, installed version, latest known version and
/// whether it is outdated (computed here: the UI never re-derives it).
#[derive(Debug, Clone, PartialEq)]
pub struct GlobalPackage {
    pub name: String,
    pub installed: String,
    pub latest: Option<String>,
    pub outdated: bool,
}

/// The mathematical value of a [`GlobalPackage`].
pub struct PaqueteV {
    pub name: Seq<char>,
    pub installed: Seq<char>,
    pub latest: Option<Seq<char>>,
    pub outdated: bool,
}

impl View for GlobalPackage {
    type V = PaqueteV;

    open spec fn view(&self) -> PaqueteV {
        PaqueteV {
            name: self.name@,
            installed: self.installed@,
            latest: match self.latest {
                Some(l) => Some(l@),
                None => None,
            },
            outdated: self.outdated,
        }
    }
}

/// The views of some packages.
pub open spec fn vistas(s: Seq<GlobalPackage>) -> Seq<PaqueteV> {
    s.map_values(|p: GlobalPackage| p@)
}

impl Clave for GlobalPackage {
    open spec fn clave(&self) -> Seq<char> {
        self.name@
    }
}

impl Clave for PaqueteV {
    open spec fn clave(&self) -> Seq<char> {
        self.name
    }
}

impl ConNombre for GlobalPackage {
    fn nombre(&self) -> (r: &String) {
        &self.name
    }
}

/// A manager's global space: its packages and versions.
#[derive(Debug, Clone, PartialEq)]
pub struct EspacioGlobal {
    /// Version of the manager itself (`npm --version`).
    pub version_gestor: String,
    /// Active node version when the manager runs on node (npm, pnpm);
    /// `None` for self-contained managers (bun).
    pub version_node: Option<String>,
    pub packages: Vec<GlobalPackage>,
}

/// The photo that crosses the seam to the UI: the global space plus the
/// visible update command.
#[derive(Debug, Clone, PartialEq)]
pub struct Snapshot {
    pub comando_actualizar: String,
    pub espacio: EspacioGlobal,
}

impl EspacioGlobal {
    /// Completes the global space with its visible command.
    pub fn con_comando(self, comando: &str) -> (r: Snapshot)
        ensures
            r.comando_actualizar@ == comando@,
            r.espacio == self,
    {
        Snapshot { comando_actualizar: comando.to_string(), espacio: self }
    }
}

/// The package list of a photo, or its error text.
pub open spec fn paquetes_o_error(r: Result<EspacioGlobal, String>) -> Result<Seq<PaqueteV>, Seq<char>> {
    match r {
        Ok(e) => Ok(vistas(e.packages@)),
        Err(m) => Err(m@),
    }
}

/// Result of updating a global package.
#[derive(Debug)]
pub struct UpdateOutcome {
    pub success: bool,
    pub output: String,
}

/// Output of a manager command: stdout, stderr and exit code.
///
/// npm/pnpm `outdated` exits with code 1 when there ARE outdated packages:
/// that is a valid result, not an error.
#[derive(Debug)]
pub struct RunnerOutput {
    pub stdout: String,
    pub stderr: String,
    pub exit_code: i32,
}

/// Deadline of a manager command, in milliseconds: `total` until the
/// escalation starts, `grace` between the courteous signal and the forced
/// kill.
#[derive(Debug, Clone, Copy)]
pub struct Plazo {
    pub total_ms: u64,
    pub grace_ms: u64,
}

/// Queries (`ls`, `outdated`, `--version`): a minute against the registry.
pub fn plazo_consulta() -> (p: Plazo)
    ensures
        p.total_ms == 60_000,
        p.grace_ms == 5_000,
{
    Plazo { total_ms: 60_000, grace_ms: 5_000 }
}

/// Installations (`install`/`add -g`): they legitimately take minutes.
pub fn plazo_instalacion() -> (p: Plazo)
    ensures
        p.total_ms == 300_000,
        p.grace_ms == 5_000,
{
    Plazo { total_ms: 300_000, grace_ms: 5_000 }
}

/// The message of an expired deadline: the program that never answered
/// and the whole seconds it was given.
pub open spec fn mensaje_plazo_vencido(programa: Seq<char>, total_ms: u64) -> Seq<char> {
    programa + " no respondió en "@ + decimal_nat((total_ms / 1000) as nat) + " s (proceso finalizado)"@
}

/// Writes the expired-deadline message.
pub fn plazo_vencido(programa: &str, plazo: Plazo) -> (r: String)
    ensures
        r@ == mensaje_plazo_vencido(programa@, plazo.total_ms),
{
    let mut v = caracteres(programa);
    anexar(&mut v, &literal(" no respondió en "));
    anexar(&mut v, &decimal_u64(plazo.total_ms / 1000));
    anexar(&mut v, &literal(" s (proceso finalizado)"));
    texto_de(&v)
}

/// The text of an I/O error (`io::Error`'s `Display`).
#[verifier::external_type_specification]
#[verifier::external_body]
pub struct ExErrorIo(std::io::Error);

/// Writes an `io::Error` with `to_string`. Nothing is claimed of the text:
/// it depends on the operating system's message for the error.
#[verifier::external_body]
pub fn texto_de_error(e: &std::io::Error) -> String {
    e.to_string()
}

/// Why an install did not finish: its deadline won, Stop cut it, or
/// something else.
#[derive(Debug, Clone, Copy, PartialEq, Eq)]
pub enum TipoFallo {
    PlazoVencido,
    Interrumpida,
    Otro,
}

/// An install that did not finish: why, the error's kind and its text.
#[derive(Debug)]
pub struct FallaInstalacion {
    pub tipo: TipoFallo,
    pub clase: ClaseError,
    pub mensaje: String,
}

/// The kind of a runner's error (the kinds of `io::ErrorKind` the
/// managers' runs give apart; any other kind is `Otra`).
#[derive(Debug, Clone, Copy, PartialEq, Eq)]
pub enum ClaseError {
    NotFound,
    PermissionDenied,
    InvalidInput,
    TimedOut,
    Interrupted,
    Otra,
}

/// An error as I/O reports it: its kind and its text (what a runner's run,
/// a discovery or a name check can fail with).
#[derive(Debug)]
pub struct ErrorIo {
    pub clase: ClaseError,
    pub mensaje: String,
}

/// Why an install whose runner failed did not finish: a timed-out run is
/// its deadline winning, an interrupted one is Stop cutting it mid-flight,
/// any other error is a plain failure.
pub open spec fn tipo_de_clase(c: ClaseError) -> TipoFallo {
    match c {
        ClaseError::TimedOut => TipoFallo::PlazoVencido,
        ClaseError::Interrupted => TipoFallo::Interrumpida,
        _ => TipoFallo::Otro,
    }
}

/// Classifies a runner's error ([`tipo_de_clase`]).
pub fn tipo_de_error(c: ClaseError) -> (t: TipoFallo)
    ensures
        t == tipo_de_clase(c),
{
    match c {
        ClaseError::TimedOut => TipoFallo::PlazoVencido,
        ClaseError::Interrupted => TipoFallo::Interrumpida,
        _ => TipoFallo::Otro,
    }
}

/// A call of `f` with the line `linea` can have ended: `f` was handed that
/// line.
pub open spec fn entregada<F: FnMut(&str)>(f: F, linea: Seq<char>) -> bool {
    exists|l: &str| l@ == linea && #[trigger] call_ensures(f, (l,), ())
}

/// Each of `lineas` was handed to `f`.
pub open spec fn lineas_entregadas<F: FnMut(&str)>(f: F, lineas: Seq<Seq<char>>) -> bool {
    forall|i: int| 0 <= i < lineas.len() ==> #[trigger] entregada(f, lineas[i])
}

/// Emits each line of `texto` ([`lineas`]) to `on_line`, in order.
pub fn emitir_lineas<F: FnMut(&str)>(texto: &String, on_line: &mut F)
    requires
        forall|l: &str| call_requires(*old(on_line), (l,)),
    ensures
        lineas_entregadas(*old(on_line), crate::texto::lineas(texto@)),
        *final(on_line) == *old(on_line),
{
    let v = caracteres(texto.as_str());
    let lineas = lineas_exec(&v);
    let ghost ls = crate::texto::lineas(texto@);
    let mut k: usize = 0;
    while k < lineas.len()
        invariant
            k <= lineas.len(),
            forall|l: &str| call_requires(*old(on_line), (l,)),
            ls == crate::texto::lineas(texto@),
            lineas.len() == ls.len(),
            forall|i: int| 0 <= i < lineas.len() ==> (#[trigger] lineas@[i])@ == ls[i],
            *on_line == *old(on_line),
            forall|i: int| 0 <= i < k ==> #[trigger] entregada(*old(on_line), ls[i]),
        decreases lineas.len() - k,
    {
        let l = texto_de(&lineas[k]);
        let s = l.as_str();
        on_line(s);
        assert(entregada(*old(on_line), ls[k as int])) by {
            assert(s@ == ls[k as int]);
            assert(call_ensures(*old(on_line), (s,), ()));
        }
        k = k + 1;
    }
}

/// The texts of a command's arguments.
pub open spec fn vista_args(args: Seq<&str>) -> Seq<Seq<char>> {
    args.map_values(|a: &str| a@)
}

/// Seam: the single point where a manager's real process enters the
/// system. Each runner says, through [`Runner::responde`], which answers
/// its manager can give to a command, and through the `informa_*`
/// functions which versions it reports; what its methods return is such
/// an answer. A runner that says nothing admits anything: code generic over
/// the runner never assumes those defaults.
pub trait Runner {
    /// Whether `r` is an answer the manager can give to the command whose
    /// arguments are `args`.
    closed spec fn responde(&self, args: Seq<Seq<char>>, r: Result<RunnerOutput, ErrorIo>) -> bool {
        true
    }

    /// Whether `v` is the manager's version as this runner reports it.
    closed spec fn informa_version_gestor(&self, v: Seq<char>) -> bool {
        true
    }

    /// Whether `v` is the active node version as this runner reports it.
    closed spec fn informa_version_node(&self, v: Seq<char>) -> bool {
        true
    }

    /// The manager's version.
    fn version_gestor(&self) -> (r: String)
        ensures
            self.informa_version_gestor(r@),
    ;

    /// The active node version, for managers that run on node; by default
    /// there is none.
    fn version_node(&self) -> (r: Option<String>)
        ensures
            r matches Some(v) ==> self.informa_version_node(v@),
        default_ensures
            r is None,
    {
        None
    }

    /// Runs the manager with `args` and collects its output.
    fn run(&self, args: &[&str]) -> (r: Result<RunnerOutput, ErrorIo>)
        ensures
            self.responde(vista_args(args@), r),
    ;

    /// Like `run`, but streams each stdout line to `on_line` as it arrives.
    /// By default it runs `run` and emits the already-complete lines of
    /// stdout, then of stderr, and returns what `run` gave.
    fn run_streaming<F: FnMut(&str)>(&self, args: &[&str], on_line: &mut F) -> (r: Result<RunnerOutput, ErrorIo>)
        requires
            forall|l: &str| call_requires(*old(on_line), (l,)),
        ensures
            self.responde(vista_args(args@), r),
            r matches Ok(out) ==> lineas_entregadas(*old(on_line), crate::texto::lineas(out.stdout@)),
        default_ensures
            self.responde(vista_args(args@), r),
            r matches Ok(out) ==> lineas_entregadas(*old(on_line), crate::texto::lineas(out.stdout@))
                && lineas_entregadas(*old(on_line), crate::texto::lineas(out.stderr@)),
    {
        match self.run(args) {
            Ok(out) => {
                emitir_lineas(&out.stdout, on_line);
                emitir_lineas(&out.stderr, on_line);
                Ok(out)
            },
            Err(e) => Err(e),
        }
    }
}

/// The versions of a photo are the ones the runner reports.
pub open spec fn versiones_informadas<R: Runner + ?Sized>(runner: &R, e: EspacioGlobal) -> bool {
    &&& runner.informa_version_gestor(e.version_gestor@)
    &&& e.version_node matches Some(v) ==> runner.informa_version_node(v@)
}

/// A map from package name to version: what `outdated` reports.
pub struct MapaVersiones {
    entradas: Vec<(String, String)>,
}

/// The map that a list of `(name, version)` entries denotes; a later entry
/// for a name overrides an earlier one.
pub open spec fn mapa_de(s: Seq<(String, String)>) -> Map<Seq<char>, Seq<char>>
    decreases s.len(),
{
    if s.len() == 0 {
        Map::empty()
    } else {
        mapa_de(s.drop_last()).insert(s.last().0@, s.last().1@)
    }
}

/// Same as [`mapa_de`], keeping the recorded `String`s themselves.
pub open spec fn mapa_cadenas(s: Seq<(String, String)>) -> Map<Seq<char>, String>
    decreases s.len(),
{
    if s.len() == 0 {
        Map::empty()
    } else {
        mapa_cadenas(s.drop_last()).insert(s.last().0@, s.last().1)
    }
}

proof fn lema_mapa_cadenas(s: Seq<(String, String)>)
    ensures
        mapa_cadenas(s).dom() == mapa_de(s).dom(),
        forall|k: Seq<char>| #[trigger] mapa_de(s).contains_key(k) ==> mapa_de(s)[k] == mapa_cadenas(s)[k]@,
    decreases s.len(),
{
    if s.len() > 0 {
        lema_mapa_cadenas(s.drop_last());
        assert(mapa_cadenas(s).dom() =~= mapa_de(s).dom());
    }
}

pub open spec fn claves_distintas(s: Seq<(String, String)>) -> bool {
    forall|i: int, j: int| 0 <= i < j < s.len() ==> #[trigger] s[i].0@ != #[trigger] s[j].0@
}

proof fn lema_mapa_de(s: Seq<(String, String)>)
    requires
        claves_distintas(s),
    ensures
        mapa_de(s).dom().finite(),
        mapa_de(s).dom().len() == s.len(),
        forall|k: Seq<char>| #[trigger] mapa_de(s).contains_key(k) <==> exists|i: int| 0 <= i < s.len() && s[i].0@ == k,
        forall|i: int| 0 <= i < s.len() ==> #[trigger] mapa_de(s)[s[i].0@] == s[i].1@,
    decreases s.len(),
{
    if s.len() > 0 {
        let p = s.drop_last();
        lema_mapa_de(p);
        assert forall|k: Seq<char>| #[trigger] mapa_de(s).contains_key(k) <==> exists|i: int| 0 <= i < s.len() && s[i].0@ == k by {
            if mapa_de(p).contains_key(k) {
                let i = choose|i: int| 0 <= i < p.len() && p[i].0@ == k;
                assert(s[i].0@ == k);
            }
            if exists|i: int| 0 <= i < s.len() && s[i].0@ == k {
                let i = choose|i: int| 0 <= i < s.len() && s[i].0@ == k;
                if i < s.len() - 1 {
                    assert(p[i].0@ == k);
                }
            }
        }
        assert(!mapa_de(p).contains_key(s.last().0@)) by {
            if mapa_de(p).contains_key(s.last().0@) {
                let i = choose|i: int| 0 <= i < p.len() && p[i].0@ == s.last().0@;
                assert(s[i].0@ == s[s.len() - 1].0@);
            }
        }
        assert forall|i: int| 0 <= i < s.len() implies #[trigger] mapa_de(s)[s[i].0@] == s[i].1@ by {
            if i < s.len() - 1 {
                assert(p[i] == s[i]);
                assert(s[i].0@ != s[s.len() - 1].0@);
            }
        }
    }
}

proof fn lema_mapa_cadenas_valor(s: Seq<(String, String)>)
    requires
        claves_distintas(s),
    ensures
        forall|i: int| 0 <= i < s.len() ==> #[trigger] mapa_cadenas(s)[s[i].0@] == s[i].1,
    decreases s.len(),
{
    if s.len() > 0 {
        let p = s.drop_last();
        lema_mapa_cadenas_valor(p);
        assert forall|i: int| 0 <= i < s.len() implies #[trigger] mapa_cadenas(s)[s[i].0@] == s[i].1 by {
            if i < s.len() - 1 {
                assert(p[i] == s[i]);
                assert(mapa_cadenas(p)[p[i].0@] == p[i].1);
                assert(s[i].0@ != s[s.len() - 1].0@);
            }
        }
    }
}

proof fn lema_mapa_actualizado(s: Seq<(String, String)>, i: int, k: String, v: String)
    requires
        claves_distintas(s),
        0 <= i < s.len(),
        s[i].0@ == k@,
    ensures
        claves_distintas(s.update(i, (k, v))),
        mapa_de(s.update(i, (k, v))) == mapa_de(s).insert(k@, v@),
    decreases s.len(),
{
    let t = s.update(i, (k, v));
    if i == s.len() - 1 {
        assert(t.drop_last() =~= s.drop_last());
        lema_mapa_de(s.drop_last());
        assert(mapa_de(s).insert(k@, v@) =~= mapa_de(s.drop_last()).insert(k@, v@));
    } else {
        lema_mapa_actualizado(s.drop_last(), i, k, v);
        assert(t.drop_last() =~= s.drop_last().update(i, (k, v)));
        assert(s.last().0@ != k@);
        assert(mapa_de(t) =~= mapa_de(s).insert(k@, v@));
    }
}

impl MapaVersiones {
    #[verifier::type_invariant]
    spec fn invariante(&self) -> bool {
        claves_distintas(self.entradas@)
    }

    pub closed spec fn vista(&self) -> Map<Seq<char>, Seq<char>> {
        mapa_de(self.entradas@)
    }

    /// The recorded versions, as the `String`s the map holds.
    pub closed spec fn valores(&self) -> Map<Seq<char>, String> {
        mapa_cadenas(self.entradas@)
    }

    /// The two views of the map agree.
    pub proof fn lema_valores(&self)
        ensures
            self.valores().dom() == self.vista().dom(),
            forall|k: Seq<char>| #[trigger] self.vista().contains_key(k) ==> self.vista()[k] == self.valores()[k]@,
    {
        lema_mapa_cadenas(self.entradas@);
    }

    /// An empty map.
    pub fn new() -> (r: Self)
        ensures
            r.vista() == Map::<Seq<char>, Seq<char>>::empty(),
    {
        MapaVersiones { entradas: Vec::new() }
    }

    /// The version recorded for `name`.
    #[verifier::loop_isolation(false)]
    pub fn get(&self, name: &str) -> (r: Option<&String>)
        ensures
            match r {
                Some(v) => self.vista().contains_key(name@) && self.vista()[name@] == v@
                    && self.valores()[name@] == *v,
                None => !self.vista().contains_key(name@),
            },
    {
        proof {
            use_type_invariant(self);
            lema_mapa_de(self.entradas@);
            lema_mapa_cadenas_valor(self.entradas@);
        }
        let clave = name.to_string();
        let mut i: usize = 0;
        while i < self.entradas.len()
            invariant
                i <= self.entradas.len(),
                clave@ == name@,
                forall|m: int| 0 <= m < i ==> self.entradas@[m].0@ != name@,
            decreases self.entradas.len() - i,
        {
            if self.entradas[i].0 == clave {
                assert(self.entradas@[i as int].0@ == name@);
                return Some(&self.entradas[i].1);
            }
            i = i + 1;
        }
        None
    }

    /// Records `version` for `name`, replacing what was recorded.
    #[verifier::loop_isolation(false)]
    pub fn insert(&mut self, name: String, version: String)
        ensures
            final(self).vista() == old(self).vista().insert(name@, version@),
    {
        proof {
            use_type_invariant(&*self);
            lema_mapa_de(self.entradas@);
        }
        let mut i: usize = 0;
        while i < self.entradas.len()
            invariant
                i <= self.entradas.len(),
                self.entradas@ == old(self).entradas@,
                claves_distintas(self.entradas@),
                forall|m: int| 0 <= m < i ==> self.entradas@[m].0@ != name@,
            decreases self.entradas.len() - i,
        {
            if self.entradas[i].0 == name {
                proof {
                    lema_mapa_actualizado(self.entradas@, i as int, name, version);
                }
                let mut entradas: Vec<(String, String)> = Vec::new();
                std::mem::swap(&mut entradas, &mut self.entradas);
                entradas.set(i, (name, version));
                self.entradas = entradas;
                return;
            }
            i = i + 1;
        }
        let ghost previas = self.entradas@;
        assert(previas == old(self).entradas@);
        let mut entradas: Vec<(String, String)> = Vec::new();
        std::mem::swap(&mut entradas, &mut self.entradas);
        let ghost antes = entradas@;
        assert(antes == previas);
        entradas.push((name, version));
        assert(entradas@.drop_last() =~= antes);
        assert(claves_distintas(entradas@)) by {
            assert forall|a: int, b: int| 0 <= a < b < entradas@.len() implies #[trigger] entradas@[a].0@ != #[trigger] entradas@[b].0@ by {
                assert(antes[a] == entradas@[a]);
                if b < antes.len() {
                    assert(antes[b] == entradas@[b]);
                } else {
                    assert(antes[a].0@ != name@);
                }
            }
        }
        self.entradas = entradas;
    }

    /// How many names the map holds.
    pub fn len(&self) -> (r: usize)
        ensures
            r == self.vista().len(),
    {
        proof {
            use_type_invariant(self);
            lema_mapa_de(self.entradas@);
        }
        self.entradas.len()
    }

    /// Whether the map holds no name.
    pub fn is_empty(&self) -> (r: bool)
        ensures
            r == (self.vista().len() == 0),
    {
        self.len() == 0
    }
}

/// "Paquete del gestor": npm, pnpm and bun themselves. They update
/// outside the app, so they never appear in any global space.
pub open spec fn es_paquete_de_gestor(name: Seq<char>) -> bool {
    name == "npm"@ || name == "pnpm"@ || name == "bun"@
}

/// One package of the list: `latest` is the reported version, or the
/// installed one when nothing was reported; outdated when they differ.
pub open spec fn armar_uno(par: (Seq<char>, Seq<char>), reportadas: Map<Seq<char>, Seq<char>>) -> PaqueteV {
    let latest = if reportadas.contains_key(par.0) {
        reportadas[par.0]
    } else {
        par.1
    };
    PaqueteV { name: par.0, installed: par.1, latest: Some(latest), outdated: latest != par.1 }
}

/// The pairs, in their order, without the manager packages, each made a
/// package.
pub open spec fn armados(pares: Seq<(Seq<char>, Seq<char>)>, reportadas: Map<Seq<char>, Seq<char>>) -> Seq<PaqueteV>
    decreases pares.len(),
{
    if pares.len() == 0 {
        seq![]
    } else {
        let r = armados(pares.drop_last(), reportadas);
        if es_paquete_de_gestor(pares.last().0) {
            r
        } else {
            r.push(armar_uno(pares.last(), reportadas))
        }
    }
}

/// The final package list: the packages of [`armados`], stably sorted by
/// name.
pub open spec fn lista_final(pares: Seq<(Seq<char>, Seq<char>)>, reportadas: Map<Seq<char>, Seq<char>>) -> Seq<PaqueteV> {
    ordenado_por_nombre(armados(pares, reportadas))
}

/// The views of `(name, version)` pairs.
pub open spec fn vistas_pares(s: Seq<(String, String)>) -> Seq<(Seq<char>, Seq<char>)> {
    s.map_values(|p: (String, String)| (p.0@, p.1@))
}

fn es_paquete_de_gestor_exec(name: &String) -> (r: bool)
    ensures
        r == es_paquete_de_gestor(name@),
{
    *name == "npm".to_string() || *name == "pnpm".to_string() || *name == "bun".to_string()
}

/// Assembles the final package list: `(name, installed)` pairs plus the
/// versions `outdated` reported. Shared by all managers; drops the manager
/// packages and sorts by name.
pub fn armar(pares: Vec<(String, String)>, outdated: &MapaVersiones) -> (r: Vec<GlobalPackage>)
    ensures
        vistas(r@) == lista_final(vistas_pares(pares@), outdated.vista()),
{
    let mut hechos: Vec<GlobalPackage> = Vec::new();
    let mut k: usize = 0;
    let ghost pv = vistas_pares(pares@);
    proof {
        outdated.lema_valores();
    }
    while k < pares.len()
        invariant
            k <= pares.len(),
            pv == vistas_pares(pares@),
            vistas(hechos@) == armados(pv.take(k as int), outdated.vista()),
            outdated.valores().dom() == outdated.vista().dom(),
            forall|x: Seq<char>| #[trigger] outdated.vista().contains_key(x) ==> outdated.vista()[x] == outdated.valores()[x]@,
        decreases pares.len() - k,
    {
        assert(pv.take(k + 1).drop_last() =~= pv.take(k as int));
        assert(pv.take(k + 1).last() == (pares@[k as int].0@, pares@[k as int].1@));
        let name = pares[k].0.clone();
        let installed = pares[k].1.clone();
        if !es_paquete_de_gestor_exec(&name) {
            let latest = match outdated.get(name.as_str()) {
                Some(l) => l.clone(),
                None => installed.clone(),
            };
            let outdated_flag = !(latest == installed);
            let ghost antes = hechos@;
            hechos.push(GlobalPackage { name, installed, latest: Some(latest), outdated: outdated_flag });
            assert(vistas(hechos@) =~= vistas(antes).push(hechos@.last()@));
        }
        k = k + 1;
    }
    assert(pv.take(pares.len() as int) =~= pv);
    let r = ordenar_por_nombre(hechos);
    proof {
        lema_ordenado_imagen(hechos@, |p: GlobalPackage| p@);
    }
    r
}

/// Whatever the pairs and the reported versions, the list is sorted by
/// name, holds the same packages as [`armados`], none of them a manager
/// package, and marks a package outdated exactly when its latest version
/// differs from the installed one.
pub proof fn ley_lista_final(pares: Seq<(Seq<char>, Seq<char>)>, reportadas: Map<Seq<char>, Seq<char>>)
    ensures
        en_orden(lista_final(pares, reportadas)),
        lista_final(pares, reportadas).to_multiset() == armados(pares, reportadas).to_multiset(),
        forall|i: int| 0 <= i < lista_final(pares, reportadas).len() ==> {
            let p = #[trigger] lista_final(pares, reportadas)[i];
            &&& !es_paquete_de_gestor(p.name)
            &&& p.latest is Some
            &&& p.outdated == (p.latest.unwrap() != p.installed)
        },
{
    lema_ordenado_por_nombre(armados(pares, reportadas));
    lema_armados(pares, reportadas);
    let l = lista_final(pares, reportadas);
    assert forall|i: int| 0 <= i < l.len() implies {
        let p = #[trigger] l[i];
        &&& !es_paquete_de_gestor(p.name)
        &&& p.latest is Some
        &&& p.outdated == (p.latest.unwrap() != p.installed)
    } by {
        assert(l.to_multiset().count(l[i]) > 0) by {
            broadcast use vstd::seq_lib::group_to_multiset_ensures;
        }
        assert(armados(pares, reportadas).to_multiset().count(l[i]) > 0);
        assert(armados(pares, reportadas).contains(l[i])) by {
            broadcast use vstd::seq_lib::group_to_multiset_ensures;
        }
    }
}

/// Row by row: every package of the list is made, by [`armar_uno`], of one
/// pair that is not a manager package (its name, its installed version, the
/// reported version as latest or else the installed one), and every such
/// pair makes a package of the list.
pub proof fn ley_lista_por_fila(pares: Seq<(Seq<char>, Seq<char>)>, reportadas: Map<Seq<char>, Seq<char>>)
    ensures
        forall|i: int| 0 <= i < lista_final(pares, reportadas).len() ==> exists|j: int|
            0 <= j < pares.len() && !es_paquete_de_gestor(pares[j].0)
            && #[trigger] lista_final(pares, reportadas)[i] == armar_uno(pares[j], reportadas),
        forall|j: int| 0 <= j < pares.len() && !es_paquete_de_gestor(#[trigger] pares[j].0)
            ==> lista_final(pares, reportadas).contains(armar_uno(pares[j], reportadas)),
{
    broadcast use vstd::seq_lib::group_to_multiset_ensures;
    lema_ordenado_por_nombre(armados(pares, reportadas));
    lema_armados_filas(pares, reportadas);
    let l = lista_final(pares, reportadas);
    let a = armados(pares, reportadas);
    assert forall|i: int| 0 <= i < l.len() implies exists|j: int|
        0 <= j < pares.len() && !es_paquete_de_gestor(pares[j].0) && #[trigger] l[i] == armar_uno(pares[j], reportadas) by {
        assert(l.to_multiset().count(l[i]) > 0);
        assert(a.to_multiset().count(l[i]) > 0);
        assert(a.contains(l[i]));
    }
    assert forall|j: int| 0 <= j < pares.len() && !es_paquete_de_gestor(#[trigger] pares[j].0)
        implies l.contains(armar_uno(pares[j], reportadas)) by {
        let p = armar_uno(pares[j], reportadas);
        assert(a.contains(p));
        assert(a.to_multiset().count(p) > 0);
        assert(l.to_multiset().count(p) > 0);
    }
}

/// Exactly npm, pnpm and bun are left out of the list: every pair named
/// otherwise makes a package of the list, and no package of the list is
/// named npm, pnpm or bun.
pub proof fn ley_solo_se_quitan_los_gestores(pares: Seq<(Seq<char>, Seq<char>)>, reportadas: Map<Seq<char>, Seq<char>>)
    ensures
        forall|j: int| 0 <= j < pares.len() && #[trigger] pares[j].0 != "npm"@ && pares[j].0 != "pnpm"@ && pares[j].0 != "bun"@
            ==> lista_final(pares, reportadas).contains(armar_uno(pares[j], reportadas)),
        forall|i: int| 0 <= i < lista_final(pares, reportadas).len() ==> {
            let n = (#[trigger] lista_final(pares, reportadas)[i]).name;
            n != "npm"@ && n != "pnpm"@ && n != "bun"@
        },
        forall|j: int| 0 <= j < pares.len() && #[trigger] pares[j].0 != "npm"@ && pares[j].0 != "pnpm"@ && pares[j].0 != "bun"@
            ==> exists|i: int| 0 <= i < lista_final(pares, reportadas).len()
                && #[trigger] lista_final(pares, reportadas)[i].name == pares[j].0,
{
    ley_lista_por_fila(pares, reportadas);
    ley_lista_final(pares, reportadas);
    let l = lista_final(pares, reportadas);
    assert forall|j: int| 0 <= j < pares.len() && #[trigger] pares[j].0 != "npm"@ && pares[j].0 != "pnpm"@ && pares[j].0 != "bun"@
        implies exists|i: int| 0 <= i < l.len() && #[trigger] l[i].name == pares[j].0 by {
        assert(!es_paquete_de_gestor(pares[j].0));
        assert(l.contains(armar_uno(pares[j], reportadas)));
        let i = choose|i: int| 0 <= i < l.len() && l[i] == armar_uno(pares[j], reportadas);
        assert(l[i].name == pares[j].0);
    }
}

proof fn lema_armados_filas(pares: Seq<(Seq<char>, Seq<char>)>, reportadas: Map<Seq<char>, Seq<char>>)
    ensures
        forall|p: PaqueteV| #[trigger] armados(pares, reportadas).contains(p) ==> exists|j: int|
            0 <= j < pares.len() && !es_paquete_de_gestor(pares[j].0) && p == armar_uno(pares[j], reportadas),
        forall|j: int| 0 <= j < pares.len() && !es_paquete_de_gestor(#[trigger] pares[j].0)
            ==> armados(pares, reportadas).contains(armar_uno(pares[j], reportadas)),
    decreases pares.len(),
{
    if pares.len() > 0 {
        let q = pares.drop_last();
        lema_armados_filas(q, reportadas);
        let r = armados(q, reportadas);
        let a = armados(pares, reportadas);
        assert forall|p: PaqueteV| #[trigger] a.contains(p) implies exists|j: int|
            0 <= j < pares.len() && !es_paquete_de_gestor(pares[j].0) && p == armar_uno(pares[j], reportadas) by {
            let m = choose|m: int| 0 <= m < a.len() && a[m] == p;
            if m < r.len() {
                assert(a[m] == r[m]);
                assert(r.contains(p));
                let j = choose|j: int| 0 <= j < q.len() && !es_paquete_de_gestor(q[j].0) && p == armar_uno(q[j], reportadas);
                assert(pares[j] == q[j]);
            } else {
                assert(pares[pares.len() - 1] == pares.last());
            }
        }
        assert forall|j: int| 0 <= j < pares.len() && !es_paquete_de_gestor(#[trigger] pares[j].0)
            implies a.contains(armar_uno(pares[j], reportadas)) by {
            if j < pares.len() - 1 {
                assert(q[j] == pares[j]);
                assert(r.contains(armar_uno(q[j], reportadas)));
                let m = choose|m: int| 0 <= m < r.len() && r[m] == armar_uno(q[j], reportadas);
                assert(a[m] == r[m]);
            } else {
                assert(a[a.len() - 1] == armar_uno(pares.last(), reportadas));
            }
        }
    }
}

proof fn lema_armados(pares: Seq<(Seq<char>, Seq<char>)>, reportadas: Map<Seq<char>, Seq<char>>)
    ensures
        forall|p: PaqueteV| #[trigger] armados(pares, reportadas).contains(p) ==> {
            &&& !es_paquete_de_gestor(p.name)
            &&& p.latest is Some
            &&& p.outdated == (p.latest.unwrap() != p.installed)
        },
    decreases pares.len(),
{
    if pares.len() > 0 {
        lema_armados(pares.drop_last(), reportadas);
        let r = armados(pares.drop_last(), reportadas);
        assert forall|p: PaqueteV| #[trigger] armados(pares, reportadas).contains(p) implies {
            &&& !es_paquete_de_gestor(p.name)
            &&& p.latest is Some
            &&& p.outdated == (p.latest.unwrap() != p.installed)
        } by {
            if !es_paquete_de_gestor(pares.last().0) {
                let a = armados(pares, reportadas);
                let m = choose|m: int| 0 <= m < a.len() && a[m] == p;
                if m < r.len() {
                    assert(a[m] == r[m]);
                    assert(r.contains(p));
                }
            }
        }
    }
}

/// A JSON command's output is usable when it exited with 0, or when its
/// stdout starts (after leading whitespace) with the expected character.
pub open spec fn json_utilizable(out: RunnerOutput, abre: char) -> bool {
    out.exit_code == 0 || empieza_con(sin_espacio_inicial(out.stdout@), seq![abre])
}

/// The message of a failed command: what failed, its exit code and its
/// trimmed stderr.
pub open spec fn mensaje_fallo(que: Seq<char>, exit_code: i32, stderr: Seq<char>) -> Seq<char> {
    que + " (exit "@ + decimal(exit_code as int) + "): "@ + recortado(stderr)
}

/// Writes [`mensaje_fallo`].
pub fn escribir_fallo(que: Vec<char>, exit_code: i32, stderr: &str) -> (r: String)
    ensures
        r@ == mensaje_fallo(que@, exit_code, stderr@),
{
    let mut v = que;
    anexar(&mut v, &literal(" (exit "));
    anexar(&mut v, &decimal_i32(exit_code));
    anexar(&mut v, &literal("): "));
    anexar(&mut v, &crate::texto::recortar(&caracteres(stderr)));
    texto_de(&v)
}

/// What failed when a JSON command failed: `"{gestor} {comando} failed"`.
pub open spec fn fallo_de(gestor: Seq<char>, comando: Seq<char>) -> Seq<char> {
    gestor + " "@ + comando + " failed"@
}

/// Hard failure of a JSON command: non-zero exit code and an output that
/// does not start with the expected character. Shared by the JSON
/// managers.
pub fn guard_json(out: &RunnerOutput, gestor: &str, comando: &str, abre: char) -> (r: Result<(), String>)
    ensures
        r is Ok <==> json_utilizable(*out, abre),
        r matches Err(m) ==> m@ == mensaje_fallo(fallo_de(gestor@, comando@), out.exit_code, out.stderr@),
{
    let v = caracteres(out.stdout.as_str());
    let resto = crate::texto::recortar_inicio(&v);
    let empieza = resto.len() > 0 && resto[0] == abre;
    assert(empieza == empieza_con(sin_espacio_inicial(out.stdout@), seq![abre])) by {
        if resto@.len() > 0 {
            assert(resto@.take(1) =~= seq![resto@[0]]);
            if resto@.take(1) == seq![abre] {
                assert(resto@.take(1)[0] == abre);
            }
        }
    }
    if out.exit_code != 0 && !empieza {
        let mut que = caracteres(gestor);
        anexar(&mut que, &literal(" "));
        anexar(&mut que, &caracteres(comando));
        anexar(&mut que, &literal(" failed"));
        return Err(escribir_fallo(que, out.exit_code, out.stderr.as_str()));
    }
    Ok(())
}

/// A package name travels as a process argument: never empty, never a
/// disguised flag.
pub open spec fn nombre_de_paquete_valido(name: Seq<char>) -> bool {
    name.len() > 0 && name[0] != '-'
}

/// Validates a package name: never a disguised flag. A refused name is an
/// invalid input.
pub fn validar_nombre(name: &str) -> (r: Result<(), ErrorIo>)
    ensures
        r is Ok <==> nombre_de_paquete_valido(name@),
        r matches Err(e) ==> e.clase == ClaseError::InvalidInput && e.mensaje@ == "invalid package name: "@
            + texto_depurado(name@),
{
    let v = caracteres(name);
    if v.len() == 0 || v[0] == '-' {
        let mut m = literal("invalid package name: ");
        anexar(&mut m, &caracteres(depurado(name).as_str()));
        return Err(ErrorIo { clase: ClaseError::InvalidInput, mensaje: texto_de(&m) });
    }
    Ok(())
}

/// The install argument for the latest version: `"{name}@latest"`.
pub fn ultima_version_de(name: &str) -> (r: String)
    ensures
        r@ == name@ + "@latest"@,
{
    let mut v = caracteres(name);
    anexar(&mut v, &literal("@latest"));
    texto_de(&v)
}

/// What an install reports: success is exit code 0; the output is stdout,
/// plus a newline and stderr when stderr holds more than whitespace.
pub open spec fn salida_instalacion(out: RunnerOutput) -> Seq<char> {
    if recortado(out.stderr@).len() > 0 {
        out.stdout@ + seq!['\n'] + out.stderr@
    } else {
        out.stdout@
    }
}

/// Turns an install command's output into its outcome.
pub fn resultado_instalacion(out: RunnerOutput) -> (r: UpdateOutcome)
    ensures
        r.success == (out.exit_code == 0),
        r.output@ == salida_instalacion(out),
{
    let mut output = caracteres(out.stdout.as_str());
    if !crate::texto::vacio_al_recortar(out.stderr.as_str()) {
        output.push('\n');
        anexar(&mut output, &caracteres(out.stderr.as_str()));
    }
    UpdateOutcome { success: out.exit_code == 0, output: texto_de(&output) }
}

/// The arguments of an install: `[verbo, "-g", "{name}@latest"]`.
pub open spec fn args_instalacion(verbo: Seq<char>, name: Seq<char>) -> Seq<Seq<char>> {
    seq![verbo, "-g"@, name + "@latest"@]
}

/// Installs the latest version of a global package with the manager's verb
/// (npm: `install`, pnpm/bun: `add`), streaming each stdout line to
/// `on_line`: it runs [`args_instalacion`]. An invalid name is refused as an
/// invalid input with its message, whatever the runner, and `on_line` is
/// left as it was; a valid one gets the outcome
/// [`resultado_instalacion`] makes of the runner's answer, whose stdout
/// lines reached `on_line`, or, when the runner failed, its error text
/// with why it failed ([`tipo_de_clase`]).
pub fn instalar<R: Runner + ?Sized, F: FnMut(&str)>(runner: &R, verbo: &str, name: &str, on_line: &mut F) -> (r: Result<UpdateOutcome, FallaInstalacion>)
    requires
        forall|l: &str| call_requires(*old(on_line), (l,)),
    ensures
        !nombre_de_paquete_valido(name@) ==> (r matches Err(f) && f.tipo == TipoFallo::Otro
            && f.clase == ClaseError::InvalidInput && f.mensaje@ == "invalid package name: "@ + texto_depurado(name@)
            && *final(on_line) == *old(on_line)),
        nombre_de_paquete_valido(name@) ==> exists|x: Result<RunnerOutput, ErrorIo>|
            #[trigger] runner.responde(args_instalacion(verbo@, name@), x) && match x {
                Ok(out) => r matches Ok(u) && u.success == (out.exit_code == 0) && u.output@ == salida_instalacion(out)
                    && lineas_entregadas(*old(on_line), crate::texto::lineas(out.stdout@)),
                Err(e) => r matches Err(f) && f.tipo == tipo_de_clase(e.clase) && f.clase == e.clase
                    && f.mensaje@ == e.mensaje@,
            },
{
    if let Err(e) = validar_nombre(name) {
        return Err(FallaInstalacion { tipo: TipoFallo::Otro, clase: e.clase, mensaje: e.mensaje });
    }
    let spec = ultima_version_de(name);
    let args: [&str; 3] = [verbo, "-g", spec.as_str()];
    let r = runner.run_streaming(args.as_slice(), on_line);
    assert(vista_args(args@) =~= args_instalacion(verbo@, name@));
    match r {
        Ok(out) => Ok(resultado_instalacion(out)),
        Err(e) => Err(FallaInstalacion { tipo: tipo_de_error(e.clase), clase: e.clase, mensaje: e.mensaje }),
    }
}

/// The versions reported by an `outdated --json` document (shape shared by
/// npm and pnpm: `{ package: { latest, ... } }`), in the order of the
/// object's members: each member whose `latest` is a text.
pub open spec fn ultimas_de_miembros(es: Seq<(Seq<char>, JsonV)>) -> Map<Seq<char>, Seq<char>>
    decreases es.len(),
{
    if es.len() == 0 {
        Map::empty()
    } else {
        let m = ultimas_de_miembros(es.drop_last());
        match campo_texto(es.last().1, "latest"@) {
            Some(l) => m.insert(es.last().0, l),
            None => m,
        }
    }
}

/// What `parse_outdated` reads from a parsed document: nothing unless it is
/// an object.
pub open spec fn ultimas_de(j: Option<JsonV>) -> Map<Seq<char>, Seq<char>> {
    match j {
        Some(JsonV::Objeto(es)) => ultimas_de_miembros(es),
        _ => Map::empty(),
    }
}

/// The versions a parsed `outdated --json` document reports (see
/// [`ultimas_de`]): nothing unless it is an object.
pub fn ultimas_de_documento(doc: &Option<Json>) -> (r: MapaVersiones)
    ensures
        r.vista() == ultimas_de(vista_doc(*doc)),
{
    let mut r = MapaVersiones::new();
    match doc {
        Some(Json::Objeto(es)) => {
            proof {
                crate::json::lema_vista_objeto(es@);
            }
            let ghost ev = crate::json::vista_objeto(es@);
            let mut k: usize = 0;
            assert(ev.take(0) =~= Seq::<(Seq<char>, JsonV)>::empty());
            while k < es.len()
                invariant
                    k <= es.len(),
                    ev == crate::json::vista_objeto(es@),
                    ev.len() == es.len(),
                    forall|m: int| 0 <= m < es.len() ==> #[trigger] ev[m] == (es@[m].0@, crate::json::vista_json(es@[m].1)),
                    r.vista() == ultimas_de_miembros(ev.take(k as int)),
                decreases es.len() - k,
            {
                assert(ev.take(k + 1).drop_last() =~= ev.take(k as int));
                match campo_texto_exec(&es[k].1, "latest") {
                    Some(l) => {
                        r.insert(es[k].0.clone(), l.clone());
                    },
                    None => {},
                }
                k = k + 1;
            }
            assert(ev.take(es.len() as int) =~= ev);
        },
        _ => {},
    }
    r
}

/// Parses `outdated --json`: package name to latest version. It only lists
/// packages with an update available; a text that is not JSON gives an
/// empty map.
pub fn parse_outdated(json: &str) -> (r: MapaVersiones)
    ensures
        r.vista() == ultimas_de(json_de_texto(json@)),
{
    ultimas_de_documento(&leer_json(json))
}

/// The `(name, version)` pairs of a dependencies object, in its order: each
/// member whose `version` is a text.
pub open spec fn pares_con_version(es: Seq<(Seq<char>, JsonV)>) -> Seq<(Seq<char>, Seq<char>)>
    decreases es.len(),
{
    if es.len() == 0 {
        seq![]
    } else {
        let r = pares_con_version(es.drop_last());
        match campo_texto(es.last().1, "version"@) {
            Some(v) => r.push((es.last().0, v)),
            None => r,
        }
    }
}

/// Appends to `pares` the `(name, version)` pairs of a dependencies object.
pub fn anexar_pares_con_version(pares: &mut Vec<(String, String)>, es: &Vec<(String, Json)>)
    ensures
        vistas_pares(final(pares)@) == vistas_pares(old(pares)@) + pares_con_version(crate::json::vista_objeto(es@)),
{
    proof {
        crate::json::lema_vista_objeto(es@);
    }
    let ghost ev = crate::json::vista_objeto(es@);
    let ghost inicio = vistas_pares(pares@);
    let mut k: usize = 0;
    assert(ev.take(0) =~= Seq::<(Seq<char>, JsonV)>::empty());
    assert(vistas_pares(pares@) =~= inicio + pares_con_version(ev.take(0)));
    while k < es.len()
        invariant
            k <= es.len(),
            ev == crate::json::vista_objeto(es@),
            ev.len() == es.len(),
            forall|m: int| 0 <= m < es.len() ==> #[trigger] ev[m] == (es@[m].0@, crate::json::vista_json(es@[m].1)),
            vistas_pares(pares@) == inicio + pares_con_version(ev.take(k as int)),
        decreases es.len() - k,
    {
        assert(ev.take(k + 1).drop_last() =~= ev.take(k as int));
        match campo_texto_exec(&es[k].1, "version") {
            Some(v) => {
                let ghost antes = pares@;
                pares.push((es[k].0.clone(), v.clone()));
                assert(vistas_pares(pares@) =~= vistas_pares(antes).push((es@[k as int].0@, v@)));
            },
            None => {},
        }
        k = k + 1;
    }
    assert(ev.take(es.len() as int) =~= ev);
}

/// `sin_v`: a node version without its surroundings and leading `v`s
/// (`" v26.2.0 "` → `"26.2.0"`).
pub open spec fn sin_v_spec(s: Seq<char>) -> Seq<char> {
    sin_prefijo_repetido(recortado(s), 'v')
}

/// Strips the leading `v` from a node version (`v26.2.0` → `26.2.0`).
pub fn sin_v(s: &str) -> (r: &str)
    ensures
        r@ == sin_v_spec(s@),
{
    let v = caracteres(s);
    let (a, b) = limites_recorte(&v);
    let mut i = a;
    assert(v@.subrange(i as int, b as int) == recortado(v@));
    while i < b && v[i] == 'v'
        invariant
            a <= i <= b <= v.len(),
            sin_prefijo_repetido(recortado(v@), 'v') == sin_prefijo_repetido(v@.subrange(i as int, b as int), 'v'),
        decreases b - i,
    {
        assert(v@.subrange(i as int, b as int).drop_first() =~= v@.subrange(i + 1, b as int));
        i = i + 1;
    }
    assert(v@.len() == s@.len());
    s.substring_char(i, b)
}

/// The number of each dot-separated part of a version (`"26.2.0"` →
/// `[26, 2, 0]`); a part that is not a number counts as 0.
pub open spec fn clave_version(s: Seq<char>) -> Seq<u64> {
    trozos(s, '.').map_values(|t: Seq<char>| match leer_u64(t) {
        Some(n) => n,
        None => 0u64,
    })
}

/// The sort key of a version.
pub fn version_key(v: &str) -> (r: Vec<u64>)
    ensures
        r@ == clave_version(v@),
{
    let partes = trozos_exec(&caracteres(v), '.');
    let mut r: Vec<u64> = Vec::new();
    let mut k: usize = 0;
    while k < partes.len()
        invariant
            k <= partes.len(),
            partes.len() == trozos(v@, '.').len(),
            forall|i: int| 0 <= i < partes.len() ==> (#[trigger] partes@[i])@ == trozos(v@, '.')[i],
            r@ == clave_version(v@).take(k as int),
        decreases partes.len() - k,
    {
        let n = match leer_u64_exec(&partes[k]) {
            Some(n) => n,
            None => 0,
        };
        r.push(n);
        assert(r@ =~= clave_version(v@).take(k + 1));
        k = k + 1;
    }
    assert(clave_version(v@).take(k as int) =~= clave_version(v@));
    r
}

/// The order of version keys (`Vec<u64>`'s order): part by part, a proper
/// prefix first.
pub open spec fn clave_menor_o_igual(a: Seq<u64>, b: Seq<u64>) -> bool
    decreases a.len(),
{
    if a.len() == 0 {
        true
    } else if b.len() == 0 {
        false
    } else if a[0] != b[0] {
        a[0] < b[0]
    } else {
        clave_menor_o_igual(a.drop_first(), b.drop_first())
    }
}

fn clave_menor_o_igual_exec(a: &Vec<u64>, b: &Vec<u64>) -> (r: bool)
    ensures
        r == clave_menor_o_igual(a@, b@),
{
    let mut k: usize = 0;
    assert(a@.skip(0) =~= a@);
    assert(b@.skip(0) =~= b@);
    while k < a.len()
        invariant
            k <= a.len(),
            k <= b.len(),
            clave_menor_o_igual(a@, b@) == clave_menor_o_igual(a@.skip(k as int), b@.skip(k as int)),
        decreases a.len() - k,
    {
        if k >= b.len() {
            return false;
        }
        if a[k] != b[k] {
            assert(a@.skip(k as int)[0] == a@[k as int]);
            assert(b@.skip(k as int)[0] == b@[k as int]);
            return a[k] < b[k];
        }
        assert(a@.skip(k as int).drop_first() =~= a@.skip(k + 1));
        assert(b@.skip(k as int).drop_first() =~= b@.skip(k + 1));
        k = k + 1;
    }
    true
}

/// The version key order is the lexicographic order of `Vec<u64>`: `a`
/// comes before or equals `b` exactly when `a` is a prefix of `b`, or at
/// the first part where they differ `a`'s part is the smaller.
pub proof fn ley_orden_de_claves(a: Seq<u64>, b: Seq<u64>)
    ensures
        clave_menor_o_igual(a, b) <==> ((a.len() <= b.len() && b.take(a.len() as int) == a) || exists|k: int|
            #![trigger a[k], b[k]]
            0 <= k < a.len() && k < b.len() && a.take(k) == b.take(k) && a[k] < b[k]),
    decreases a.len(),
{
    if a.len() == 0 {
        assert(b.take(0) =~= a);
    } else if b.len() == 0 {
    } else if a[0] != b[0] {
        if a[0] < b[0] {
            assert(a.take(0) =~= b.take(0));
            assert(a[0] < b[0]);
        } else {
            if a.len() <= b.len() && b.take(a.len() as int) == a {
                assert(b.take(a.len() as int)[0] == b[0]);
            }
            assert forall|k: int| #![trigger a[k], b[k]]
                0 <= k < a.len() && k < b.len() && a.take(k) == b.take(k) implies !(a[k] < b[k]) by {
                if k > 0 {
                    assert(a.take(k)[0] == a[0]);
                    assert(b.take(k)[0] == b[0]);
                }
            }
        }
    } else {
        let a1 = a.drop_first();
        let b1 = b.drop_first();
        ley_orden_de_claves(a1, b1);
        assert((a.len() <= b.len() && b.take(a.len() as int) == a) <==> (a1.len() <= b1.len() && b1.take(a1.len() as int) == a1)) by {
            if a.len() <= b.len() && b.take(a.len() as int) == a {
                assert forall|i: int| 0 <= i < a1.len() implies b1.take(a1.len() as int)[i] == a1[i] by {
                    assert(b.take(a.len() as int)[i + 1] == a[i + 1]);
                }
                assert(b1.take(a1.len() as int) =~= a1);
            }
            if a1.len() <= b1.len() && b1.take(a1.len() as int) == a1 {
                assert forall|i: int| 0 <= i < a.len() implies b.take(a.len() as int)[i] == a[i] by {
                    if i > 0 {
                        assert(b1.take(a1.len() as int)[i - 1] == a1[i - 1]);
                    }
                }
                assert(b.take(a.len() as int) =~= a);
            }
        }
        if exists|k: int| #![trigger a[k], b[k]] 0 <= k < a.len() && k < b.len() && a.take(k) == b.take(k) && a[k] < b[k] {
            let k = choose|k: int| #![trigger a[k], b[k]] 0 <= k < a.len() && k < b.len() && a.take(k) == b.take(k) && a[k] < b[k];
            assert(k > 0);
            let n = k - 1;
            assert forall|i: int| 0 <= i < n implies #[trigger] a1.take(n)[i] == b1.take(n)[i] by {
                assert(a.take(k)[i + 1] == b.take(k)[i + 1]);
            }
            assert(a1.take(n) =~= b1.take(n));
            assert(a1[k - 1] == a[k] && b1[k - 1] == b[k]);
        }
        if exists|k: int| #![trigger a1[k], b1[k]] 0 <= k < a1.len() && k < b1.len() && a1.take(k) == b1.take(k) && a1[k] < b1[k] {
            let k = choose|k: int| #![trigger a1[k], b1[k]] 0 <= k < a1.len() && k < b1.len() && a1.take(k) == b1.take(k) && a1[k] < b1[k];
            let n = k + 1;
            assert forall|i: int| 0 <= i < n implies #[trigger] a.take(n)[i] == b.take(n)[i] by {
                if i > 0 {
                    assert(a1.take(k)[i - 1] == b1.take(k)[i - 1]);
                }
            }
            assert(a.take(n) =~= b.take(n));
            assert(a[k + 1] == a1[k] && b[k + 1] == b1[k]);
        }
    }
}

/// The most recent of some versions: the last one, in their order, among
/// those of the greatest key (what sorting by key and taking the last one
/// gives).
pub open spec fn mas_reciente(s: Seq<String>) -> String
    decreases s.len(),
{
    if s.len() <= 1 {
        s[0]
    } else {
        let m = mas_reciente(s.drop_last());
        if clave_menor_o_igual(clave_version(m@), clave_version(s.last()@)) {
            s.last()
        } else {
            m
        }
    }
}

/// The version nvm runs: the `default` alias when it names an installed
/// version, otherwise the most recent installed one; none without
/// versions.
pub open spec fn version_elegida(versiones: Seq<String>, alias: Option<String>) -> Option<String> {
    if versiones.len() == 0 {
        None
    } else {
        match alias {
            Some(a) => if exists|i: int| 0 <= i < versiones.len() && versiones[i]@ == a@ {
                Some(a)
            } else {
                Some(mas_reciente(versiones))
            },
            None => Some(mas_reciente(versiones)),
        }
    }
}

proof fn lema_claves_total(a: Seq<u64>, b: Seq<u64>)
    ensures
        clave_menor_o_igual(a, b) || clave_menor_o_igual(b, a),
    decreases a.len(),
{
    if a.len() > 0 && b.len() > 0 && a[0] == b[0] {
        lema_claves_total(a.drop_first(), b.drop_first());
    }
}

proof fn lema_claves_transitivo(a: Seq<u64>, b: Seq<u64>, c: Seq<u64>)
    requires
        clave_menor_o_igual(a, b),
        clave_menor_o_igual(b, c),
    ensures
        clave_menor_o_igual(a, c),
    decreases a.len(),
{
    if a.len() > 0 && b.len() > 0 && c.len() > 0 && a[0] == b[0] && b[0] == c[0] {
        lema_claves_transitivo(a.drop_first(), b.drop_first(), c.drop_first());
    }
}

proof fn lema_mas_reciente(s: Seq<String>)
    requires
        s.len() > 0,
    ensures
        exists|i: int| 0 <= i < s.len() && s[i] == mas_reciente(s),
        forall|i: int| 0 <= i < s.len() ==> clave_menor_o_igual(clave_version(#[trigger] s[i]@), clave_version(mas_reciente(s)@)),
    decreases s.len(),
{
    if s.len() == 1 {
        assert(s[0] == mas_reciente(s));
        lema_claves_total(clave_version(s[0]@), clave_version(s[0]@));
    } else {
        let p = s.drop_last();
        lema_mas_reciente(p);
        let m = mas_reciente(p);
        let k = clave_version(s.last()@);
        if clave_menor_o_igual(clave_version(m@), k) {
            assert(s[s.len() - 1] == mas_reciente(s));
            lema_claves_total(k, k);
            assert forall|i: int| 0 <= i < s.len() implies clave_menor_o_igual(clave_version(#[trigger] s[i]@), clave_version(mas_reciente(s)@)) by {
                if i < s.len() - 1 {
                    assert(p[i] == s[i]);
                    lema_claves_transitivo(clave_version(s[i]@), clave_version(m@), k);
                }
            }
        } else {
            lema_claves_total(clave_version(m@), k);
            let j = choose|j: int| 0 <= j < p.len() && p[j] == m;
            assert(s[j] == mas_reciente(s));
            assert forall|i: int| 0 <= i < s.len() implies clave_menor_o_igual(clave_version(#[trigger] s[i]@), clave_version(mas_reciente(s)@)) by {
                if i < s.len() - 1 {
                    assert(p[i] == s[i]);
                }
            }
        }
    }
}

/// nvm's version is chosen among the installed ones (none without
/// versions): the `default` alias when it names an installed version, else
/// one whose key is at least every installed version's key (in
/// [`ley_orden_de_claves`]'s order).
pub proof fn ley_version_elegida(versiones: Seq<String>, alias: Option<String>)
    ensures
        version_elegida(versiones, alias) is None <==> versiones.len() == 0,
        version_elegida(versiones, alias) matches Some(v) ==> exists|i: int| 0 <= i < versiones.len() && versiones[i]@ == v@,
        (alias matches Some(a) && exists|i: int| 0 <= i < versiones.len() && versiones[i]@ == a@) ==> version_elegida(versiones, alias) == alias,
        versiones.len() > 0 && !(alias matches Some(a) && exists|i: int| 0 <= i < versiones.len() && versiones[i]@ == a@)
            ==> forall|i: int| 0 <= i < versiones.len() ==> clave_menor_o_igual(
                clave_version(#[trigger] versiones[i]@),
                clave_version(version_elegida(versiones, alias).unwrap()@),
            ),
{
    if versiones.len() > 0 {
        lema_mas_reciente(versiones);
    }
}

/// Chooses nvm's active version among the installed ones (already without
/// their `v`), given what the `default` alias resolved to.
pub fn elegir_version(versiones: Vec<String>, alias: Option<String>) -> (r: Option<String>)
    ensures
        r == version_elegida(versiones@, alias),
{
    if versiones.len() == 0 {
        return None;
    }
    if let Some(a) = &alias {
        let mut i: usize = 0;
        while i < versiones.len()
            invariant
                i <= versiones.len(),
                versiones.len() > 0,
                alias == Some(*a),
                forall|m: int| 0 <= m < i ==> versiones@[m]@ != a@,
            decreases versiones.len() - i,
        {
            if versiones[i] == *a {
                assert(versiones@[i as int]@ == a@);
                return alias;
            }
            i = i + 1;
        }
    }
    let mut mejor = versiones[0].clone();
    let mut clave_mejor = version_key(mejor.as_str());
    let mut k: usize = 1;
    while k < versiones.len()
        invariant
            1 <= k <= versiones.len(),
            mejor == mas_reciente(versiones@.take(k as int)),
            clave_mejor@ == clave_version(mejor@),
        decreases versiones.len() - k,
    {
        assert(versiones@.take(k + 1).drop_last() =~= versiones@.take(k as int));
        let c = version_key(versiones[k].as_str());
        if clave_menor_o_igual_exec(&clave_mejor, &c) {
            mejor = versiones[k].clone();
            clave_mejor = c;
        }
        k = k + 1;
    }
    assert(versiones@.take(versiones.len() as int) =~= versiones@);
    Some(mejor)
}

/// One step of an nvm alias chain: a version number, or the name of the
/// next alias.
#[derive(Debug, PartialEq)]
pub enum PasoAlias {
    Version(String),
    Alias(String),
}

/// Reads an alias file's text: without surroundings and leading `v`, it is
/// a version when it starts with a digit, else the next alias's name.
pub fn interpretar_alias(texto: &str) -> (r: PasoAlias)
    ensures
        match r {
            PasoAlias::Version(v) => v@ == sin_v_spec(texto@) && sin_v_spec(texto@).len() > 0 && es_digito(sin_v_spec(texto@)[0]),
            PasoAlias::Alias(a) => a@ == sin_v_spec(texto@) && !(sin_v_spec(texto@).len() > 0 && es_digito(sin_v_spec(texto@)[0])),
        },
{
    let limpio = sin_v(texto);
    let v = caracteres(limpio);
    let r = limpio.to_string();
    if v.len() > 0 {
        let c = crate::texto::codigo(v[0]);
        if 48 <= c && c <= 57 {
            return PasoAlias::Version(r);
        }
    }
    PasoAlias::Alias(r)
}

/// The file name of a binary on this platform (`pnpm` → `pnpm.exe` on
/// Windows).
pub fn con_extension(bin: &str, es_windows: bool) -> (r: String)
    ensures
        r@ == if es_windows {
            bin@ + ".exe"@
        } else {
            bin@
        },
{
    let mut v = caracteres(bin);
    if es_windows {
        anexar(&mut v, &literal(".exe"));
    }
    texto_de(&v)
}

/// Index of the first `true` (`len` if none).
pub open spec fn primer_verdadero(e: Seq<bool>) -> int
    decreases e.len(),
{
    if e.len() == 0 {
        0
    } else if e[0] {
        0
    } else {
        1 + primer_verdadero(e.drop_first())
    }
}

/// The first candidate that exists, in order: how each manager's discovery
/// resolves (PATH, then variables, then the standard places).
pub fn primer_existente<T>(candidatos: Vec<T>, existe: &Vec<bool>) -> (r: Option<T>)
    ensures
        ({
            let i = primer_verdadero(existe@);
            if i < existe.len() && i < candidatos.len() {
                r == Some(candidatos@[i])
            } else {
                r is None
            }
        }),
{
    let mut candidatos = candidatos;
    let mut i: usize = 0;
    assert(existe@.skip(0) =~= existe@);
    while i < existe.len() && !existe[i]
        invariant
            i <= existe.len(),
            primer_verdadero(existe@) == i + primer_verdadero(existe@.skip(i as int)),
        decreases existe.len() - i,
    {
        assert(existe@.skip(i as int).drop_first() =~= existe@.skip(i + 1));
        i = i + 1;
    }
    if i < existe.len() && i < candidatos.len() {
        Some(candidatos.remove(i))
    } else {
        None
    }
}

/// The discovery error: where it searched, PATH first.
pub open spec fn mensaje_no_encontrado(gestor: Seq<char>, buscadas: Seq<String>) -> Seq<char> {
    gestor + " not found. Searched in: "@ + unir(seq!["PATH"@] + buscadas.map_values(|b: String| b@), ", "@)
}

/// Discovery error that shows where it searched.
pub fn no_encontrado(gestor: &str, buscadas: &Vec<String>) -> (r: String)
    ensures
        r@ == mensaje_no_encontrado(gestor@, buscadas@),
{
    let mut m = caracteres(gestor);
    anexar(&mut m, &literal(" not found. Searched in: "));
    let ghost cabeza = m@;
    let path = literal("PATH");
    anexar(&mut m, &path);
    let ghost vistas = buscadas@.map_values(|b: String| b@);
    let mut k: usize = 0;
    assert(seq!["PATH"@] + vistas.take(0) =~= seq!["PATH"@]);
    while k < buscadas.len()
        invariant
            k <= buscadas.len(),
            vistas == buscadas@.map_values(|b: String| b@),
            m@ == cabeza + unir(seq!["PATH"@] + vistas.take(k as int), ", "@),
        decreases buscadas.len() - k,
    {
        let ghost antes = seq!["PATH"@] + vistas.take(k as int);
        assert(seq!["PATH"@] + vistas.take(k + 1) =~= antes.push(buscadas@[k as int]@));
        assert((antes.push(buscadas@[k as int]@)).drop_last() =~= antes);
        anexar(&mut m, &literal(", "));
        anexar(&mut m, &caracteres(buscadas[k].as_str()));
        k = k + 1;
    }
    assert(vistas.take(buscadas.len() as int) =~= vistas);
    texto_de(&m)
}

/// What a version probe answered: its trimmed stdout, when it exited with 0
/// and said something.
pub open spec fn version_de_spec(out: RunnerOutput) -> Option<Seq<char>> {
    if out.exit_code == 0 && recortado(out.stdout@).len() > 0 {
        Some(recortado(out.stdout@))
    } else {
        None
    }
}

/// The version a `--version` probe reports.
pub fn version_de_salida(out: &RunnerOutput) -> (r: Option<String>)
    ensures
        match r {
            Some(v) => version_de_spec(*out) == Some(v@),
            None => version_de_spec(*out) is None,
        },
{
    let v = crate::texto::recortar(&caracteres(out.stdout.as_str()));
    if out.exit_code == 0 && v.len() > 0 {
        Some(texto_de(&v))
    } else {
        None
    }
}

} // verus!
