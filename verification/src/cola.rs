//! "Update all": the sequential queue over the outdated packages of ONE
//! manager's global space, as a state machine. Whoever runs it installs
//! what it says, reads the exclusions and the Stop flag before each step,
//! and hands back how each install ended:
//! * list order, one at a time, a failure does not stop the queue;
//! * Excluded packages are ALWAYS skipped, even when marked mid-queue;
//! * Stop never starts the next package, and an install it cut counts as
//!   stopped, not failed.

use vstd::prelude::*;
use crate::exclusiones::textos;
use crate::kernel::{FallaInstalacion, GlobalPackage, PaqueteV, TipoFallo, UpdateOutcome, vistas};

verus! {

/// Queue accounting: what it ran against, how it ended.
#[derive(Debug, Clone, Copy, PartialEq, Eq)]
pub struct Resumen {
    pub total: usize,
    pub ok: usize,
    pub failed: usize,
    /// Packages CUT mid-flight by Stop: a user decision, not a failure.
    pub detenidos: usize,
    /// Queue left unrun (skipping an excluded package is not stopping).
    pub detenida: bool,
}

/// Why a package's queue result ended the way it did.
#[derive(Debug, Clone, Copy, PartialEq, Eq)]
pub enum Motivo {
    Exito,
    Fallo,
    PlazoVencido,
    Detenido,
}

/// A package's final queue result: its output and why it ended.
#[derive(Debug)]
pub struct ResultadoCola {
    pub paquete: String,
    pub salida: String,
    pub motivo: Motivo,
}

/// What the queue reports as it advances.
#[derive(Debug)]
pub enum EventoCola {
    Empieza { paquete: String },
    Linea { paquete: String, linea: String },
    Resultado(ResultadoCola),
}

/// A queue event for a table row: a package starts, or its result (with
/// the output and why it ended). Success is derivable: the reason is
/// `Exito`.
#[derive(Debug, Clone)]
pub struct EventoPaquete {
    pub gestor: String,
    /// "empieza" or "resultado".
    pub tipo: String,
    pub paquete: String,
    pub salida: Option<String>,
    pub motivo: Option<Motivo>,
}

impl EventoPaquete {
    /// `paquete` of `gestor` starts.
    pub fn empieza(gestor: &str, paquete: &str) -> (r: Self)
        ensures
            r.gestor@ == gestor@,
            r.tipo@ == "empieza"@,
            r.paquete@ == paquete@,
            r.salida is None,
            r.motivo is None,
    {
        EventoPaquete {
            gestor: gestor.to_string(),
            tipo: "empieza".to_string(),
            paquete: paquete.to_string(),
            salida: None,
            motivo: None,
        }
    }

    /// A package of `gestor` ended: its result.
    pub fn resultado(gestor: &str, r: &ResultadoCola) -> (e: Self)
        ensures
            e.gestor@ == gestor@,
            e.tipo@ == "resultado"@,
            e.paquete@ == r.paquete@,
            e.salida matches Some(s) && s@ == r.salida@,
            e.motivo == Some(r.motivo),
    {
        EventoPaquete {
            gestor: gestor.to_string(),
            tipo: "resultado".to_string(),
            paquete: r.paquete.clone(),
            salida: Some(r.salida.clone()),
            motivo: Some(r.motivo),
        }
    }
}

/// The reason of an install's end.
pub open spec fn motivo_de(fin: Result<UpdateOutcome, FallaInstalacion>) -> Motivo {
    match fin {
        Ok(u) => if u.success {
            Motivo::Exito
        } else {
            Motivo::Fallo
        },
        Err(f) => match f.tipo {
            TipoFallo::PlazoVencido => Motivo::PlazoVencido,
            TipoFallo::Interrumpida => Motivo::Detenido,
            TipoFallo::Otro => Motivo::Fallo,
        },
    }
}

/// The output of an install's end: the command's output, or the error.
pub open spec fn salida_de(fin: Result<UpdateOutcome, FallaInstalacion>) -> Seq<char> {
    match fin {
        Ok(u) => u.output@,
        Err(f) => f.mensaje@,
    }
}

/// The queue's packages: the outdated ones not excluded, in list order.
pub open spec fn pendientes_de(packages: Seq<PaqueteV>, excluidos: Seq<Seq<char>>) -> Seq<Seq<char>>
    decreases packages.len(),
{
    if packages.len() == 0 {
        seq![]
    } else {
        let r = pendientes_de(packages.drop_last(), excluidos);
        let p = packages.last();
        if p.outdated && !excluidos.contains(p.name) {
            r.push(p.name)
        } else {
            r
        }
    }
}

/// The next step of the queue.
#[derive(Debug, PartialEq, Eq)]
pub enum Paso {
    /// Nothing more runs: the queue is done, or Stop was asked.
    Terminar,
    /// The package was excluded meanwhile: skipped.
    Saltar(String),
    /// Install this package, then report how it ended.
    Instalar(String),
}

/// The mathematical value of a [`Paso`].
pub enum PasoV {
    Terminar,
    Saltar(Seq<char>),
    Instalar(Seq<char>),
}

impl View for Paso {
    type V = PasoV;

    open spec fn view(&self) -> PasoV {
        match self {
            Paso::Terminar => PasoV::Terminar,
            Paso::Saltar(n) => PasoV::Saltar(n@),
            Paso::Instalar(n) => PasoV::Instalar(n@),
        }
    }
}

/// The queue as values: the packages it was built with, how many of them
/// were taken up (started or skipped), whether one is in flight, and the
/// accounting.
pub struct ColaV {
    pub pendientes: Seq<Seq<char>>,
    pub tomados: nat,
    pub en_curso: bool,
    pub ok: nat,
    pub failed: nat,
    pub detenidos: nat,
    pub saltados: nat,
}

/// The queue's accounting is consistent: what was taken up is within the
/// queue, and each taken package is counted once, or is in flight.
pub open spec fn bien_formada(c: ColaV) -> bool {
    &&& c.tomados <= c.pendientes.len()
    &&& c.ok + c.failed + c.detenidos + c.saltados + (if c.en_curso {
        1int
    } else {
        0int
    }) == c.tomados
}

/// A fresh queue over `pendientes`.
pub open spec fn cola_inicial(pendientes: Seq<Seq<char>>) -> ColaV {
    ColaV { pendientes, tomados: 0, en_curso: false, ok: 0, failed: 0, detenidos: 0, saltados: 0 }
}

/// The next step, given the Stop flag and the exclusions as they are NOW:
/// Stop (or the end of the queue) ends it before the next package; an
/// excluded package is skipped; otherwise the next package, in list order,
/// is installed and stays in flight until its end is reported.
pub open spec fn siguiente(c: ColaV, parar: bool, excluidos: Seq<Seq<char>>) -> (ColaV, PasoV) {
    let k = c.tomados as int;
    if k >= c.pendientes.len() || parar {
        (c, PasoV::Terminar)
    } else if excluidos.contains(c.pendientes[k]) {
        (
            ColaV {
                pendientes: c.pendientes,
                tomados: c.tomados + 1,
                en_curso: false,
                ok: c.ok,
                failed: c.failed,
                detenidos: c.detenidos,
                saltados: c.saltados + 1,
            },
            PasoV::Saltar(c.pendientes[k]),
        )
    } else {
        (
            ColaV {
                pendientes: c.pendientes,
                tomados: c.tomados + 1,
                en_curso: true,
                ok: c.ok,
                failed: c.failed,
                detenidos: c.detenidos,
                saltados: c.saltados,
            },
            PasoV::Instalar(c.pendientes[k]),
        )
    }
}

/// The queue once the install in flight is reported with `motivo`: it
/// counts as a success, as stopped, or (deadline, failure) as failed.
pub open spec fn registrado(c: ColaV, motivo: Motivo) -> ColaV {
    ColaV {
        pendientes: c.pendientes,
        tomados: c.tomados,
        en_curso: false,
        ok: if motivo == Motivo::Exito {
            c.ok + 1
        } else {
            c.ok
        },
        failed: if motivo == Motivo::Fallo || motivo == Motivo::PlazoVencido {
            c.failed + 1
        } else {
            c.failed
        },
        detenidos: if motivo == Motivo::Detenido {
            c.detenidos + 1
        } else {
            c.detenidos
        },
        saltados: c.saltados,
    }
}

/// The summary of a queue: how many it ran against, how each ended, and
/// whether part of it was left unrun.
pub open spec fn resumen_de(c: ColaV) -> Resumen {
    Resumen {
        total: c.pendientes.len() as usize,
        ok: c.ok as usize,
        failed: c.failed as usize,
        detenidos: c.detenidos as usize,
        detenida: c.ok + c.failed + c.detenidos + c.saltados < c.pendientes.len(),
    }
}

/// The queue's state.
pub struct Cola {
    pendientes: Vec<String>,
    siguiente: usize,
    en_curso: bool,
    ok: usize,
    failed: usize,
    detenidos: usize,
    saltados: usize,
}

impl View for Cola {
    type V = ColaV;

    closed spec fn view(&self) -> ColaV {
        ColaV {
            pendientes: textos(self.pendientes@),
            tomados: self.siguiente as nat,
            en_curso: self.en_curso,
            ok: self.ok as nat,
            failed: self.failed as nat,
            detenidos: self.detenidos as nat,
            saltados: self.saltados as nat,
        }
    }
}

impl Cola {
    /// The queue built on the state at start: outdated, not excluded, in
    /// list order.
    pub fn nueva(packages: &Vec<GlobalPackage>, excluidos: &Vec<String>) -> (r: Self)
        ensures
            r@ == cola_inicial(pendientes_de(vistas(packages@), textos(excluidos@))),
    {
        let mut pendientes: Vec<String> = Vec::new();
        let mut k: usize = 0;
        let ghost pv = vistas(packages@);
        let ghost ex = textos(excluidos@);
        assert(pv.take(0) =~= Seq::<PaqueteV>::empty());
        assert(textos(pendientes@) =~= Seq::<Seq<char>>::empty());
        while k < packages.len()
            invariant
                k <= packages.len(),
                pv == vistas(packages@),
                ex == textos(excluidos@),
                textos(pendientes@) == pendientes_de(pv.take(k as int), ex),
            decreases packages.len() - k,
        {
            assert(pv.take(k + 1).drop_last() =~= pv.take(k as int));
            assert(pv.take(k + 1).last() == packages@[k as int]@);
            let p = &packages[k];
            if p.outdated && !contiene_nombre(excluidos, &p.name) {
                let ghost antes = pendientes@;
                pendientes.push(p.name.clone());
                assert(textos(pendientes@) =~= textos(antes).push(p.name@));
            }
            k = k + 1;
        }
        assert(pv.take(packages.len() as int) =~= pv);
        Cola { pendientes, siguiente: 0, en_curso: false, ok: 0, failed: 0, detenidos: 0, saltados: 0 }
    }

    /// The next step, given the Stop flag and the exclusions as they are
    /// NOW (see [`siguiente`]).
    pub fn paso(&mut self, parar: bool, excluidos: &Vec<String>) -> (r: Paso)
        requires
            bien_formada(old(self)@),
            !old(self)@.en_curso,
        ensures
            (final(self)@, r@) == siguiente(old(self)@, parar, textos(excluidos@)),
    {
        if self.siguiente >= self.pendientes.len() || parar {
            return Paso::Terminar;
        }
        let name = self.pendientes[self.siguiente].clone();
        if contiene_nombre(excluidos, &name) {
            self.siguiente = self.siguiente + 1;
            self.saltados = self.saltados + 1;
            return Paso::Saltar(name);
        }
        self.siguiente = self.siguiente + 1;
        self.en_curso = true;
        Paso::Instalar(name)
    }

    /// Reports how the install in flight ended: the result the queue emits
    /// for it (see [`registrado`]).
    pub fn registrar(&mut self, paquete: String, fin: Result<UpdateOutcome, FallaInstalacion>) -> (r: ResultadoCola)
        requires
            bien_formada(old(self)@),
            old(self)@.en_curso,
        ensures
            final(self)@ == registrado(old(self)@, motivo_de(fin)),
            r.paquete == paquete,
            r.motivo == motivo_de(fin),
            r.salida@ == salida_de(fin),
    {
        let (salida, motivo) = match fin {
            Ok(u) => (u.output, if u.success {
                Motivo::Exito
            } else {
                Motivo::Fallo
            }),
            Err(f) => (f.mensaje, match f.tipo {
                TipoFallo::PlazoVencido => Motivo::PlazoVencido,
                TipoFallo::Interrumpida => Motivo::Detenido,
                TipoFallo::Otro => Motivo::Fallo,
            }),
        };
        match motivo {
            Motivo::Exito => self.ok = self.ok + 1,
            Motivo::Detenido => self.detenidos = self.detenidos + 1,
            _ => self.failed = self.failed + 1,
        }
        self.en_curso = false;
        ResultadoCola { paquete, salida, motivo }
    }

    /// Whether an install is in flight (its end not reported yet).
    pub fn hay_en_curso(&self) -> (r: bool)
        ensures
            r == self@.en_curso,
    {
        self.en_curso
    }

    /// The queue's summary (see [`resumen_de`]).
    pub fn resumen(&self) -> (r: Resumen)
        requires
            bien_formada(self@),
        ensures
            r == resumen_de(self@),
    {
        Resumen {
            total: self.pendientes.len(),
            ok: self.ok,
            failed: self.failed,
            detenidos: self.detenidos,
            detenida: self.ok + self.failed + self.detenidos + self.saltados < self.pendientes.len(),
        }
    }
}

/// Whether `nombre` is among `lista`.
pub fn contiene_nombre(lista: &Vec<String>, nombre: &String) -> (r: bool)
    ensures
        r == textos(lista@).contains(nombre@),
{
    let mut k: usize = 0;
    while k < lista.len()
        invariant
            k <= lista.len(),
            forall|i: int| 0 <= i < k ==> lista@[i]@ != nombre@,
        decreases lista.len() - k,
    {
        if lista[k] == *nombre {
            assert(textos(lista@)[k as int] == nombre@);
            return true;
        }
        k = k + 1;
    }
    assert(!textos(lista@).contains(nombre@)) by {
        if textos(lista@).contains(nombre@) {
            let i = choose|i: int| 0 <= i < textos(lista@).len() && textos(lista@)[i] == nombre@;
            assert(lista@[i]@ == nombre@);
        }
    }
    false
}

/// Every step keeps the queue's accounting consistent: a fresh queue is
/// consistent, and so is the queue after a step or after a report.
pub proof fn ley_cuentas(c: ColaV, parar: bool, excluidos: Seq<Seq<char>>, motivo: Motivo, pendientes: Seq<Seq<char>>)
    ensures
        bien_formada(cola_inicial(pendientes)),
        bien_formada(c) && !c.en_curso ==> bien_formada(siguiente(c, parar, excluidos).0),
        bien_formada(c) && c.en_curso ==> bien_formada(registrado(c, motivo)),
{
}

/// A failure does not stop the queue: the step after a report is the same
/// whatever the install's end was.
pub proof fn ley_un_fallo_no_detiene(c: ColaV, a: Motivo, b: Motivo, parar: bool, excluidos: Seq<Seq<char>>)
    requires
        bien_formada(c),
        c.en_curso,
    ensures
        siguiente(registrado(c, a), parar, excluidos).1 == siguiente(registrado(c, b), parar, excluidos).1,
{
}

/// The queue runs in list order, one package at a time: each step that is
/// not the end takes up the next package of the queue, and only an install
/// stays in flight.
pub proof fn ley_en_orden(c: ColaV, parar: bool, excluidos: Seq<Seq<char>>)
    requires
        bien_formada(c),
        !c.en_curso,
    ensures
        ({
            let (d, p) = siguiente(c, parar, excluidos);
            match p {
                PasoV::Terminar => d == c,
                PasoV::Saltar(n) => n == c.pendientes[c.tomados as int] && d.tomados == c.tomados + 1 && !d.en_curso,
                PasoV::Instalar(n) => n == c.pendientes[c.tomados as int] && d.tomados == c.tomados + 1 && d.en_curso,
            }
        }),
{
}

/// Stop never starts the next package, and an excluded package is always
/// skipped, even when it was excluded after the queue was built.
pub proof fn ley_parar_y_excluir(c: ColaV, parar: bool, excluidos: Seq<Seq<char>>)
    requires
        bien_formada(c),
        !c.en_curso,
    ensures
        parar ==> siguiente(c, parar, excluidos).1 == PasoV::Terminar,
        !parar && c.tomados < c.pendientes.len() && excluidos.contains(c.pendientes[c.tomados as int])
            ==> siguiente(c, parar, excluidos).1 == PasoV::Saltar(c.pendientes[c.tomados as int]),
{
}

/// With nothing in flight, the queue ends as "detenida" exactly when some
/// of its packages were never taken up: skipping is not stopping, and an
/// install cut by Stop counts as stopped, not as unrun.
pub proof fn ley_detenida(c: ColaV)
    requires
        bien_formada(c),
        !c.en_curso,
    ensures
        resumen_de(c).detenida <==> c.tomados < c.pendientes.len(),
        c.ok + c.failed + c.detenidos <= c.pendientes.len(),
{
}

/// What whoever runs the queue finds at one turn: whether Stop was asked,
/// the exclusions as they are then, and how the install ends when one
/// starts.
pub struct Turno {
    pub parar: bool,
    pub excluidos: Seq<Seq<char>>,
    pub motivo: Motivo,
}

/// A whole run: each turn takes one step and, when the step installs,
/// reports the install with the turn's reason; the run stops at the first
/// step that ends the queue. The queue it leaves, and the packages it took
/// up (skipped or installed), in order.
pub open spec fn recorrido(c: ColaV, turnos: Seq<Turno>) -> (ColaV, Seq<PasoV>)
    decreases turnos.len(),
{
    if turnos.len() == 0 {
        (c, seq![])
    } else {
        let t = turnos[0];
        let (d, p) = siguiente(c, t.parar, t.excluidos);
        match p {
            PasoV::Terminar => (c, seq![]),
            PasoV::Saltar(_) => {
                let (f, ps) = recorrido(d, turnos.drop_first());
                (f, seq![p] + ps)
            },
            PasoV::Instalar(_) => {
                let (f, ps) = recorrido(registrado(d, t.motivo), turnos.drop_first());
                (f, seq![p] + ps)
            },
        }
    }
}

/// The whole run: it keeps the queue and its accounting consistent, leaves
/// nothing in flight, takes up the packages in list order, one at a time
/// (the `i`-th step taken concerns the next package of the queue), and ends
/// as "detenida" exactly when packages were left untaken. Without Stop, a
/// run with a turn per remaining package takes up every one of them and
/// is not "detenida": failures, deadlines and exclusions never stop it.
pub proof fn ley_recorrido(c: ColaV, turnos: Seq<Turno>)
    requires
        bien_formada(c),
        !c.en_curso,
    ensures
        ({
            let (f, ps) = recorrido(c, turnos);
            &&& bien_formada(f)
            &&& !f.en_curso
            &&& f.pendientes == c.pendientes
            &&& f.tomados == c.tomados + ps.len()
            &&& forall|i: int| 0 <= i < ps.len() ==> match #[trigger] ps[i] {
                PasoV::Terminar => false,
                PasoV::Saltar(n) => n == c.pendientes[c.tomados + i],
                PasoV::Instalar(n) => n == c.pendientes[c.tomados + i],
            }
            &&& (resumen_de(f).detenida <==> f.tomados < f.pendientes.len())
            &&& ((forall|i: int| 0 <= i < turnos.len() ==> !(#[trigger] turnos[i]).parar)
                && turnos.len() >= c.pendientes.len() - c.tomados ==> f.tomados == c.pendientes.len() && !resumen_de(f).detenida)
        }),
    decreases turnos.len(),
{
    if turnos.len() > 0 {
        let t = turnos[0];
        let (d, p) = siguiente(c, t.parar, t.excluidos);
        let resto = turnos.drop_first();
        assert forall|i: int| 0 <= i < resto.len() implies #[trigger] resto[i] == turnos[i + 1] by {}
        match p {
            PasoV::Terminar => {
                if (forall|i: int| 0 <= i < turnos.len() ==> !(#[trigger] turnos[i]).parar)
                    && turnos.len() >= c.pendientes.len() - c.tomados {
                    assert(!turnos[0].parar);
                }
            },
            PasoV::Saltar(_) => {
                ley_recorrido(d, resto);
                let (f, ps) = recorrido(d, resto);
                let todo = seq![p] + ps;
                assert forall|i: int| 0 <= i < todo.len() implies match #[trigger] todo[i] {
                    PasoV::Terminar => false,
                    PasoV::Saltar(n) => n == c.pendientes[c.tomados + i],
                    PasoV::Instalar(n) => n == c.pendientes[c.tomados + i],
                } by {
                    if i > 0 {
                        assert(todo[i] == ps[i - 1]);
                    }
                }
                if (forall|i: int| 0 <= i < turnos.len() ==> !(#[trigger] turnos[i]).parar) {
                    assert forall|i: int| 0 <= i < resto.len() implies !(#[trigger] resto[i]).parar by {
                        assert(resto[i] == turnos[i + 1]);
                    }
                }
            },
            PasoV::Instalar(_) => {
                let e = registrado(d, t.motivo);
                ley_recorrido(e, resto);
                let (f, ps) = recorrido(e, resto);
                let todo = seq![p] + ps;
                assert forall|i: int| 0 <= i < todo.len() implies match #[trigger] todo[i] {
                    PasoV::Terminar => false,
                    PasoV::Saltar(n) => n == c.pendientes[c.tomados + i],
                    PasoV::Instalar(n) => n == c.pendientes[c.tomados + i],
                } by {
                    if i > 0 {
                        assert(todo[i] == ps[i - 1]);
                    }
                }
                if (forall|i: int| 0 <= i < turnos.len() ==> !(#[trigger] turnos[i]).parar) {
                    assert forall|i: int| 0 <= i < resto.len() implies !(#[trigger] resto[i]).parar by {
                        assert(resto[i] == turnos[i + 1]);
                    }
                }
            },
        }
    }
}

/// Every package the queue starts was outdated and not excluded when the
/// queue was built, and is not excluded now.
pub proof fn ley_solo_instala_pendientes(packages: Seq<PaqueteV>, excluidos_al_inicio: Seq<Seq<char>>, k: int)
    requires
        0 <= k < pendientes_de(packages, excluidos_al_inicio).len(),
    ensures
        exists|i: int| 0 <= i < packages.len() && #[trigger] packages[i].name == pendientes_de(packages, excluidos_al_inicio)[k]
            && packages[i].outdated,
        !excluidos_al_inicio.contains(pendientes_de(packages, excluidos_al_inicio)[k]),
    decreases packages.len(),
{
    let r = pendientes_de(packages.drop_last(), excluidos_al_inicio);
    if k < r.len() {
        ley_solo_instala_pendientes(packages.drop_last(), excluidos_al_inicio, k);
        let i = choose|i: int| 0 <= i < packages.len() - 1 && #[trigger] packages.drop_last()[i].name == r[k]
            && packages.drop_last()[i].outdated;
        assert(packages[i] == packages.drop_last()[i]);
    } else {
        assert(packages[packages.len() - 1].name == pendientes_de(packages, excluidos_al_inicio)[k]);
    }
}

/// How many of the steps taken are installs whose turn reported a reason
/// that `cuenta` selects (the `i`-th step belongs to the `i`-th turn).
pub open spec fn instalados_con(ps: Seq<PasoV>, turnos: Seq<Turno>, cuenta: spec_fn(Motivo) -> bool) -> nat
    decreases ps.len(),
{
    if ps.len() == 0 || turnos.len() == 0 {
        0
    } else {
        (if ps[0] is Instalar && cuenta(turnos[0].motivo) {
            1nat
        } else {
            0nat
        }) + instalados_con(ps.drop_first(), turnos.drop_first(), cuenta)
    }
}

proof fn lema_cuentas_recorrido(c: ColaV, turnos: Seq<Turno>)
    requires
        bien_formada(c),
        !c.en_curso,
    ensures
        ({
            let (f, ps) = recorrido(c, turnos);
            &&& f.ok == c.ok + instalados_con(ps, turnos, |m: Motivo| m == Motivo::Exito)
            &&& f.failed == c.failed + instalados_con(ps, turnos, |m: Motivo| m == Motivo::Fallo || m == Motivo::PlazoVencido)
            &&& f.detenidos == c.detenidos + instalados_con(ps, turnos, |m: Motivo| m == Motivo::Detenido)
        }),
    decreases turnos.len(),
{
    if turnos.len() > 0 {
        let t = turnos[0];
        let (d, p) = siguiente(c, t.parar, t.excluidos);
        let resto = turnos.drop_first();
        match p {
            PasoV::Terminar => {},
            PasoV::Saltar(_) => {
                lema_cuentas_recorrido(d, resto);
                let (f, ps) = recorrido(d, resto);
                assert((seq![p] + ps).drop_first() =~= ps);
            },
            PasoV::Instalar(_) => {
                let e = registrado(d, t.motivo);
                lema_cuentas_recorrido(e, resto);
                let (f, ps) = recorrido(e, resto);
                assert((seq![p] + ps).drop_first() =~= ps);
            },
        }
    }
}

/// The summary of a run counts each install by how it ended: as
/// succeeded those reported `Exito`, as failed exactly those reported
/// `Fallo` or `PlazoVencido`, as stopped those reported `Detenido`; a
/// skipped package is counted in none of them, and the total is the
/// queue's size.
pub proof fn ley_resumen_por_motivo(pendientes: Seq<Seq<char>>, turnos: Seq<Turno>)
    requires
        pendientes.len() <= usize::MAX,
    ensures
        ({
            let (f, ps) = recorrido(cola_inicial(pendientes), turnos);
            let r = resumen_de(f);
            &&& r.total == pendientes.len()
            &&& r.ok == instalados_con(ps, turnos, |m: Motivo| m == Motivo::Exito)
            &&& r.failed == instalados_con(ps, turnos, |m: Motivo| m == Motivo::Fallo || m == Motivo::PlazoVencido)
            &&& r.detenidos == instalados_con(ps, turnos, |m: Motivo| m == Motivo::Detenido)
        }),
{
    let c = cola_inicial(pendientes);
    ley_recorrido(c, turnos);
    lema_cuentas_recorrido(c, turnos);
}

/// Skipping an excluded package changes none of the summary's counts: it
/// is neither a success, nor a failure, nor a stop.
pub proof fn ley_saltar_no_cuenta(c: ColaV, parar: bool, excluidos: Seq<Seq<char>>)
    requires
        bien_formada(c),
        !c.en_curso,
        c.pendientes.len() <= usize::MAX,
        siguiente(c, parar, excluidos).1 is Saltar,
    ensures
        resumen_de(siguiente(c, parar, excluidos).0).ok == resumen_de(c).ok,
        resumen_de(siguiente(c, parar, excluidos).0).failed == resumen_de(c).failed,
        resumen_de(siguiente(c, parar, excluidos).0).detenidos == resumen_de(c).detenidos,
        resumen_de(siguiente(c, parar, excluidos).0).total == resumen_de(c).total,
{
}

/// Every package that is outdated and not excluded when the queue is
/// built is in the queue.
pub proof fn ley_encola_todos_los_pendientes(packages: Seq<PaqueteV>, excluidos: Seq<Seq<char>>)
    ensures
        forall|i: int| 0 <= i < packages.len() && (#[trigger] packages[i]).outdated && !excluidos.contains(packages[i].name)
            ==> pendientes_de(packages, excluidos).contains(packages[i].name),
    decreases packages.len(),
{
    if packages.len() > 0 {
        let q = packages.drop_last();
        ley_encola_todos_los_pendientes(q, excluidos);
        let r = pendientes_de(q, excluidos);
        assert forall|i: int| 0 <= i < packages.len() && (#[trigger] packages[i]).outdated && !excluidos.contains(packages[i].name)
            implies pendientes_de(packages, excluidos).contains(packages[i].name) by {
            let p = packages.last();
            if i < packages.len() - 1 {
                assert(q[i] == packages[i]);
                assert(r.contains(packages[i].name));
                let m = choose|m: int| 0 <= m < r.len() && r[m] == packages[i].name;
                if p.outdated && !excluidos.contains(p.name) {
                    assert(r.push(p.name)[m] == packages[i].name);
                }
            } else {
                assert(r.push(p.name)[r.len() as int] == p.name);
            }
        }
    }
}

} // verus!
