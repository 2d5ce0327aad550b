//! The supported managers: visible command, install verb, and the cores
//! that the commands run over a manager and its runner.

use vstd::prelude::*;
use crate::kernel::{
    ErrorIo, EspacioGlobal, PaqueteV, Runner, RunnerOutput, Snapshot, UpdateOutcome, args_instalacion, instalar,
    lineas_entregadas, nombre_de_paquete_valido, paquetes_o_error, salida_instalacion, versiones_informadas, vistas,
};
use crate::texto::{anexar, caracteres, literal, texto_de, texto_depurado};

verus! {

/// The managers the app knows.
#[derive(Debug, Clone, Copy, PartialEq, Eq)]
pub enum Gestor {
    Npm,
    Pnpm,
    Bun,
}

/// A supported manager: its name, its visible update command and the
/// install verb. The verb lives HERE, once per manager.
#[derive(Debug, Clone)]
pub struct DefinicionGestor {
    pub gestor: Gestor,
    pub nombre: String,
    /// Visible command for the UI (tooltip): "npm i -g".
    pub comando: String,
    /// Install argument (install/add).
    pub verbo: String,
}

/// The table of managers: `(name, visible command, verb)`, in order.
pub open spec fn tabla() -> Seq<(Gestor, Seq<char>, Seq<char>, Seq<char>)> {
    seq![
        (Gestor::Npm, "npm"@, "npm i -g"@, "install"@),
        (Gestor::Pnpm, "pnpm"@, "pnpm add -g"@, "add"@),
        (Gestor::Bun, "bun"@, "bun add -g"@, "add"@),
    ]
}

/// A definition's entry in the table's shape.
pub open spec fn fila(d: DefinicionGestor) -> (Gestor, Seq<char>, Seq<char>, Seq<char>) {
    (d.gestor, d.nombre@, d.comando@, d.verbo@)
}

/// The supported managers, in order. Adding a manager = adding one entry.
pub fn gestores() -> (r: Vec<DefinicionGestor>)
    ensures
        r@.map_values(|d: DefinicionGestor| fila(d)) == tabla(),
{
    let mut r: Vec<DefinicionGestor> = Vec::new();
    r.push(DefinicionGestor { gestor: Gestor::Npm, nombre: "npm".to_string(), comando: "npm i -g".to_string(), verbo: "install".to_string() });
    r.push(DefinicionGestor { gestor: Gestor::Pnpm, nombre: "pnpm".to_string(), comando: "pnpm add -g".to_string(), verbo: "add".to_string() });
    r.push(DefinicionGestor { gestor: Gestor::Bun, nombre: "bun".to_string(), comando: "bun add -g".to_string(), verbo: "add".to_string() });
    assert(r@.map_values(|d: DefinicionGestor| fila(d)) =~= tabla());
    r
}

/// Index of the first definition named `gestor` (`len` if none).
pub open spec fn indice_de(t: Seq<(Gestor, Seq<char>, Seq<char>, Seq<char>)>, gestor: Seq<char>) -> int
    decreases t.len(),
{
    if t.len() == 0 {
        0
    } else if t[0].1 == gestor {
        0
    } else {
        1 + indice_de(t.drop_first(), gestor)
    }
}

proof fn lema_indice_de(t: Seq<(Gestor, Seq<char>, Seq<char>, Seq<char>)>, gestor: Seq<char>)
    ensures
        0 <= indice_de(t, gestor) <= t.len(),
        indice_de(t, gestor) < t.len() ==> t[indice_de(t, gestor)].1 == gestor,
        forall|j: int| 0 <= j < indice_de(t, gestor) ==> #[trigger] t[j].1 != gestor,
    decreases t.len(),
{
    if t.len() > 0 && t[0].1 != gestor {
        lema_indice_de(t.drop_first(), gestor);
        assert forall|j: int| 0 <= j < indice_de(t, gestor) implies #[trigger] t[j].1 != gestor by {
            if j > 0 {
                assert(t[j] == t.drop_first()[j - 1]);
            }
        }
    }
}

/// The refusal of an unknown manager.
pub open spec fn mensaje_no_soportado(gestor: Seq<char>) -> Seq<char> {
    "unsupported manager: "@ + gestor
}

/// The definition named `gestor` in `tabla_def`, or why there is none.
pub fn def_gestor_en(tabla_def: &Vec<DefinicionGestor>, gestor: &str) -> (r: Result<DefinicionGestor, String>)
    ensures
        ({
            let t = tabla_def@.map_values(|d: DefinicionGestor| fila(d));
            let i = indice_de(t, gestor@);
            match r {
                Ok(d) => i < t.len() && fila(d) == t[i],
                Err(m) => i >= t.len() && m@ == mensaje_no_soportado(gestor@),
            }
        }),
{
    let ghost t = tabla_def@.map_values(|d: DefinicionGestor| fila(d));
    let clave = gestor.to_string();
    let mut k: usize = 0;
    assert(t.skip(0) =~= t);
    while k < tabla_def.len()
        invariant
            k <= tabla_def.len(),
            t == tabla_def@.map_values(|d: DefinicionGestor| fila(d)),
            clave@ == gestor@,
            indice_de(t, gestor@) == k + indice_de(t.skip(k as int), gestor@),
        decreases tabla_def.len() - k,
    {
        assert(t.skip(k as int)[0] == fila(tabla_def@[k as int]));
        if tabla_def[k].nombre == clave {
            let d = &tabla_def[k];
            return Ok(DefinicionGestor { gestor: d.gestor, nombre: d.nombre.clone(), comando: d.comando.clone(), verbo: d.verbo.clone() });
        }
        assert(t.skip(k as int).drop_first() =~= t.skip(k + 1));
        k = k + 1;
    }
    assert(t.skip(k as int) =~= Seq::<(Gestor, Seq<char>, Seq<char>, Seq<char>)>::empty());
    let mut m = literal("unsupported manager: ");
    anexar(&mut m, &caracteres(gestor));
    Err(texto_de(&m))
}

/// Whether `gestor` names a supported manager.
pub open spec fn soportado(gestor: Seq<char>) -> bool {
    gestor == "npm"@ || gestor == "pnpm"@ || gestor == "bun"@
}

/// Accepts the supported managers (npm, pnpm, bun) and refuses any other.
pub fn validar_gestor(gestor: &str) -> (r: Result<(), String>)
    ensures
        r is Ok <==> soportado(gestor@),
        r matches Err(m) ==> m@ == mensaje_no_soportado(gestor@),
{
    let t = gestores();
    let r = def_gestor_en(&t, gestor);
    proof {
        let tv = t@.map_values(|d: DefinicionGestor| fila(d));
        assert(tv == tabla());
        lema_indice_de(tv, gestor@);
        assert(tv[0].1 == "npm"@ && tv[1].1 == "pnpm"@ && tv[2].1 == "bun"@);
        if gestor@ == "npm"@ {
            assert(indice_de(tv, gestor@) == 0);
        } else if gestor@ == "pnpm"@ {
            assert(indice_de(tv.drop_first(), gestor@) == 0);
        } else if gestor@ == "bun"@ {
            assert(indice_de(tv.drop_first().drop_first(), gestor@) == 0);
        } else {
            assert(tv.drop_first().drop_first().drop_first() =~= Seq::<(Gestor, Seq<char>, Seq<char>, Seq<char>)>::empty());
        }
    }
    match r {
        Ok(_) => Ok(()),
        Err(m) => Err(m),
    }
}

/// What the manager's photo can be, given the answers `runner` can give
/// (each manager's `foto_de`).
pub open spec fn foto<R: Runner + ?Sized>(gestor: Gestor, runner: &R, r: Result<Seq<PaqueteV>, Seq<char>>) -> bool {
    match gestor {
        Gestor::Npm => crate::npm::foto_de(runner, r),
        Gestor::Pnpm => crate::pnpm::foto_de(runner, r),
        Gestor::Bun => crate::bun::foto_de(runner, r),
    }
}

/// The global space of a manager, through its runner.
pub fn snapshot_de<R: Runner>(gestor: Gestor, runner: &R) -> (r: Result<EspacioGlobal, String>)
    ensures
        foto(gestor, runner, paquetes_o_error(r)),
        r matches Ok(e) ==> versiones_informadas(runner, e),
{
    match gestor {
        Gestor::Npm => crate::npm::snapshot(runner),
        Gestor::Pnpm => crate::pnpm::snapshot(runner),
        Gestor::Bun => crate::bun::snapshot(runner),
    }
}

/// The package list of a photo with its command, or its error text.
pub open spec fn paquetes_de_foto(r: Result<Snapshot, String>) -> Result<Seq<PaqueteV>, Seq<char>> {
    match r {
        Ok(s) => Ok(vistas(s.espacio.packages@)),
        Err(m) => Err(m@),
    }
}

/// Takes the discovered runner (or why it could not be discovered) and
/// produces the photo of the global space, with the manager's visible
/// command.
pub fn correr_snapshot<R: Runner>(def: &DefinicionGestor, runner: Result<R, ErrorIo>) -> (r: Result<Snapshot, String>)
    ensures
        runner matches Err(e) ==> r matches Err(m) && m@ == e.mensaje@,
        runner matches Ok(x) ==> foto(def.gestor, &x, paquetes_de_foto(r)) && (r matches Ok(s) ==> versiones_informadas(&x, s.espacio)),
        r matches Ok(s) ==> s.comando_actualizar@ == def.comando@,
{
    let runner = match runner {
        Ok(x) => x,
        Err(e) => return Err(e.mensaje),
    };
    match snapshot_de(def.gestor, &runner) {
        Ok(espacio) => Ok(espacio.con_comando(def.comando.as_str())),
        Err(m) => Err(m),
    }
}

/// Updates a package with the manager's verb over the discovered runner
/// (or why it could not be discovered); each stdout line leaves through
/// `on_line`. Over a runner it is [`instalar`] with the definition's verb,
/// the error given as its text.
pub fn correr_update<R: Runner, F: FnMut(&str)>(def: &DefinicionGestor, runner: Result<R, ErrorIo>, name: &str, on_line: &mut F) -> (r: Result<UpdateOutcome, String>)
    requires
        forall|l: &str| call_requires(*old(on_line), (l,)),
    ensures
        runner matches Err(e) ==> r matches Err(m) && m@ == e.mensaje@,
        runner is Ok && !nombre_de_paquete_valido(name@) ==> (r matches Err(m) && m@ == "invalid package name: "@
            + texto_depurado(name@) && *final(on_line) == *old(on_line)),
        runner matches Ok(x) ==> (nombre_de_paquete_valido(name@) ==> exists|y: Result<RunnerOutput, ErrorIo>|
            #[trigger] x.responde(args_instalacion(def.verbo@, name@), y) && match y {
                Ok(out) => r matches Ok(u) && u.success == (out.exit_code == 0) && u.output@ == salida_instalacion(out)
                    && lineas_entregadas(*old(on_line), crate::texto::lineas(out.stdout@)),
                Err(e) => r matches Err(m) && m@ == e.mensaje@,
            }),
{
    let runner = match runner {
        Ok(x) => x,
        Err(e) => return Err(e.mensaje),
    };
    match instalar(&runner, def.verbo.as_str(), name, on_line) {
        Ok(u) => Ok(u),
        Err(f) => Err(f.mensaje),
    }
}

} // verus!
