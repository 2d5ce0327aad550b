//! Habilidades: agent skills managed at user level in the skills folder
//! (`~/.agents/skills`). The validation of a skill's `SKILL.md`, the safe
//! names, the listing's states and the manifest's states live here; the
//! folder and the manifest file are read and written around them.

use vstd::prelude::*;
use crate::kernel::texto_de_error;
use crate::orden::{Clave, ConNombre, ordenado_por_nombre, ordenar_por_nombre, lema_ordenado_imagen};
use crate::texto::{
    anexar, aparece_en, caracteres, contiene, contiene_exec, depurado, empieza_con, empieza_con_exec, es_espacio_exec, iguales,
    lineas, lineas_exec, literal, recortado, recortar, sin_espacio_final, subsecuencia, texto_de, texto_depurado,
};

verus! {

/// Where a managed Habilidad came from: repository and path inside it.
#[derive(Debug, Clone, PartialEq, Eq)]
pub struct Origen {
    pub repo: String,
    pub ruta: String,
}

/// The manifest's entry for ONE managed Habilidad: its origin and the SHA
/// of its tree at install time.
#[derive(Debug, Clone, PartialEq, Eq)]
pub struct Entrada {
    pub origen: Origen,
    pub sha: String,
    pub instalada_en: String,
}

/// The manifest: Habilidad name to its entry.
pub type Mapa = std::collections::BTreeMap<String, Entrada>;

/// Why the manifest could (not) be read: each cause gets a different
/// treatment; corrupt is an emergency that blocks writes.
#[derive(Debug)]
pub enum Lectura {
    Inexistente,
    Corrupto,
    Ilegible(std::io::Error),
    Cargado { mapa: Mapa },
}

/// Starting clean applies ONLY to a manifest that is STILL corrupt: a valid
/// (or missing) one has nothing to resolve.
pub fn empezar_de_cero(lectura: &Lectura) -> (r: bool)
    ensures
        r == (*lectura is Corrupto),
{
    match lectura {
        Lectura::Corrupto => true,
        _ => false,
    }
}

/// The front matter a Conforme SKILL.md must carry.
#[derive(Debug, PartialEq, Eq)]
pub struct Frente {
    pub name: String,
    pub description: String,
}

/// One trailing `'\r'` removed.
pub open spec fn sin_cr(l: Seq<char>) -> Seq<char> {
    if l.len() > 0 && l.last() == '\r' {
        l.drop_last()
    } else {
        l
    }
}

/// A delimiter line of the front matter: `---` once trailing whitespace is
/// gone.
pub open spec fn es_delimitador(l: Seq<char>) -> bool {
    sin_espacio_final(sin_cr(l)) == "---"@
}

/// Index of the first closing delimiter after the opening line (`len` if
/// none).
pub open spec fn cierre_desde(ls: Seq<Seq<char>>, i: int) -> int
    decreases ls.len() - i,
{
    if i >= ls.len() {
        ls.len() as int
    } else if es_delimitador(ls[i]) {
        i
    } else {
        cierre_desde(ls, i + 1)
    }
}

/// A front matter value: trimmed, one pair of matching quotes (`"` or `'`)
/// removed, trimmed again.
pub open spec fn limpio(v: Seq<char>) -> Seq<char> {
    let v = recortado(v);
    let w = if v.len() >= 2 && v[0] == '"' && v.last() == '"' {
        v.subrange(1, v.len() - 1)
    } else if v.len() >= 2 && v[0] == '\'' && v.last() == '\'' {
        v.subrange(1, v.len() - 1)
    } else {
        v
    };
    recortado(w)
}

/// The `name:` and `description:` values among some front matter lines
/// (the last of each wins).
pub open spec fn campos(ls: Seq<Seq<char>>) -> (Option<Seq<char>>, Option<Seq<char>>)
    decreases ls.len(),
{
    if ls.len() == 0 {
        (None, None)
    } else {
        let (n, d) = campos(ls.drop_last());
        let l = sin_cr(ls.last());
        if empieza_con(l, "name:"@) {
            (Some(limpio(l.skip("name:"@.len() as int))), d)
        } else if empieza_con(l, "description:"@) {
            (n, Some(limpio(l.skip("description:"@.len() as int))))
        } else {
            (n, d)
        }
    }
}

/// Minimal front matter: the text STARTS with a `---` line and has a
/// CLOSING `---` line; between them, `name:` and `description:`. Everything
/// else in the front matter is ignored.
pub open spec fn frente(texto: Seq<char>) -> Option<(Seq<char>, Seq<char>)> {
    let ls = lineas(texto);
    if ls.len() == 0 || sin_cr(sin_espacio_final(ls[0])) != "---"@ {
        None
    } else {
        let c = cierre_desde(ls, 1);
        if c >= ls.len() {
            None
        } else {
            match campos(ls.subrange(1, c)) {
                (Some(n), Some(d)) => Some((n, d)),
                _ => None,
            }
        }
    }
}

fn sin_cr_exec(l: &Vec<char>) -> (r: Vec<char>)
    ensures
        r@ == sin_cr(l@),
{
    if l.len() > 0 && l[l.len() - 1] == '\r' {
        subsecuencia(l, 0, l.len() - 1)
    } else {
        subsecuencia(l, 0, l.len())
    }
}

fn recortar_final(v: &Vec<char>) -> (r: Vec<char>)
    ensures
        r@ == sin_espacio_final(v@),
{
    let mut j = v.len();
    assert(v@.subrange(0, j as int) =~= v@);
    while j > 0 && es_espacio_exec(v[j - 1])
        invariant
            j <= v.len(),
            sin_espacio_final(v@) == sin_espacio_final(v@.subrange(0, j as int)),
        decreases j,
    {
        assert(v@.subrange(0, j as int).drop_last() =~= v@.subrange(0, j - 1));
        j = j - 1;
    }
    subsecuencia(v, 0, j)
}

fn limpio_exec(v: &Vec<char>) -> (r: Vec<char>)
    ensures
        r@ == limpio(v@),
{
    let v = recortar(v);
    let n = v.len();
    let w = if n >= 2 && v[0] == '"' && v[n - 1] == '"' {
        subsecuencia(&v, 1, n - 1)
    } else if n >= 2 && v[0] == '\'' && v[n - 1] == '\'' {
        subsecuencia(&v, 1, n - 1)
    } else {
        subsecuencia(&v, 0, n)
    };
    assert(v@.subrange(0, n as int) =~= v@);
    recortar(&w)
}

/// Reads the front matter of a SKILL.md: `name` and `description`.
pub fn frente_de(texto: &str) -> (r: Option<(String, String)>)
    ensures
        match r {
            Some(p) => frente(texto@) == Some((p.0@, p.1@)),
            None => frente(texto@) is None,
        },
{
    let ls = lineas_exec(&caracteres(texto));
    let ghost lv = lineas(texto@);
    if ls.len() == 0 {
        return None;
    }
    assert(ls@[0]@ == lv[0]);
    let primera = sin_cr_exec(&recortar_final(&ls[0]));
    if !iguales(&primera, &literal("---")) {
        return None;
    }
    let nombre_clave = literal("name:");
    let desc_clave = literal("description:");
    let delim = literal("---");
    let mut name: Option<Vec<char>> = None;
    let mut description: Option<Vec<char>> = None;
    let mut i: usize = 1;
    assert(lv.subrange(1, 1) =~= Seq::<Seq<char>>::empty());
    while i < ls.len()
        invariant
            1 <= i <= ls.len(),
            lv == lineas(texto@),
            lv.len() > 0 && sin_cr(sin_espacio_final(lv[0])) == "---"@,
            ls.len() == lv.len(),
            forall|m: int| 0 <= m < ls.len() ==> (#[trigger] ls@[m])@ == lv[m],
            nombre_clave@ == "name:"@,
            desc_clave@ == "description:"@,
            delim@ == "---"@,
            cierre_desde(lv, 1) == cierre_desde(lv, i as int),
            ({
                let (n, d) = campos(lv.subrange(1, i as int));
                &&& (match name {
                    Some(x) => n == Some(x@),
                    None => n is None,
                })
                &&& (match description {
                    Some(x) => d == Some(x@),
                    None => d is None,
                })
            }),
        decreases ls.len() - i,
    {
        let l = sin_cr_exec(&ls[i]);
        if iguales(&recortar_final(&l), &delim) {
            assert(cierre_desde(lv, i as int) == i);
            return match (name, description) {
                (Some(n), Some(d)) => Some((texto_de(&n), texto_de(&d))),
                _ => None,
            };
        }
        assert(lv.subrange(1, i + 1).drop_last() =~= lv.subrange(1, i as int));
        assert(lv.subrange(1, i + 1).last() == lv[i as int]);
        if empieza_con_exec(&l, &nombre_clave) {
            name = Some(limpio_exec(&subsecuencia(&l, nombre_clave.len(), l.len())));
        } else if empieza_con_exec(&l, &desc_clave) {
            description = Some(limpio_exec(&subsecuencia(&l, desc_clave.len(), l.len())));
        }
        i = i + 1;
    }
    None
}

/// The glossary's format: lowercase-with-hyphens (digits allowed), at most
/// 64 characters, no dots, no spaces, no doubled or edge hyphens.
pub open spec fn nombre_valido(n: Seq<char>) -> bool {
    &&& 0 < n.len() <= 64
    &&& forall|i: int| 0 <= i < n.len() ==> {
        let c = #[trigger] n[i] as int;
        (97 <= c <= 122) || (48 <= c <= 57) || c == 45
    }
    &&& n[0] != '-'
    &&& n.last() != '-'
    &&& !contiene(n, "--"@)
}

/// A skill's name is valid exactly when it has 1 to 64 characters, each a
/// lowercase ASCII letter `a`..=`z`, an ASCII digit `0`..=`9` or `-`, and
/// it neither starts nor ends with `-` nor holds two `-` in a row.
pub proof fn ley_nombre_valido(n: Seq<char>)
    ensures
        nombre_valido(n) <==> {
            &&& 1 <= n.len() <= 64
            &&& forall|i: int| 0 <= i < n.len() ==> ('a' <= #[trigger] n[i] && n[i] <= 'z') || ('0' <= n[i] && n[i] <= '9') || n[i] == '-'
            &&& n[0] != '-'
            &&& n[n.len() - 1] != '-'
            &&& forall|i: int| 0 <= i < n.len() - 1 ==> !(#[trigger] n[i] == '-' && n[i + 1] == '-')
        },
{
    reveal_strlit("--");
    assert(("--"@).len() == 2);
    assert forall|i: int| 0 <= i < n.len() - 1 implies (#[trigger] aparece_en(n, "--"@, i) <==> (n[i] == '-' && n[i + 1] == '-')) by {
        if n[i] == '-' && n[i + 1] == '-' {
            assert(n.subrange(i, i + 2) =~= "--"@);
        }
        if aparece_en(n, "--"@, i) {
            assert(n.subrange(i, i + 2)[0] == n[i]);
            assert(n.subrange(i, i + 2)[1] == n[i + 1]);
        }
    }
    if contiene(n, "--"@) {
        let i = choose|i: int| aparece_en(n, "--"@, i);
        assert(aparece_en(n, "--"@, i));
    }
    if exists|i: int| 0 <= i < n.len() - 1 && #[trigger] n[i] == '-' && n[i + 1] == '-' {
        let i = choose|i: int| 0 <= i < n.len() - 1 && #[trigger] n[i] == '-' && n[i + 1] == '-';
        assert(aparece_en(n, "--"@, i));
    }
}

/// Whether `n` has the glossary's format.
pub fn nombre_valido_exec(n: &str) -> (r: bool)
    ensures
        r == nombre_valido(n@),
{
    let v = caracteres(n);
    if v.len() == 0 || v.len() > 64 {
        return false;
    }
    let mut k: usize = 0;
    while k < v.len()
        invariant
            k <= v.len(),
            v@ == n@,
            forall|i: int| 0 <= i < k ==> {
                let c = #[trigger] v@[i] as int;
                (97 <= c <= 122) || (48 <= c <= 57) || c == 45
            },
        decreases v.len() - k,
    {
        let c = crate::texto::codigo(v[k]);
        if !((97 <= c && c <= 122) || (48 <= c && c <= 57) || c == 45) {
            assert(!({
                let c2 = v@[k as int] as int;
                (97 <= c2 <= 122) || (48 <= c2 <= 57) || c2 == 45
            }));
            return false;
        }
        k = k + 1;
    }
    v[0] != '-' && v[v.len() - 1] != '-' && !contiene_exec(&v, &literal("--"))
}

/// A folder name the UI may open: a single safe component under the skills
/// root, never a path, never a hidden or parent entry.
pub open spec fn nombre_seguro_spec(n: Seq<char>) -> bool {
    &&& n.len() > 0
    &&& n[0] != '.'
    &&& !n.contains('/')
    &&& !n.contains('\\')
    &&& !contiene(n, ".."@)
}

/// A folder name the UI may open: a single safe component under the skills
/// root, never a path, never a hidden or parent entry.
pub fn nombre_seguro(nombre: &str) -> (r: Result<(), String>)
    ensures
        r is Ok <==> nombre_seguro_spec(nombre@),
        r matches Err(m) ==> m@ == "nombre de habilidad no seguro: "@ + texto_depurado(nombre@),
{
    let v = caracteres(nombre);
    let mut malo = v.len() == 0 || v[0] == '.' || contiene_exec(&v, &literal(".."));
    let mut k: usize = 0;
    while k < v.len()
        invariant
            k <= v.len(),
            malo == (v@.len() == 0 || v@[0] == '.' || contiene(v@, ".."@) || exists|i: int| 0 <= i < k && (v@[i] == '/' || v@[i] == '\\')),
        decreases v.len() - k,
    {
        if v[k] == '/' || v[k] == '\\' {
            malo = true;
        }
        k = k + 1;
    }
    assert(malo == !nombre_seguro_spec(nombre@)) by {
        if v@.contains('/') {
            let i = choose|i: int| 0 <= i < v@.len() && v@[i] == '/';
            assert(v@[i] == '/');
        }
        if v@.contains('\\') {
            let i = choose|i: int| 0 <= i < v@.len() && v@[i] == '\\';
            assert(v@[i] == '\\');
        }
    }
    if malo {
        let mut m = literal("nombre de habilidad no seguro: ");
        anexar(&mut m, &caracteres(depurado(nombre).as_str()));
        return Err(texto_de(&m));
    }
    Ok(())
}

/// The validation report of a SKILL.md's content (`None`: it could not be
/// read): the front matter, or WHY the Habilidad is Inválida.
pub open spec fn validacion(texto: Option<Seq<char>>) -> Result<(Seq<char>, Seq<char>), Seq<char>> {
    match texto {
        None => Err("sin SKILL.md legible"@),
        Some(t) => match frente(t) {
            None => Err("SKILL.md sin frontmatter válido (--- con name y description)"@),
            Some((n, d)) => if !nombre_valido(n) {
                Err("name inválido: "@ + texto_depurado(n) + " (minúsculas-con-guiones)"@)
            } else if recortado(d).len() == 0 {
                Err("description vacía"@)
            } else if n.contains('<') || d.contains('<') {
                Err("etiquetas XML en name/description"@)
            } else {
                Ok((n, d))
            },
        },
    }
}

fn tiene_menor_que(v: &Vec<char>) -> (r: bool)
    ensures
        r == v@.contains('<'),
{
    let mut k: usize = 0;
    while k < v.len()
        invariant
            k <= v.len(),
            forall|i: int| 0 <= i < k ==> v@[i] != '<',
        decreases v.len() - k,
    {
        if v[k] == '<' {
            assert(v@[k as int] == '<');
            return true;
        }
        k = k + 1;
    }
    false
}

/// Validates ONE Habilidad's SKILL.md content: front matter present, name
/// in lowercase-with-hyphens, description present, no XML tags. The error
/// is the row's report: WHY it is Inválida.
pub fn validar_contenido(texto: Option<&str>) -> (r: Result<Frente, String>)
    ensures
        match r {
            Ok(f) => validacion(match texto {
                Some(t) => Some(t@),
                None => None,
            }) == Ok::<(Seq<char>, Seq<char>), Seq<char>>((f.name@, f.description@)),
            Err(m) => validacion(match texto {
                Some(t) => Some(t@),
                None => None,
            }) == Err::<(Seq<char>, Seq<char>), Seq<char>>(m@),
        },
{
    let t = match texto {
        None => return Err("sin SKILL.md legible".to_string()),
        Some(t) => t,
    };
    let (name, description) = match frente_de(t) {
        None => return Err("SKILL.md sin frontmatter válido (--- con name y description)".to_string()),
        Some(p) => p,
    };
    if !nombre_valido_exec(name.as_str()) {
        let mut m = literal("name inválido: ");
        anexar(&mut m, &caracteres(depurado(name.as_str()).as_str()));
        anexar(&mut m, &literal(" (minúsculas-con-guiones)"));
        return Err(texto_de(&m));
    }
    if crate::texto::vacio_al_recortar(description.as_str()) {
        return Err("description vacía".to_string());
    }
    if tiene_menor_que(&caracteres(name.as_str())) || tiene_menor_que(&caracteres(description.as_str())) {
        return Err("etiquetas XML en name/description".to_string());
    }
    Ok(Frente { name, description })
}

/// The state of a Habilidad's row.
#[derive(Debug, Clone, Copy, PartialEq, Eq)]
pub enum EstadoHabilidad {
    /// Present without a known Origen: another tool put it there.
    NoGestionada,
    /// Present but its content no longer passes Validación.
    Invalida,
    /// Gestionada whose saved SHA matches the remote one.
    Actual,
    /// Gestionada whose saved SHA differs from the remote one.
    ActualizacionDisponible,
}

/// A row of the skills list.
#[derive(Debug)]
pub struct Habilidad {
    pub nombre: String,
    pub estado: EstadoHabilidad,
}

/// The mathematical value of a [`Habilidad`].
pub struct HabilidadV {
    pub nombre: Seq<char>,
    pub estado: EstadoHabilidad,
}

impl View for Habilidad {
    type V = HabilidadV;

    open spec fn view(&self) -> HabilidadV {
        HabilidadV { nombre: self.nombre@, estado: self.estado }
    }
}

impl Clave for Habilidad {
    open spec fn clave(&self) -> Seq<char> {
        self.nombre@
    }
}

impl Clave for HabilidadV {
    open spec fn clave(&self) -> Seq<char> {
        self.nombre
    }
}

impl ConNombre for Habilidad {
    fn nombre(&self) -> (r: &String) {
        &self.nombre
    }
}

/// The manifest's state for the UI: "corrupto"/"ilegible" block every
/// write until the user resolves.
#[derive(Debug)]
pub struct EstadoManifest {
    pub estado: String,
    pub detalle: Option<String>,
}

/// What the skills tab shows: the rows and the manifest's state.
#[derive(Debug)]
pub struct SalidaHabilidades {
    pub habilidades: Vec<Habilidad>,
    pub manifest: EstadoManifest,
}

/// An entry of the skills folder as found: its name, whether it is a
/// folder, and whether its content is Conforme.
#[derive(Debug)]
pub struct EntradaCarpeta {
    pub nombre: String,
    pub es_carpeta: bool,
    pub conforme: bool,
}

/// The rows of some folder entries, in order: hidden entries and files
/// skipped; Conforme content is No gestionada, the rest Inválida.
pub open spec fn filas(es: Seq<EntradaCarpeta>) -> Seq<HabilidadV>
    decreases es.len(),
{
    if es.len() == 0 {
        seq![]
    } else {
        let r = filas(es.drop_last());
        let e = es.last();
        if (e.nombre@.len() > 0 && e.nombre@[0] == '.') || !e.es_carpeta {
            r
        } else {
            r.push(HabilidadV {
                nombre: e.nombre@,
                estado: if e.conforme {
                    EstadoHabilidad::NoGestionada
                } else {
                    EstadoHabilidad::Invalida
                },
            })
        }
    }
}

/// The views of some rows.
pub open spec fn vistas_filas(s: Seq<Habilidad>) -> Seq<HabilidadV> {
    s.map_values(|h: Habilidad| h@)
}

/// The rows of the skills folder: direct children that are folders and not
/// hidden, sorted by name.
pub fn filas_de(entradas: Vec<EntradaCarpeta>) -> (r: Vec<Habilidad>)
    ensures
        vistas_filas(r@) == ordenado_por_nombre(filas(entradas@)),
{
    let mut hechas: Vec<Habilidad> = Vec::new();
    let mut k: usize = 0;
    assert(entradas@.take(0) =~= Seq::<EntradaCarpeta>::empty());
    while k < entradas.len()
        invariant
            k <= entradas.len(),
            vistas_filas(hechas@) == filas(entradas@.take(k as int)),
        decreases entradas.len() - k,
    {
        assert(entradas@.take(k + 1).drop_last() =~= entradas@.take(k as int));
        assert(entradas@.take(k + 1).last() == entradas@[k as int]);
        let e = &entradas[k];
        let v = caracteres(e.nombre.as_str());
        let oculta = v.len() > 0 && v[0] == '.';
        if !oculta && e.es_carpeta {
            let ghost antes = hechas@;
            let estado = if e.conforme {
                EstadoHabilidad::NoGestionada
            } else {
                EstadoHabilidad::Invalida
            };
            hechas.push(Habilidad { nombre: e.nombre.clone(), estado });
            assert(vistas_filas(hechas@) =~= vistas_filas(antes).push(hechas@.last()@));
        }
        k = k + 1;
    }
    assert(entradas@.take(entradas.len() as int) =~= entradas@);
    let r = ordenar_por_nombre(hechas);
    proof {
        lema_ordenado_imagen(hechas@, |h: Habilidad| h@);
    }
    r
}

/// The manifest's state from how it was read: a readable or missing one is
/// "ok"; a corrupt one is "corrupto", with the reason when its evidence copy
/// could not be kept; an unreadable one is "ilegible", with the reason.
pub fn estado_del_manifest(lectura: &Lectura, fallo_resguardo: Option<String>) -> (r: EstadoManifest)
    ensures
        match lectura {
            Lectura::Inexistente | Lectura::Cargado { .. } => r.estado@ == "ok"@ && r.detalle is None,
            Lectura::Corrupto => r.estado@ == "corrupto"@ && match fallo_resguardo {
                Some(e) => r.detalle matches Some(d) && d@ == "(no se pudo conservar la copia .corrupt: "@ + e@ + ")"@,
                None => r.detalle is None,
            },
            Lectura::Ilegible(_) => r.estado@ == "ilegible"@ && r.detalle is Some,
        },
{
    match lectura {
        Lectura::Inexistente | Lectura::Cargado { .. } => EstadoManifest { estado: "ok".to_string(), detalle: None },
        Lectura::Corrupto => {
            let detalle = match fallo_resguardo {
                Some(e) => {
                    let mut m = literal("(no se pudo conservar la copia .corrupt: ");
                    anexar(&mut m, &caracteres(e.as_str()));
                    anexar(&mut m, &literal(")"));
                    Some(texto_de(&m))
                },
                None => None,
            };
            EstadoManifest { estado: "corrupto".to_string(), detalle }
        },
        Lectura::Ilegible(e) => EstadoManifest { estado: "ilegible".to_string(), detalle: Some(texto_de_error(e)) },
    }
}

/// Whether the listing must first keep the damaged manifest as evidence:
/// only when it is corrupt.
pub fn necesita_resguardo(lectura: &Lectura) -> (r: bool)
    ensures
        r == (*lectura is Corrupto),
{
    empezar_de_cero(lectura)
}

/// The skills tab: the folder's rows (a corrupt manifest still lists them:
/// it BLOCKS writes, it does not hide reality) and the manifest's state.
pub fn listar(lectura: &Lectura, fallo_resguardo: Option<String>, entradas: Vec<EntradaCarpeta>) -> (r: SalidaHabilidades)
    ensures
        vistas_filas(r.habilidades@) == ordenado_por_nombre(filas(entradas@)),
        match lectura {
            Lectura::Inexistente | Lectura::Cargado { .. } => r.manifest.estado@ == "ok"@ && r.manifest.detalle is None,
            Lectura::Corrupto => r.manifest.estado@ == "corrupto"@ && match fallo_resguardo {
                Some(e) => r.manifest.detalle matches Some(d) && d@ == "(no se pudo conservar la copia .corrupt: "@ + e@ + ")"@,
                None => r.manifest.detalle is None,
            },
            Lectura::Ilegible(_) => r.manifest.estado@ == "ilegible"@ && r.manifest.detalle is Some,
        },
{
    let manifest = estado_del_manifest(lectura, fallo_resguardo);
    SalidaHabilidades { habilidades: filas_de(entradas), manifest }
}

} // verus!
