//! bun adapter: self-contained binary (no node shim) and its own global
//! space. `pm ls -g` draws a tree and `outdated -g` a human table, no JSON:
//! both are parsed, and an unexpected format is a visible error, never a
//! fake "all up to date".

use vstd::prelude::*;
use crate::kernel::{
    EspacioGlobal, ErrorIo, GlobalPackage, MapaVersiones, PaqueteV, Runner, RunnerOutput, armar, escribir_fallo,
    lista_final, mensaje_fallo, paquetes_o_error, versiones_informadas, vista_args, vistas, vistas_pares,
};
use crate::texto::{
    anexar, caracteres, contiene, contiene_exec, empieza_con, empieza_con_exec, iguales, lineas, lineas_exec,
    literal, recortado, recortar, recortar_inicio, sin_espacio_inicial, subsecuencia, texto_de, trozos,
    trozos_exec, ultima_posicion, ultima_posicion_exec,
};

verus! {

/// The branch that a first-level entry of the tree starts with, after
/// leading whitespace: `├── ` or `└── `; the rest of the line.
pub open spec fn tras_rama(l: Seq<char>) -> Option<Seq<char>> {
    let limpia = sin_espacio_inicial(l);
    if empieza_con(limpia, "├── "@) {
        Some(limpia.skip("├── "@.len() as int))
    } else if empieza_con(limpia, "└── "@) {
        Some(limpia.skip("└── "@.len() as int))
    } else {
        None
    }
}

/// A first-level entry of the tree, `name@version` (scoped names carry an
/// `@` of their own: the version follows the last one); both parts
/// non-empty.
pub open spec fn par_de_linea(l: Seq<char>) -> Option<(Seq<char>, Seq<char>)> {
    match tras_rama(l) {
        None => None,
        Some(r) => {
            let i = ultima_posicion(r, '@');
            if i < 0 {
                None
            } else if r.take(i).len() > 0 && r.skip(i + 1).len() > 0 {
                Some((r.take(i), r.skip(i + 1)))
            } else {
                None
            }
        },
    }
}

/// The entries of some lines, in order.
pub open spec fn pares_de_lineas(ls: Seq<Seq<char>>) -> Seq<(Seq<char>, Seq<char>)>
    decreases ls.len(),
{
    if ls.len() == 0 {
        seq![]
    } else {
        let r = pares_de_lineas(ls.drop_last());
        match par_de_linea(ls.last()) {
            Some(p) => r.push(p),
            None => r,
        }
    }
}

/// What `bun pm ls -g` lists: its first-level entries.
pub open spec fn pares_ls(salida: Seq<char>) -> Seq<(Seq<char>, Seq<char>)> {
    pares_de_lineas(lineas(salida))
}

fn par_de_linea_exec(l: &Vec<char>) -> (r: Option<(String, String)>)
    ensures
        match r {
            Some(p) => par_de_linea(l@) == Some((p.0@, p.1@)),
            None => par_de_linea(l@) is None,
        },
{
    let limpia = recortar_inicio(l);
    let rama = literal("├── ");
    let fin = literal("└── ");
    let resto = if empieza_con_exec(&limpia, &rama) {
        subsecuencia(&limpia, rama.len(), limpia.len())
    } else if empieza_con_exec(&limpia, &fin) {
        subsecuencia(&limpia, fin.len(), limpia.len())
    } else {
        return None;
    };
    assert(tras_rama(l@) == Some(resto@));
    proof {
        crate::texto::lema_ultima_posicion(resto@, '@');
    }
    match ultima_posicion_exec(&resto, '@') {
        None => None,
        Some(i) => {
            let name = subsecuencia(&resto, 0, i);
            let version = subsecuencia(&resto, i + 1, resto.len());
            assert(name@ =~= resto@.take(i as int));
            assert(version@ =~= resto@.skip(i + 1));
            if name.len() > 0 && version.len() > 0 {
                Some((texto_de(&name), texto_de(&version)))
            } else {
                None
            }
        },
    }
}

/// `bun pm ls -g` draws a tree; only FIRST-level dependencies (prefix
/// `├──`/`└──`) are the globals: nested ones are transitive.
pub fn parse_ls(salida: &str) -> (r: Vec<(String, String)>)
    ensures
        vistas_pares(r@) == pares_ls(salida@),
{
    let ls = lineas_exec(&caracteres(salida));
    let ghost lv = lineas(salida@);
    let mut pares: Vec<(String, String)> = Vec::new();
    let mut k: usize = 0;
    assert(lv.take(0) =~= Seq::<Seq<char>>::empty());
    assert(vistas_pares(pares@) =~= Seq::<(Seq<char>, Seq<char>)>::empty());
    while k < ls.len()
        invariant
            k <= ls.len(),
            ls.len() == lv.len(),
            forall|i: int| 0 <= i < ls.len() ==> (#[trigger] ls@[i])@ == lv[i],
            vistas_pares(pares@) == pares_de_lineas(lv.take(k as int)),
        decreases ls.len() - k,
    {
        assert(lv.take(k + 1).drop_last() =~= lv.take(k as int));
        assert(lv.take(k + 1).last() == ls@[k as int]@);
        match par_de_linea_exec(&ls[k]) {
            Some(p) => {
                let ghost antes = pares@;
                pares.push(p);
                assert(vistas_pares(pares@) =~= vistas_pares(antes).push((p.0@, p.1@)));
            },
            None => {},
        }
        k = k + 1;
    }
    assert(lv.take(ls.len() as int) =~= lv);
    pares
}

/// The cells of a table row: the pieces between `|`, trimmed.
pub open spec fn celdas(l: Seq<char>) -> Seq<Seq<char>> {
    trozos(l, '|').map_values(|c: Seq<char>| recortado(c))
}

fn celdas_exec(l: &Vec<char>) -> (r: Vec<Vec<char>>)
    ensures
        r.len() == celdas(l@).len(),
        forall|i: int| 0 <= i < r.len() ==> (#[trigger] r@[i])@ == celdas(l@)[i],
{
    let t = trozos_exec(l, '|');
    let mut r: Vec<Vec<char>> = Vec::new();
    let mut k: usize = 0;
    while k < t.len()
        invariant
            k <= t.len(),
            t.len() == trozos(l@, '|').len(),
            forall|i: int| 0 <= i < t.len() ==> (#[trigger] t@[i])@ == trozos(l@, '|')[i],
            r.len() == k,
            forall|i: int| 0 <= i < k ==> (#[trigger] r@[i])@ == celdas(l@)[i],
        decreases t.len() - k,
    {
        r.push(recortar(&t[k]));
        k = k + 1;
    }
    r
}

/// The header row: a line that starts with `|` and mentions `Package`.
pub open spec fn es_encabezado(l: Seq<char>) -> bool {
    empieza_con(l, seq!['|']) && contiene(l, "Package"@)
}

/// A data row: starts with `|`, is no separator (`--`) and no header.
pub open spec fn es_fila(l: Seq<char>) -> bool {
    empieza_con(l, seq!['|']) && !contiene(l, "--"@) && !contiene(l, "Package"@)
}

/// Index of the first header line (`len` if none).
pub open spec fn primer_encabezado(ls: Seq<Seq<char>>) -> int
    decreases ls.len(),
{
    if ls.len() == 0 {
        0
    } else if es_encabezado(ls[0]) {
        0
    } else {
        1 + primer_encabezado(ls.drop_first())
    }
}

/// Index of the first cell equal to `x` (-1 if none).
pub open spec fn posicion(cs: Seq<Seq<char>>, x: Seq<char>) -> int
    decreases cs.len(),
{
    if cs.len() == 0 {
        -1
    } else if cs[0] == x {
        0
    } else {
        let p = posicion(cs.drop_first(), x);
        if p < 0 {
            -1
        } else {
            1 + p
        }
    }
}

/// The rows of a table read under a header of `ancho` cells with the
/// package name in column `cp` and the latest version in column `cl`. A
/// row of another width, or one with a name but no latest version,
/// invalidates the whole table (`None`); a row without a name is skipped.
pub open spec fn filas_tabla(ls: Seq<Seq<char>>, ancho: int, cp: int, cl: int) -> Option<Map<Seq<char>, Seq<char>>>
    decreases ls.len(),
{
    if ls.len() == 0 {
        Some(Map::empty())
    } else {
        match filas_tabla(ls.drop_last(), ancho, cp, cl) {
            None => None,
            Some(m) => {
                let l = ls.last();
                if !es_fila(l) {
                    Some(m)
                } else {
                    let cs = celdas(l);
                    if cs.len() != ancho {
                        None
                    } else if cs[cp].len() == 0 {
                        Some(m)
                    } else if cs[cl].len() == 0 {
                        None
                    } else {
                        Some(m.insert(cs[cp], cs[cl]))
                    }
                }
            },
        }
    }
}

/// What `bun outdated -g` reports, read from the columns of its REAL
/// header (`Package`, `Latest`): `None` when there is no such header or a
/// row breaks it. A table with no rows reports nothing outdated.
pub open spec fn tabla(salida: Seq<char>) -> Option<Map<Seq<char>, Seq<char>>> {
    let ls = lineas(salida);
    let h = primer_encabezado(ls);
    if h >= ls.len() {
        None
    } else {
        let ch = celdas(ls[h]);
        let cp = posicion(ch, "Package"@);
        let cl = posicion(ch, "Latest"@);
        if cp < 0 || cl < 0 {
            None
        } else {
            filas_tabla(ls, ch.len() as int, cp, cl)
        }
    }
}

proof fn lema_primer_encabezado(ls: Seq<Seq<char>>)
    ensures
        0 <= primer_encabezado(ls) <= ls.len(),
        primer_encabezado(ls) < ls.len() ==> es_encabezado(ls[primer_encabezado(ls)]),
        forall|i: int| 0 <= i < primer_encabezado(ls) ==> !es_encabezado(#[trigger] ls[i]),
    decreases ls.len(),
{
    if ls.len() > 0 && !es_encabezado(ls[0]) {
        lema_primer_encabezado(ls.drop_first());
        assert forall|i: int| 0 <= i < primer_encabezado(ls) implies !es_encabezado(#[trigger] ls[i]) by {
            if i > 0 {
                assert(ls[i] == ls.drop_first()[i - 1]);
            }
        }
    }
}

proof fn lema_posicion(cs: Seq<Seq<char>>, x: Seq<char>)
    ensures
        -1 <= posicion(cs, x) < cs.len(),
        posicion(cs, x) >= 0 ==> cs[posicion(cs, x)] == x,
        posicion(cs, x) >= 0 ==> forall|i: int| 0 <= i < posicion(cs, x) ==> #[trigger] cs[i] != x,
        posicion(cs, x) < 0 ==> forall|i: int| 0 <= i < cs.len() ==> #[trigger] cs[i] != x,
    decreases cs.len(),
{
    if cs.len() > 0 && cs[0] != x {
        lema_posicion(cs.drop_first(), x);
        assert forall|i: int| 0 < i < cs.len() implies #[trigger] cs[i] == cs.drop_first()[i - 1] by {}
    }
}

fn posicion_exec(cs: &Vec<Vec<char>>, x: &Vec<char>, Ghost(cv): Ghost<Seq<Seq<char>>>) -> (r: Option<usize>)
    requires
        cv.len() == cs.len(),
        forall|i: int| 0 <= i < cs.len() ==> (#[trigger] cs@[i])@ == cv[i],
    ensures
        match r {
            Some(i) => i as int == posicion(cv, x@) && i < cs.len(),
            None => posicion(cv, x@) < 0,
        },
{
    proof {
        lema_posicion(cv, x@);
    }
    let mut k: usize = 0;
    while k < cs.len()
        invariant
            k <= cs.len(),
            cv.len() == cs.len(),
            forall|i: int| 0 <= i < cs.len() ==> (#[trigger] cs@[i])@ == cv[i],
            forall|i: int| 0 <= i < k ==> #[trigger] cv[i] != x@,
            -1 <= posicion(cv, x@) < cv.len(),
            posicion(cv, x@) >= 0 ==> cv[posicion(cv, x@)] == x@,
            posicion(cv, x@) >= 0 ==> forall|i: int| 0 <= i < posicion(cv, x@) ==> #[trigger] cv[i] != x@,
            posicion(cv, x@) < 0 ==> forall|i: int| 0 <= i < cv.len() ==> #[trigger] cv[i] != x@,
        decreases cs.len() - k,
    {
        assert(cv[k as int] == cs@[k as int]@);
        if iguales(&cs[k], x) {
            return Some(k);
        }
        k = k + 1;
    }
    None
}

fn es_encabezado_exec(l: &Vec<char>) -> (r: bool)
    ensures
        r == es_encabezado(l@),
{
    let mut barra: Vec<char> = Vec::new();
    barra.push('|');
    assert(barra@ =~= seq!['|']);
    empieza_con_exec(l, &barra) && contiene_exec(l, &literal("Package"))
}

fn es_fila_exec(l: &Vec<char>) -> (r: bool)
    ensures
        r == es_fila(l@),
{
    let mut barra: Vec<char> = Vec::new();
    barra.push('|');
    assert(barra@ =~= seq!['|']);
    empieza_con_exec(l, &barra) && !contiene_exec(l, &literal("--")) && !contiene_exec(l, &literal("Package"))
}

/// `bun outdated -g` prints a human table. Column positions are read from
/// the REAL header (Package/Latest); any row that does not respect the
/// header's width, or an empty cell where the version goes, invalidates
/// the whole table (`None` → visible error). Table with no rows = all up to
/// date.
pub fn parse_tabla(salida: &str) -> (r: Option<MapaVersiones>)
    ensures
        match r {
            Some(m) => tabla(salida@) == Some(m.vista()),
            None => tabla(salida@) is None,
        },
{
    let ls = lineas_exec(&caracteres(salida));
    let ghost lv = lineas(salida@);
    proof {
        lema_primer_encabezado(lv);
    }
    let mut h: usize = 0;
    while h < ls.len() && !es_encabezado_exec(&ls[h])
        invariant
            h <= ls.len(),
            ls.len() == lv.len(),
            forall|i: int| 0 <= i < ls.len() ==> (#[trigger] ls@[i])@ == lv[i],
            forall|i: int| 0 <= i < h ==> !es_encabezado(#[trigger] lv[i]),
            0 <= primer_encabezado(lv) <= lv.len(),
            primer_encabezado(lv) < lv.len() ==> es_encabezado(lv[primer_encabezado(lv)]),
            forall|i: int| 0 <= i < primer_encabezado(lv) ==> !es_encabezado(#[trigger] lv[i]),
        decreases ls.len() - h,
    {
        h = h + 1;
    }
    if h >= ls.len() {
        return None;
    }
    assert(h as int == primer_encabezado(lv)) by {
        if (h as int) < primer_encabezado(lv) {
            assert(!es_encabezado(lv[h as int]));
        } else if (h as int) > primer_encabezado(lv) {
            assert(!es_encabezado(lv[primer_encabezado(lv)]));
        }
    }
    let ch = celdas_exec(&ls[h]);
    let ghost chv = celdas(lv[h as int]);
    let cp = match posicion_exec(&ch, &literal("Package"), Ghost(chv)) {
        Some(i) => i,
        None => return None,
    };
    let cl = match posicion_exec(&ch, &literal("Latest"), Ghost(chv)) {
        Some(i) => i,
        None => return None,
    };
    let ancho = ch.len();
    let mut mapa = MapaVersiones::new();
    let mut k: usize = 0;
    assert(lv.take(0) =~= Seq::<Seq<char>>::empty());
    while k < ls.len()
        invariant
            k <= ls.len(),
            ls.len() == lv.len(),
            forall|i: int| 0 <= i < ls.len() ==> (#[trigger] ls@[i])@ == lv[i],
            cp < ancho,
            cl < ancho,
            tabla(salida@) == filas_tabla(lv, ancho as int, cp as int, cl as int),
            filas_tabla(lv.take(k as int), ancho as int, cp as int, cl as int) == Some(mapa.vista()),
        decreases ls.len() - k,
    {
        assert(lv.take(k + 1).drop_last() =~= lv.take(k as int));
        assert(lv.take(k + 1).last() == ls@[k as int]@);
        if es_fila_exec(&ls[k]) {
            let cs = celdas_exec(&ls[k]);
            if cs.len() != ancho {
                assert(filas_tabla(lv.take(k + 1), ancho as int, cp as int, cl as int) is None);
                proof {
                    lema_filas_none(lv, k as int + 1, ancho as int, cp as int, cl as int);
                }
                return None;
            }
            if cs[cp].len() > 0 {
                if cs[cl].len() == 0 {
                    proof {
                        lema_filas_none(lv, k as int + 1, ancho as int, cp as int, cl as int);
                    }
                    return None;
                }
                mapa.insert(texto_de(&cs[cp]), texto_de(&cs[cl]));
            }
        }
        k = k + 1;
    }
    assert(lv.take(ls.len() as int) =~= lv);
    Some(mapa)
}

proof fn lema_filas_none(ls: Seq<Seq<char>>, k: int, ancho: int, cp: int, cl: int)
    requires
        0 <= k <= ls.len(),
        filas_tabla(ls.take(k), ancho, cp, cl) is None,
    ensures
        filas_tabla(ls, ancho, cp, cl) is None,
    decreases ls.len() - k,
{
    if k < ls.len() {
        assert(ls.take(k + 1).drop_last() =~= ls.take(k));
        lema_filas_none(ls, k + 1, ancho, cp, cl);
    } else {
        assert(ls.take(k) =~= ls);
    }
}

/// The tree is recognisable: `pm ls` exited with 0, or its output still
/// draws branches (`──`).
pub open spec fn arbol_reconocible(ls: RunnerOutput) -> bool {
    ls.exit_code == 0 || contiene(ls.stdout@, "──"@)
}

/// A tree without globals is legitimate when the output is empty or is the
/// tree's header (`... node_modules ...`) without branches.
pub open spec fn vacio_legitimo(ls: RunnerOutput) -> bool {
    recortado(ls.stdout@).len() == 0 || contiene(ls.stdout@, "node_modules"@)
}

/// A line that says nothing outdated: blank, or bun's version banner.
pub open spec fn linea_sin_tabla(l: Seq<char>) -> bool {
    recortado(l).len() == 0 || empieza_con(sin_espacio_inicial(l), "bun outdated v"@)
}

/// bun omits the table when nothing is outdated: exit 0 and only blank
/// lines or the `bun outdated vX (hash)` banner.
pub open spec fn todo_al_dia(out: RunnerOutput) -> bool {
    out.exit_code == 0 && forall|i: int| 0 <= i < lineas(out.stdout@).len() ==> linea_sin_tabla(#[trigger] lineas(out.stdout@)[i])
}

/// The versions `outdated` reports: none when all is up to date, else its
/// table, if recognisable.
pub open spec fn reportadas(out: RunnerOutput) -> Option<Map<Seq<char>, Seq<char>>> {
    if todo_al_dia(out) {
        Some(Map::empty())
    } else {
        tabla(out.stdout@)
    }
}

/// Whether the `pm ls` output calls for `outdated`: a recognisable tree
/// with globals.
pub open spec fn consulta_outdated(ls: RunnerOutput) -> bool {
    arbol_reconocible(ls) && pares_ls(ls.stdout@).len() > 0
}

/// bun's global space from the output of `pm ls -g` and, when it calls for
/// it, of `outdated -g`. Every unexpected format is an error, never a fake
/// "no packages" or "all up to date".
pub open spec fn paquetes_de_salidas(ls: RunnerOutput, outdated: Option<RunnerOutput>) -> Result<Seq<PaqueteV>, Seq<char>> {
    if !arbol_reconocible(ls) {
        Err(mensaje_fallo("bun pm ls failed"@, ls.exit_code, ls.stderr@))
    } else if pares_ls(ls.stdout@).len() == 0 {
        if vacio_legitimo(ls) {
            Ok(seq![])
        } else {
            Err(mensaje_fallo("bun pm ls did not produce the expected tree"@, ls.exit_code, ls.stderr@))
        }
    } else {
        match outdated {
            None => Err(seq![]),
            Some(o) => match reportadas(o) {
                Some(m) => Ok(lista_final(pares_ls(ls.stdout@), m)),
                None => Err(mensaje_fallo("bun outdated did not produce the expected table"@, o.exit_code, o.stderr@)),
            },
        }
    }
}

fn linea_sin_tabla_exec(l: &Vec<char>) -> (r: bool)
    ensures
        r == linea_sin_tabla(l@),
{
    let t = recortar(l);
    t.len() == 0 || empieza_con_exec(&recortar_inicio(l), &literal("bun outdated v"))
}

fn todo_al_dia_exec(out: &RunnerOutput) -> (r: bool)
    ensures
        r == todo_al_dia(*out),
{
    if out.exit_code != 0 {
        return false;
    }
    let ls = lineas_exec(&caracteres(out.stdout.as_str()));
    let mut k: usize = 0;
    while k < ls.len()
        invariant
            k <= ls.len(),
            ls.len() == lineas(out.stdout@).len(),
            forall|i: int| 0 <= i < ls.len() ==> (#[trigger] ls@[i])@ == lineas(out.stdout@)[i],
            forall|i: int| 0 <= i < k ==> linea_sin_tabla(#[trigger] lineas(out.stdout@)[i]),
        decreases ls.len() - k,
    {
        if !linea_sin_tabla_exec(&ls[k]) {
            return false;
        }
        k = k + 1;
    }
    true
}

fn mensaje(que: &str, exit_code: i32, stderr: &String) -> (r: String)
    ensures
        r@ == mensaje_fallo(que@, exit_code, stderr@),
{
    escribir_fallo(caracteres(que), exit_code, stderr.as_str())
}

/// Whether the `pm ls` output calls for `outdated`.
pub fn necesita_outdated(ls: &RunnerOutput) -> (r: bool)
    ensures
        r == consulta_outdated(*ls),
{
    let salida = caracteres(ls.stdout.as_str());
    (ls.exit_code == 0 || contiene_exec(&salida, &literal("──"))) && parse_ls(ls.stdout.as_str()).len() > 0
}

/// The package list that the outputs give; `outdated` is needed when the
/// tree calls for it ([`consulta_outdated`]).
pub fn paquetes(ls: &RunnerOutput, outdated: Option<&RunnerOutput>) -> (r: Result<Vec<GlobalPackage>, String>)
    requires
        consulta_outdated(*ls) ==> outdated is Some,
    ensures
        match r {
            Ok(p) => paquetes_de_salidas(*ls, match outdated {
                Some(o) => Some(*o),
                None => None,
            }) == Ok::<Seq<PaqueteV>, Seq<char>>(vistas(p@)),
            Err(m) => paquetes_de_salidas(*ls, match outdated {
                Some(o) => Some(*o),
                None => None,
            }) == Err::<Seq<PaqueteV>, Seq<char>>(m@),
        },
{
    let ghost od = match outdated {
        Some(o) => Some(*o),
        None => None::<RunnerOutput>,
    };
    let salida = caracteres(ls.stdout.as_str());
    if ls.exit_code != 0 && !contiene_exec(&salida, &literal("──")) {
        return Err(mensaje("bun pm ls failed", ls.exit_code, &ls.stderr));
    }
    let pares = parse_ls(ls.stdout.as_str());
    if pares.len() == 0 {
        if crate::texto::vacio_al_recortar(ls.stdout.as_str()) || contiene_exec(&salida, &literal("node_modules")) {
            let p: Vec<GlobalPackage> = Vec::new();
            assert(vistas(p@) =~= Seq::<PaqueteV>::empty());
            return Ok(p);
        }
        return Err(mensaje("bun pm ls did not produce the expected tree", ls.exit_code, &ls.stderr));
    }
    match outdated {
        None => unreached(),
        Some(o) => {
            let mapa = if todo_al_dia_exec(o) {
                Some(MapaVersiones::new())
            } else {
                parse_tabla(o.stdout.as_str())
            };
            match mapa {
                Some(m) => Ok(armar(pares, &m)),
                None => Err(mensaje("bun outdated did not produce the expected table", o.exit_code, &o.stderr)),
            }
        },
    }
}

/// The arguments of bun's listing.
pub open spec fn args_ls() -> Seq<Seq<char>> {
    seq!["pm"@, "ls"@, "-g"@]
}

/// The arguments of bun's `outdated` query.
pub open spec fn args_outdated() -> Seq<Seq<char>> {
    seq!["outdated"@, "-g"@]
}

/// What bun's photo can be, given the answers `runner` can give: a failed
/// `pm ls` gives its error text; when the tree does not call for `outdated`
/// (unrecognisable, or no globals) the photo is what
/// [`paquetes_de_salidas`] gives of the tree alone, and `outdated` plays no
/// part; otherwise a failed `outdated` gives its error text, and else the
/// photo is what [`paquetes_de_salidas`] gives of both.
pub open spec fn foto_de<R: Runner + ?Sized>(runner: &R, r: Result<Seq<PaqueteV>, Seq<char>>) -> bool {
    ||| exists|x: ErrorIo| #[trigger] runner.responde(args_ls(), Err(x)) && r == Err::<Seq<PaqueteV>, Seq<char>>(x.mensaje@)
    ||| exists|ls: RunnerOutput| #[trigger] runner.responde(args_ls(), Ok(ls)) && if consulta_outdated(ls) {
        ||| exists|x: ErrorIo| #[trigger] runner.responde(args_outdated(), Err(x)) && r == Err::<Seq<PaqueteV>, Seq<char>>(x.mensaje@)
        ||| exists|o: RunnerOutput| #[trigger] runner.responde(args_outdated(), Ok(o)) && r == paquetes_de_salidas(ls, Some(o))
    } else {
        r == paquetes_de_salidas(ls, None)
    }
}

/// Photo of bun's global space: runs `pm ls -g` and, only when it lists
/// globals in a recognisable tree, `outdated -g` (see [`foto_de`]). Every
/// unexpected format is an error, never a fake "no packages" or "all up to
/// date".
pub fn snapshot<R: Runner + ?Sized>(runner: &R) -> (r: Result<EspacioGlobal, String>)
    ensures
        foto_de(runner, paquetes_o_error(r)),
        r matches Ok(e) ==> versiones_informadas(runner, e),
{
    let cmd_ls: [&str; 3] = ["pm", "ls", "-g"];
    let ls = runner.run(cmd_ls.as_slice());
    assert(vista_args(cmd_ls@) =~= args_ls());
    let ls = match ls {
        Ok(o) => o,
        Err(e) => return Err(e.mensaje),
    };
    let packages = if necesita_outdated(&ls) {
        let cmd_outdated: [&str; 2] = ["outdated", "-g"];
        let out = runner.run(cmd_outdated.as_slice());
        assert(vista_args(cmd_outdated@) =~= args_outdated());
        let out = match out {
            Ok(o) => o,
            Err(e) => return Err(e.mensaje),
        };
        paquetes(&ls, Some(&out))?
    } else {
        paquetes(&ls, None)?
    };
    Ok(EspacioGlobal { version_gestor: runner.version_gestor(), version_node: runner.version_node(), packages })
}

} // verus!
