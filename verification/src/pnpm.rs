//! pnpm adapter: its global space is pnpm's own project (independent of
//! nvm); with no packages there is no manifest and the listing is simply
//! empty, a valid state, not an error.

use vstd::prelude::*;
use crate::json::{Json, JsonV, campo, campo_exec, json_de_texto, leer_json, vista_doc, vista_json, vista_lista};
use crate::kernel::{
    EspacioGlobal, ErrorIo, GlobalPackage, PaqueteV, Runner, RunnerOutput, anexar_pares_con_version, armar, fallo_de,
    guard_json, json_utilizable, lista_final, mensaje_fallo, pares_con_version, parse_outdated,
    paquetes_o_error, versiones_informadas, ultimas_de, vista_args, vistas, vistas_pares,
};

verus! {

/// The `(name, version)` pairs of some importers, in order: the members of
/// each one's `dependencies` object that carry a `version` text.
pub open spec fn pares_de_importers(imps: Seq<JsonV>) -> Seq<(Seq<char>, Seq<char>)>
    decreases imps.len(),
{
    if imps.len() == 0 {
        seq![]
    } else {
        pares_de_importers(imps.drop_last()) + match campo(imps.last(), "dependencies"@) {
            Some(JsonV::Objeto(es)) => pares_con_version(es),
            _ => seq![],
        }
    }
}

/// What `pnpm ls -g --depth=0 --json` lists: an ARRAY of importers; any
/// other document (or empty stdout) means zero globals.
pub open spec fn pares_ls(j: Option<JsonV>) -> Seq<(Seq<char>, Seq<char>)> {
    match j {
        Some(JsonV::Lista(imps)) => pares_de_importers(imps),
        _ => seq![],
    }
}

/// The pairs a parsed `pnpm ls -g --depth=0 --json` document lists (see
/// [`pares_ls`]).
pub fn pares_de_documento(doc: &Option<Json>) -> (r: Vec<(String, String)>)
    ensures
        vistas_pares(r@) == pares_ls(vista_doc(*doc)),
{
    let mut pares: Vec<(String, String)> = Vec::new();
    match doc {
        Some(Json::Lista(imps)) => {
            proof {
                crate::json::lema_vista_lista(imps@);
            }
            let ghost iv = vista_lista(imps@);
            let mut k: usize = 0;
            assert(iv.take(0) =~= Seq::<JsonV>::empty());
            assert(vistas_pares(pares@) =~= pares_de_importers(iv.take(0)));
            while k < imps.len()
                invariant
                    k <= imps.len(),
                    iv == vista_lista(imps@),
                    iv.len() == imps.len(),
                    forall|m: int| 0 <= m < imps.len() ==> #[trigger] iv[m] == vista_json(imps@[m]),
                    vistas_pares(pares@) == pares_de_importers(iv.take(k as int)),
                decreases imps.len() - k,
            {
                assert(iv.take(k + 1).drop_last() =~= iv.take(k as int));
                match campo_exec(&imps[k], "dependencies") {
                    Some(Json::Objeto(es)) => {
                        anexar_pares_con_version(&mut pares, es);
                    },
                    _ => {
                        assert(vistas_pares(pares@) =~= pares_de_importers(iv.take(k as int)) + Seq::<(Seq<char>, Seq<char>)>::empty());
                    },
                }
                k = k + 1;
            }
            assert(iv.take(imps.len() as int) =~= iv);
        },
        _ => {
            assert(vistas_pares(pares@) =~= Seq::<(Seq<char>, Seq<char>)>::empty());
        },
    }
    pares
}

/// `pnpm ls -g --depth=0 --json` returns an ARRAY of importers with
/// `dependencies`; empty stdout also means zero globals.
pub fn parse_ls(json: &str) -> (r: Vec<(String, String)>)
    ensures
        vistas_pares(r@) == pares_ls(json_de_texto(json@)),
{
    pares_de_documento(&leer_json(json))
}

/// pnpm's global space from the output of `ls` and, when `ls` listed
/// something, of `outdated`: `ls` must be usable JSON (`[`); with no
/// globals the space is empty and `outdated` is not consulted; otherwise
/// `outdated` must be usable JSON (`{`).
pub open spec fn paquetes_de_salidas(ls: RunnerOutput, outdated: Option<RunnerOutput>) -> Result<Seq<PaqueteV>, Seq<char>> {
    if !json_utilizable(ls, '[') {
        Err(mensaje_fallo(fallo_de("pnpm"@, "ls"@), ls.exit_code, ls.stderr@))
    } else if pares_ls(json_de_texto(ls.stdout@)).len() == 0 {
        Ok(seq![])
    } else {
        match outdated {
            None => Err(seq![]),
            Some(o) => if !json_utilizable(o, '{') {
                Err(mensaje_fallo(fallo_de("pnpm"@, "outdated"@), o.exit_code, o.stderr@))
            } else {
                Ok(lista_final(pares_ls(json_de_texto(ls.stdout@)), ultimas_de(json_de_texto(o.stdout@))))
            },
        }
    }
}

/// Whether the `ls` output calls for `outdated`: usable, with globals.
pub open spec fn consulta_outdated(ls: RunnerOutput) -> bool {
    json_utilizable(ls, '[') && pares_ls(json_de_texto(ls.stdout@)).len() > 0
}

/// The arguments of pnpm's listing.
pub open spec fn args_ls() -> Seq<Seq<char>> {
    seq!["ls"@, "-g"@, "--depth=0"@, "--json"@]
}

/// The arguments of pnpm's `outdated` query.
pub open spec fn args_outdated() -> Seq<Seq<char>> {
    seq!["outdated"@, "-g"@, "--json"@]
}

/// What pnpm's photo can be, given the answers `runner` can give: a failed
/// `ls` gives its error text; when `ls` does not call for `outdated`
/// (unusable, or no globals) the photo is what [`paquetes_de_salidas`]
/// gives of `ls` alone, and `outdated` plays no part; otherwise a failed
/// `outdated` gives its error text, and else the photo is what
/// [`paquetes_de_salidas`] gives of both.
pub open spec fn foto_de<R: Runner + ?Sized>(runner: &R, r: Result<Seq<PaqueteV>, Seq<char>>) -> bool {
    ||| exists|x: ErrorIo| #[trigger] runner.responde(args_ls(), Err(x)) && r == Err::<Seq<PaqueteV>, Seq<char>>(x.mensaje@)
    ||| exists|ls: RunnerOutput| #[trigger] runner.responde(args_ls(), Ok(ls)) && if consulta_outdated(ls) {
        ||| exists|x: ErrorIo| #[trigger] runner.responde(args_outdated(), Err(x)) && r == Err::<Seq<PaqueteV>, Seq<char>>(x.mensaje@)
        ||| exists|o: RunnerOutput| #[trigger] runner.responde(args_outdated(), Ok(o)) && r == paquetes_de_salidas(ls, Some(o))
    } else {
        r == paquetes_de_salidas(ls, None)
    }
}

/// Photo of pnpm's global space: runs `ls -g --depth=0 --json` and, only
/// when it lists globals, `outdated -g --json` (see [`foto_de`]).
pub fn snapshot<R: Runner + ?Sized>(runner: &R) -> (r: Result<EspacioGlobal, String>)
    ensures
        foto_de(runner, paquetes_o_error(r)),
        r matches Ok(e) ==> versiones_informadas(runner, e),
{
    let cmd_ls: [&str; 4] = ["ls", "-g", "--depth=0", "--json"];
    let ls = runner.run(cmd_ls.as_slice());
    assert(vista_args(cmd_ls@) =~= args_ls());
    let ls = match ls {
        Ok(o) => o,
        Err(e) => return Err(e.mensaje),
    };
    if let Err(m) = guard_json(&ls, "pnpm", "ls", '[') {
        return Err(m);
    }
    let pares = parse_ls(ls.stdout.as_str());
    if pares.len() == 0 {
        let packages: Vec<GlobalPackage> = Vec::new();
        assert(vistas(packages@) =~= Seq::<PaqueteV>::empty());
        assert(paquetes_de_salidas(ls, None) == Ok::<Seq<PaqueteV>, Seq<char>>(vistas(packages@)));
        return Ok(EspacioGlobal { version_gestor: runner.version_gestor(), version_node: runner.version_node(), packages });
    }
    let cmd_outdated: [&str; 3] = ["outdated", "-g", "--json"];
    let out = runner.run(cmd_outdated.as_slice());
    assert(vista_args(cmd_outdated@) =~= args_outdated());
    let out = match out {
        Ok(o) => o,
        Err(e) => return Err(e.mensaje),
    };
    if let Err(m) = guard_json(&out, "pnpm", "outdated", '{') {
        return Err(m);
    }
    let packages = armar(pares, &parse_outdated(out.stdout.as_str()));
    assert(paquetes_de_salidas(ls, Some(out)) == Ok::<Seq<PaqueteV>, Seq<char>>(vistas(packages@)));
    Ok(EspacioGlobal { version_gestor: runner.version_gestor(), version_node: runner.version_node(), packages })
}

} // verus!
