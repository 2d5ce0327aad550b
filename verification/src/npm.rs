//! npm adapter: how to read its JSON outputs. Running the commands goes
//! through [`Runner`]; the verb (`install`) and the visible command
//! (`npm i -g`) live in the manager table.

use vstd::prelude::*;
use crate::json::{Json, JsonV, campo, campo_exec, json_de_texto, leer_json, vista_doc};
use crate::kernel::{
    EspacioGlobal, ErrorIo, GlobalPackage, PaqueteV, Runner, RunnerOutput, anexar_pares_con_version, armar, fallo_de,
    guard_json, json_utilizable, lista_final, mensaje_fallo, pares_con_version, parse_outdated,
    paquetes_o_error, versiones_informadas, ultimas_de, vista_args, vistas, vistas_pares,
};

verus! {

/// What `npm ls -g --depth=0 --json` lists: the members of its
/// `dependencies` object that carry a `version` text.
pub open spec fn pares_ls(j: Option<JsonV>) -> Seq<(Seq<char>, Seq<char>)> {
    match j {
        Some(d) => match campo(d, "dependencies"@) {
            Some(JsonV::Objeto(es)) => pares_con_version(es),
            _ => seq![],
        },
        None => seq![],
    }
}

/// The pairs a parsed `npm ls -g --depth=0 --json` document lists (see
/// [`pares_ls`]).
pub fn pares_de_documento(doc: &Option<Json>) -> (r: Vec<(String, String)>)
    ensures
        vistas_pares(r@) == pares_ls(vista_doc(*doc)),
{
    let mut pares: Vec<(String, String)> = Vec::new();
    if let Some(d) = doc {
        if let Some(Json::Objeto(es)) = campo_exec(d, "dependencies") {
            anexar_pares_con_version(&mut pares, es);
            assert(vistas_pares(pares@) =~= pares_con_version(crate::json::vista_objeto(es@)));
            return pares;
        }
    }
    assert(vistas_pares(pares@) =~= Seq::<(Seq<char>, Seq<char>)>::empty());
    pares
}

/// `npm ls -g --depth=0 --json` returns an object with `dependencies`.
pub fn parse_ls(json: &str) -> (r: Vec<(String, String)>)
    ensures
        vistas_pares(r@) == pares_ls(json_de_texto(json@)),
{
    pares_de_documento(&leer_json(json))
}

/// npm's global space from the outputs of `ls` and `outdated`: `ls` must
/// be usable JSON (`{`), then `outdated` too; a non-zero exit with JSON is
/// a valid result (outdated packages exist), not an error.
pub open spec fn paquetes_de_salidas(ls: RunnerOutput, outdated: RunnerOutput) -> Result<Seq<PaqueteV>, Seq<char>> {
    if !json_utilizable(ls, '{') {
        Err(mensaje_fallo(fallo_de("npm"@, "ls"@), ls.exit_code, ls.stderr@))
    } else if !json_utilizable(outdated, '{') {
        Err(mensaje_fallo(fallo_de("npm"@, "outdated"@), outdated.exit_code, outdated.stderr@))
    } else {
        Ok(lista_final(pares_ls(json_de_texto(ls.stdout@)), ultimas_de(json_de_texto(outdated.stdout@))))
    }
}

/// The package list that the outputs of `ls` and `outdated` give.
pub fn paquetes(ls: &RunnerOutput, outdated: &RunnerOutput) -> (r: Result<Vec<GlobalPackage>, String>)
    ensures
        match r {
            Ok(p) => paquetes_de_salidas(*ls, *outdated) == Ok::<Seq<PaqueteV>, Seq<char>>(vistas(p@)),
            Err(m) => paquetes_de_salidas(*ls, *outdated) == Err::<Seq<PaqueteV>, Seq<char>>(m@),
        },
{
    guard_json(ls, "npm", "ls", '{')?;
    guard_json(outdated, "npm", "outdated", '{')?;
    Ok(armar(parse_ls(ls.stdout.as_str()), &parse_outdated(outdated.stdout.as_str())))
}

/// The arguments of npm's listing.
pub open spec fn args_ls() -> Seq<Seq<char>> {
    seq!["ls"@, "-g"@, "--depth=0"@, "--json"@]
}

/// The arguments of npm's `outdated` query.
pub open spec fn args_outdated() -> Seq<Seq<char>> {
    seq!["outdated"@, "-g"@, "--json"@]
}

/// What npm's photo can be, given the answers `runner` can give: a failed
/// `ls` gives its error text; an `ls` output that is not usable JSON gives
/// its failure message, and `outdated` plays no part; otherwise a failed
/// `outdated` gives its error text, and else the photo is the list
/// [`paquetes_de_salidas`] gives of both outputs.
pub open spec fn foto_de<R: Runner + ?Sized>(runner: &R, r: Result<Seq<PaqueteV>, Seq<char>>) -> bool {
    ||| exists|x: ErrorIo| #[trigger] runner.responde(args_ls(), Err(x)) && r == Err::<Seq<PaqueteV>, Seq<char>>(x.mensaje@)
    ||| exists|ls: RunnerOutput| #[trigger] runner.responde(args_ls(), Ok(ls)) && if !json_utilizable(ls, '{') {
        r == Err::<Seq<PaqueteV>, Seq<char>>(mensaje_fallo(fallo_de("npm"@, "ls"@), ls.exit_code, ls.stderr@))
    } else {
        ||| exists|x: ErrorIo| #[trigger] runner.responde(args_outdated(), Err(x)) && r == Err::<Seq<PaqueteV>, Seq<char>>(x.mensaje@)
        ||| exists|o: RunnerOutput| #[trigger] runner.responde(args_outdated(), Ok(o)) && r == paquetes_de_salidas(ls, o)
    }
}

/// Photo of npm's global space (active node version included): runs
/// `ls -g --depth=0 --json`, then, when that gave usable JSON,
/// `outdated -g --json` (see [`foto_de`]).
pub fn snapshot<R: Runner + ?Sized>(runner: &R) -> (r: Result<EspacioGlobal, String>)
    ensures
        foto_de(runner, paquetes_o_error(r)),
        r matches Ok(e) ==> versiones_informadas(runner, e),
{
    let cmd_ls: [&str; 4] = ["ls", "-g", "--depth=0", "--json"];
    let ls = runner.run(cmd_ls.as_slice());
    assert(vista_args(cmd_ls@) =~= args_ls());
    let ls = match ls {
        Ok(o) => o,
        Err(e) => return Err(e.mensaje),
    };
    if let Err(m) = guard_json(&ls, "npm", "ls", '{') {
        return Err(m);
    }
    let cmd_outdated: [&str; 3] = ["outdated", "-g", "--json"];
    let outdated = runner.run(cmd_outdated.as_slice());
    assert(vista_args(cmd_outdated@) =~= args_outdated());
    let outdated = match outdated {
        Ok(o) => o,
        Err(e) => return Err(e.mensaje),
    };
    let packages = paquetes(&ls, &outdated)?;
    Ok(EspacioGlobal { version_gestor: runner.version_gestor(), version_node: runner.version_node(), packages })
}

} // verus!
