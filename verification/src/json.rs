//! JSON documents as the library reads them: parsed by `serde_json`, then
//! held as plain values.

use vstd::prelude::*;

verus! {

/// A parsed JSON document. Objects keep `serde_json`'s map order (keys
/// ascending, each key once); numbers hold the text `serde_json` writes
/// for them.
#[derive(Debug)]
pub enum Json {
    Nulo,
    Booleano(bool),
    Numero(String),
    Texto(String),
    Lista(Vec<Json>),
    Objeto(Vec<(String, Json)>),
}

/// The mathematical value of a [`Json`].
pub enum JsonV {
    Nulo,
    Booleano(bool),
    Numero(Seq<char>),
    Texto(Seq<char>),
    Lista(Seq<JsonV>),
    Objeto(Seq<(Seq<char>, JsonV)>),
}

pub open spec fn vista_json(j: Json) -> JsonV
    decreases j, 0int,
{
    match j {
        Json::Nulo => JsonV::Nulo,
        Json::Booleano(b) => JsonV::Booleano(b),
        Json::Numero(n) => JsonV::Numero(n@),
        Json::Texto(t) => JsonV::Texto(t@),
        Json::Lista(v) => JsonV::Lista(vista_lista(v@)),
        Json::Objeto(v) => JsonV::Objeto(vista_objeto(v@)),
    }
}

pub open spec fn vista_lista(s: Seq<Json>) -> Seq<JsonV>
    decreases s, 1int,
{
    if s.len() == 0 {
        seq![]
    } else {
        vista_lista(s.subrange(0, s.len() - 1)).push(vista_json(s[s.len() - 1]))
    }
}

pub open spec fn vista_objeto(s: Seq<(String, Json)>) -> Seq<(Seq<char>, JsonV)>
    decreases s, 1int,
{
    if s.len() == 0 {
        seq![]
    } else {
        vista_objeto(s.subrange(0, s.len() - 1)).push((s[s.len() - 1].0@, vista_json(s[s.len() - 1].1)))
    }
}

impl View for Json {
    type V = JsonV;

    open spec fn view(&self) -> JsonV {
        vista_json(*self)
    }
}

#[verifier::external_type_specification]
#[verifier::external_body]
pub struct ExValorJson(serde_json::Value);

/// The parse that `serde_json::from_str::<serde_json::Value>` gives of a
/// text, `None` where it refuses the text.
pub uninterp spec fn json_de_texto(texto: Seq<char>) -> Option<JsonV>;

/// Moves a `serde_json::Value` into a [`Json`], variant for variant.
#[verifier::external_body]
fn desde_valor(v: serde_json::Value) -> Json {
    match v {
        serde_json::Value::Null => Json::Nulo,
        serde_json::Value::Bool(b) => Json::Booleano(b),
        serde_json::Value::Number(n) => Json::Numero(n.to_string()),
        serde_json::Value::String(t) => Json::Texto(t),
        serde_json::Value::Array(a) => Json::Lista(a.into_iter().map(desde_valor).collect()),
        serde_json::Value::Object(o) => Json::Objeto(o.into_iter().map(|(k, x)| (k, desde_valor(x))).collect()),
    }
}

/// Calls `serde_json::from_str::<serde_json::Value>`: the document, or
/// `None` where the text is not JSON. The contract claims only that the
/// result is a function of the text (named [`json_de_texto`]).
#[verifier::external_body]
pub fn leer_json(texto: &str) -> (r: Option<Json>)
    ensures
        match r {
            Some(j) => json_de_texto(texto@) == Some(j@),
            None => json_de_texto(texto@) is None,
        },
{
    serde_json::from_str::<serde_json::Value>(texto).ok().map(desde_valor)
}

/// The value of a parse that may have failed.
pub open spec fn vista_doc(d: Option<Json>) -> Option<JsonV> {
    match d {
        Some(j) => Some(j@),
        None => None,
    }
}

/// The value that an object holds under key `k` (`Value::get`).
pub open spec fn buscar_clave(es: Seq<(Seq<char>, JsonV)>, k: Seq<char>) -> Option<JsonV>
    decreases es.len(),
{
    if es.len() == 0 {
        None
    } else if es.last().0 == k {
        Some(es.last().1)
    } else {
        buscar_clave(es.drop_last(), k)
    }
}

/// `Value::get(k)`: an object's member `k`; nothing for other values.
pub open spec fn campo(j: JsonV, k: Seq<char>) -> Option<JsonV> {
    match j {
        JsonV::Objeto(es) => buscar_clave(es, k),
        _ => None,
    }
}

/// `Value::get(k).and_then(Value::as_str)`: the text held under `k`.
pub open spec fn campo_texto(j: JsonV, k: Seq<char>) -> Option<Seq<char>> {
    match campo(j, k) {
        Some(JsonV::Texto(t)) => Some(t),
        _ => None,
    }
}

pub proof fn lema_vista_objeto(s: Seq<(String, Json)>)
    ensures
        vista_objeto(s).len() == s.len(),
        forall|i: int|
            0 <= i < s.len() ==> #[trigger] vista_objeto(s)[i] == (s[i].0@, vista_json(s[i].1)),
    decreases s.len(),
{
    if s.len() > 0 {
        lema_vista_objeto(s.subrange(0, s.len() - 1));
    }
}

pub proof fn lema_vista_lista(s: Seq<Json>)
    ensures
        vista_lista(s).len() == s.len(),
        forall|i: int| 0 <= i < s.len() ==> #[trigger] vista_lista(s)[i] == vista_json(s[i]),
    decreases s.len(),
{
    if s.len() > 0 {
        lema_vista_lista(s.subrange(0, s.len() - 1));
    }
}

/// `Value::get(k)`, executable.
pub fn campo_exec<'a>(j: &'a Json, k: &str) -> (r: Option<&'a Json>)
    ensures
        match r {
            Some(x) => campo(j@, k@) == Some(x@),
            None => campo(j@, k@) is None,
        },
{
    match j {
        Json::Objeto(es) => {
            let clave = k.to_string();
            proof {
                lema_vista_objeto(es@);
            }
            let ghost ev = vista_objeto(es@);
            let mut i = es.len();
            assert(ev.subrange(0, i as int) =~= ev);
            assert(j@ == JsonV::Objeto(ev));
            while i > 0
                invariant
                    i <= es.len(),
                    ev == vista_objeto(es@),
                    j@ == JsonV::Objeto(ev),
                    ev.len() == es.len(),
                    forall|m: int| 0 <= m < es.len() ==> #[trigger] ev[m] == (es@[m].0@, vista_json(es@[m].1)),
                    buscar_clave(ev, k@) == buscar_clave(ev.subrange(0, i as int), k@),
                    clave@ == k@,
                decreases i,
            {
                assert(ev.subrange(0, i as int).drop_last() =~= ev.subrange(0, i - 1));
                if es[i - 1].0 == clave {
                    assert(ev.subrange(0, i as int).last() == ev[i - 1]);
                    return Some(&es[i - 1].1);
                }
                i = i - 1;
            }
            None
        },
        _ => None,
    }
}

/// `Value::get(k).and_then(Value::as_str)`, executable.
pub fn campo_texto_exec<'a>(j: &'a Json, k: &str) -> (r: Option<&'a String>)
    ensures
        match r {
            Some(t) => campo_texto(j@, k@) == Some(t@),
            None => campo_texto(j@, k@) is None,
        },
{
    match campo_exec(j, k) {
        Some(Json::Texto(t)) => Some(t),
        _ => None,
    }
}

} // verus!
