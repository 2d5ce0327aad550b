//! Persistent "Update all" exclusions, per (manager, package).
//!
//! An Excluded package is skipped in ITS manager's queue but keeps the
//! individual update available. The document is a map
//! `{ manager: [names] }`; the legacy format (a flat list) is read as
//! npm's exclusions and rewritten once.

use vstd::prelude::*;
use crate::kernel::texto_de_error;
use crate::texto::{anexar, caracteres, literal, texto_de};

verus! {

/// The excluded packages of each manager.
#[derive(Debug)]
pub struct Mapa {
    entradas: Vec<(String, Vec<String>)>,
}

/// The names of a list, as texts.
pub open spec fn textos(l: Seq<String>) -> Seq<Seq<char>> {
    l.map_values(|n: String| n@)
}

/// The map that a list of entries denotes; a later entry for a manager
/// overrides an earlier one.
pub open spec fn mapa_de_entradas(s: Seq<(String, Vec<String>)>) -> Map<Seq<char>, Seq<Seq<char>>>
    decreases s.len(),
{
    if s.len() == 0 {
        Map::empty()
    } else {
        mapa_de_entradas(s.drop_last()).insert(s.last().0@, textos(s.last().1@))
    }
}

pub open spec fn gestores_distintos(s: Seq<(String, Vec<String>)>) -> bool {
    forall|i: int, j: int| 0 <= i < j < s.len() ==> #[trigger] s[i].0@ != #[trigger] s[j].0@
}

proof fn lema_entradas(s: Seq<(String, Vec<String>)>)
    requires
        gestores_distintos(s),
    ensures
        mapa_de_entradas(s).dom().finite(),
        mapa_de_entradas(s).dom().len() == s.len(),
        forall|k: Seq<char>| #[trigger] mapa_de_entradas(s).contains_key(k) <==> exists|i: int| 0 <= i < s.len() && s[i].0@ == k,
        forall|i: int| 0 <= i < s.len() ==> #[trigger] mapa_de_entradas(s)[s[i].0@] == textos(s[i].1@),
    decreases s.len(),
{
    if s.len() > 0 {
        let p = s.drop_last();
        lema_entradas(p);
        assert forall|k: Seq<char>| #[trigger] mapa_de_entradas(s).contains_key(k) <==> exists|i: int| 0 <= i < s.len() && s[i].0@ == k by {
            if mapa_de_entradas(p).contains_key(k) {
                let i = choose|i: int| 0 <= i < p.len() && p[i].0@ == k;
                assert(s[i].0@ == k);
            }
            if exists|i: int| 0 <= i < s.len() && s[i].0@ == k {
                let i = choose|i: int| 0 <= i < s.len() && s[i].0@ == k;
                if i < s.len() - 1 {
                    assert(p[i].0@ == k);
                }
            }
        }
        assert(!mapa_de_entradas(p).contains_key(s.last().0@)) by {
            if mapa_de_entradas(p).contains_key(s.last().0@) {
                let i = choose|i: int| 0 <= i < p.len() && p[i].0@ == s.last().0@;
                assert(s[i].0@ == s[s.len() - 1].0@);
            }
        }
        assert forall|i: int| 0 <= i < s.len() implies #[trigger] mapa_de_entradas(s)[s[i].0@] == textos(s[i].1@) by {
            if i < s.len() - 1 {
                assert(p[i] == s[i]);
                assert(mapa_de_entradas(p)[p[i].0@] == textos(p[i].1@));
                assert(s[i].0@ != s[s.len() - 1].0@);
            }
        }
    }
}

proof fn lema_entrada_actualizada(s: Seq<(String, Vec<String>)>, i: int, k: String, v: Vec<String>)
    requires
        gestores_distintos(s),
        0 <= i < s.len(),
        s[i].0@ == k@,
    ensures
        gestores_distintos(s.update(i, (k, v))),
        mapa_de_entradas(s.update(i, (k, v))) == mapa_de_entradas(s).insert(k@, textos(v@)),
    decreases s.len(),
{
    let t = s.update(i, (k, v));
    if i == s.len() - 1 {
        assert(t.drop_last() =~= s.drop_last());
        assert(mapa_de_entradas(s).insert(k@, textos(v@)) =~= mapa_de_entradas(s.drop_last()).insert(k@, textos(v@)));
    } else {
        lema_entrada_actualizada(s.drop_last(), i, k, v);
        assert(t.drop_last() =~= s.drop_last().update(i, (k, v)));
        assert(s.last().0@ != k@);
        assert(mapa_de_entradas(t) =~= mapa_de_entradas(s).insert(k@, textos(v@)));
    }
}

impl Mapa {
    #[verifier::type_invariant]
    spec fn invariante(&self) -> bool {
        gestores_distintos(self.entradas@)
    }

    /// Each manager's excluded names.
    pub closed spec fn vista(&self) -> Map<Seq<char>, Seq<Seq<char>>> {
        mapa_de_entradas(self.entradas@)
    }

    /// No exclusions.
    pub fn new() -> (r: Self)
        ensures
            r.vista() == Map::<Seq<char>, Seq<Seq<char>>>::empty(),
    {
        Mapa { entradas: Vec::new() }
    }

    /// The excluded names of `gestor`.
    #[verifier::loop_isolation(false)]
    pub fn get(&self, gestor: &str) -> (r: Option<&Vec<String>>)
        ensures
            match r {
                Some(l) => self.vista().contains_key(gestor@) && self.vista()[gestor@] == textos(l@),
                None => !self.vista().contains_key(gestor@),
            },
    {
        proof {
            use_type_invariant(self);
            lema_entradas(self.entradas@);
        }
        let clave = gestor.to_string();
        let mut i: usize = 0;
        while i < self.entradas.len()
            invariant
                i <= self.entradas.len(),
                clave@ == gestor@,
                forall|m: int| 0 <= m < i ==> self.entradas@[m].0@ != gestor@,
            decreases self.entradas.len() - i,
        {
            if self.entradas[i].0 == clave {
                assert(self.entradas@[i as int].0@ == gestor@);
                return Some(&self.entradas[i].1);
            }
            i = i + 1;
        }
        None
    }

    /// Sets the excluded names of `gestor`.
    #[verifier::loop_isolation(false)]
    pub fn insert(&mut self, gestor: String, nombres: Vec<String>)
        ensures
            final(self).vista() == old(self).vista().insert(gestor@, textos(nombres@)),
    {
        proof {
            use_type_invariant(&*self);
            lema_entradas(self.entradas@);
        }
        let mut i: usize = 0;
        while i < self.entradas.len()
            invariant
                i <= self.entradas.len(),
                self.entradas@ == old(self).entradas@,
                gestores_distintos(self.entradas@),
                forall|m: int| 0 <= m < i ==> self.entradas@[m].0@ != gestor@,
            decreases self.entradas.len() - i,
        {
            if self.entradas[i].0 == gestor {
                proof {
                    lema_entrada_actualizada(self.entradas@, i as int, gestor, nombres);
                }
                let mut entradas: Vec<(String, Vec<String>)> = Vec::new();
                std::mem::swap(&mut entradas, &mut self.entradas);
                entradas.set(i, (gestor, nombres));
                self.entradas = entradas;
                return;
            }
            i = i + 1;
        }
        let ghost previas = self.entradas@;
        let mut entradas: Vec<(String, Vec<String>)> = Vec::new();
        std::mem::swap(&mut entradas, &mut self.entradas);
        let ghost antes = entradas@;
        assert(antes == previas);
        entradas.push((gestor, nombres));
        assert(entradas@.drop_last() =~= antes);
        assert(gestores_distintos(entradas@)) by {
            assert forall|a: int, b: int| 0 <= a < b < entradas@.len() implies #[trigger] entradas@[a].0@ != #[trigger] entradas@[b].0@ by {
                assert(antes[a] == entradas@[a]);
                if b < antes.len() {
                    assert(antes[b] == entradas@[b]);
                } else {
                    assert(antes[a].0@ != gestor@);
                }
            }
        }
        self.entradas = entradas;
    }

    /// How many managers have an entry.
    pub fn len(&self) -> (r: usize)
        ensures
            r == self.vista().len(),
    {
        proof {
            use_type_invariant(self);
            lema_entradas(self.entradas@);
        }
        self.entradas.len()
    }

    /// Whether no manager has an entry.
    pub fn is_empty(&self) -> (r: bool)
        ensures
            r == (self.vista().len() == 0),
    {
        self.len() == 0
    }

    /// The entries, one per manager, to write the document.
    pub fn entradas(&self) -> (r: &Vec<(String, Vec<String>)>)
        ensures
            mapa_de_entradas(r@) == self.vista(),
            gestores_distintos(r@),
    {
        proof {
            use_type_invariant(self);
        }
        &self.entradas
    }
}

/// `s` without any occurrence of `p`.
pub open spec fn sin_nombre(s: Seq<Seq<char>>, p: Seq<char>) -> Seq<Seq<char>>
    decreases s.len(),
{
    if s.len() == 0 {
        seq![]
    } else {
        let r = sin_nombre(s.drop_last(), p);
        if s.last() == p {
            r
        } else {
            r.push(s.last())
        }
    }
}

/// The map once `paquete` is excluded in `gestor`: appended to its list
/// unless already there (a manager without a list gets one).
pub open spec fn excluido(m: Map<Seq<char>, Seq<Seq<char>>>, gestor: Seq<char>, paquete: Seq<char>) -> Map<Seq<char>, Seq<Seq<char>>> {
    let lista = if m.contains_key(gestor) {
        m[gestor]
    } else {
        seq![]
    };
    m.insert(gestor, if lista.contains(paquete) {
        lista
    } else {
        lista.push(paquete)
    })
}

/// The map once `paquete`'s exclusion in `gestor` is removed; an unknown
/// manager leaves it as it was.
pub open spec fn quitado(m: Map<Seq<char>, Seq<Seq<char>>>, gestor: Seq<char>, paquete: Seq<char>) -> Map<Seq<char>, Seq<Seq<char>>> {
    if m.contains_key(gestor) {
        m.insert(gestor, sin_nombre(m[gestor], paquete))
    } else {
        m
    }
}

fn copiar_lista(l: &Vec<String>) -> (r: Vec<String>)
    ensures
        textos(r@) == textos(l@),
{
    let mut r: Vec<String> = Vec::new();
    let mut k: usize = 0;
    while k < l.len()
        invariant
            k <= l.len(),
            textos(r@) == textos(l@).take(k as int),
        decreases l.len() - k,
    {
        let ghost antes = r@;
        r.push(l[k].clone());
        assert(textos(r@) =~= textos(antes).push(l@[k as int]@));
        assert(textos(r@) =~= textos(l@).take(k + 1));
        k = k + 1;
    }
    assert(textos(l@).take(l.len() as int) =~= textos(l@));
    r
}

/// Excludes one package for one manager: the granular operation the UI
/// asks for; repeating it never duplicates.
pub fn excluir(mapa: &mut Mapa, gestor: &str, paquete: &str)
    ensures
        final(mapa).vista() == excluido(old(mapa).vista(), gestor@, paquete@),
{
    let mut lista = nombres_de(mapa, gestor);
    let ghost tl = textos(lista@);
    let clave = paquete.to_string();
    let mut k: usize = 0;
    let mut esta = false;
    while k < lista.len()
        invariant
            k <= lista.len(),
            clave@ == paquete@,
            tl == textos(lista@),
            !esta ==> forall|m: int| 0 <= m < k ==> lista@[m]@ != paquete@,
            esta ==> tl.contains(paquete@),
        decreases lista.len() - k,
    {
        if lista[k] == clave {
            assert(tl[k as int] == paquete@);
            esta = true;
        }
        k = k + 1;
    }
    if !esta {
        assert(!tl.contains(paquete@)) by {
            if tl.contains(paquete@) {
                let m = choose|m: int| 0 <= m < tl.len() && tl[m] == paquete@;
                assert(lista@[m]@ == paquete@);
            }
        }
        let ghost antes = lista@;
        lista.push(clave);
        assert(textos(lista@) =~= textos(antes).push(paquete@));
    }
    mapa.insert(gestor.to_string(), lista);
}

/// Removes one package's exclusion; an absent package or an unknown manager
/// is a no-op.
pub fn quitar(mapa: &mut Mapa, gestor: &str, paquete: &str)
    ensures
        final(mapa).vista() == quitado(old(mapa).vista(), gestor@, paquete@),
{
    let nueva = match mapa.get(gestor) {
        None => return,
        Some(l) => {
            let clave = paquete.to_string();
            let mut r: Vec<String> = Vec::new();
            let mut k: usize = 0;
            while k < l.len()
                invariant
                    k <= l.len(),
                    clave@ == paquete@,
                    textos(r@) == sin_nombre(textos(l@).take(k as int), paquete@),
                decreases l.len() - k,
            {
                assert(textos(l@).take(k + 1).drop_last() =~= textos(l@).take(k as int));
                if !(l[k] == clave) {
                    let ghost antes = r@;
                    r.push(l[k].clone());
                    assert(textos(r@) =~= textos(antes).push(l@[k as int]@));
                }
                k = k + 1;
            }
            assert(textos(l@).take(l.len() as int) =~= textos(l@));
            r
        },
    };
    mapa.insert(gestor.to_string(), nueva);
}

/// The names of `gestor`, a copy (none when it has no list).
pub fn nombres_de(mapa: &Mapa, gestor: &str) -> (r: Vec<String>)
    ensures
        textos(r@) == if mapa.vista().contains_key(gestor@) {
            mapa.vista()[gestor@]
        } else {
            seq![]
        },
{
    match mapa.get(gestor) {
        Some(l) => copiar_lista(l),
        None => {
            let r: Vec<String> = Vec::new();
            assert(textos(r@) =~= Seq::<Seq<char>>::empty());
            r
        },
    }
}

proof fn lema_sin_nombre(s: Seq<Seq<char>>, p: Seq<char>)
    ensures
        !sin_nombre(s, p).contains(p),
        sin_nombre(sin_nombre(s, p), p) == sin_nombre(s, p),
        forall|x: Seq<char>| x != p ==> (#[trigger] sin_nombre(s, p).contains(x) <==> s.contains(x)),
    decreases s.len(),
{
    if s.len() > 0 {
        let q = s.drop_last();
        lema_sin_nombre(q, p);
        let r = sin_nombre(q, p);
        if s.last() != p {
            assert(r.push(s.last()).drop_last() =~= r);
            assert(!r.push(s.last()).contains(p)) by {
                if r.push(s.last()).contains(p) {
                    let i = choose|i: int| 0 <= i < r.len() + 1 && r.push(s.last())[i] == p;
                    if i < r.len() {
                        assert(r.contains(p));
                    }
                }
            }
        }
        assert forall|x: Seq<char>| x != p implies (#[trigger] sin_nombre(s, p).contains(x) <==> s.contains(x)) by {
            assert(r.contains(x) <==> q.contains(x));
            assert(s =~= q.push(s.last()));
            assert(s.contains(x) <==> (q.contains(x) || s.last() == x)) by {
                if s.contains(x) {
                    let i = choose|i: int| 0 <= i < s.len() && s[i] == x;
                    if i < s.len() - 1 {
                        assert(q[i] == x);
                    }
                }
                if q.contains(x) {
                    let i = choose|i: int| 0 <= i < q.len() && q[i] == x;
                    assert(s[i] == x);
                }
            }
            if s.last() != p {
                let t = r.push(s.last());
                assert(t.contains(x) <==> (r.contains(x) || s.last() == x)) by {
                    if t.contains(x) {
                        let i = choose|i: int| 0 <= i < t.len() && t[i] == x;
                        if i < r.len() {
                            assert(r[i] == x);
                        }
                    }
                    if r.contains(x) {
                        let i = choose|i: int| 0 <= i < r.len() && r[i] == x;
                        assert(t[i] == x);
                    }
                    if s.last() == x {
                        assert(t[r.len() as int] == x);
                    }
                }
            }
        }
    } else {
        assert(sin_nombre(s, p) =~= Seq::<Seq<char>>::empty());
    }
}

proof fn lema_sin_nombre_fijo(s: Seq<Seq<char>>, p: Seq<char>)
    requires
        !s.contains(p),
    ensures
        sin_nombre(s, p) == s,
    decreases s.len(),
{
    if s.len() > 0 {
        assert(!s.drop_last().contains(p)) by {
            if s.drop_last().contains(p) {
                let i = choose|i: int| 0 <= i < s.len() - 1 && s.drop_last()[i] == p;
                assert(s[i] == p);
            }
        }
        lema_sin_nombre_fijo(s.drop_last(), p);
        assert(s.last() != p);
        assert(s.drop_last().push(s.last()) =~= s);
    }
}

/// Excluding is idempotent: a second exclusion of the same package changes
/// nothing.
pub proof fn ley_excluir_idempotente(m: Map<Seq<char>, Seq<Seq<char>>>, gestor: Seq<char>, paquete: Seq<char>)
    ensures
        excluido(excluido(m, gestor, paquete), gestor, paquete) == excluido(m, gestor, paquete),
{
    let lista = if m.contains_key(gestor) {
        m[gestor]
    } else {
        seq![]
    };
    if !lista.contains(paquete) {
        assert(lista.push(paquete)[lista.len() as int] == paquete);
    }
    assert(excluido(excluido(m, gestor, paquete), gestor, paquete) =~= excluido(m, gestor, paquete));
}

/// After an exclusion the package is excluded in that manager, and every
/// other manager keeps exactly its list.
pub proof fn ley_excluir_por_gestor(m: Map<Seq<char>, Seq<Seq<char>>>, gestor: Seq<char>, paquete: Seq<char>)
    ensures
        excluido(m, gestor, paquete).contains_key(gestor),
        excluido(m, gestor, paquete)[gestor].contains(paquete),
        forall|g: Seq<char>| g != gestor ==> (#[trigger] excluido(m, gestor, paquete).contains_key(g) == m.contains_key(g)),
        forall|g: Seq<char>| g != gestor && m.contains_key(g) ==> #[trigger] excluido(m, gestor, paquete)[g] == m[g],
{
    let lista = if m.contains_key(gestor) {
        m[gestor]
    } else {
        seq![]
    };
    if !lista.contains(paquete) {
        assert(lista.push(paquete)[lista.len() as int] == paquete);
    }
}

/// Removing is idempotent, leaves the package out of that manager's list,
/// keeps the manager's other names, and touches no other manager.
pub proof fn ley_quitar(m: Map<Seq<char>, Seq<Seq<char>>>, gestor: Seq<char>, paquete: Seq<char>)
    ensures
        quitado(quitado(m, gestor, paquete), gestor, paquete) == quitado(m, gestor, paquete),
        m.contains_key(gestor) ==> !quitado(m, gestor, paquete)[gestor].contains(paquete),
        m.contains_key(gestor) ==> forall|x: Seq<char>| x != paquete ==> (#[trigger] quitado(m, gestor, paquete)[gestor].contains(x) <==> m[gestor].contains(x)),
        forall|g: Seq<char>| g != gestor ==> (#[trigger] quitado(m, gestor, paquete).contains_key(g) == m.contains_key(g)),
        forall|g: Seq<char>| g != gestor && m.contains_key(g) ==> #[trigger] quitado(m, gestor, paquete)[g] == m[g],
{
    if m.contains_key(gestor) {
        lema_sin_nombre(m[gestor], paquete);
        assert(quitado(quitado(m, gestor, paquete), gestor, paquete) =~= quitado(m, gestor, paquete));
    }
}

/// Excluding and then removing the exclusion leaves the manager's list as
/// if only the removal had happened (an absent manager ends with an empty
/// list).
pub proof fn ley_excluir_y_quitar(m: Map<Seq<char>, Seq<Seq<char>>>, gestor: Seq<char>, paquete: Seq<char>)
    ensures
        quitado(excluido(m, gestor, paquete), gestor, paquete)[gestor] == sin_nombre(
            if m.contains_key(gestor) {
                m[gestor]
            } else {
                seq![]
            },
            paquete,
        ),
{
    let lista = if m.contains_key(gestor) {
        m[gestor]
    } else {
        seq![]
    };
    if !lista.contains(paquete) {
        lema_sin_nombre_fijo(lista, paquete);
        assert(lista.push(paquete).drop_last() =~= lista);
    }
}

/// The list of texts that `serde_json::from_str::<Vec<String>>` reads from
/// a text, `None` where it refuses the text.
pub uninterp spec fn lista_de_texto(texto: Seq<char>) -> Option<Seq<Seq<char>>>;

/// The map that `serde_json::from_str::<BTreeMap<String, Vec<String>>>`
/// reads from a text, `None` where it refuses the text.
pub uninterp spec fn mapa_de_texto(texto: Seq<char>) -> Option<Map<Seq<char>, Seq<Seq<char>>>>;

/// Calls `serde_json::from_str::<Vec<String>>`: the legacy flat list, or
/// `None` where the text is not a JSON list of strings. The contract claims
/// only that the result is a function of the text (named
/// [`lista_de_texto`]).
#[verifier::external_body]
fn leer_lista(texto: &str) -> (r: Option<Vec<String>>)
    ensures
        match r {
            Some(l) => lista_de_texto(texto@) == Some(textos(l@)),
            None => lista_de_texto(texto@) is None,
        },
{
    serde_json::from_str::<Vec<String>>(texto).ok()
}

/// Calls `serde_json::from_str::<BTreeMap<String, Vec<String>>>`: the
/// per-manager map as its entries, in the map's order, or `None` where the
/// text is not a JSON object of lists of strings. A `BTreeMap` holds each
/// key once, so the entries name each manager once; beyond that the
/// contract claims only that the map is a function of the text (named
/// [`mapa_de_texto`]).
#[verifier::external_body]
fn leer_mapa(texto: &str) -> (r: Option<Vec<(String, Vec<String>)>>)
    ensures
        match r {
            Some(es) => gestores_distintos(es@) && mapa_de_texto(texto@) == Some(mapa_de_entradas(es@)),
            None => mapa_de_texto(texto@) is None,
        },
{
    serde_json::from_str::<std::collections::BTreeMap<String, Vec<String>>>(texto).ok().map(|m| m.into_iter().collect())
}

/// What the two readings of an exclusions document give: a flat list is
/// npm's exclusions (an empty list, nothing) and marks the legacy form;
/// otherwise the per-manager map; a document that is neither is not
/// understood (`None`).
pub open spec fn entendido_de(
    lista: Option<Seq<Seq<char>>>,
    mapa: Option<Map<Seq<char>, Seq<Seq<char>>>>,
) -> Option<(Map<Seq<char>, Seq<Seq<char>>>, bool)> {
    match lista {
        Some(l) => Some(
            (
                if l.len() > 0 {
                    Map::empty().insert("npm"@, l)
                } else {
                    Map::empty()
                },
                true,
            ),
        ),
        None => match mapa {
            Some(m) => Some((m, false)),
            None => None,
        },
    }
}

/// What an understood exclusions document holds, and whether it was the
/// legacy flat list (see [`entendido_de`]).
pub open spec fn entendido(t: Seq<char>) -> Option<(Map<Seq<char>, Seq<Seq<char>>>, bool)> {
    entendido_de(lista_de_texto(t), mapa_de_texto(t))
}

/// What the exclusions document holds, and whether it was the legacy flat
/// list: no document, or one that is not understood, is an empty map (no
/// migration).
pub open spec fn carga(texto: Option<Seq<char>>) -> (Map<Seq<char>, Seq<Seq<char>>>, bool) {
    match texto {
        None => (Map::empty(), false),
        Some(t) => match entendido(t) {
            Some(x) => x,
            None => (Map::empty(), false),
        },
    }
}

/// The map that a list of entries denotes, as a [`Mapa`].
fn mapa_de(es: &Vec<(String, Vec<String>)>) -> (r: Mapa)
    ensures
        r.vista() == mapa_de_entradas(es@),
{
    let mut m = Mapa::new();
    let mut k: usize = 0;
    assert(es@.take(0) =~= Seq::<(String, Vec<String>)>::empty());
    while k < es.len()
        invariant
            k <= es.len(),
            m.vista() == mapa_de_entradas(es@.take(k as int)),
        decreases es.len() - k,
    {
        assert(es@.take(k + 1).drop_last() =~= es@.take(k as int));
        m.insert(es[k].0.clone(), copiar_lista(&es[k].1));
        k = k + 1;
    }
    assert(es@.take(es.len() as int) =~= es@);
    m
}

/// The exclusions document understood from its two readings (see
/// [`entendido_de`]): the list read as `Vec<String>`, and the map read as
/// `BTreeMap<String, Vec<String>>`, given as its entries.
pub fn entender_lecturas(lista: Option<Vec<String>>, mapa: Option<Vec<(String, Vec<String>)>>) -> (r: Option<(Mapa, bool)>)
    ensures
        match r {
            Some((m, b)) => entendido_de(
                match lista {
                    Some(l) => Some(textos(l@)),
                    None => None,
                },
                match mapa {
                    Some(es) => Some(mapa_de_entradas(es@)),
                    None => None,
                },
            ) == Some((m.vista(), b)),
            None => entendido_de(
                match lista {
                    Some(l) => Some(textos(l@)),
                    None => None,
                },
                match mapa {
                    Some(es) => Some(mapa_de_entradas(es@)),
                    None => None,
                },
            ) is None,
        },
{
    match lista {
        Some(l) => {
            let mut m = Mapa::new();
            if l.len() > 0 {
                m.insert("npm".to_string(), l);
            }
            Some((m, true))
        },
        None => match mapa {
            Some(es) => Some((mapa_de(&es), false)),
            None => None,
        },
    }
}

/// The exclusions document understood: the per-manager map and whether it
/// was the legacy flat list, or `None` when it is neither form.
fn entender(t: &str) -> (r: Option<(Mapa, bool)>)
    ensures
        match r {
            Some((m, b)) => entendido(t@) == Some((m.vista(), b)),
            None => entendido(t@) is None,
        },
{
    let lista = leer_lista(t);
    let mapa = match lista {
        Some(_) => None,
        None => leer_mapa(t),
    };
    entender_lecturas(lista, mapa)
}
/// Reads the exclusions document (`None`: there is none): the per-manager
/// map, and whether it was the legacy flat list, so that the caller
/// rewrites it in map form once. A document that is not understood starts
/// clean.
pub fn cargar_de_texto(texto: Option<&str>) -> (r: (Mapa, bool))
    ensures
        (r.0.vista(), r.1) == carga(
            match texto {
                Some(t) => Some(t@),
                None => None,
            },
        ),
{
    let t = match texto {
        None => return (Mapa::new(), false),
        Some(t) => t,
    };
    match entender(t) {
        Some(x) => x,
        None => (Mapa::new(), false),
    }
}

#[verifier::external_type_specification]
#[verifier::external_body]
pub struct ExErrorJson(serde_json::Error);

/// The text `serde_json::to_string_pretty` writes of a
/// `BTreeMap<String, Vec<String>>` holding the map `m`.
pub uninterp spec fn documento_json(m: Map<Seq<char>, Seq<Seq<char>>>) -> Seq<char>;

/// Calls `serde_json::to_string_pretty` on the entries, one per manager,
/// gathered in a `BTreeMap<String, Vec<String>>`: the document, a function
/// of the map they denote ([`mapa_de_entradas`]). Its documentation names
/// the only failures, a `Serialize` impl that fails or a map with
/// non-string keys, and neither can happen for string keys and lists of
/// strings: the call succeeds. The document is a JSON object whose members
/// are the managers, each with the array of its names as escaped strings;
/// so `serde_json::from_str` refuses it as a `Vec<String>` and reads it
/// back as a `BTreeMap<String, Vec<String>>` holding the same map.
#[verifier::external_body]
fn escribir_json(entradas: &Vec<(String, Vec<String>)>) -> (r: Result<String, serde_json::Error>)
    requires
        gestores_distintos(entradas@),
    ensures
        r is Ok,
        r matches Ok(t) ==> t@ == documento_json(mapa_de_entradas(entradas@)),
        r matches Ok(t) ==> lista_de_texto(t@) is None,
        r matches Ok(t) ==> mapa_de_texto(t@) == Some(mapa_de_entradas(entradas@)),
{
    let mapa: std::collections::BTreeMap<&String, &Vec<String>> = entradas.iter().map(|(g, l)| (g, l)).collect();
    serde_json::to_string_pretty(&mapa)
}

/// The exclusions document of `mapa`, in map form: what `serde_json`
/// writes of it. Read back, it gives the same map, per manager (an empty
/// list included), and is no longer the legacy form.
pub fn documento(mapa: &Mapa) -> (r: String)
    ensures
        r@ == documento_json(mapa.vista()),
        entendido(r@) == Some((mapa.vista(), false)),
        carga(Some(r@)) == (mapa.vista(), false),
{
    match escribir_json(mapa.entradas()) {
        Ok(t) => t,
        Err(_) => unreached(),
    }
}

/// How the exclusions file was read.
#[derive(Debug)]
pub enum Lectura {
    /// There is no file.
    Inexistente,
    /// The file holds something that is neither form.
    Corrupto,
    /// The file could not be read, and why.
    Ilegible(std::io::Error),
    /// The per-manager map, and whether the file was the legacy flat list.
    Cargado { mapa: Mapa, era_legado: bool },
}

/// The reading of an existing file's content: a map or the legacy list is
/// loaded; anything else is corrupt, never silently empty.
pub fn lectura_de_texto(texto: &str) -> (r: Lectura)
    ensures
        match entendido(texto@) {
            Some((m, b)) => r matches Lectura::Cargado { mapa, era_legado } && mapa.vista() == m && era_legado == b,
            None => r is Corrupto,
        },
{
    match entender(texto) {
        Some((mapa, era_legado)) => Lectura::Cargado { mapa, era_legado },
        None => Lectura::Corrupto,
    }
}

/// What the UI is shown of the exclusions file: its state ("ok",
/// "corrupto" or "ilegible"), why when it has something to say, and one
/// manager's names (meaningful with "ok" only).
#[derive(Debug)]
pub struct EstadoExclusiones {
    pub estado: String,
    pub detalle: Option<String>,
    pub nombres: Vec<String>,
}

/// One manager's exclusions and the file's state, from how it was read: a
/// loaded or missing file is "ok" with the manager's names; a corrupt one
/// is "corrupto", with the reason when its evidence copy could not be kept,
/// and is never treated as empty; an unreadable one is "ilegible", with
/// the reason.
pub fn estado_exclusiones(lectura: &Lectura, gestor: &str, fallo_resguardo: Option<String>) -> (r: EstadoExclusiones)
    ensures
        match lectura {
            Lectura::Cargado { mapa, .. } => r.estado@ == "ok"@ && r.detalle is None && textos(r.nombres@) == if mapa.vista().contains_key(gestor@) {
                mapa.vista()[gestor@]
            } else {
                seq![]
            },
            Lectura::Inexistente => r.estado@ == "ok"@ && r.detalle is None && r.nombres@.len() == 0,
            Lectura::Corrupto => r.estado@ == "corrupto"@ && r.nombres@.len() == 0 && match fallo_resguardo {
                Some(e) => r.detalle matches Some(d) && d@ == "(no se pudo conservar la copia .corrupt: "@ + e@ + ")"@,
                None => r.detalle is None,
            },
            Lectura::Ilegible(_) => r.estado@ == "ilegible"@ && r.detalle is Some && r.nombres@.len() == 0,
        },
{
    match lectura {
        Lectura::Cargado { mapa, .. } => EstadoExclusiones {
            estado: "ok".to_string(),
            detalle: None,
            nombres: nombres_de(mapa, gestor),
        },
        Lectura::Inexistente => EstadoExclusiones { estado: "ok".to_string(), detalle: None, nombres: Vec::new() },
        Lectura::Corrupto => {
            let detalle = match fallo_resguardo {
                Some(e) => {
                    let mut m = literal("(no se pudo conservar la copia .corrupt: ");
                    anexar(&mut m, &caracteres(e.as_str()));
                    anexar(&mut m, &literal(")"));
                    Some(texto_de(&m))
                },
                None => None,
            };
            EstadoExclusiones { estado: "corrupto".to_string(), detalle, nombres: Vec::new() }
        },
        Lectura::Ilegible(e) => EstadoExclusiones {
            estado: "ilegible".to_string(),
            detalle: Some(texto_de_error(e)),
            nombres: Vec::new(),
        },
    }
}

/// Whether reading must first keep the damaged file as evidence: only when
/// it is corrupt.
pub fn necesita_resguardo(lectura: &Lectura) -> (r: bool)
    ensures
        r == (*lectura is Corrupto),
{
    match lectura {
        Lectura::Corrupto => true,
        _ => false,
    }
}

/// The map to rewrite once in map form: the legacy list's, once loaded.
pub fn por_migrar(lectura: &Lectura) -> (r: Option<&Mapa>)
    ensures
        match lectura {
            Lectura::Cargado { mapa, era_legado } => if *era_legado {
                r == Some(mapa)
            } else {
                r is None
            },
            _ => r is None,
        },
{
    match lectura {
        Lectura::Cargado { mapa, era_legado } => if *era_legado {
            Some(mapa)
        } else {
            None
        },
        _ => None,
    }
}

/// The refusal to write over a corrupt file.
pub open spec fn mensaje_corrupto() -> Seq<char> {
    "el archivo de exclusiones está dañado (conservado como .corrupt): resuélvelo antes de escribir"@
}

/// The start of the refusal to write over an unreadable file; the reason
/// follows.
pub open spec fn prefijo_ilegible() -> Seq<char> {
    "no se puede leer el archivo de exclusiones: "@
}

/// The map a granular operation works on, or why writing is refused: a
/// file that is corrupt or cannot be read is never overwritten.
pub fn mapa_escriturable(lectura: Lectura) -> (r: Result<Mapa, String>)
    ensures
        match lectura {
            Lectura::Cargado { mapa, .. } => r matches Ok(m) && m.vista() == mapa.vista(),
            Lectura::Inexistente => r matches Ok(m) && m.vista() == Map::<Seq<char>, Seq<Seq<char>>>::empty(),
            Lectura::Corrupto => r matches Err(e) && e@ == mensaje_corrupto(),
            Lectura::Ilegible(_) => r matches Err(e) && e@.len() >= prefijo_ilegible().len()
                && e@.take(prefijo_ilegible().len() as int) == prefijo_ilegible(),
        },
{
    match lectura {
        Lectura::Cargado { mapa, .. } => Ok(mapa),
        Lectura::Inexistente => Ok(Mapa::new()),
        Lectura::Corrupto => Err(
            "el archivo de exclusiones está dañado (conservado como .corrupt): resuélvelo antes de escribir".to_string(),
        ),
        Lectura::Ilegible(e) => {
            let mut m = literal("no se puede leer el archivo de exclusiones: ");
            let ghost p = m@;
            anexar(&mut m, &caracteres(texto_de_error(&e).as_str()));
            assert(m@.take(p.len() as int) =~= p);
            Err(texto_de(&m))
        },
    }
}

/// Whether starting clean applies: only to a file that is STILL corrupt
/// (a valid or missing one has nothing to resolve).
pub fn empezar_de_cero(lectura: &Lectura) -> (r: bool)
    ensures
        r == (*lectura is Corrupto),
{
    necesita_resguardo(lectura)
}

} // verus!
