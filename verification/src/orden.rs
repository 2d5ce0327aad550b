//! Stable ordering by name, the order of `sort_by_key(|x| x.name.clone())`.

use vstd::prelude::*;
use crate::texto::{caracteres, texto_menor_o_igual, texto_menor_o_igual_exec, lema_orden_total, lema_orden_transitivo};

verus! {

/// A value ordered by a name.
pub trait Clave {
    spec fn clave(&self) -> Seq<char>;
}

/// A value that holds its name.
pub trait ConNombre: Clave {
    fn nombre(&self) -> (r: &String)
        ensures
            r@ == self.clave(),
    ;
}

/// Puts `x` after every element of `s`, from the back, that does not
/// come after it: behind all the elements of equal name.
pub open spec fn insertar_ordenado<T: Clave>(s: Seq<T>, x: T) -> Seq<T>
    decreases s.len(),
{
    if s.len() == 0 {
        seq![x]
    } else if texto_menor_o_igual(s.last().clave(), x.clave()) {
        s.push(x)
    } else {
        insertar_ordenado(s.drop_last(), x).push(s.last())
    }
}

/// The stable sort of `s` by name: insertion of each element in turn.
pub open spec fn ordenado_por_nombre<T: Clave>(s: Seq<T>) -> Seq<T>
    decreases s.len(),
{
    if s.len() == 0 {
        s
    } else {
        insertar_ordenado(ordenado_por_nombre(s.drop_last()), s.last())
    }
}

/// Names never decrease along `s`.
pub open spec fn en_orden<T: Clave>(s: Seq<T>) -> bool {
    forall|i: int, j: int| 0 <= i < j < s.len() ==> texto_menor_o_igual(#[trigger] s[i].clave(), #[trigger] s[j].clave())
}

proof fn lema_insertar_en<T: Clave>(s: Seq<T>, x: T, j: int)
    requires
        0 <= j <= s.len(),
        j == 0 || texto_menor_o_igual(s[j - 1].clave(), x.clave()),
        forall|k: int| j <= k < s.len() ==> !texto_menor_o_igual(#[trigger] s[k].clave(), x.clave()),
    ensures
        insertar_ordenado(s, x) == s.take(j).push(x) + s.skip(j),
    decreases s.len(),
{
    if s.len() == 0 {
        assert(s.take(j).push(x) + s.skip(j) =~= seq![x]);
    } else if j == s.len() {
        assert(s.take(j).push(x) + s.skip(j) =~= s.push(x));
    } else {
        assert(!texto_menor_o_igual(s[s.len() - 1].clave(), x.clave()));
        lema_insertar_en(s.drop_last(), x, j);
        assert(s.drop_last().take(j) =~= s.take(j));
        assert((s.take(j).push(x) + s.drop_last().skip(j)).push(s.last()) =~= s.take(j).push(x) + s.skip(j));
    }
}

/// Inserting into an ordered sequence keeps it ordered and adds exactly `x`.
pub proof fn lema_insertar_ordenado<T: Clave>(s: Seq<T>, x: T)
    requires
        en_orden(s),
    ensures
        en_orden(insertar_ordenado(s, x)),
        insertar_ordenado(s, x).to_multiset() == s.to_multiset().insert(x),
    decreases s.len(),
{
    broadcast use vstd::multiset::group_multiset_axioms, vstd::seq_lib::group_to_multiset_ensures;
    if s.len() == 0 {
        assert(insertar_ordenado(s, x) =~= seq![x]);
        assert(seq![x] =~= Seq::<T>::empty().push(x));
    } else if texto_menor_o_igual(s.last().clave(), x.clave()) {
        let r = s.push(x);
        assert forall|i: int, j: int| 0 <= i < j < r.len() implies texto_menor_o_igual(#[trigger] r[i].clave(), #[trigger] r[j].clave()) by {
            if j == r.len() - 1 && i < s.len() - 1 {
                lema_orden_transitivo(s[i].clave(), s.last().clave(), x.clave());
            }
        }
    } else {
        let p = s.drop_last();
        assert(en_orden(p));
        lema_insertar_ordenado(p, x);
        let q = insertar_ordenado(p, x);
        let r = q.push(s.last());
        lema_orden_total(s.last().clave(), x.clave());
        assert(s =~= p.push(s.last()));
        assert forall|k: int| 0 <= k < q.len() implies texto_menor_o_igual(#[trigger] q[k].clave(), s.last().clave()) by {
            assert(q.to_multiset().count(q[k]) > 0);
            assert(p.to_multiset().insert(x).count(q[k]) > 0);
            if q[k] != x {
                assert(p.to_multiset().count(q[k]) > 0);
                assert(p.contains(q[k]));
                let m = choose|m: int| 0 <= m < p.len() && p[m] == q[k];
                assert(s[m] == p[m]);
            }
        }
        assert forall|i: int, j: int| 0 <= i < j < r.len() implies texto_menor_o_igual(#[trigger] r[i].clave(), #[trigger] r[j].clave()) by {
            if j == r.len() - 1 {
                assert(r[i] == q[i]);
            } else {
                assert(r[i] == q[i] && r[j] == q[j]);
            }
        }
        assert(r.to_multiset() == q.to_multiset().insert(s.last()));
        assert(s.to_multiset() == p.to_multiset().insert(s.last()));
        assert(r.to_multiset() =~= s.to_multiset().insert(x));
    }
}

/// The stable sort by name is ordered and holds the same elements.
pub proof fn lema_ordenado_por_nombre<T: Clave>(s: Seq<T>)
    ensures
        en_orden(ordenado_por_nombre(s)),
        ordenado_por_nombre(s).to_multiset() == s.to_multiset(),
    decreases s.len(),
{
    broadcast use vstd::multiset::group_multiset_axioms, vstd::seq_lib::group_to_multiset_ensures;
    if s.len() > 0 {
        lema_ordenado_por_nombre(s.drop_last());
        lema_insertar_ordenado(ordenado_por_nombre(s.drop_last()), s.last());
        assert(s =~= s.drop_last().push(s.last()));
    }
}

proof fn lema_insertar_imagen<T: Clave, U: Clave>(s: Seq<T>, x: T, f: spec_fn(T) -> U)
    requires
        forall|y: T| #[trigger] f(y).clave() == y.clave(),
    ensures
        insertar_ordenado(s, x).map_values(f) == insertar_ordenado(s.map_values(f), f(x)),
    decreases s.len(),
{
    assert(f(x).clave() == x.clave());
    if s.len() == 0 {
        assert(insertar_ordenado(s, x).map_values(f) =~= seq![f(x)]);
    } else {
        assert(f(s.last()).clave() == s.last().clave());
        assert(s.map_values(f).last() == f(s.last()));
        assert(s.map_values(f).drop_last() =~= s.drop_last().map_values(f));
        if texto_menor_o_igual(s.last().clave(), x.clave()) {
            assert(s.push(x).map_values(f) =~= s.map_values(f).push(f(x)));
        } else {
            lema_insertar_imagen(s.drop_last(), x, f);
            assert(insertar_ordenado(s.drop_last(), x).push(s.last()).map_values(f) =~= insertar_ordenado(
                s.drop_last(),
                x,
            ).map_values(f).push(f(s.last())));
        }
    }
}

/// Sorting by name commutes with any map that keeps the names.
pub proof fn lema_ordenado_imagen<T: Clave, U: Clave>(s: Seq<T>, f: spec_fn(T) -> U)
    requires
        forall|y: T| #[trigger] f(y).clave() == y.clave(),
    ensures
        ordenado_por_nombre(s).map_values(f) == ordenado_por_nombre(s.map_values(f)),
    decreases s.len(),
{
    if s.len() == 0 {
        assert(s.map_values(f) =~= Seq::<U>::empty());
    } else {
        lema_ordenado_imagen(s.drop_last(), f);
        lema_insertar_imagen(ordenado_por_nombre(s.drop_last()), s.last(), f);
        assert(s.map_values(f).drop_last() =~= s.drop_last().map_values(f));
        assert(s.map_values(f).last() == f(s.last()));
    }
}

fn clave_exec<T: ConNombre>(x: &T) -> (r: Vec<char>)
    ensures
        r@ == x.clave(),
{
    caracteres(x.nombre().as_str())
}

fn insertar_exec<T: ConNombre>(r: &mut Vec<T>, x: T)
    ensures
        final(r)@ == insertar_ordenado(old(r)@, x),
{
    let kx = clave_exec(&x);
    let mut j = r.len();
    while j > 0 && !texto_menor_o_igual_exec(&clave_exec(&r[j - 1]), &kx)
        invariant
            j <= r.len(),
            r@ == old(r)@,
            kx@ == x.clave(),
            forall|k: int| j <= k < r.len() ==> !texto_menor_o_igual(#[trigger] r@[k].clave(), x.clave()),
        decreases j,
    {
        j = j - 1;
    }
    proof {
        lema_insertar_en(r@, x, j as int);
    }
    r.insert(j, x);
    assert(r@ =~= old(r)@.take(j as int).push(x) + old(r)@.skip(j as int));
}

/// `sort_by_key(|x| x.name.clone())`: stable sort by name.
pub fn ordenar_por_nombre<T: ConNombre>(v: Vec<T>) -> (r: Vec<T>)
    ensures
        r@ == ordenado_por_nombre(v@),
{
    let mut v = v;
    let ghost orig = v@;
    let mut r: Vec<T> = Vec::new();
    let ghost mut k: int = 0;
    assert(orig.take(0) =~= Seq::<T>::empty());
    assert(orig.skip(0) =~= orig);
    while v.len() > 0
        invariant
            0 <= k <= orig.len(),
            v@ == orig.skip(k),
            r@ == ordenado_por_nombre(orig.take(k)),
        decreases v.len(),
    {
        let x = v.remove(0);
        assert(orig.take(k + 1).drop_last() =~= orig.take(k));
        assert(orig.skip(k)[0] == orig[k]);
        insertar_exec(&mut r, x);
        assert(v@ =~= orig.skip(k + 1));
        proof {
            k = k + 1;
        }
    }
    assert(orig.take(k) =~= orig);
    r
}

} // verus!
