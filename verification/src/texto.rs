use vstd::prelude::*;

verus! {

/// Unicode `White_Space`, the property behind `char::is_whitespace` and
/// therefore behind `str::trim`.
pub open spec fn es_espacio(c: char) -> bool {
    let n = c as int;
    ||| 9 <= n <= 13
    ||| n == 32
    ||| n == 0x85
    ||| n == 0xA0
    ||| n == 0x1680
    ||| 0x2000 <= n <= 0x200A
    ||| n == 0x2028
    ||| n == 0x2029
    ||| n == 0x202F
    ||| n == 0x205F
    ||| n == 0x3000
}

/// The code point of `c`.
pub fn codigo(c: char) -> (n: u32)
    ensures
        n as int == c as int,
{
    c as u32
}

pub fn es_espacio_exec(c: char) -> (r: bool)
    ensures
        r == es_espacio(c),
{
    let n = codigo(c);
    (9 <= n && n <= 13) || n == 32 || n == 0x85 || n == 0xA0 || n == 0x1680 || (0x2000 <= n && n
        <= 0x200A) || n == 0x2028 || n == 0x2029 || n == 0x202F || n == 0x205F || n == 0x3000
}

/// `str::trim_start`: the text without its leading whitespace.
pub open spec fn sin_espacio_inicial(s: Seq<char>) -> Seq<char>
    decreases s.len(),
{
    if s.len() > 0 && es_espacio(s[0]) {
        sin_espacio_inicial(s.drop_first())
    } else {
        s
    }
}

/// `str::trim_end`: the text without its trailing whitespace.
pub open spec fn sin_espacio_final(s: Seq<char>) -> Seq<char>
    decreases s.len(),
{
    if s.len() > 0 && es_espacio(s.last()) {
        sin_espacio_final(s.drop_last())
    } else {
        s
    }
}

/// `str::trim`.
pub open spec fn recortado(s: Seq<char>) -> Seq<char> {
    sin_espacio_final(sin_espacio_inicial(s))
}

/// The characters of a text, one by one.
pub fn caracteres(s: &str) -> (v: Vec<char>)
    ensures
        v@ == s@,
{
    let mut v: Vec<char> = Vec::new();
    for c in it: s.chars()
        invariant
            v@ == it.seq().take(it.index() as int),
            it.seq() == s@,
    {
        v.push(c);
    }
    v
}

/// Builds the text whose characters are `v`.
#[verifier::external_body]
pub fn texto_de(v: &Vec<char>) -> (r: String)
    ensures
        r@ == v@,
{
    String::from_iter(v.iter())
}

/// `v[a..b]`, copied.
pub fn subsecuencia(v: &Vec<char>, a: usize, b: usize) -> (r: Vec<char>)
    requires
        a <= b <= v.len(),
    ensures
        r@ == v@.subrange(a as int, b as int),
{
    let mut r: Vec<char> = Vec::new();
    let mut k = a;
    while k < b
        invariant
            a <= k <= b <= v.len(),
            r@ == v@.subrange(a as int, k as int),
        decreases b - k,
    {
        r.push(v[k]);
        k = k + 1;
    }
    r
}

proof fn lema_inicial_paso(s: Seq<char>, i: int)
    requires
        0 <= i < s.len(),
        es_espacio(s[i]),
    ensures
        sin_espacio_inicial(s.skip(i)) == sin_espacio_inicial(s.skip(i + 1)),
{
    assert(s.skip(i).drop_first() =~= s.skip(i + 1));
}

proof fn lema_final_paso(s: Seq<char>, a: int, j: int)
    requires
        0 <= a < j <= s.len(),
        es_espacio(s[j - 1]),
    ensures
        sin_espacio_final(s.subrange(a, j)) == sin_espacio_final(s.subrange(a, j - 1)),
{
    assert(s.subrange(a, j).drop_last() =~= s.subrange(a, j - 1));
}

/// Index of the first character that is not whitespace (`len` if none).
pub fn inicio_sin_espacio(v: &Vec<char>) -> (i: usize)
    ensures
        i <= v.len(),
        sin_espacio_inicial(v@) == v@.skip(i as int),
        forall|k: int| 0 <= k < i ==> es_espacio(#[trigger] v@[k]),
{
    let mut i: usize = 0;
    assert(v@.skip(0) =~= v@);
    while i < v.len() && es_espacio_exec(v[i])
        invariant
            i <= v.len(),
            sin_espacio_inicial(v@) == sin_espacio_inicial(v@.skip(i as int)),
            forall|k: int| 0 <= k < i ==> es_espacio(#[trigger] v@[k]),
        decreases v.len() - i,
    {
        proof {
            lema_inicial_paso(v@, i as int);
        }
        i = i + 1;
    }
    i
}

/// `trim_start`, on characters.
pub fn recortar_inicio(v: &Vec<char>) -> (r: Vec<char>)
    ensures
        r@ == sin_espacio_inicial(v@),
{
    let i = inicio_sin_espacio(v);
    subsecuencia(v, i, v.len())
}

/// Where the trimmed text lies: `v[a..b]` is `trim` of `v`.
pub fn limites_recorte(v: &Vec<char>) -> (r: (usize, usize))
    ensures
        r.0 <= r.1 <= v.len(),
        v@.subrange(r.0 as int, r.1 as int) == recortado(v@),
{
    let i = inicio_sin_espacio(v);
    let mut j = v.len();
    assert(v@.skip(i as int) =~= v@.subrange(i as int, j as int));
    while j > i && es_espacio_exec(v[j - 1])
        invariant
            i <= j <= v.len(),
            recortado(v@) == sin_espacio_final(v@.subrange(i as int, j as int)),
        decreases j,
    {
        proof {
            lema_final_paso(v@, i as int, j as int);
        }
        j = j - 1;
    }
    (i, j)
}

/// `trim`, on characters.
pub fn recortar(v: &Vec<char>) -> (r: Vec<char>)
    ensures
        r@ == recortado(v@),
{
    let (a, b) = limites_recorte(v);
    subsecuencia(v, a, b)
}

/// Whether a text is empty once trimmed.
pub fn vacio_al_recortar(s: &str) -> (r: bool)
    ensures
        r == (recortado(s@).len() == 0),
{
    let v = caracteres(s);
    let (a, b) = limites_recorte(&v);
    a == b
}

/// The pieces of `s`, one after the other with `sep` between them.
pub open spec fn unir(s: Seq<Seq<char>>, sep: Seq<char>) -> Seq<char>
    decreases s.len(),
{
    if s.len() == 0 {
        seq![]
    } else if s.len() == 1 {
        s[0]
    } else {
        unir(s.drop_last(), sep) + sep + s.last()
    }
}

/// How `{:?}` writes a text: quoted, with its special characters escaped.
pub uninterp spec fn texto_depurado(s: Seq<char>) -> Seq<char>;

/// Writes `s` with `{:?}` (`<str as Debug>::fmt`). The contract claims
/// only that the writing is a function of the text (named
/// [`texto_depurado`]).
#[verifier::external_body]
pub fn depurado(s: &str) -> (r: String)
    ensures
        r@ == texto_depurado(s@),
{
    format!("{s:?}")
}

/// Whether two runs of characters are the same.
pub fn iguales(a: &Vec<char>, b: &Vec<char>) -> (r: bool)
    ensures
        r == (a@ == b@),
{
    if a.len() != b.len() {
        return false;
    }
    let mut k: usize = 0;
    while k < a.len()
        invariant
            k <= a.len() == b.len(),
            forall|m: int| 0 <= m < k ==> a@[m] == b@[m],
        decreases a.len() - k,
    {
        if a[k] != b[k] {
            return false;
        }
        k = k + 1;
    }
    assert(a@ =~= b@);
    true
}

/// Whether `s` starts with `p`.
pub open spec fn empieza_con(s: Seq<char>, p: Seq<char>) -> bool {
    p.len() <= s.len() && s.take(p.len() as int) == p
}

/// Whether `p` occurs in `s` starting at index `i`.
pub open spec fn aparece_en(s: Seq<char>, p: Seq<char>, i: int) -> bool {
    0 <= i && i + p.len() <= s.len() && s.subrange(i, i + p.len()) == p
}

/// `str::contains` for a text pattern.
pub open spec fn contiene(s: Seq<char>, p: Seq<char>) -> bool {
    exists|i: int| aparece_en(s, p, i)
}

/// Whether `p` occurs in `v` at index `i`.
pub fn aparece_en_exec(v: &Vec<char>, p: &Vec<char>, i: usize) -> (r: bool)
    ensures
        r == aparece_en(v@, p@, i as int),
{
    if i > v.len() || p.len() > v.len() - i {
        return false;
    }
    let mut k: usize = 0;
    while k < p.len()
        invariant
            i + p.len() <= v.len(),
            k <= p.len(),
            forall|m: int| 0 <= m < k ==> v@[i + m] == p@[m],
        decreases p.len() - k,
    {
        if v[i + k] != p[k] {
            assert(v@.subrange(i as int, i + p.len())[k as int] != p@[k as int]);
            return false;
        }
        k = k + 1;
    }
    assert(v@.subrange(i as int, i + p.len()) =~= p@);
    true
}

/// `starts_with`, on characters.
pub fn empieza_con_exec(v: &Vec<char>, p: &Vec<char>) -> (r: bool)
    ensures
        r == empieza_con(v@, p@),
{
    let r = aparece_en_exec(v, p, 0);
    proof {
        if p.len() <= v.len() {
            assert(v@.subrange(0, p.len() as int) =~= v@.take(p.len() as int));
        }
    }
    r
}

/// `contains`, on characters.
pub fn contiene_exec(v: &Vec<char>, p: &Vec<char>) -> (r: bool)
    ensures
        r == contiene(v@, p@),
{
    if p.len() == 0 {
        assert(v@.subrange(0, 0) =~= p@);
        assert(aparece_en(v@, p@, 0));
        return true;
    }
    if p.len() > v.len() {
        return false;
    }
    let mut i: usize = 0;
    while i <= v.len() - p.len()
        invariant
            1 <= p.len() <= v.len(),
            i <= v.len(),
            forall|k: int| 0 <= k < i ==> !aparece_en(v@, p@, k),
        decreases v.len() - i,
    {
        if aparece_en_exec(v, p, i) {
            return true;
        }
        i = i + 1;
    }
    false
}

/// Scanning left to right, the raw lines already closed by `'\n'` and the
/// unfinished tail.
pub open spec fn cortes_de_linea(s: Seq<char>) -> (Seq<Seq<char>>, Seq<char>)
    decreases s.len(),
{
    if s.len() == 0 {
        (seq![], seq![])
    } else {
        let (ls, cur) = cortes_de_linea(s.drop_last());
        if s.last() == '\n' {
            (ls.push(cur), seq![])
        } else {
            (ls, cur.push(s.last()))
        }
    }
}

/// A closed line loses the `'\r'` of its `"\r\n"` ending.
pub open spec fn sin_retorno(l: Seq<char>) -> Seq<char> {
    if l.len() > 0 && l.last() == '\r' {
        l.drop_last()
    } else {
        l
    }
}

/// `str::lines`: lines end at `"\n"` or `"\r\n"`; the last line ending is
/// optional; a text with no characters has no lines.
pub open spec fn lineas(s: Seq<char>) -> Seq<Seq<char>> {
    let (ls, cur) = cortes_de_linea(s);
    ls.map_values(|l: Seq<char>| sin_retorno(l)) + if cur.len() > 0 {
        seq![cur]
    } else {
        Seq::<Seq<char>>::empty()
    }
}

fn sin_retorno_exec(l: Vec<char>) -> (r: Vec<char>)
    ensures
        r@ == sin_retorno(l@),
{
    let mut l = l;
    if l.len() > 0 && l[l.len() - 1] == '\r' {
        l.pop();
    }
    l
}

/// `str::lines`, on characters.
pub fn lineas_exec(v: &Vec<char>) -> (r: Vec<Vec<char>>)
    ensures
        r.len() == lineas(v@).len(),
        forall|i: int| 0 <= i < r.len() ==> (#[trigger] r@[i])@ == lineas(v@)[i],
{
    let mut hechas: Vec<Vec<char>> = Vec::new();
    let mut cur: Vec<char> = Vec::new();
    let ghost mut ls: Seq<Seq<char>> = seq![];
    let mut k: usize = 0;
    while k < v.len()
        invariant
            k <= v.len(),
            (ls, cur@) == cortes_de_linea(v@.take(k as int)),
            hechas.len() == ls.len(),
            forall|i: int| 0 <= i < hechas.len() ==> (#[trigger] hechas@[i])@ == sin_retorno(ls[i]),
        decreases v.len() - k,
    {
        assert(v@.take(k + 1).drop_last() =~= v@.take(k as int));
        let c = v[k];
        if c == '\n' {
            proof {
                ls = ls.push(cur@);
            }
            let linea = sin_retorno_exec(cur);
            hechas.push(linea);
            cur = Vec::new();
        } else {
            cur.push(c);
        }
        k = k + 1;
    }
    assert(v@.take(v.len() as int) =~= v@);
    if cur.len() > 0 {
        hechas.push(cur);
    }
    hechas
}

/// `str::split` at one character: the pieces between separators, empty
/// ones included; a text always has at least one piece.
pub open spec fn trozos(s: Seq<char>, sep: char) -> Seq<Seq<char>>
    decreases s.len(),
{
    if s.len() == 0 {
        seq![seq![]]
    } else {
        let t = trozos(s.drop_last(), sep);
        if s.last() == sep {
            t.push(seq![])
        } else {
            t.update(t.len() - 1, t.last().push(s.last()))
        }
    }
}

pub proof fn lema_trozos_no_vacio(s: Seq<char>, sep: char)
    ensures
        trozos(s, sep).len() >= 1,
    decreases s.len(),
{
    if s.len() > 0 {
        lema_trozos_no_vacio(s.drop_last(), sep);
    }
}

/// The pieces joined back with `sep` between each two of them.
pub open spec fn unidos(partes: Seq<Seq<char>>, sep: char) -> Seq<char>
    decreases partes.len(),
{
    if partes.len() == 0 {
        seq![]
    } else if partes.len() == 1 {
        partes[0]
    } else {
        unidos(partes.drop_last(), sep) + seq![sep] + partes.last()
    }
}

/// Splitting at `sep` cuts the text exactly at each `sep`: no piece holds
/// `sep`, and the pieces joined back with `sep` give the text again.
pub proof fn ley_trozos(s: Seq<char>, sep: char)
    ensures
        trozos(s, sep).len() >= 1,
        unidos(trozos(s, sep), sep) == s,
        forall|i: int| 0 <= i < trozos(s, sep).len() ==> !(#[trigger] trozos(s, sep)[i]).contains(sep),
    decreases s.len(),
{
    if s.len() > 0 {
        let p = s.drop_last();
        let c = s.last();
        ley_trozos(p, sep);
        let t = trozos(p, sep);
        let n = t.len();
        if c == sep {
            let u = t.push(seq![]);
            assert(u.drop_last() =~= t);
            assert(unidos(u, sep) =~= s);
            assert forall|i: int| 0 <= i < u.len() implies !(#[trigger] u[i]).contains(sep) by {
                if i < n {
                    assert(u[i] == t[i]);
                }
            }
        } else {
            let u = t.update(n - 1, t.last().push(c));
            if n == 1 {
                assert(unidos(u, sep) =~= s);
            } else {
                assert(u.drop_last() =~= t.drop_last());
                assert(u.last() == t.last().push(c));
                assert(unidos(t, sep) == unidos(t.drop_last(), sep) + seq![sep] + t.last());
                assert(unidos(u, sep) == unidos(t.drop_last(), sep) + seq![sep] + t.last().push(c));
                assert(s =~= p.push(c));
                assert(unidos(u, sep) =~= s);
            }
            assert forall|i: int| 0 <= i < u.len() implies !(#[trigger] u[i]).contains(sep) by {
                if i < n - 1 {
                    assert(u[i] == t[i]);
                } else {
                    let x = t.last();
                    assert(!x.contains(sep));
                    if x.push(c).contains(sep) {
                        let j = choose|j: int| 0 <= j < x.push(c).len() && x.push(c)[j] == sep;
                        if j < x.len() {
                            assert(x[j] == sep);
                        }
                    }
                }
            }
        }
    }
}

/// `str::split` at one character, on characters.
pub fn trozos_exec(v: &Vec<char>, sep: char) -> (r: Vec<Vec<char>>)
    ensures
        r.len() == trozos(v@, sep).len(),
        forall|i: int| 0 <= i < r.len() ==> (#[trigger] r@[i])@ == trozos(v@, sep)[i],
{
    let mut hechos: Vec<Vec<char>> = Vec::new();
    let mut cur: Vec<char> = Vec::new();
    let mut k: usize = 0;
    assert(v@.take(0) =~= Seq::<char>::empty());
    while k < v.len()
        invariant
            k <= v.len(),
            hechos.len() + 1 == trozos(v@.take(k as int), sep).len(),
            forall|i: int| 0 <= i < hechos.len() ==> (#[trigger] hechos@[i])@ == trozos(v@.take(k as int), sep)[i],
            cur@ == trozos(v@.take(k as int), sep).last(),
        decreases v.len() - k,
    {
        assert(v@.take(k + 1).drop_last() =~= v@.take(k as int));
        proof {
            lema_trozos_no_vacio(v@.take(k as int), sep);
        }
        let c = v[k];
        if c == sep {
            hechos.push(cur);
            cur = Vec::new();
        } else {
            cur.push(c);
        }
        k = k + 1;
    }
    assert(v@.take(v.len() as int) =~= v@);
    hechos.push(cur);
    hechos
}

/// Index of the last occurrence of `c` in `s`, or -1.
pub open spec fn ultima_posicion(s: Seq<char>, c: char) -> int
    decreases s.len(),
{
    if s.len() == 0 {
        -1
    } else if s.last() == c {
        s.len() - 1
    } else {
        ultima_posicion(s.drop_last(), c)
    }
}

pub proof fn lema_ultima_posicion(s: Seq<char>, c: char)
    ensures
        -1 <= ultima_posicion(s, c) < s.len(),
        ultima_posicion(s, c) >= 0 ==> s[ultima_posicion(s, c)] == c,
    decreases s.len(),
{
    if s.len() > 0 && s.last() != c {
        lema_ultima_posicion(s.drop_last(), c);
    }
}

/// `rfind` of one character, on characters.
pub fn ultima_posicion_exec(v: &Vec<char>, c: char) -> (r: Option<usize>)
    ensures
        match r {
            Some(i) => i as int == ultima_posicion(v@, c),
            None => ultima_posicion(v@, c) == -1,
        },
{
    let mut k = v.len();
    assert(v@.take(k as int) =~= v@);
    while k > 0
        invariant
            k <= v.len(),
            ultima_posicion(v@, c) == ultima_posicion(v@.take(k as int), c),
        decreases k,
    {
        assert(v@.take(k as int).drop_last() =~= v@.take(k - 1));
        if v[k - 1] == c {
            return Some(k - 1);
        }
        k = k - 1;
    }
    None
}

/// The decimal digit for `d` (taken modulo ten).
pub open spec fn digito(d: int) -> char {
    let d = d % 10;
    if d == 0 {
        '0'
    } else if d == 1 {
        '1'
    } else if d == 2 {
        '2'
    } else if d == 3 {
        '3'
    } else if d == 4 {
        '4'
    } else if d == 5 {
        '5'
    } else if d == 6 {
        '6'
    } else if d == 7 {
        '7'
    } else if d == 8 {
        '8'
    } else {
        '9'
    }
}

fn digito_exec(d: u64) -> (c: char)
    ensures
        c == digito(d as int),
{
    let d = d % 10;
    if d == 0 {
        '0'
    } else if d == 1 {
        '1'
    } else if d == 2 {
        '2'
    } else if d == 3 {
        '3'
    } else if d == 4 {
        '4'
    } else if d == 5 {
        '5'
    } else if d == 6 {
        '6'
    } else if d == 7 {
        '7'
    } else if d == 8 {
        '8'
    } else {
        '9'
    }
}

/// How `Display` writes a natural number: its decimal digits.
pub open spec fn decimal_nat(n: nat) -> Seq<char>
    decreases n,
{
    if n < 10 {
        seq![digito(n as int)]
    } else {
        decimal_nat(n / 10).push(digito((n % 10) as int))
    }
}

/// How `Display` writes an integer: a minus sign, then the digits.
pub open spec fn decimal(n: int) -> Seq<char> {
    if n < 0 {
        seq!['-'] + decimal_nat((-n) as nat)
    } else {
        decimal_nat(n as nat)
    }
}

/// The decimal digits of `n`.
pub fn decimal_u64(n: u64) -> (r: Vec<char>)
    ensures
        r@ == decimal_nat(n as nat),
    decreases n,
{
    if n < 10 {
        let mut r: Vec<char> = Vec::new();
        r.push(digito_exec(n));
        r
    } else {
        let mut r = decimal_u64(n / 10);
        r.push(digito_exec(n % 10));
        r
    }
}

/// The decimal writing of `n`.
pub fn decimal_i32(n: i32) -> (r: Vec<char>)
    ensures
        r@ == decimal(n as int),
{
    if n < 0 {
        let m: i64 = -(n as i64);
        let mut r: Vec<char> = Vec::new();
        r.push('-');
        let d = decimal_u64(m as u64);
        let mut k: usize = 0;
        while k < d.len()
            invariant
                k <= d.len(),
                r@ == seq!['-'] + d@.take(k as int),
            decreases d.len() - k,
        {
            r.push(d[k]);
            k = k + 1;
        }
        assert(d@.take(d.len() as int) =~= d@);
        r
    } else {
        decimal_u64(n as u64)
    }
}

/// Appends the characters of `b` to `a`.
pub fn anexar(a: &mut Vec<char>, b: &Vec<char>)
    ensures
        final(a)@ == old(a)@ + b@,
{
    let mut k: usize = 0;
    let ghost inicio = a@;
    while k < b.len()
        invariant
            k <= b.len(),
            a@ == inicio + b@.take(k as int),
        decreases b.len() - k,
    {
        a.push(b[k]);
        k = k + 1;
    }
    assert(b@.take(b.len() as int) =~= b@);
}

/// `'0'..='9'`.
pub open spec fn es_digito(c: char) -> bool {
    48 <= (c as int) <= 57
}

/// The value of a run of decimal digits.
pub open spec fn valor_decimal(s: Seq<char>) -> int
    decreases s.len(),
{
    if s.len() == 0 {
        0
    } else {
        valor_decimal(s.drop_last()) * 10 + ((s.last() as int) - 48)
    }
}

/// Only decimal digits, and at least one.
pub open spec fn solo_digitos(s: Seq<char>) -> bool {
    s.len() > 0 && forall|i: int| 0 <= i < s.len() ==> es_digito(#[trigger] s[i])
}

/// `u64::from_str`: an optional `+`, then decimal digits whose value fits.
pub open spec fn leer_u64(s: Seq<char>) -> Option<u64> {
    let t = if s.len() > 0 && s[0] == '+' {
        s.drop_first()
    } else {
        s
    };
    if solo_digitos(t) && valor_decimal(t) <= u64::MAX {
        Some(valor_decimal(t) as u64)
    } else {
        None
    }
}

proof fn lema_valor_crece(t: Seq<char>, k: int)
    requires
        0 <= k <= t.len(),
        forall|i: int| 0 <= i < t.len() ==> es_digito(#[trigger] t[i]),
    ensures
        valor_decimal(t) >= valor_decimal(t.take(k)) >= 0,
    decreases t.len(),
{
    if t.len() == 0 {
        assert(t.take(k) =~= t);
    } else if k == t.len() {
        assert(t.take(k) =~= t);
        lema_valor_crece(t.drop_last(), 0);
        assert(t.drop_last().take(0) =~= Seq::<char>::empty());
    } else {
        lema_valor_crece(t.drop_last(), k);
        assert(t.drop_last().take(k) =~= t.take(k));
        assert(es_digito(t[t.len() - 1]));
    }
}

/// `u64::from_str`, on characters.
pub fn leer_u64_exec(s: &Vec<char>) -> (r: Option<u64>)
    ensures
        r == leer_u64(s@),
{
    let ini: usize = if s.len() > 0 && s[0] == '+' {
        1
    } else {
        0
    };
    let ghost t = if s@.len() > 0 && s@[0] == '+' {
        s@.drop_first()
    } else {
        s@
    };
    assert(t =~= s@.skip(ini as int));
    assert(leer_u64(s@) == (if solo_digitos(t) && valor_decimal(t) <= u64::MAX {
        Some(valor_decimal(t) as u64)
    } else {
        None
    }));
    if ini >= s.len() {
        return None;
    }
    let mut acc: u64 = 0;
    let mut k: usize = ini;
    while k < s.len()
        invariant
            ini <= k <= s.len(),
            t =~= s@.skip(ini as int),
            t.len() > 0,
            leer_u64(s@) == (if solo_digitos(t) && valor_decimal(t) <= u64::MAX {
                Some(valor_decimal(t) as u64)
            } else {
                None
            }),
            forall|i: int| 0 <= i < k - ini ==> es_digito(#[trigger] t[i]),
            acc as int == valor_decimal(t.take(k - ini)),
        decreases s.len() - k,
    {
        let c = s[k];
        let n = codigo(c);
        assert(t[k - ini] == c);
        if n < 48 || n > 57 {
            assert(!es_digito(t[k - ini]));
            assert(!solo_digitos(t));
            return None;
        }
        let d = (n - 48) as u64;
        assert(t.take(k - ini + 1).drop_last() =~= t.take(k - ini));
        if acc > (u64::MAX - d) / 10 {
            assert(acc * 10 + d > u64::MAX) by (nonlinear_arith)
                requires
                    acc > (u64::MAX - d) / 10,
                    d <= 9,
            ;
            proof {
                if solo_digitos(t) {
                    lema_valor_crece(t, k - ini + 1);
                }
            }
            return None;
        }
        acc = acc * 10 + d;
        k = k + 1;
    }
    assert(t.take(t.len() as int) =~= t);
    Some(acc)
}

/// `s.trim_start_matches(c)`: every leading `c` removed.
pub open spec fn sin_prefijo_repetido(s: Seq<char>, c: char) -> Seq<char>
    decreases s.len(),
{
    if s.len() > 0 && s[0] == c {
        sin_prefijo_repetido(s.drop_first(), c)
    } else {
        s
    }
}

/// Texts in the order of `str::cmp`: character by character (UTF-8 keeps
/// code point order), a proper prefix first.
pub open spec fn texto_menor_o_igual(a: Seq<char>, b: Seq<char>) -> bool
    decreases a.len(),
{
    if a.len() == 0 {
        true
    } else if b.len() == 0 {
        false
    } else if a[0] != b[0] {
        (a[0] as int) < (b[0] as int)
    } else {
        texto_menor_o_igual(a.drop_first(), b.drop_first())
    }
}

/// `a <= b` for texts, on characters.
pub fn texto_menor_o_igual_exec(a: &Vec<char>, b: &Vec<char>) -> (r: bool)
    ensures
        r == texto_menor_o_igual(a@, b@),
{
    let mut k: usize = 0;
    assert(a@.skip(0) =~= a@);
    assert(b@.skip(0) =~= b@);
    while k < a.len()
        invariant
            k <= a.len(),
            k <= b.len(),
            texto_menor_o_igual(a@, b@) == texto_menor_o_igual(a@.skip(k as int), b@.skip(k as int)),
        decreases a.len() - k,
    {
        if k >= b.len() {
            return false;
        }
        if a[k] != b[k] {
            let ca = codigo(a[k]);
            let cb = codigo(b[k]);
            assert(ca as int == a@[k as int] as int);
            assert(cb as int == b@[k as int] as int);
            assert(a@.skip(k as int)[0] == a@[k as int]);
            assert(b@.skip(k as int)[0] == b@[k as int]);
            return ca < cb;
        }
        assert(a@.skip(k as int).drop_first() =~= a@.skip(k + 1));
        assert(b@.skip(k as int).drop_first() =~= b@.skip(k + 1));
        k = k + 1;
    }
    true
}

pub proof fn lema_orden_total(a: Seq<char>, b: Seq<char>)
    ensures
        texto_menor_o_igual(a, b) || texto_menor_o_igual(b, a),
    decreases a.len(),
{
    if a.len() > 0 && b.len() > 0 {
        if a[0] == b[0] {
            lema_orden_total(a.drop_first(), b.drop_first());
        } else {
            assert((a[0] as int) != (b[0] as int));
        }
    }
}

pub proof fn lema_orden_transitivo(a: Seq<char>, b: Seq<char>, c: Seq<char>)
    requires
        texto_menor_o_igual(a, b),
        texto_menor_o_igual(b, c),
    ensures
        texto_menor_o_igual(a, c),
    decreases a.len(),
{
    if a.len() > 0 && b.len() > 0 && c.len() > 0 && a[0] == b[0] && b[0] == c[0] {
        lema_orden_transitivo(a.drop_first(), b.drop_first(), c.drop_first());
    }
}

/// The text order is `str`'s order: `a` comes before or equals `b` exactly
/// when `a` is a prefix of `b`, or at the first character where they
/// differ `a`'s has the smaller code point.
pub proof fn ley_orden_de_textos(a: Seq<char>, b: Seq<char>)
    ensures
        texto_menor_o_igual(a, b) <==> ((a.len() <= b.len() && b.take(a.len() as int) == a) || exists|k: int|
            #![trigger a[k], b[k]]
            0 <= k < a.len() && k < b.len() && a.take(k) == b.take(k) && (a[k] as int) < (b[k] as int)),
    decreases a.len(),
{
    if a.len() == 0 {
        assert(b.take(0) =~= a);
    } else if b.len() == 0 {
    } else if a[0] != b[0] {
        if (a[0] as int) < (b[0] as int) {
            assert(a.take(0) =~= b.take(0));
            assert((a[0] as int) < (b[0] as int));
        } else {
            if a.len() <= b.len() && b.take(a.len() as int) == a {
                assert(b.take(a.len() as int)[0] == b[0]);
            }
            assert forall|k: int| #![trigger a[k], b[k]]
                0 <= k < a.len() && k < b.len() && a.take(k) == b.take(k) implies !((a[k] as int) < (b[k] as int)) by {
                if k > 0 {
                    assert(a.take(k)[0] == a[0]);
                    assert(b.take(k)[0] == b[0]);
                }
            }
        }
    } else {
        let a1 = a.drop_first();
        let b1 = b.drop_first();
        ley_orden_de_textos(a1, b1);
        assert((a.len() <= b.len() && b.take(a.len() as int) == a) <==> (a1.len() <= b1.len() && b1.take(a1.len() as int) == a1)) by {
            if a.len() <= b.len() && b.take(a.len() as int) == a {
                assert forall|i: int| 0 <= i < a1.len() implies b1.take(a1.len() as int)[i] == a1[i] by {
                    assert(b.take(a.len() as int)[i + 1] == a[i + 1]);
                }
                assert(b1.take(a1.len() as int) =~= a1);
            }
            if a1.len() <= b1.len() && b1.take(a1.len() as int) == a1 {
                assert forall|i: int| 0 <= i < a.len() implies b.take(a.len() as int)[i] == a[i] by {
                    if i > 0 {
                        assert(b1.take(a1.len() as int)[i - 1] == a1[i - 1]);
                    }
                }
                assert(b.take(a.len() as int) =~= a);
            }
        }
        if exists|k: int| #![trigger a[k], b[k]] 0 <= k < a.len() && k < b.len() && a.take(k) == b.take(k) && (a[k] as int) < (b[k] as int) {
            let k = choose|k: int| #![trigger a[k], b[k]] 0 <= k < a.len() && k < b.len() && a.take(k) == b.take(k) && (a[k] as int) < (b[k] as int);
            assert(k > 0);
            let n = k - 1;
            assert forall|i: int| 0 <= i < n implies #[trigger] a1.take(n)[i] == b1.take(n)[i] by {
                assert(a.take(k)[i + 1] == b.take(k)[i + 1]);
            }
            assert(a1.take(n) =~= b1.take(n));
            assert(a1[n] == a[k] && b1[n] == b[k]);
        }
        if exists|k: int| #![trigger a1[k], b1[k]] 0 <= k < a1.len() && k < b1.len() && a1.take(k) == b1.take(k) && (a1[k] as int) < (b1[k] as int) {
            let k = choose|k: int| #![trigger a1[k], b1[k]] 0 <= k < a1.len() && k < b1.len() && a1.take(k) == b1.take(k) && (a1[k] as int) < (b1[k] as int);
            let n = k + 1;
            assert forall|i: int| 0 <= i < n implies #[trigger] a.take(n)[i] == b.take(n)[i] by {
                if i > 0 {
                    assert(a1.take(k)[i - 1] == b1.take(k)[i - 1]);
                }
            }
            assert(a.take(n) =~= b.take(n));
            assert(a[n] == a1[k] && b[n] == b1[k]);
        }
    }
}

/// In the text order the empty text comes first, a text comes before or
/// equals every text it is a prefix of, and strictly before it when the
/// other is longer.
pub proof fn ley_prefijo_primero(a: Seq<char>, b: Seq<char>)
    ensures
        texto_menor_o_igual(seq![], a),
        texto_menor_o_igual(a, a + b),
        b.len() > 0 ==> !texto_menor_o_igual(a + b, a),
{
    ley_orden_de_textos(seq![], a);
    assert(a.take(0) =~= Seq::<char>::empty());
    ley_orden_de_textos(a, a + b);
    assert((a + b).take(a.len() as int) =~= a);
    ley_orden_de_textos(a + b, a);
    assert forall|k: int| #![trigger (a + b)[k], a[k]]
        0 <= k < (a + b).len() && k < a.len() && (a + b).take(k) == a.take(k) implies !(((a + b)[k] as int) < (a[k] as int)) by {
        assert((a + b)[k] == a[k]);
    }
}

/// The characters of a text literal, with what they are.
pub fn literal(s: &str) -> (v: Vec<char>)
    ensures
        v@ == s@,
{
    caracteres(s)
}

} // verus!
