use vstd::prelude::*;

use crate::externos::{
    en_clase, sustituido,
    ClaseRegex, descomponer_nfd, descomposicion_nfd, en_minusculas, minuscula_ascii, minusculas, patron_de,
    reemplazar_regex, reemplazo_regex,
};
use crate::estabilidad::{forma_de_sugerencia, lema_punto_fijo, lema_recortado_nombre, lema_sin_enie};
use crate::texto::{
    a_decimal, decimal, extender, lema_decimal_inyectivo, lema_decimal_no_vacio,
    Criterio, cadena_de, chars_de, dividido, dividir, recortado, recortar, reemplazado,
    reemplazar, unido, unir, vistas,
};

verus! {

/// The Spanish articles, prepositions and conjunctions that are dropped from
/// column names.
pub open spec fn palabra_prohibida(p: Seq<char>) -> bool {
    ||| p == seq!['e', 'l']
    ||| p == seq!['l', 'a']
    ||| p == seq!['l', 'o', 's']
    ||| p == seq!['l', 'a', 's']
    ||| p == seq!['u', 'n']
    ||| p == seq!['u', 'n', 'a']
    ||| p == seq!['u', 'n', 'o', 's']
    ||| p == seq!['u', 'n', 'a', 's']
    ||| p == seq!['a']
    ||| p == seq!['q', 'u', 'e']
    ||| p == seq!['a', 'n', 't', 'e']
    ||| p == seq!['b', 'a', 'j', 'o']
    ||| p == seq!['c', 'a', 'b', 'e']
    ||| p == seq!['c', 'o', 'n']
    ||| p == seq!['c', 'o', 'n', 't', 'r', 'a']
    ||| p == seq!['d', 'e']
    ||| p == seq!['d', 'e', 'l']
    ||| p == seq!['d', 'u', 'r', 'a', 'n', 't', 'e']
    ||| p == seq!['e', 'n']
    ||| p == seq!['e', 'n', 't', 'r', 'e']
    ||| p == seq!['m', 'e', 'd', 'i', 'a', 'n', 't', 'e']
    ||| p == seq!['p', 'a', 'r', 'a']
    ||| p == seq!['s', 'e', 'g', 'u', 'n']
    ||| p == seq!['p', 'o', 'r']
    ||| p == seq!['s', 'i', 'n']
    ||| p == seq!['s', 'o']
    ||| p == seq!['s', 'o', 'b', 'r', 'e']
    ||| p == seq!['t', 'r', 'a', 's']
    ||| p == seq!['v', 'e', 'r', 's', 'u', 's']
    ||| p == seq!['y']
    ||| p == seq!['o']
    ||| p == seq!['e']
    ||| p == seq!['u']
}

fn es_prohibida(p: &Vec<char>) -> (r: bool)
    ensures
        r == palabra_prohibida(p@),
{
    if p.len() == 2 && p[0] == 'e' && p[1] == 'l' {
        assert(p@ =~= seq!['e', 'l']);
        return true;
    }
    if p.len() == 2 && p[0] == 'l' && p[1] == 'a' {
        assert(p@ =~= seq!['l', 'a']);
        return true;
    }
    if p.len() == 3 && p[0] == 'l' && p[1] == 'o' && p[2] == 's' {
        assert(p@ =~= seq!['l', 'o', 's']);
        return true;
    }
    if p.len() == 3 && p[0] == 'l' && p[1] == 'a' && p[2] == 's' {
        assert(p@ =~= seq!['l', 'a', 's']);
        return true;
    }
    if p.len() == 2 && p[0] == 'u' && p[1] == 'n' {
        assert(p@ =~= seq!['u', 'n']);
        return true;
    }
    if p.len() == 3 && p[0] == 'u' && p[1] == 'n' && p[2] == 'a' {
        assert(p@ =~= seq!['u', 'n', 'a']);
        return true;
    }
    if p.len() == 4 && p[0] == 'u' && p[1] == 'n' && p[2] == 'o' && p[3] == 's' {
        assert(p@ =~= seq!['u', 'n', 'o', 's']);
        return true;
    }
    if p.len() == 4 && p[0] == 'u' && p[1] == 'n' && p[2] == 'a' && p[3] == 's' {
        assert(p@ =~= seq!['u', 'n', 'a', 's']);
        return true;
    }
    if p.len() == 1 && p[0] == 'a' {
        assert(p@ =~= seq!['a']);
        return true;
    }
    if p.len() == 3 && p[0] == 'q' && p[1] == 'u' && p[2] == 'e' {
        assert(p@ =~= seq!['q', 'u', 'e']);
        return true;
    }
    if p.len() == 4 && p[0] == 'a' && p[1] == 'n' && p[2] == 't' && p[3] == 'e' {
        assert(p@ =~= seq!['a', 'n', 't', 'e']);
        return true;
    }
    if p.len() == 4 && p[0] == 'b' && p[1] == 'a' && p[2] == 'j' && p[3] == 'o' {
        assert(p@ =~= seq!['b', 'a', 'j', 'o']);
        return true;
    }
    if p.len() == 4 && p[0] == 'c' && p[1] == 'a' && p[2] == 'b' && p[3] == 'e' {
        assert(p@ =~= seq!['c', 'a', 'b', 'e']);
        return true;
    }
    if p.len() == 3 && p[0] == 'c' && p[1] == 'o' && p[2] == 'n' {
        assert(p@ =~= seq!['c', 'o', 'n']);
        return true;
    }
    if p.len() == 6 && p[0] == 'c' && p[1] == 'o' && p[2] == 'n' && p[3] == 't' && p[4] == 'r' && p[5] == 'a' {
        assert(p@ =~= seq!['c', 'o', 'n', 't', 'r', 'a']);
        return true;
    }
    if p.len() == 2 && p[0] == 'd' && p[1] == 'e' {
        assert(p@ =~= seq!['d', 'e']);
        return true;
    }
    if p.len() == 3 && p[0] == 'd' && p[1] == 'e' && p[2] == 'l' {
        assert(p@ =~= seq!['d', 'e', 'l']);
        return true;
    }
    if p.len() == 7 && p[0] == 'd' && p[1] == 'u' && p[2] == 'r' && p[3] == 'a' && p[4] == 'n' && p[5] == 't' && p[6] == 'e' {
        assert(p@ =~= seq!['d', 'u', 'r', 'a', 'n', 't', 'e']);
        return true;
    }
    if p.len() == 2 && p[0] == 'e' && p[1] == 'n' {
        assert(p@ =~= seq!['e', 'n']);
        return true;
    }
    if p.len() == 5 && p[0] == 'e' && p[1] == 'n' && p[2] == 't' && p[3] == 'r' && p[4] == 'e' {
        assert(p@ =~= seq!['e', 'n', 't', 'r', 'e']);
        return true;
    }
    if p.len() == 8 && p[0] == 'm' && p[1] == 'e' && p[2] == 'd' && p[3] == 'i' && p[4] == 'a' && p[5] == 'n' && p[6] == 't' && p[7] == 'e' {
        assert(p@ =~= seq!['m', 'e', 'd', 'i', 'a', 'n', 't', 'e']);
        return true;
    }
    if p.len() == 4 && p[0] == 'p' && p[1] == 'a' && p[2] == 'r' && p[3] == 'a' {
        assert(p@ =~= seq!['p', 'a', 'r', 'a']);
        return true;
    }
    if p.len() == 5 && p[0] == 's' && p[1] == 'e' && p[2] == 'g' && p[3] == 'u' && p[4] == 'n' {
        assert(p@ =~= seq!['s', 'e', 'g', 'u', 'n']);
        return true;
    }
    if p.len() == 3 && p[0] == 'p' && p[1] == 'o' && p[2] == 'r' {
        assert(p@ =~= seq!['p', 'o', 'r']);
        return true;
    }
    if p.len() == 3 && p[0] == 's' && p[1] == 'i' && p[2] == 'n' {
        assert(p@ =~= seq!['s', 'i', 'n']);
        return true;
    }
    if p.len() == 2 && p[0] == 's' && p[1] == 'o' {
        assert(p@ =~= seq!['s', 'o']);
        return true;
    }
    if p.len() == 5 && p[0] == 's' && p[1] == 'o' && p[2] == 'b' && p[3] == 'r' && p[4] == 'e' {
        assert(p@ =~= seq!['s', 'o', 'b', 'r', 'e']);
        return true;
    }
    if p.len() == 4 && p[0] == 't' && p[1] == 'r' && p[2] == 'a' && p[3] == 's' {
        assert(p@ =~= seq!['t', 'r', 'a', 's']);
        return true;
    }
    if p.len() == 6 && p[0] == 'v' && p[1] == 'e' && p[2] == 'r' && p[3] == 's' && p[4] == 'u' && p[5] == 's' {
        assert(p@ =~= seq!['v', 'e', 'r', 's', 'u', 's']);
        return true;
    }
    if p.len() == 1 && p[0] == 'y' {
        assert(p@ =~= seq!['y']);
        return true;
    }
    if p.len() == 1 && p[0] == 'o' {
        assert(p@ =~= seq!['o']);
        return true;
    }
    if p.len() == 1 && p[0] == 'e' {
        assert(p@ =~= seq!['e']);
        return true;
    }
    if p.len() == 1 && p[0] == 'u' {
        assert(p@ =~= seq!['u']);
        return true;
    }
    false
}

/// Combining diacritical marks (U+0300 to U+036F).
pub open spec fn marca_combinante(c: char) -> bool {
    0x300 <= (c as u32) && (c as u32) <= 0x36F
}

/// `s` without its combining diacritical marks.
pub open spec fn sin_marcas(s: Seq<char>) -> Seq<char>
    decreases s.len(),
{
    if s.len() == 0 {
        seq![]
    } else if marca_combinante(s.last()) {
        sin_marcas(s.drop_last())
    } else {
        sin_marcas(s.drop_last()).push(s.last())
    }
}

fn quitar_marcas(s: &Vec<char>) -> (r: Vec<char>)
    ensures
        r@ == sin_marcas(s@),
{
    let mut r: Vec<char> = Vec::new();
    let mut i: usize = 0;
    while i < s.len()
        invariant
            i <= s.len(),
            r@ == sin_marcas(s@.take(i as int)),
        decreases s.len() - i,
    {
        assert(s@.take(i + 1).drop_last() == s@.take(i as int));
        let c = s[i];
        let code = c as u32;
        if !(0x300 <= code && code <= 0x36F) {
            r.push(c);
        }
        i += 1;
    }
    assert(s@.take(s.len() as int) == s@);
    r
}

/// A word that stays in a column name: non-empty and not prohibited.
pub open spec fn palabra_admitida(p: Seq<char>) -> bool {
    p.len() > 0 && !palabra_prohibida(p)
}

/// The admitted words of `ps`, in order.
pub open spec fn palabras_admitidas(ps: Seq<Seq<char>>) -> Seq<Seq<char>>
    decreases ps.len(),
{
    if ps.len() == 0 {
        seq![]
    } else if palabra_admitida(ps.last()) {
        palabras_admitidas(ps.drop_last()).push(ps.last())
    } else {
        palabras_admitidas(ps.drop_last())
    }
}

fn filtrar_palabras(ps: &Vec<Vec<char>>) -> (r: Vec<Vec<char>>)
    ensures
        vistas(r@) == palabras_admitidas(vistas(ps@)),
{
    let mut r: Vec<Vec<char>> = Vec::new();
    let mut i: usize = 0;
    while i < ps.len()
        invariant
            i <= ps.len(),
            vistas(r@) == palabras_admitidas(vistas(ps@).take(i as int)),
        decreases ps.len() - i,
    {
        let ghost t = vistas(ps@).take(i + 1);
        assert(t.drop_last() == vistas(ps@).take(i as int));
        assert(t.last() == ps@[i as int]@);
        if ps[i].len() > 0 && !es_prohibida(&ps[i]) {
            let ghost antes = r@;
            let copia = copiar(&ps[i]);
            r.push(copia);
            assert(vistas(r@) == vistas(antes).push(copia@));
        }
        i += 1;
    }
    assert(vistas(ps@).take(ps.len() as int) == vistas(ps@));
    r
}

/// A copy of a character vector.
pub fn copiar(v: &Vec<char>) -> (r: Vec<char>)
    ensures
        r@ == v@,
{
    let mut r: Vec<char> = Vec::new();
    let mut i: usize = 0;
    while i < v.len()
        invariant
            i <= v.len(),
            r@ == v@.take(i as int),
        decreases v.len() - i,
    {
        r.push(v[i]);
        i += 1;
        assert(v@.take(i as int) == v@.take(i - 1).push(v@[i - 1]));
    }
    assert(v@.take(v.len() as int) == v@);
    r
}

/// Whether two character vectors are equal.
pub fn iguales(a: &Vec<char>, b: &Vec<char>) -> (r: bool)
    ensures
        r == (a@ == b@),
{
    if a.len() != b.len() {
        return false;
    }
    let mut i: usize = 0;
    while i < a.len()
        invariant
            i <= a.len() == b.len(),
            forall|j: int| 0 <= j < i ==> a@[j] == b@[j],
        decreases a.len() - i,
    {
        if a[i] != b[i] {
            return false;
        }
        i += 1;
    }
    assert(a@ =~= b@);
    true
}

/// The column name that the validator suggests for `cadena`: trimmed,
/// lower-cased, with `ñ` spelled `ni`, accents removed, every character
/// other than `a-z0-9` turned into `_`, empty and prohibited words dropped,
/// `b` put before a leading digit, `id` spelled out, and `_1` written `_01`.
pub open spec fn sugerencia(cadena: Seq<char>) -> Seq<char> {
    let a = recortado(cadena, Criterio::Blancos);
    let b = en_minusculas(a);
    let c = reemplazado(b, seq!['\u{F1}'], seq!['n', 'i']);
    let d = sin_marcas(descomposicion_nfd(c));
    let e = reemplazo_regex(ClaseRegex::NoAlfanumerico, d, seq!['_']);
    let f = unido(
        palabras_admitidas(dividido(e, Criterio::GuionBajo)),
        seq!['_'],
    );
    let g = if f.len() > 0 && '0' <= f[0] && f[0] <= '9' {
        seq!['b'] + f
    } else {
        f
    };
    let h = if g == seq!['i', 'd'] || g == seq!['I', 'D'] {
        seq!['i', 'd', 'e', 'n', 't', 'i', 'f', 'i', 'c', 'a', 'd', 'o', 'r']
    } else {
        g
    };
    reemplazado(h, seq!['_', '1'], seq!['_', '0', '1'])
}

/// A column name, the name suggested for it, and whether they differ.
#[derive(Clone, Debug)]
pub struct ValidacionCadena {
    pub cadena: String,
    pub sugerido: String,
    pub incidencia: bool,
}

/// Normalises a column name (see `sugerencia`) and reports whether the
/// suggestion differs from the name.
pub fn validar_cadena(cadena: &str) -> (r: ValidacionCadena)
    ensures
        r.cadena@ == cadena@,
        r.sugerido@ == sugerencia(cadena@),
        r.incidencia == (r.sugerido@ != cadena@),
        forma_de_sugerencia(cadena@) && nombre_valido(cadena@) ==> r.sugerido@ == cadena@
            && !r.incidencia,
{
    let original = chars_de(cadena);
    let a = recortar(&original, Criterio::Blancos);
    let a_txt = cadena_de(&a);
    let b_txt = minusculas(a_txt.as_str());
    let b = chars_de(b_txt.as_str());
    let enie = vec!['\u{F1}'];
    let ni = vec!['n', 'i'];
    assert(enie@ == seq!['\u{F1}']);
    assert(ni@ == seq!['n', 'i']);
    assert(b@ == en_minusculas(recortado(cadena@, Criterio::Blancos)));
    let c = reemplazar(&b, &enie, &ni);
    let c_txt = cadena_de(&c);
    let d_txt = descomponer_nfd(c_txt.as_str());
    let d0 = chars_de(d_txt.as_str());
    let d = quitar_marcas(&d0);
    let d_limpio = cadena_de(&d);
    proof {
        reveal_strlit("[^a-z0-9]");
        reveal_strlit("_");
        assert("[^a-z0-9]"@ == patron_de(ClaseRegex::NoAlfanumerico));
        assert("_"@ == seq!['_']);
    }
    let e_txt = reemplazar_regex("[^a-z0-9]", d_limpio.as_str(), "_");
    let e = chars_de(e_txt.as_str());
    assert(e@ == reemplazo_regex(ClaseRegex::NoAlfanumerico, d@, seq!['_']));
    let partes = dividir(&e, Criterio::GuionBajo);
    let buenas = filtrar_palabras(&partes);
    let guion = vec!['_'];
    assert(guion@ == seq!['_']);
    let f = unir(&buenas, &guion);
    assert(f@ == unido(palabras_admitidas(dividido(e@, Criterio::GuionBajo)), seq!['_']));
    let g = if f.len() > 0 && '0' <= f[0] && f[0] <= '9' {
        let mut g = vec!['b'];
        assert(g@ == seq!['b']);
        crate::texto::extender(&mut g, &f);
        g
    } else {
        f
    };
    let es_id = g.len() == 2 && ((g[0] == 'i' && g[1] == 'd') || (g[0] == 'I' && g[1] == 'D'));
    proof {
        if es_id {
            assert(g@ =~= seq!['i', 'd'] || g@ =~= seq!['I', 'D']);
        }
    }
    let h = if es_id {
        vec!['i', 'd', 'e', 'n', 't', 'i', 'f', 'i', 'c', 'a', 'd', 'o', 'r']
    } else {
        g
    };
    assert(c@ == reemplazado(en_minusculas(recortado(cadena@, Criterio::Blancos)), seq!['\u{F1}'], seq!['n', 'i']));
    assert(d@ == sin_marcas(descomposicion_nfd(c@)));
    let uno = vec!['_', '1'];
    let cero_uno = vec!['_', '0', '1'];
    assert(uno@ == seq!['_', '1']);
    assert(cero_uno@ == seq!['_', '0', '1']);
    proof {
        if es_id {
            assert(h@ == seq!['i', 'd', 'e', 'n', 't', 'i', 'f', 'i', 'c', 'a', 'd', 'o', 'r']);
        } else {
            assert(!(g@ == seq!['i', 'd'] || g@ == seq!['I', 'D']));
        }
    }
    let s = reemplazar(&h, &uno, &cero_uno);
    proof {
        if forma_de_sugerencia(cadena@) && nombre_valido(cadena@) {
            lema_recortado_nombre(cadena@);
            assert(a_txt@ == cadena@);
            assert(forall|i: int| 0 <= i < a_txt@.len() ==> minuscula_ascii(#[trigger] a_txt@[i]))
                by {
                assert(forall|i: int| 0 <= i < cadena@.len() ==> caracter_de_nombre(#[trigger] cadena@[i]));
            }
            assert(en_minusculas(cadena@) == cadena@);
            lema_sin_enie(cadena@);
            assert(c_txt@ == cadena@);
            assert(forall|i: int| 0 <= i < c_txt@.len() ==> (#[trigger] c_txt@[i] as u32) < 128) by {
                assert(forall|i: int| 0 <= i < cadena@.len() ==> caracter_de_nombre(#[trigger] cadena@[i]));
            }
            assert(descomposicion_nfd(cadena@) == cadena@);
            lema_punto_fijo(cadena@);
        }
    }
    let incidencia = !iguales(&s, &original);
    ValidacionCadena { cadena: cadena_de(&original), sugerido: cadena_de(&s), incidencia }
}

/// The alternative name tried for a repeated suggestion `base`:
/// `base_0n` (`format!("{}_0{}", base, n)`).
pub open spec fn candidato(base: Seq<char>, n: nat) -> Seq<char> {
    base + seq!['_', '0'] + decimal(n)
}

/// `x` is the name chosen for a column whose suggestion is `base` when the
/// names in `previos` are already taken: `base` itself if it is free, and
/// otherwise the candidate with the least number from two on that is free.
pub open spec fn eleccion_valida(previos: Seq<Seq<char>>, base: Seq<char>, x: Seq<char>) -> bool {
    if !previos.contains(base) {
        x == base
    } else {
        exists|n: nat|
            #![trigger candidato(base, n)]
            n >= 2 && x == candidato(base, n) && !previos.contains(x) && forall|m: nat|
                2 <= m < n ==> previos.contains(#[trigger] candidato(base, m))
    }
}

pub open spec fn sugeridos(r: Seq<ValidacionCadena>) -> Seq<Seq<char>> {
    r.map_values(|v: ValidacionCadena| v.sugerido@)
}

pub proof fn lema_candidato_inyectivo(base: Seq<char>, a: nat, b: nat)
    requires
        candidato(base, a) == candidato(base, b),
    ensures
        a == b,
{
    let k = base.len() + 2int;
    assert(candidato(base, a).skip(k) == decimal(a));
    assert(candidato(base, b).skip(k) == decimal(b));
    lema_decimal_inyectivo(a, b);
}

/// If the candidates numbered `2..n` are all among `usados`, there are at
/// least `n - 2` names in `usados`.
proof fn lema_casillas(usados: Seq<Seq<char>>, base: Seq<char>, n: int)
    requires
        n >= 2,
        forall|m: nat| 2 <= m < n ==> usados.contains(#[trigger] candidato(base, m)),
    ensures
        n - 2 <= usados.len(),
{
    let x = vstd::set_lib::set_int_range(2, n);
    vstd::set_lib::lemma_int_range(2, n);
    let f = |m: int| candidato(base, m as nat);
    let y = x.map(f);
    assert forall|a: int, b: int| x.contains(a) && x.contains(b) && #[trigger] f(a) == #[trigger] f(b) implies a == b by {
        lema_candidato_inyectivo(base, a as nat, b as nat);
    }
    assert(vstd::relations::injective_on(f, x));
    vstd::set_lib::lemma_map_size(x, y, f);
    assert forall|z: Seq<char>| y.contains(z) implies usados.to_set().contains(z) by {
        let a = choose|a: int| x.contains(a) && f(a) == z;
        assert(usados.contains(candidato(base, a as nat)));
    }
    vstd::seq_lib::seq_to_set_is_finite(usados);
    vstd::set_lib::lemma_len_subset(y, usados.to_set());
    usados.lemma_cardinality_of_set();
}

/// Whether `x` is among `usados`.
pub fn contiene(usados: &Vec<Vec<char>>, x: &Vec<char>) -> (r: bool)
    ensures
        r == vistas(usados@).contains(x@),
{
    let mut i: usize = 0;
    while i < usados.len()
        invariant
            i <= usados.len(),
            forall|j: int| 0 <= j < i ==> vistas(usados@)[j] != x@,
        decreases usados.len() - i,
    {
        if iguales(&usados[i], x) {
            assert(vistas(usados@)[i as int] == x@);
            return true;
        }
        i += 1;
    }
    false
}

fn candidato_exec(base: &Vec<char>, n: u128) -> (r: Vec<char>)
    ensures
        r@ == candidato(base@, n as nat),
{
    let mut r = copiar(base);
    r.push('_');
    r.push('0');
    let d = a_decimal(n);
    extender(&mut r, &d);
    r
}

/// Validates every column name and makes the suggestions unique: a
/// suggestion already taken is replaced by the first free `base_0n`,
/// `n = 2, 3, ...`. The report of incidences is the one of `validar_cadena`.
pub fn validar_columnas(columnas: &Vec<String>) -> (r: Vec<ValidacionCadena>)
    ensures
        r.len() == columnas.len(),
        forall|i: int|
            0 <= i < r.len() ==> {
                &&& (#[trigger] r@[i]).cadena@ == columnas@[i]@
                &&& r@[i].incidencia == (sugerencia(columnas@[i]@) != columnas@[i]@)
                &&& eleccion_valida(
                    sugeridos(r@).take(i),
                    sugerencia(columnas@[i]@),
                    r@[i].sugerido@,
                )
                &&& nombre_valido(r@[i].sugerido@)
            },
        forall|i: int, j: int| 0 <= i < j < r.len() ==> r@[i].sugerido@ != r@[j].sugerido@,
{
    let mut r: Vec<ValidacionCadena> = Vec::new();
    let mut usados: Vec<Vec<char>> = Vec::new();
    let mut i: usize = 0;
    while i < columnas.len()
        invariant
            i <= columnas.len(),
            r.len() == i,
            vistas(usados@) == sugeridos(r@),
            forall|j: int|
                0 <= j < i ==> {
                    &&& (#[trigger] r@[j]).cadena@ == columnas@[j]@
                    &&& r@[j].incidencia == (sugerencia(columnas@[j]@) != columnas@[j]@)
                    &&& eleccion_valida(
                        sugeridos(r@).take(j),
                        sugerencia(columnas@[j]@),
                        r@[j].sugerido@,
                    )
                },
        decreases columnas.len() - i,
    {
        let mut v = validar_cadena(columnas[i].as_str());
        let base = chars_de(v.sugerido.as_str());
        let ghost previos = sugeridos(r@);
        assert(previos.take(i as int) == previos);
        if !contiene(&usados, &base) {
            let copia = copiar(&base);
            usados.push(copia);
        } else {
            let mut n: u128 = 2;
            let mut cand = candidato_exec(&base, n);
            while contiene(&usados, &cand)
                invariant
                    n >= 2,
                    cand@ == candidato(base@, n as nat),
                    vistas(usados@) == previos,
                    n - 2 <= previos.len(),
                    forall|m: nat| 2 <= m < n ==> previos.contains(#[trigger] candidato(base@, m)),
                decreases previos.len() + 2 - n,
            {
                proof {
                    assert forall|m: nat| 2 <= m < n + 1 implies previos.contains(
                        #[trigger] candidato(base@, m),
                    ) by {
                        if m == n {
                        }
                    }
                    lema_casillas(previos, base@, n + 1);
                    assert(previos.len() == usados.len());
                }
                n = n + 1;
                cand = candidato_exec(&base, n);
            }
            v.sugerido = cadena_de(&cand);
            usados.push(cand);
        }
        let ghost x = v.sugerido@;
        r.push(v);
        proof {
            assert(sugeridos(r@) == previos.push(x));
            assert forall|j: int| 0 <= j < i + 1 implies sugeridos(r@).take(j) == sugeridos(
                r@,
            ).take(j) && (j < i ==> sugeridos(r@).take(j) == previos.take(j)) by {
                if j < i {
                    assert(sugeridos(r@).take(j) =~= previos.take(j));
                }
            }
            assert(sugeridos(r@).take(i as int) =~= previos);
        }
        i += 1;
    }
    proof {
        assert forall|k: int| 0 <= k < r.len() implies nombre_valido(#[trigger] r@[k].sugerido@) by {
            lema_eleccion_valida(sugeridos(r@).take(k), columnas@[k]@, r@[k].sugerido@);
        }
        lema_sugeridos_distintos(columnas@.map_values(|c: String| c@), r@);
    }
    r
}

/// No two columns receive the same suggested name.
pub proof fn lema_sugeridos_distintos(columnas: Seq<Seq<char>>, r: Seq<ValidacionCadena>)
    requires
        r.len() == columnas.len(),
        forall|i: int|
            0 <= i < r.len() ==> eleccion_valida(
                #[trigger] sugeridos(r).take(i),
                sugerencia(columnas[i]),
                r[i].sugerido@,
            ),
    ensures
        forall|i: int, j: int| 0 <= i < j < r.len() ==> r[i].sugerido@ != r[j].sugerido@,
{
    assert forall|i: int, j: int| 0 <= i < j < r.len() implies r[i].sugerido@ != r[j].sugerido@ by {
        let previos = sugeridos(r).take(j);
        assert(previos[i] == r[i].sugerido@);
        assert(previos.contains(r[i].sugerido@));
    }
}

proof fn lema_decimal_valido(n: nat)
    ensures
        nombre_valido(decimal(n)),
    decreases n,
{
    if n >= 10 {
        lema_decimal_valido(n / 10);
        crate::texto::lema_digito(n % 10);
        let p = decimal(n / 10);
        let q = decimal(n);
        assert forall|i: int| 0 <= i < q.len() implies caracter_de_nombre(#[trigger] q[i]) by {
            if i < p.len() {
                assert(q[i] == p[i]);
            }
        }
    } else {
        crate::texto::lema_digito(n);
    }
}

/// Every name chosen for a column, the suggestion or a numbered candidate,
/// is made only of lower-case ASCII letters, digits and underscores.
pub proof fn lema_eleccion_valida(previos: Seq<Seq<char>>, cadena: Seq<char>, x: Seq<char>)
    requires
        eleccion_valida(previos, sugerencia(cadena), x),
    ensures
        nombre_valido(x),
{
    let base = sugerencia(cadena);
    lema_sugerencia_valida(cadena);
    if previos.contains(base) {
        let n = choose|n: nat|
            #![trigger candidato(base, n)]
            n >= 2 && x == candidato(base, n) && !previos.contains(x) && forall|m: nat|
                2 <= m < n ==> previos.contains(#[trigger] candidato(base, m));
        lema_decimal_valido(n);
        let d = decimal(n);
        assert forall|i: int| 0 <= i < x.len() implies caracter_de_nombre(#[trigger] x[i]) by {
            if i < base.len() {
                assert(x[i] == base[i]);
            } else if i >= base.len() + 2 {
                assert(x[i] == d[i - base.len() - 2]);
            }
        }
    }
}

/// The characters of a suggested column name.
pub open spec fn caracter_de_nombre(c: char) -> bool {
    ('a' <= c && c <= 'z') || ('0' <= c && c <= '9') || c == '_'
}

pub open spec fn nombre_valido(s: Seq<char>) -> bool {
    forall|i: int| 0 <= i < s.len() ==> caracter_de_nombre(#[trigger] s[i])
}

pub(crate) proof fn lema_sustituido_valido(s: Seq<char>)
    ensures
        nombre_valido(sustituido(s, ClaseRegex::NoAlfanumerico, seq!['_'])),
    decreases s.len(),
{
    if s.len() > 0 {
        lema_sustituido_valido(s.drop_last());
        let p = sustituido(s.drop_last(), ClaseRegex::NoAlfanumerico, seq!['_']);
        let q = sustituido(s, ClaseRegex::NoAlfanumerico, seq!['_']);
        assert forall|i: int| 0 <= i < q.len() implies caracter_de_nombre(#[trigger] q[i]) by {
            if i < p.len() {
                assert(q[i] == p[i]);
            }
        }
    }
}

pub(crate) proof fn lema_dividido_valido(s: Seq<char>)
    requires
        nombre_valido(s),
    ensures
        forall|k: int| 0 <= k < dividido(s, Criterio::GuionBajo).len() ==> nombre_valido(
            #[trigger] dividido(s, Criterio::GuionBajo)[k],
        ),
    decreases s.len(),
{
    if s.len() > 0 {
        let t = s.drop_last();
        assert forall|i: int| 0 <= i < t.len() implies caracter_de_nombre(#[trigger] t[i]) by {
            assert(t[i] == s[i]);
        }
        lema_dividido_valido(t);
        crate::texto::lema_dividido_no_vacio(t, Criterio::GuionBajo);
        let p = dividido(t, Criterio::GuionBajo);
        let q = dividido(s, Criterio::GuionBajo);
        assert(caracter_de_nombre(s[s.len() - 1]));
        assert forall|k: int| 0 <= k < q.len() implies nombre_valido(#[trigger] q[k]) by {
            if k < p.len() && k != p.len() - 1 {
                assert(q[k] == p[k]);
            } else if k == p.len() - 1 && s.last() != '_' {
                let w = p.last().push(s.last());
                assert(q[k] == w);
                assert forall|i: int| 0 <= i < w.len() implies caracter_de_nombre(#[trigger] w[i]) by {
                    if i < p.last().len() {
                        assert(w[i] == p.last()[i]);
                    }
                }
            } else if k == p.len() - 1 {
                assert(q[k] == p[k]);
            } else {
                assert(q[k] == Seq::<char>::empty());
            }
        }
    }
}

proof fn lema_admitidas_validas(ps: Seq<Seq<char>>)
    requires
        forall|k: int| 0 <= k < ps.len() ==> nombre_valido(#[trigger] ps[k]),
    ensures
        forall|k: int| 0 <= k < palabras_admitidas(ps).len() ==> nombre_valido(
            #[trigger] palabras_admitidas(ps)[k],
        ),
    decreases ps.len(),
{
    if ps.len() > 0 {
        let t = ps.drop_last();
        assert forall|k: int| 0 <= k < t.len() implies nombre_valido(#[trigger] t[k]) by {
            assert(t[k] == ps[k]);
        }
        lema_admitidas_validas(t);
        let p = palabras_admitidas(t);
        let q = palabras_admitidas(ps);
        assert forall|k: int| 0 <= k < q.len() implies nombre_valido(#[trigger] q[k]) by {
            if k < p.len() {
                assert(q[k] == p[k]);
            } else {
                assert(q[k] == ps.last());
            }
        }
    }
}

proof fn lema_unido_valido(ps: Seq<Seq<char>>)
    requires
        forall|k: int| 0 <= k < ps.len() ==> nombre_valido(#[trigger] ps[k]),
    ensures
        nombre_valido(unido(ps, seq!['_'])),
    decreases ps.len(),
{
    if ps.len() > 1 {
        let t = ps.drop_last();
        assert forall|k: int| 0 <= k < t.len() implies nombre_valido(#[trigger] t[k]) by {
            assert(t[k] == ps[k]);
        }
        lema_unido_valido(t);
        let a = unido(t, seq!['_']);
        let b = ps.last();
        assert(nombre_valido(b));
        let u = a + seq!['_'] + b;
        assert forall|i: int| 0 <= i < u.len() implies caracter_de_nombre(#[trigger] u[i]) by {
            if i < a.len() {
                assert(u[i] == a[i]);
            } else if i == a.len() {
            } else {
                assert(u[i] == b[i - a.len() - 1]);
            }
        }
    } else if ps.len() == 1 {
        assert(nombre_valido(ps[0]));
    }
}

proof fn lema_reemplazado_valido(s: Seq<char>, p: Seq<char>, r: Seq<char>)
    requires
        nombre_valido(s),
        nombre_valido(r),
    ensures
        nombre_valido(reemplazado(s, p, r)),
    decreases s.len(),
{
    if p.len() == 0 || s.len() < p.len() {
    } else if s.take(p.len() as int) == p {
        let t = s.skip(p.len() as int);
        assert forall|i: int| 0 <= i < t.len() implies caracter_de_nombre(#[trigger] t[i]) by {
            assert(t[i] == s[i + p.len()]);
        }
        lema_reemplazado_valido(t, p, r);
        let u = r + reemplazado(t, p, r);
        assert forall|i: int| 0 <= i < u.len() implies caracter_de_nombre(#[trigger] u[i]) by {
            if i >= r.len() {
                assert(u[i] == reemplazado(t, p, r)[i - r.len()]);
            }
        }
    } else {
        let t = s.drop_first();
        assert forall|i: int| 0 <= i < t.len() implies caracter_de_nombre(#[trigger] t[i]) by {
            assert(t[i] == s[i + 1]);
        }
        lema_reemplazado_valido(t, p, r);
        let u = seq![s[0]] + reemplazado(t, p, r);
        assert forall|i: int| 0 <= i < u.len() implies caracter_de_nombre(#[trigger] u[i]) by {
            if i >= 1 {
                assert(u[i] == reemplazado(t, p, r)[i - 1]);
            }
        }
    }
}

/// Every suggested column name is made only of lower-case ASCII letters,
/// digits and underscores.
pub proof fn lema_sugerencia_valida(cadena: Seq<char>)
    ensures
        nombre_valido(sugerencia(cadena)),
{
    let a = recortado(cadena, Criterio::Blancos);
    let b = en_minusculas(a);
    let c = reemplazado(b, seq!['\u{F1}'], seq!['n', 'i']);
    let d = sin_marcas(descomposicion_nfd(c));
    let e = reemplazo_regex(ClaseRegex::NoAlfanumerico, d, seq!['_']);
    lema_sustituido_valido(d);
    lema_dividido_valido(e);
    let ps = palabras_admitidas(dividido(e, Criterio::GuionBajo));
    lema_admitidas_validas(dividido(e, Criterio::GuionBajo));
    lema_unido_valido(ps);
    let f = unido(ps, seq!['_']);
    let g = if f.len() > 0 && '0' <= f[0] && f[0] <= '9' {
        seq!['b'] + f
    } else {
        f
    };
    assert(nombre_valido(g)) by {
        if f.len() > 0 && '0' <= f[0] && f[0] <= '9' {
            assert forall|i: int| 0 <= i < g.len() implies caracter_de_nombre(#[trigger] g[i]) by {
                if i > 0 {
                    assert(g[i] == f[i - 1]);
                }
            }
        }
    }
    let h = if g == seq!['i', 'd'] || g == seq!['I', 'D'] {
        seq!['i', 'd', 'e', 'n', 't', 'i', 'f', 'i', 'c', 'a', 'd', 'o', 'r']
    } else {
        g
    };
    assert(nombre_valido(h));
    assert(nombre_valido(seq!['_', '0', '1']));
    lema_reemplazado_valido(h, seq!['_', '1'], seq!['_', '0', '1']);
}

/// The words that the validator drops from column names: Spanish articles,
/// prepositions and conjunctions.
pub open spec fn palabras_vacias() -> Seq<Seq<char>> {
    seq![
        seq!['e', 'l'],
        seq!['l', 'a'],
        seq!['l', 'o', 's'],
        seq!['l', 'a', 's'],
        seq!['u', 'n'],
        seq!['u', 'n', 'a'],
        seq!['u', 'n', 'o', 's'],
        seq!['u', 'n', 'a', 's'],
        seq!['a'],
        seq!['q', 'u', 'e'],
        seq!['a', 'n', 't', 'e'],
        seq!['b', 'a', 'j', 'o'],
        seq!['c', 'a', 'b', 'e'],
        seq!['c', 'o', 'n'],
        seq!['c', 'o', 'n', 't', 'r', 'a'],
        seq!['d', 'e'],
        seq!['d', 'e', 'l'],
        seq!['d', 'u', 'r', 'a', 'n', 't', 'e'],
        seq!['e', 'n'],
        seq!['e', 'n', 't', 'r', 'e'],
        seq!['m', 'e', 'd', 'i', 'a', 'n', 't', 'e'],
        seq!['p', 'a', 'r', 'a'],
        seq!['s', 'e', 'g', 'u', 'n'],
        seq!['p', 'o', 'r'],
        seq!['s', 'i', 'n'],
        seq!['s', 'o'],
        seq!['s', 'o', 'b', 'r', 'e'],
        seq!['t', 'r', 'a', 's'],
        seq!['v', 'e', 'r', 's', 'u', 's'],
        seq!['y'],
        seq!['o'],
        seq!['e'],
        seq!['u'],
    ]
}

/// The prohibited words are exactly the listed articles, prepositions and
/// conjunctions, and no word of a suggested name is one of them: a
/// suggestion is empty, or its words (between underscores) are all outside
/// the list.
pub proof fn lema_palabras_vacias(p: Seq<char>, cadena: Seq<char>)
    ensures
        palabra_prohibida(p) <==> palabras_vacias().contains(p),
        sugerencia(cadena).len() > 0 ==> forall|i: int|
            0 <= i < dividido(sugerencia(cadena), Criterio::GuionBajo).len() ==> !palabras_vacias().contains(
                #[trigger] dividido(sugerencia(cadena), Criterio::GuionBajo)[i],
            ),
{
    let l = palabras_vacias();
    assert(l.len() == 33);
    assert(l[0] == seq!['e', 'l']);
    assert(l[1] == seq!['l', 'a']);
    assert(l[2] == seq!['l', 'o', 's']);
    assert(l[3] == seq!['l', 'a', 's']);
    assert(l[4] == seq!['u', 'n']);
    assert(l[5] == seq!['u', 'n', 'a']);
    assert(l[6] == seq!['u', 'n', 'o', 's']);
    assert(l[7] == seq!['u', 'n', 'a', 's']);
    assert(l[8] == seq!['a']);
    assert(l[9] == seq!['q', 'u', 'e']);
    assert(l[10] == seq!['a', 'n', 't', 'e']);
    assert(l[11] == seq!['b', 'a', 'j', 'o']);
    assert(l[12] == seq!['c', 'a', 'b', 'e']);
    assert(l[13] == seq!['c', 'o', 'n']);
    assert(l[14] == seq!['c', 'o', 'n', 't', 'r', 'a']);
    assert(l[15] == seq!['d', 'e']);
    assert(l[16] == seq!['d', 'e', 'l']);
    assert(l[17] == seq!['d', 'u', 'r', 'a', 'n', 't', 'e']);
    assert(l[18] == seq!['e', 'n']);
    assert(l[19] == seq!['e', 'n', 't', 'r', 'e']);
    assert(l[20] == seq!['m', 'e', 'd', 'i', 'a', 'n', 't', 'e']);
    assert(l[21] == seq!['p', 'a', 'r', 'a']);
    assert(l[22] == seq!['s', 'e', 'g', 'u', 'n']);
    assert(l[23] == seq!['p', 'o', 'r']);
    assert(l[24] == seq!['s', 'i', 'n']);
    assert(l[25] == seq!['s', 'o']);
    assert(l[26] == seq!['s', 'o', 'b', 'r', 'e']);
    assert(l[27] == seq!['t', 'r', 'a', 's']);
    assert(l[28] == seq!['v', 'e', 'r', 's', 'u', 's']);
    assert(l[29] == seq!['y']);
    assert(l[30] == seq!['o']);
    assert(l[31] == seq!['e']);
    assert(l[32] == seq!['u']);
    assert forall|k: int| 0 <= k < l.len() implies palabra_prohibida(#[trigger] l[k]) by {
        if k == 0 {
            assert(palabra_prohibida(l[0]));
        } else if k == 1 {
            assert(palabra_prohibida(l[1]));
        } else if k == 2 {
            assert(palabra_prohibida(l[2]));
        } else if k == 3 {
            assert(palabra_prohibida(l[3]));
        } else if k == 4 {
            assert(palabra_prohibida(l[4]));
        } else if k == 5 {
            assert(palabra_prohibida(l[5]));
        } else if k == 6 {
            assert(palabra_prohibida(l[6]));
        } else if k == 7 {
            assert(palabra_prohibida(l[7]));
        } else if k == 8 {
            assert(palabra_prohibida(l[8]));
        } else if k == 9 {
            assert(palabra_prohibida(l[9]));
        } else if k == 10 {
            assert(palabra_prohibida(l[10]));
        } else if k == 11 {
            assert(palabra_prohibida(l[11]));
        } else if k == 12 {
            assert(palabra_prohibida(l[12]));
        } else if k == 13 {
            assert(palabra_prohibida(l[13]));
        } else if k == 14 {
            assert(palabra_prohibida(l[14]));
        } else if k == 15 {
            assert(palabra_prohibida(l[15]));
        } else if k == 16 {
            assert(palabra_prohibida(l[16]));
        } else if k == 17 {
            assert(palabra_prohibida(l[17]));
        } else if k == 18 {
            assert(palabra_prohibida(l[18]));
        } else if k == 19 {
            assert(palabra_prohibida(l[19]));
        } else if k == 20 {
            assert(palabra_prohibida(l[20]));
        } else if k == 21 {
            assert(palabra_prohibida(l[21]));
        } else if k == 22 {
            assert(palabra_prohibida(l[22]));
        } else if k == 23 {
            assert(palabra_prohibida(l[23]));
        } else if k == 24 {
            assert(palabra_prohibida(l[24]));
        } else if k == 25 {
            assert(palabra_prohibida(l[25]));
        } else if k == 26 {
            assert(palabra_prohibida(l[26]));
        } else if k == 27 {
            assert(palabra_prohibida(l[27]));
        } else if k == 28 {
            assert(palabra_prohibida(l[28]));
        } else if k == 29 {
            assert(palabra_prohibida(l[29]));
        } else if k == 30 {
            assert(palabra_prohibida(l[30]));
        } else if k == 31 {
            assert(palabra_prohibida(l[31]));
        } else if k == 32 {
            assert(palabra_prohibida(l[32]));
        }
    }
    if palabra_prohibida(p) {
        if p == seq!['e', 'l'] {
            assert(l[0] == p);
        }
        if p == seq!['l', 'a'] {
            assert(l[1] == p);
        }
        if p == seq!['l', 'o', 's'] {
            assert(l[2] == p);
        }
        if p == seq!['l', 'a', 's'] {
            assert(l[3] == p);
        }
        if p == seq!['u', 'n'] {
            assert(l[4] == p);
        }
        if p == seq!['u', 'n', 'a'] {
            assert(l[5] == p);
        }
        if p == seq!['u', 'n', 'o', 's'] {
            assert(l[6] == p);
        }
        if p == seq!['u', 'n', 'a', 's'] {
            assert(l[7] == p);
        }
        if p == seq!['a'] {
            assert(l[8] == p);
        }
        if p == seq!['q', 'u', 'e'] {
            assert(l[9] == p);
        }
        if p == seq!['a', 'n', 't', 'e'] {
            assert(l[10] == p);
        }
        if p == seq!['b', 'a', 'j', 'o'] {
            assert(l[11] == p);
        }
        if p == seq!['c', 'a', 'b', 'e'] {
            assert(l[12] == p);
        }
        if p == seq!['c', 'o', 'n'] {
            assert(l[13] == p);
        }
        if p == seq!['c', 'o', 'n', 't', 'r', 'a'] {
            assert(l[14] == p);
        }
        if p == seq!['d', 'e'] {
            assert(l[15] == p);
        }
        if p == seq!['d', 'e', 'l'] {
            assert(l[16] == p);
        }
        if p == seq!['d', 'u', 'r', 'a', 'n', 't', 'e'] {
            assert(l[17] == p);
        }
        if p == seq!['e', 'n'] {
            assert(l[18] == p);
        }
        if p == seq!['e', 'n', 't', 'r', 'e'] {
            assert(l[19] == p);
        }
        if p == seq!['m', 'e', 'd', 'i', 'a', 'n', 't', 'e'] {
            assert(l[20] == p);
        }
        if p == seq!['p', 'a', 'r', 'a'] {
            assert(l[21] == p);
        }
        if p == seq!['s', 'e', 'g', 'u', 'n'] {
            assert(l[22] == p);
        }
        if p == seq!['p', 'o', 'r'] {
            assert(l[23] == p);
        }
        if p == seq!['s', 'i', 'n'] {
            assert(l[24] == p);
        }
        if p == seq!['s', 'o'] {
            assert(l[25] == p);
        }
        if p == seq!['s', 'o', 'b', 'r', 'e'] {
            assert(l[26] == p);
        }
        if p == seq!['t', 'r', 'a', 's'] {
            assert(l[27] == p);
        }
        if p == seq!['v', 'e', 'r', 's', 'u', 's'] {
            assert(l[28] == p);
        }
        if p == seq!['y'] {
            assert(l[29] == p);
        }
        if p == seq!['o'] {
            assert(l[30] == p);
        }
        if p == seq!['e'] {
            assert(l[31] == p);
        }
        if p == seq!['u'] {
            assert(l[32] == p);
        }
    }
    if l.contains(p) {
        let k = choose|k: int| 0 <= k < l.len() && l[k] == p;
        assert(palabra_prohibida(l[k]));
    }
    crate::estabilidad::lema_forma_de_sugerencia(cadena);
    let s = sugerencia(cadena);
    if s.len() > 0 {
        let ws = dividido(s, Criterio::GuionBajo);
        assert forall|i: int| 0 <= i < ws.len() implies !l.contains(#[trigger] ws[i]) by {
            assert(crate::estabilidad::palabra_buena(ws[i]));
            if l.contains(ws[i]) {
                let k = choose|k: int| 0 <= k < l.len() && l[k] == ws[i];
                assert(palabra_prohibida(l[k]));
            }
        }
    }
}

} // verus!
