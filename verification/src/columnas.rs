use vstd::prelude::*;

use crate::externos::{
    codificar_hex, digesto_sha256, hex_minusculas, sha256,
    ClaseRegex, en_clase, sustituido, en_mayusculas, en_minusculas, mayusculas, minusculas, patron_de, reemplazar_regex,
    reemplazo_regex,
};
use crate::texto::{
    Criterio, cadena_de, chars_de, dividido, dividir, extender, recortado, recortar, reemplazado,
    reemplazar, unido, unir, vistas,
};

verus! {

/// The value of a cell: `None` for a null cell.
pub open spec fn vista_celda(c: Option<String>) -> Option<Seq<char>> {
    match c {
        Some(s) => Some(s@),
        None => None,
    }
}

pub open spec fn vista_columna(v: Seq<Option<String>>) -> Seq<Option<Seq<char>>> {
    v.map_values(|c: Option<String>| vista_celda(c))
}

/// The text that stands in for a null cell when text is cleaned.
pub open spec fn sin_dato() -> Seq<char> {
    seq!['s', 'i', 'n', ' ', 'd', 'a', 't', 'o']
}

fn texto_sin_dato() -> (r: Vec<char>)
    ensures
        r@ == sin_dato(),
{
    let r = vec!['s', 'i', 'n', ' ', 'd', 'a', 't', 'o'];
    assert(r@ == sin_dato());
    r
}

/// A cleaned text cell: null replaced by `relleno`, every run of line breaks
/// turned into `"; "`, every run of whitespace into one space, and the result
/// trimmed.
pub open spec fn celda_limpia(c: Option<Seq<char>>, relleno: Seq<char>) -> Seq<char> {
    let t = match c {
        Some(x) => x,
        None => relleno,
    };
    let a = reemplazo_regex(ClaseRegex::Saltos, t, seq![';', ' ']);
    let b = reemplazo_regex(ClaseRegex::Blancos, a, seq![' ']);
    recortado(b, Criterio::Blancos)
}

/// Cleans one text cell (see `celda_limpia`).
pub fn limpiar_celda(c: &Option<String>, relleno: &Vec<char>) -> (r: Vec<char>)
    ensures
        r@ == celda_limpia(vista_celda(*c), relleno@),
{
    let rel = cadena_de(relleno);
    let t: &str = match c {
        Some(s) => s.as_str(),
        None => rel.as_str(),
    };
    proof {
        reveal_strlit("[\\r\\n]+");
        reveal_strlit("; ");
        reveal_strlit("\\s+");
        reveal_strlit(" ");
        assert("[\\r\\n]+"@ == patron_de(ClaseRegex::Saltos));
        assert("\\s+"@ == patron_de(ClaseRegex::Blancos));
        assert("; "@ == seq![';', ' ']);
        assert(" "@ == seq![' ']);
    }
    let a = reemplazar_regex("[\\r\\n]+", t, "; ");
    let b = reemplazar_regex("\\s+", a.as_str(), " ");
    let v = chars_de(b.as_str());
    recortar(&v, Criterio::Blancos)
}

/// Cleans every cell of a column as text, null cells becoming `relleno`.
pub fn texto_limpio(celdas: &Vec<Option<String>>, relleno: &str) -> (r: Vec<String>)
    ensures
        r.len() == celdas.len(),
        forall|i: int|
            0 <= i < r.len() ==> (#[trigger] r@[i])@ == celda_limpia(
                vista_celda(celdas@[i]),
                relleno@,
            ),
{
    let rel = chars_de(relleno);
    let mut r: Vec<String> = Vec::new();
    let mut i: usize = 0;
    while i < celdas.len()
        invariant
            i <= celdas.len(),
            rel@ == relleno@,
            r.len() == i,
            forall|j: int|
                0 <= j < i ==> (#[trigger] r@[j])@ == celda_limpia(
                    vista_celda(celdas@[j]),
                    relleno@,
                ),
        decreases celdas.len() - i,
    {
        let v = limpiar_celda(&celdas[i], &rel);
        r.push(cadena_de(&v));
        i += 1;
    }
    r
}

/// The non-empty pieces of `ps`, in order.
pub open spec fn no_vacias(ps: Seq<Seq<char>>) -> Seq<Seq<char>>
    decreases ps.len(),
{
    if ps.len() == 0 {
        seq![]
    } else if ps.last().len() > 0 {
        no_vacias(ps.drop_last()).push(ps.last())
    } else {
        no_vacias(ps.drop_last())
    }
}

/// The words of `s` (`str::split_whitespace`).
pub open spec fn palabras(s: Seq<char>) -> Seq<Seq<char>> {
    no_vacias(dividido(s, Criterio::Blancos))
}

/// A word in lower case with its first character in upper case.
pub open spec fn capitalizado(w: Seq<char>) -> Seq<char> {
    let t = en_minusculas(w);
    if t.len() == 0 {
        seq![]
    } else {
        en_mayusculas(t[0]) + t.drop_first()
    }
}

pub open spec fn capitalizadas(ps: Seq<Seq<char>>) -> Seq<Seq<char>>
    decreases ps.len(),
{
    if ps.len() == 0 {
        seq![]
    } else {
        capitalizadas(ps.drop_last()).push(capitalizado(ps.last()))
    }
}

/// A text in title case: every word capitalised, words joined by one space,
/// and the articles, prepositions and conjunctions `de`, `del`, `y`, `el`,
/// `la`, `a`, `en` kept in lower case between words.
pub open spec fn titulo(s: Seq<char>) -> Seq<char> {
    let j = unido(capitalizadas(palabras(s)), seq![' ']);
    let r1 = reemplazado(j, seq![' ', 'D', 'e', ' '], seq![' ', 'd', 'e', ' ']);
    let r2 = reemplazado(r1, seq![' ', 'D', 'e', 'l', ' '], seq![' ', 'd', 'e', 'l', ' ']);
    let r3 = reemplazado(r2, seq![' ', 'Y', ' '], seq![' ', 'y', ' ']);
    let r4 = reemplazado(r3, seq![' ', 'E', 'l', ' '], seq![' ', 'e', 'l', ' ']);
    let r5 = reemplazado(r4, seq![' ', 'L', 'a', ' '], seq![' ', 'l', 'a', ' ']);
    let r6 = reemplazado(r5, seq![' ', 'A', ' '], seq![' ', 'a', ' ']);
    reemplazado(r6, seq![' ', 'E', 'n', ' '], seq![' ', 'e', 'n', ' '])
}

/// The articles, prepositions and conjunctions that title case keeps in
/// lower case between words, each with its lower-case form.
pub open spec fn articulos_en_minuscula() -> Seq<(Seq<char>, Seq<char>)> {
    seq![
        (seq![' ', 'D', 'e', ' '], seq![' ', 'd', 'e', ' ']),
        (seq![' ', 'D', 'e', 'l', ' '], seq![' ', 'd', 'e', 'l', ' ']),
        (seq![' ', 'Y', ' '], seq![' ', 'y', ' ']),
        (seq![' ', 'E', 'l', ' '], seq![' ', 'e', 'l', ' ']),
        (seq![' ', 'L', 'a', ' '], seq![' ', 'l', 'a', ' ']),
        (seq![' ', 'A', ' '], seq![' ', 'a', ' ']),
        (seq![' ', 'E', 'n', ' '], seq![' ', 'e', 'n', ' ']),
    ]
}

/// The replacements of `l` applied to `s`, in order.
pub open spec fn con_reemplazos(s: Seq<char>, l: Seq<(Seq<char>, Seq<char>)>) -> Seq<char>
    decreases l.len(),
{
    if l.len() == 0 {
        s
    } else {
        con_reemplazos(reemplazado(s, l[0].0, l[0].1), l.drop_first())
    }
}

/// Title case capitalises every word, joins the words with one space, and
/// then turns each of ` De `, ` Del `, ` Y `, ` El `, ` La `, ` A `, ` En `
/// into lower case, in that order.
pub proof fn lema_titulo(s: Seq<char>)
    ensures
        titulo(s) == con_reemplazos(unido(capitalizadas(palabras(s)), seq![' ']), articulos_en_minuscula()),
{
    let l = articulos_en_minuscula();
    let l0 = l.skip(0);
    let l1 = l.skip(1);
    let l2 = l.skip(2);
    let l3 = l.skip(3);
    let l4 = l.skip(4);
    let l5 = l.skip(5);
    let l6 = l.skip(6);
    let l7 = l.skip(7);
    assert(l0 =~= l);
    assert(l0.len() > 0 && l0[0] == (seq![' ', 'D', 'e', ' '], seq![' ', 'd', 'e', ' ']) && l0.drop_first() =~= l1);
    assert(l1.len() > 0 && l1[0] == (seq![' ', 'D', 'e', 'l', ' '], seq![' ', 'd', 'e', 'l', ' ']) && l1.drop_first() =~= l2);
    assert(l2.len() > 0 && l2[0] == (seq![' ', 'Y', ' '], seq![' ', 'y', ' ']) && l2.drop_first() =~= l3);
    assert(l3.len() > 0 && l3[0] == (seq![' ', 'E', 'l', ' '], seq![' ', 'e', 'l', ' ']) && l3.drop_first() =~= l4);
    assert(l4.len() > 0 && l4[0] == (seq![' ', 'L', 'a', ' '], seq![' ', 'l', 'a', ' ']) && l4.drop_first() =~= l5);
    assert(l5.len() > 0 && l5[0] == (seq![' ', 'A', ' '], seq![' ', 'a', ' ']) && l5.drop_first() =~= l6);
    assert(l6.len() > 0 && l6[0] == (seq![' ', 'E', 'n', ' '], seq![' ', 'e', 'n', ' ']) && l6.drop_first() =~= l7);
    assert(l7.len() == 0);
    let j = unido(capitalizadas(palabras(s)), seq![' ']);
    let r1 = reemplazado(j, l0[0].0, l0[0].1);
    let r2 = reemplazado(r1, l1[0].0, l1[0].1);
    let r3 = reemplazado(r2, l2[0].0, l2[0].1);
    let r4 = reemplazado(r3, l3[0].0, l3[0].1);
    let r5 = reemplazado(r4, l4[0].0, l4[0].1);
    let r6 = reemplazado(r5, l5[0].0, l5[0].1);
    let r7 = reemplazado(r6, l6[0].0, l6[0].1);
    assert(con_reemplazos(r7, l7) == r7);
    assert(con_reemplazos(r6, l6) == con_reemplazos(r7, l7));
    assert(con_reemplazos(r5, l5) == con_reemplazos(r6, l6));
    assert(con_reemplazos(r4, l4) == con_reemplazos(r5, l5));
    assert(con_reemplazos(r3, l3) == con_reemplazos(r4, l4));
    assert(con_reemplazos(r2, l2) == con_reemplazos(r3, l3));
    assert(con_reemplazos(r1, l1) == con_reemplazos(r2, l2));
    assert(con_reemplazos(j, l0) == con_reemplazos(r1, l1));
}

/// The texts that stand for a missing value in numeric and date columns.
pub open spec fn es_nulo(t: Seq<char>) -> bool {
    ||| t == Seq::<char>::empty()
    ||| t == seq!['-']
    ||| t == seq![' ']
    ||| t == seq!['N', 'a', 'T']
    ||| t == seq!['N', 'A']
    ||| t == seq!['N', '/', 'A']
    ||| t == seq!['N', 'D']
    ||| t == seq!['n', 'd']
    ||| t == seq!['*']
    ||| t == seq!['n', 'a']
    ||| t == seq!['n', 'a', 'n']
    ||| t == seq!['n', 'u', 'l', 'l']
    ||| t == seq!['N', 'o', 'n', 'e']
}

/// Lowercases a word and uppercases its first character.
pub fn capitalize(word: &str) -> (r: String)
    ensures
        r@ == capitalizado(word@),
{
    let temp = minusculas(word);
    let t = chars_de(temp.as_str());
    if t.len() == 0 {
        String::new()
    } else {
        let primera = mayusculas(t[0]);
        let mut r = chars_de(primera.as_str());
        let resto = crate::texto::subrango(&t, 1, t.len());
        assert(resto@ == t@.drop_first());
        extender(&mut r, &resto);
        cadena_de(&r)
    }
}

fn quitar_vacias(ps: &Vec<Vec<char>>) -> (r: Vec<Vec<char>>)
    ensures
        vistas(r@) == no_vacias(vistas(ps@)),
{
    let mut r: Vec<Vec<char>> = Vec::new();
    let mut i: usize = 0;
    while i < ps.len()
        invariant
            i <= ps.len(),
            vistas(r@) == no_vacias(vistas(ps@).take(i as int)),
        decreases ps.len() - i,
    {
        let ghost t = vistas(ps@).take(i + 1);
        assert(t.drop_last() == vistas(ps@).take(i as int));
        assert(t.last() == ps@[i as int]@);
        if ps[i].len() > 0 {
            let ghost antes = r@;
            let copia = crate::nombres::copiar(&ps[i]);
            r.push(copia);
            assert(vistas(r@) == vistas(antes).push(copia@));
        }
        i += 1;
    }
    assert(vistas(ps@).take(ps.len() as int) == vistas(ps@));
    r
}

fn capitalizar_palabras(ps: &Vec<Vec<char>>) -> (r: Vec<Vec<char>>)
    ensures
        vistas(r@) == capitalizadas(vistas(ps@)),
{
    let mut r: Vec<Vec<char>> = Vec::new();
    let mut i: usize = 0;
    while i < ps.len()
        invariant
            i <= ps.len(),
            vistas(r@) == capitalizadas(vistas(ps@).take(i as int)),
        decreases ps.len() - i,
    {
        let ghost t = vistas(ps@).take(i + 1);
        assert(t.drop_last() == vistas(ps@).take(i as int));
        assert(t.last() == ps@[i as int]@);
        let w = cadena_de(&ps[i]);
        let cw = capitalize(w.as_str());
        let v = chars_de(cw.as_str());
        let ghost antes = r@;
        r.push(v);
        assert(vistas(r@) == vistas(antes).push(v@));
        i += 1;
    }
    assert(vistas(ps@).take(ps.len() as int) == vistas(ps@));
    r
}

fn reemplazar_literal(s: &Vec<char>, p: &Vec<char>, r: &Vec<char>) -> (res: Vec<char>)
    requires
        p.len() > 0,
    ensures
        res@ == reemplazado(s@, p@, r@),
{
    reemplazar(s, p, r)
}

/// Title case of a text (see `titulo`).
pub fn en_titulo(s: &Vec<char>) -> (r: Vec<char>)
    ensures
        r@ == titulo(s@),
{
    let partes = dividir(s, Criterio::Blancos);
    let ps = quitar_vacias(&partes);
    let cs = capitalizar_palabras(&ps);
    let espacio = vec![' '];
    assert(espacio@ == seq![' ']);
    let j = unir(&cs, &espacio);
    let p1 = vec![' ', 'D', 'e', ' '];
    let q1 = vec![' ', 'd', 'e', ' '];
    let p2 = vec![' ', 'D', 'e', 'l', ' '];
    let q2 = vec![' ', 'd', 'e', 'l', ' '];
    let p3 = vec![' ', 'Y', ' '];
    let q3 = vec![' ', 'y', ' '];
    let p4 = vec![' ', 'E', 'l', ' '];
    let q4 = vec![' ', 'e', 'l', ' '];
    let p5 = vec![' ', 'L', 'a', ' '];
    let q5 = vec![' ', 'l', 'a', ' '];
    let p6 = vec![' ', 'A', ' '];
    let q6 = vec![' ', 'a', ' '];
    let p7 = vec![' ', 'E', 'n', ' '];
    let q7 = vec![' ', 'e', 'n', ' '];
    assert(p1@ == seq![' ', 'D', 'e', ' '] && q1@ == seq![' ', 'd', 'e', ' ']);
    assert(p2@ == seq![' ', 'D', 'e', 'l', ' '] && q2@ == seq![' ', 'd', 'e', 'l', ' ']);
    assert(p3@ == seq![' ', 'Y', ' '] && q3@ == seq![' ', 'y', ' ']);
    assert(p4@ == seq![' ', 'E', 'l', ' '] && q4@ == seq![' ', 'e', 'l', ' ']);
    assert(p5@ == seq![' ', 'L', 'a', ' '] && q5@ == seq![' ', 'l', 'a', ' ']);
    assert(p6@ == seq![' ', 'A', ' '] && q6@ == seq![' ', 'a', ' ']);
    assert(p7@ == seq![' ', 'E', 'n', ' '] && q7@ == seq![' ', 'e', 'n', ' ']);
    let r1 = reemplazar_literal(&j, &p1, &q1);
    let r2 = reemplazar_literal(&r1, &p2, &q2);
    let r3 = reemplazar_literal(&r2, &p3, &q3);
    let r4 = reemplazar_literal(&r3, &p4, &q4);
    let r5 = reemplazar_literal(&r4, &p5, &q5);
    let r6 = reemplazar_literal(&r5, &p6, &q6);
    reemplazar_literal(&r6, &p7, &q7)
}

/// Whether a cleaned text stands for a missing value.
pub fn es_texto_nulo(t: &Vec<char>) -> (r: bool)
    ensures
        r == es_nulo(t@),
{
    let n = t.len();
    let r = n == 0 || (n == 1 && (t[0] == '-' || t[0] == ' ' || t[0] == '*')) || (n == 2 && (
    (t[0] == 'N' && t[1] == 'A') || (t[0] == 'N' && t[1] == 'D') || (t[0] == 'n' && t[1] == 'd')
        || (t[0] == 'n' && t[1] == 'a'))) || (n == 3 && ((t[0] == 'N' && t[1] == 'a' && t[2]
        == 'T') || (t[0] == 'N' && t[1] == '/' && t[2] == 'A') || (t[0] == 'n' && t[1] == 'a'
        && t[2] == 'n'))) || (n == 4 && ((t[0] == 'n' && t[1] == 'u' && t[2] == 'l' && t[3]
        == 'l') || (t[0] == 'N' && t[1] == 'o' && t[2] == 'n' && t[3] == 'e')));
    proof {
        if r {
            if n == 0 {
                assert(t@ =~= Seq::<char>::empty());
            } else if n == 1 {
                assert(t@ =~= seq![t@[0]]);
            } else if n == 2 {
                assert(t@ =~= seq![t@[0], t@[1]]);
            } else if n == 3 {
                assert(t@ =~= seq![t@[0], t@[1], t@[2]]);
            } else {
                assert(t@ =~= seq![t@[0], t@[1], t@[2], t@[3]]);
            }
        }
    }
    r
}

/// The rule applied to each cell of a column.
#[derive(Clone, Copy, PartialEq, Eq, Debug)]
pub enum Regla {
    Texto,
    Minusculas,
    SinGuiones,
    Capitalizado,
    Anonimizado,
    Numerica,
    Coordenada,
    Fecha,
}

/// What each rule makes of one cell.
pub open spec fn celda_transformada(regla: Regla, c: Option<Seq<char>>) -> Option<Seq<char>> {
    let limpia = celda_limpia(c, sin_dato());
    let recorte = recortado(
        match c {
            Some(x) => x,
            None => Seq::<char>::empty(),
        },
        Criterio::Blancos,
    );
    match regla {
        Regla::Texto => Some(limpia),
        Regla::Minusculas => Some(en_minusculas(limpia)),
        Regla::SinGuiones => Some(reemplazado(limpia, seq!['_'], seq![' '])),
        Regla::Capitalizado => Some(titulo(limpia)),
        Regla::Anonimizado => Some(
            if limpia == sin_dato() {
                sin_dato()
            } else {
                hex_minusculas(digesto_sha256(vstd::utf8::encode_utf8(limpia)))
            },
        ),
        Regla::Numerica => {
            let sin_moneda = reemplazo_regex(ClaseRegex::Moneda, recorte, Seq::<char>::empty());
            let sin_comas = reemplazado(sin_moneda, seq![','], Seq::<char>::empty());
            if es_nulo(sin_comas) {
                None
            } else {
                Some(sin_comas)
            }
        },
        Regla::Coordenada => {
            if es_nulo(recorte) {
                Some(seq!['0', '.', '0'])
            } else {
                Some(recorte)
            }
        },
        Regla::Fecha => {
            if es_nulo(recorte) {
                None
            } else {
                Some(recorte)
            }
        },
    }
}

fn transformar_celda(regla: Regla, c: &Option<String>) -> (r: Option<String>)
    ensures
        vista_celda(r) == celda_transformada(regla, vista_celda(*c)),
{
    match regla {
        Regla::Numerica | Regla::Coordenada | Regla::Fecha => {
            let vacio = String::new();
            let t: &str = match c {
                Some(s) => s.as_str(),
                None => vacio.as_str(),
            };
            let v = chars_de(t);
            let recorte = recortar(&v, Criterio::Blancos);
            match regla {
                Regla::Numerica => {
                    let rec = cadena_de(&recorte);
                    proof {
                        reveal_strlit("[$\u{20AC}]");
                        reveal_strlit("");
                        assert("[$\u{20AC}]"@ == patron_de(ClaseRegex::Moneda));
                        assert(""@ == Seq::<char>::empty());
                    }
                    let a = reemplazar_regex("[$\u{20AC}]", rec.as_str(), "");
                    let av = chars_de(a.as_str());
                    let coma = vec![','];
                    let nada: Vec<char> = Vec::new();
                    assert(coma@ == seq![',']);
                    let b = reemplazar(&av, &coma, &nada);
                    if es_texto_nulo(&b) {
                        None
                    } else {
                        Some(cadena_de(&b))
                    }
                },
                Regla::Coordenada => {
                    if es_texto_nulo(&recorte) {
                        let cero = vec!['0', '.', '0'];
                        assert(cero@ == seq!['0', '.', '0']);
                        Some(cadena_de(&cero))
                    } else {
                        Some(cadena_de(&recorte))
                    }
                },
                _ => {
                    if es_texto_nulo(&recorte) {
                        None
                    } else {
                        Some(cadena_de(&recorte))
                    }
                },
            }
        },
        _ => {
            let relleno = texto_sin_dato();
            let limpia = limpiar_celda(c, &relleno);
            match regla {
                Regla::Texto => Some(cadena_de(&limpia)),
                Regla::Minusculas => {
                    let t = cadena_de(&limpia);
                    Some(minusculas(t.as_str()))
                },
                Regla::SinGuiones => {
                    let guion = vec!['_'];
                    let espacio = vec![' '];
                    assert(guion@ == seq!['_'] && espacio@ == seq![' ']);
                    Some(cadena_de(&reemplazar(&limpia, &guion, &espacio)))
                },
                Regla::Capitalizado => Some(cadena_de(&en_titulo(&limpia))),
                _ => {
                    if crate::nombres::iguales(&limpia, &relleno) {
                        Some(cadena_de(&relleno))
                    } else {
                        let t = cadena_de(&limpia);
                        let digesto = sha256(t.as_str().as_bytes());
                        Some(codificar_hex(digesto.as_slice()))
                    }
                },
            }
        },
    }
}

/// Applies a rule to every cell of a column.
pub fn transformar_celdas(celdas: &Vec<Option<String>>, regla: Regla) -> (r: Vec<Option<String>>)
    ensures
        r.len() == celdas.len(),
        forall|i: int|
            0 <= i < r.len() ==> vista_celda(#[trigger] r@[i]) == celda_transformada(
                regla,
                vista_celda(celdas@[i]),
            ),
{
    let mut r: Vec<Option<String>> = Vec::new();
    let mut i: usize = 0;
    while i < celdas.len()
        invariant
            i <= celdas.len(),
            r.len() == i,
            forall|j: int|
                0 <= j < i ==> vista_celda(#[trigger] r@[j]) == celda_transformada(
                    regla,
                    vista_celda(celdas@[j]),
                ),
        decreases celdas.len() - i,
    {
        r.push(transformar_celda(regla, &celdas[i]));
        i += 1;
    }
    r
}

/// Text cleaning of a column (`sin dato` for null cells).
pub fn transformar_texto(celdas: &Vec<Option<String>>) -> (r: Vec<Option<String>>)
    ensures
        r.len() == celdas.len(),
        forall|i: int|
            0 <= i < r.len() ==> vista_celda(#[trigger] r@[i]) == celda_transformada(
                Regla::Texto,
                vista_celda(celdas@[i]),
            ),
{
    transformar_celdas(celdas, Regla::Texto)
}

/// Cleaned text in lower case.
pub fn texto_minusculas(celdas: &Vec<Option<String>>) -> (r: Vec<Option<String>>)
    ensures
        r.len() == celdas.len(),
        forall|i: int|
            0 <= i < r.len() ==> vista_celda(#[trigger] r@[i]) == celda_transformada(
                Regla::Minusculas,
                vista_celda(celdas@[i]),
            ),
{
    transformar_celdas(celdas, Regla::Minusculas)
}

/// Cleaned text with underscores turned into spaces.
pub fn texto_sin_guiones(celdas: &Vec<Option<String>>) -> (r: Vec<Option<String>>)
    ensures
        r.len() == celdas.len(),
        forall|i: int|
            0 <= i < r.len() ==> vista_celda(#[trigger] r@[i]) == celda_transformada(
                Regla::SinGuiones,
                vista_celda(celdas@[i]),
            ),
{
    transformar_celdas(celdas, Regla::SinGuiones)
}

/// Cleaned text in title case.
pub fn texto_capitalizado(celdas: &Vec<Option<String>>) -> (r: Vec<Option<String>>)
    ensures
        r.len() == celdas.len(),
        forall|i: int|
            0 <= i < r.len() ==> vista_celda(#[trigger] r@[i]) == celda_transformada(
                Regla::Capitalizado,
                vista_celda(celdas@[i]),
            ),
{
    transformar_celdas(celdas, Regla::Capitalizado)
}

/// Cleaned text replaced by the lower-case hexadecimal SHA-256 digest of its UTF-8 bytes; `sin dato` is kept.
pub fn anonimizar(celdas: &Vec<Option<String>>) -> (r: Vec<Option<String>>)
    ensures
        r.len() == celdas.len(),
        forall|i: int|
            0 <= i < r.len() ==> vista_celda(#[trigger] r@[i]) == celda_transformada(
                Regla::Anonimizado,
                vista_celda(celdas@[i]),
            ),
{
    transformar_celdas(celdas, Regla::Anonimizado)
}

/// Trimmed text without currency signs and commas; missing values become null.
pub fn limpiar_numericas(celdas: &Vec<Option<String>>) -> (r: Vec<Option<String>>)
    ensures
        r.len() == celdas.len(),
        forall|i: int|
            0 <= i < r.len() ==> vista_celda(#[trigger] r@[i]) == celda_transformada(
                Regla::Numerica,
                vista_celda(celdas@[i]),
            ),
{
    transformar_celdas(celdas, Regla::Numerica)
}

/// Trimmed text; missing values become `0.0`.
pub fn limpiar_coordenadas(celdas: &Vec<Option<String>>) -> (r: Vec<Option<String>>)
    ensures
        r.len() == celdas.len(),
        forall|i: int|
            0 <= i < r.len() ==> vista_celda(#[trigger] r@[i]) == celda_transformada(
                Regla::Coordenada,
                vista_celda(celdas@[i]),
            ),
{
    transformar_celdas(celdas, Regla::Coordenada)
}

/// Trimmed text; missing values become null.
pub fn limpiar_fechas(celdas: &Vec<Option<String>>) -> (r: Vec<Option<String>>)
    ensures
        r.len() == celdas.len(),
        forall|i: int|
            0 <= i < r.len() ==> vista_celda(#[trigger] r@[i]) == celda_transformada(
                Regla::Fecha,
                vista_celda(celdas@[i]),
            ),
{
    transformar_celdas(celdas, Regla::Fecha)
}

/// The texts that the validator takes for a missing value.
pub open spec fn valores_faltantes() -> Seq<Seq<char>> {
    seq![
        Seq::<char>::empty(),
        seq!['-'],
        seq![' '],
        seq!['N', 'a', 'T'],
        seq!['N', 'A'],
        seq!['N', '/', 'A'],
        seq!['N', 'D'],
        seq!['n', 'd'],
        seq!['*'],
        seq!['n', 'a'],
        seq!['n', 'a', 'n'],
        seq!['n', 'u', 'l', 'l'],
        seq!['N', 'o', 'n', 'e'],
    ]
}

proof fn lema_sin_coma(s: Seq<char>)
    requires
        forall|j: int| 0 <= j < s.len() ==> s[j] != ',',
    ensures
        reemplazado(s, seq![','], Seq::<char>::empty()) == s,
    decreases s.len(),
{
    if s.len() >= 1 {
        assert(s.take(1) != seq![',']) by {
            assert(s.take(1)[0] == s[0]);
        }
        let t = s.drop_first();
        assert forall|j: int| 0 <= j < t.len() implies t[j] != ',' by {
            assert(t[j] == s[j + 1]);
        }
        lema_sin_coma(t);
        assert(seq![s[0]] + t =~= s);
    }
}

proof fn lema_sin_moneda(s: Seq<char>)
    requires
        forall|j: int| 0 <= j < s.len() ==> !en_clase(ClaseRegex::Moneda, s[j]),
    ensures
        sustituido(s, ClaseRegex::Moneda, Seq::<char>::empty()) == s,
    decreases s.len(),
{
    if s.len() > 0 {
        let t = s.drop_last();
        assert forall|j: int| 0 <= j < t.len() implies !en_clase(ClaseRegex::Moneda, t[j]) by {
            assert(t[j] == s[j]);
        }
        lema_sin_moneda(t);
        assert(!en_clase(ClaseRegex::Moneda, s[s.len() - 1]));
        assert(t.push(s.last()) =~= s);
    }
}

/// A missing value is exactly one of the texts `""`, `-`, a space, `NaT`,
/// `NA`, `N/A`, `ND`, `nd`, `*`, `na`, `nan`, `null` and `None`. A cell whose
/// trimmed text is one of them, or a null cell, becomes null when cleaned as
/// a number or as a date, and `0.0` when cleaned as a coordinate.
pub proof fn lema_valores_faltantes(t: Seq<char>, x: Option<Seq<char>>)
    ensures
        es_nulo(t) <==> valores_faltantes().contains(t),
        (match x {
            Some(v) => valores_faltantes().contains(recortado(v, Criterio::Blancos)),
            None => true,
        }) ==> {
            &&& celda_transformada(Regla::Numerica, x) is None
            &&& celda_transformada(Regla::Fecha, x) is None
            &&& celda_transformada(Regla::Coordenada, x) == Some(seq!['0', '.', '0'])
        },
{
    let l = valores_faltantes();
    assert(l.len() == 13);
    assert(l[0] == Seq::<char>::empty());
    assert(l[1] == seq!['-']);
    assert(l[2] == seq![' ']);
    assert(l[3] == seq!['N', 'a', 'T']);
    assert(l[4] == seq!['N', 'A']);
    assert(l[5] == seq!['N', '/', 'A']);
    assert(l[6] == seq!['N', 'D']);
    assert(l[7] == seq!['n', 'd']);
    assert(l[8] == seq!['*']);
    assert(l[9] == seq!['n', 'a']);
    assert(l[10] == seq!['n', 'a', 'n']);
    assert(l[11] == seq!['n', 'u', 'l', 'l']);
    assert(l[12] == seq!['N', 'o', 'n', 'e']);
    assert forall|k: int| 0 <= k < l.len() implies es_nulo(#[trigger] l[k]) by {
        if k == 0 {
            assert(es_nulo(l[0]));
        } else if k == 1 {
            assert(es_nulo(l[1]));
        } else if k == 2 {
            assert(es_nulo(l[2]));
        } else if k == 3 {
            assert(es_nulo(l[3]));
        } else if k == 4 {
            assert(es_nulo(l[4]));
        } else if k == 5 {
            assert(es_nulo(l[5]));
        } else if k == 6 {
            assert(es_nulo(l[6]));
        } else if k == 7 {
            assert(es_nulo(l[7]));
        } else if k == 8 {
            assert(es_nulo(l[8]));
        } else if k == 9 {
            assert(es_nulo(l[9]));
        } else if k == 10 {
            assert(es_nulo(l[10]));
        } else if k == 11 {
            assert(es_nulo(l[11]));
        } else if k == 12 {
            assert(es_nulo(l[12]));
        }
    }
    if es_nulo(t) {
        if t == Seq::<char>::empty() {
            assert(l[0] == t);
        }
        if t == seq!['-'] {
            assert(l[1] == t);
        }
        if t == seq![' '] {
            assert(l[2] == t);
        }
        if t == seq!['N', 'a', 'T'] {
            assert(l[3] == t);
        }
        if t == seq!['N', 'A'] {
            assert(l[4] == t);
        }
        if t == seq!['N', '/', 'A'] {
            assert(l[5] == t);
        }
        if t == seq!['N', 'D'] {
            assert(l[6] == t);
        }
        if t == seq!['n', 'd'] {
            assert(l[7] == t);
        }
        if t == seq!['*'] {
            assert(l[8] == t);
        }
        if t == seq!['n', 'a'] {
            assert(l[9] == t);
        }
        if t == seq!['n', 'a', 'n'] {
            assert(l[10] == t);
        }
        if t == seq!['n', 'u', 'l', 'l'] {
            assert(l[11] == t);
        }
        if t == seq!['N', 'o', 'n', 'e'] {
            assert(l[12] == t);
        }
    }
    if l.contains(t) {
        let k = choose|k: int| 0 <= k < l.len() && l[k] == t;
        assert(es_nulo(l[k]));
    }
    let r = recortado(
        match x {
            Some(v) => v,
            None => Seq::<char>::empty(),
        },
        Criterio::Blancos,
    );
    let cond = match x {
        Some(v) => l.contains(recortado(v, Criterio::Blancos)),
        None => true,
    };
    if cond {
        if x is None {
            assert(r == Seq::<char>::empty());
            assert(l[0] == r);
        }
        assert(l.contains(r));
        let k = choose|k: int| 0 <= k < l.len() && l[k] == r;
        assert(es_nulo(l[k]));
        assert(forall|j: int| 0 <= j < r.len() ==> r[j] != ',' && !en_clase(ClaseRegex::Moneda, r[j])) by {
            if k == 0 {
                assert(r.len() == 0);
            } else if k == 1 {
                assert(r == seq!['-']);
                assert forall|j: int| 0 <= j < r.len() implies r[j] != ',' && !en_clase(ClaseRegex::Moneda, r[j]) by {
                    if j == 0 {
                        assert(r[0] == '-');
                    }
                }
            } else if k == 2 {
                assert(r == seq![' ']);
                assert forall|j: int| 0 <= j < r.len() implies r[j] != ',' && !en_clase(ClaseRegex::Moneda, r[j]) by {
                    if j == 0 {
                        assert(r[0] == ' ');
                    }
                }
            } else if k == 3 {
                assert(r == seq!['N', 'a', 'T']);
                assert forall|j: int| 0 <= j < r.len() implies r[j] != ',' && !en_clase(ClaseRegex::Moneda, r[j]) by {
                    if j == 0 {
                        assert(r[0] == 'N');
                    } else if j == 1 {
                        assert(r[1] == 'a');
                    } else if j == 2 {
                        assert(r[2] == 'T');
                    }
                }
            } else if k == 4 {
                assert(r == seq!['N', 'A']);
                assert forall|j: int| 0 <= j < r.len() implies r[j] != ',' && !en_clase(ClaseRegex::Moneda, r[j]) by {
                    if j == 0 {
                        assert(r[0] == 'N');
                    } else if j == 1 {
                        assert(r[1] == 'A');
                    }
                }
            } else if k == 5 {
                assert(r == seq!['N', '/', 'A']);
                assert forall|j: int| 0 <= j < r.len() implies r[j] != ',' && !en_clase(ClaseRegex::Moneda, r[j]) by {
                    if j == 0 {
                        assert(r[0] == 'N');
                    } else if j == 1 {
                        assert(r[1] == '/');
                    } else if j == 2 {
                        assert(r[2] == 'A');
                    }
                }
            } else if k == 6 {
                assert(r == seq!['N', 'D']);
                assert forall|j: int| 0 <= j < r.len() implies r[j] != ',' && !en_clase(ClaseRegex::Moneda, r[j]) by {
                    if j == 0 {
                        assert(r[0] == 'N');
                    } else if j == 1 {
                        assert(r[1] == 'D');
                    }
                }
            } else if k == 7 {
                assert(r == seq!['n', 'd']);
                assert forall|j: int| 0 <= j < r.len() implies r[j] != ',' && !en_clase(ClaseRegex::Moneda, r[j]) by {
                    if j == 0 {
                        assert(r[0] == 'n');
                    } else if j == 1 {
                        assert(r[1] == 'd');
                    }
                }
            } else if k == 8 {
                assert(r == seq!['*']);
                assert forall|j: int| 0 <= j < r.len() implies r[j] != ',' && !en_clase(ClaseRegex::Moneda, r[j]) by {
                    if j == 0 {
                        assert(r[0] == '*');
                    }
                }
            } else if k == 9 {
                assert(r == seq!['n', 'a']);
                assert forall|j: int| 0 <= j < r.len() implies r[j] != ',' && !en_clase(ClaseRegex::Moneda, r[j]) by {
                    if j == 0 {
                        assert(r[0] == 'n');
                    } else if j == 1 {
                        assert(r[1] == 'a');
                    }
                }
            } else if k == 10 {
                assert(r == seq!['n', 'a', 'n']);
                assert forall|j: int| 0 <= j < r.len() implies r[j] != ',' && !en_clase(ClaseRegex::Moneda, r[j]) by {
                    if j == 0 {
                        assert(r[0] == 'n');
                    } else if j == 1 {
                        assert(r[1] == 'a');
                    } else if j == 2 {
                        assert(r[2] == 'n');
                    }
                }
            } else if k == 11 {
                assert(r == seq!['n', 'u', 'l', 'l']);
                assert forall|j: int| 0 <= j < r.len() implies r[j] != ',' && !en_clase(ClaseRegex::Moneda, r[j]) by {
                    if j == 0 {
                        assert(r[0] == 'n');
                    } else if j == 1 {
                        assert(r[1] == 'u');
                    } else if j == 2 {
                        assert(r[2] == 'l');
                    } else if j == 3 {
                        assert(r[3] == 'l');
                    }
                }
            } else if k == 12 {
                assert(r == seq!['N', 'o', 'n', 'e']);
                assert forall|j: int| 0 <= j < r.len() implies r[j] != ',' && !en_clase(ClaseRegex::Moneda, r[j]) by {
                    if j == 0 {
                        assert(r[0] == 'N');
                    } else if j == 1 {
                        assert(r[1] == 'o');
                    } else if j == 2 {
                        assert(r[2] == 'n');
                    } else if j == 3 {
                        assert(r[3] == 'e');
                    }
                }
            }
        }
        lema_sin_moneda(r);
        lema_sin_coma(r);
    }
}

} // verus!
