use vstd::prelude::*;

use crate::texto::{cadena_de, chars_de};

verus! {

/// Characters that are always accepted in Spanish data files: ASCII letters
/// and digits, ASCII whitespace and basic punctuation.
pub open spec fn es_caracter_normal(c: char) -> bool {
    ||| ('a' <= c && c <= 'z')
    ||| ('A' <= c && c <= 'Z')
    ||| ('0' <= c && c <= '9')
    ||| c == ' ' || c == '\t' || c == '\n' || c == '\x0C' || c == '\r'
    ||| c == '.' || c == ',' || c == ';' || c == ':' || c == '(' || c == ')'
    ||| c == '"' || c == '\'' || c == '\u{BF}' || c == '?' || c == '\u{A1}'
    ||| c == '!' || c == '-' || c == '_' || c == '/'
}

/// Characters outside the normal set that are typical of Spanish text:
/// accented vowels, eñe, diaeresis, typographic quotes and a few symbols.
pub open spec fn es_caracter_tipico(c: char) -> bool {
    ||| c == '\u{E1}' || c == '\u{E9}' || c == '\u{ED}' || c == '\u{F3}' || c == '\u{FA}'
    ||| c == '\u{C1}' || c == '\u{C9}' || c == '\u{CD}' || c == '\u{D3}' || c == '\u{DA}'
    ||| c == '\u{F1}' || c == '\u{D1}' || c == '\u{FC}' || c == '\u{DC}'
    ||| c == '\u{201C}' || c == '\u{201D}' || c == '"' || c == '%'
    ||| c == '\u{B0}' || c == '\u{BA}' || c == '\u{AA}' || c == '\u{20AC}' || c == '$'
}

/// A character is corrupt when it is the replacement character, a control
/// character other than tab, line feed and carriage return, the delete
/// character, or neither normal nor typical.
pub open spec fn caracter_corrupto(c: char) -> bool {
    ||| c == '\u{FFFD}'
    ||| ((c as u32) < 32 && (c as u32) != 9 && (c as u32) != 10 && (c as u32) != 13)
    ||| (c as u32) == 127
    ||| (!es_caracter_normal(c) && !es_caracter_tipico(c))
}

/// Decides whether `c` is a corrupt character (mojibake, control character,
/// replacement character).
pub fn es_caracter_corrupto(c: char) -> (r: bool)
    ensures
        r == caracter_corrupto(c),
{
    let code = c as u32;
    if c == '\u{FFFD}' {
        return true;
    }
    if code < 32 && code != 9 && code != 10 && code != 13 {
        return true;
    }
    if code == 127 {
        return true;
    }
    let es_normal = ('a' <= c && c <= 'z') || ('A' <= c && c <= 'Z') || ('0' <= c && c <= '9')
        || c == ' ' || c == '\t' || c == '\n' || c == '\x0C' || c == '\r' || c == '.' || c == ','
        || c == ';' || c == ':' || c == '(' || c == ')' || c == '"' || c == '\''
        || c == '\u{BF}' || c == '?' || c == '\u{A1}' || c == '!' || c == '-' || c == '_'
        || c == '/';
    if !es_normal {
        let es_tipico = c == '\u{E1}' || c == '\u{E9}' || c == '\u{ED}' || c == '\u{F3}'
            || c == '\u{FA}' || c == '\u{C1}' || c == '\u{C9}' || c == '\u{CD}' || c == '\u{D3}'
            || c == '\u{DA}' || c == '\u{F1}' || c == '\u{D1}' || c == '\u{FC}' || c == '\u{DC}'
            || c == '\u{201C}' || c == '\u{201D}' || c == '"' || c == '%' || c == '\u{B0}'
            || c == '\u{BA}' || c == '\u{AA}' || c == '\u{20AC}' || c == '$';
        return !es_tipico;
    }
    false
}

/// The number of line feeds among the first `i` characters of `t`.
pub open spec fn saltos(t: Seq<char>, i: int) -> nat
    decreases i,
{
    if i <= 0 {
        0
    } else {
        saltos(t, i - 1) + if t[i - 1] == '\n' { 1nat } else { 0nat }
    }
}

/// The (1-based) line of the text on which the character at position `p`
/// stands, as `str::lines` numbers them.
pub open spec fn fila_de(t: Seq<char>, p: int) -> int {
    1 + saltos(t, p) as int
}

/// `c` occurs on line `f` among the first `hasta` characters of `t`.
pub open spec fn aparece_en_fila(t: Seq<char>, c: char, f: int, hasta: int) -> bool {
    exists|p: int| 0 <= p < hasta && p < t.len() && #[trigger] t[p] == c && fila_de(t, p) == f
}

/// `caracteres` and `filas` describe exactly the corrupt characters among the
/// first `hasta` characters of `t`: each corrupt character once, in increasing
/// order, with the increasing list of the lines on which it occurs.
pub open spec fn reporte_valido(
    t: Seq<char>,
    caracteres: Seq<char>,
    filas: Seq<Seq<u64>>,
    hasta: int,
) -> bool {
    &&& caracteres.len() == filas.len()
    &&& forall|a: int, b: int|
        0 <= a < b < caracteres.len() ==> (#[trigger] caracteres[a] as u32) < (
        #[trigger] caracteres[b] as u32)
    &&& forall|a: int| 0 <= a < caracteres.len() ==> caracter_corrupto(#[trigger] caracteres[a])
    &&& forall|a: int| 0 <= a < filas.len() ==> (#[trigger] filas[a]).len() > 0
    &&& forall|a: int, x: int, y: int|
        0 <= a < filas.len() && 0 <= x < y < filas[a].len() ==> #[trigger] filas[a][x]
            < #[trigger] filas[a][y]
    &&& forall|a: int, f: u64|
        0 <= a < filas.len() ==> (#[trigger] filas[a].contains(f) <==> aparece_en_fila(
            t,
            caracteres[a],
            f as int,
            hasta,
        ))
    &&& forall|p: int|
        0 <= p < hasta && p < t.len() && caracter_corrupto(#[trigger] t[p])
            ==> caracteres.contains(t[p])
}

/// A corrupt character and the lines of the text on which it occurs.
#[derive(Clone, Debug)]
pub struct CaracterCorrupto {
    pub caracter: String,
    pub filas: Vec<u64>,
}

pub open spec fn caracteres_de(r: Seq<CaracterCorrupto>) -> Seq<char> {
    r.map_values(|x: CaracterCorrupto| x.caracter@[0])
}

pub open spec fn filas_de(r: Seq<CaracterCorrupto>) -> Seq<Seq<u64>> {
    r.map_values(|x: CaracterCorrupto| x.filas@)
}

/// The views of a vector of line lists.
pub open spec fn vistas_filas(v: Seq<Vec<u64>>) -> Seq<Seq<u64>> {
    v.map_values(|x: Vec<u64>| x@)
}

proof fn lema_saltos_cota(t: Seq<char>, i: int)
    requires
        0 <= i,
    ensures
        saltos(t, i) <= i,
    decreases i,
{
    if i > 0 {
        lema_saltos_cota(t, i - 1);
    }
}

proof fn lema_codigo_inyectivo(a: char, b: char)
    ensures
        (a as u32) == (b as u32) ==> a == b,
{
}

/// Position at which `c` stands, or would be inserted, in the increasing
/// sequence `e`.
fn buscar_posicion(e: &Vec<char>, c: char) -> (r: (usize, bool))
    requires
        forall|a: int, b: int| 0 <= a < b < e.len() ==> (#[trigger] e@[a] as u32) < (#[trigger] e@[b] as u32),
    ensures
        r.0 <= e.len(),
        forall|m: int| 0 <= m < r.0 ==> (#[trigger] e@[m] as u32) < (c as u32),
        r.1 == (r.0 < e.len() && e@[r.0 as int] == c),
        !r.1 && r.0 < e.len() ==> (c as u32) < (e@[r.0 as int] as u32),
{
    let mut j: usize = 0;
    while j < e.len() && (e[j] as u32) < (c as u32)
        invariant
            j <= e.len(),
            forall|m: int| 0 <= m < j ==> (#[trigger] e@[m] as u32) < (c as u32),
        decreases e.len() - j,
    {
        j += 1;
    }
    let encontrado = j < e.len() && e[j] == c;
    proof {
        if j < e.len() && !encontrado {
            lema_codigo_inyectivo(e@[j as int], c);
        }
    }
    (j, encontrado)
}

/// Lists the corrupt characters of a text with the lines on which each one
/// occurs (lines counted from one, as `str::lines` enumerates them).
pub fn reporte_caracteres_corruptos(texto: &str) -> (r: Vec<CaracterCorrupto>)
    ensures
        forall|a: int| 0 <= a < r.len() ==> (#[trigger] r@[a]).caracter@.len() == 1,
        reporte_valido(texto@, caracteres_de(r@), filas_de(r@), texto@.len() as int),
{
    let t = chars_de(texto);
    let n = t.len();
    let mut entradas: Vec<char> = Vec::new();
    let mut filas: Vec<Vec<u64>> = Vec::new();
    let mut nl: u64 = 0;
    let mut i: usize = 0;
    while i < n
        invariant
            i <= n == t.len(),
            t@ == texto@,
            nl == saltos(t@, i as int),
            nl <= i,
            reporte_valido(t@, entradas@, vistas_filas(filas@), i as int),
            forall|a: int| 0 <= a < filas.len() ==> (#[trigger] filas@[a])@.last() <= nl + 1,
        decreases n - i,
    {
        let c = t[i];
        let fila: u64 = nl + 1;
        let ghost vf = vistas_filas(filas@);
        assert forall|a: int, f: u64| 0 <= a < vf.len() && c != entradas@[a] implies
            (aparece_en_fila(t@, entradas@[a], f as int, i + 1) <==> aparece_en_fila(
                t@,
                entradas@[a],
                f as int,
                i as int,
            )) by {
            if aparece_en_fila(t@, entradas@[a], f as int, i + 1) {
                let p = choose|p: int| 0 <= p < i + 1 && p < t@.len() && #[trigger] t@[p] == entradas@[a] && fila_de(t@, p) == f;
                assert(p != i);
            }
        }
        if es_caracter_corrupto(c) {
            let (j, encontrado) = buscar_posicion(&entradas, c);
            if encontrado {
                let mut fj = filas.remove(j);
                assert(fj@ == vf[j as int]);
                assert(vf[j as int].len() > 0);
                let ultima = fj[fj.len() - 1];
                if ultima != fila {
                    fj.push(fila);
                }
                filas.insert(j, fj);
                proof {
                    assert(entradas@[j as int] == t@[i as int]);
                    let nvf = vistas_filas(filas@);
                    assert(nvf =~= vf.update(j as int, fj@));
                    assert forall|f: u64| nvf[j as int].contains(f) <==> aparece_en_fila(
                        t@,
                        entradas@[j as int],
                        f as int,
                        i + 1,
                    ) by {
                        if f as int == fila {
                            assert(aparece_en_fila(t@, c, f as int, i + 1) ) by {
                                assert(t@[i as int] == c);
                            }
                            if ultima != fila {
                                assert(nvf[j as int].last() == f);
                            } else {
                                assert(vf[j as int].last() == f);
                            }
                        } else {
                            if aparece_en_fila(t@, c, f as int, i + 1) {
                                let p = choose|p: int| 0 <= p < i + 1 && p < t@.len() && #[trigger] t@[p] == c && fila_de(t@, p) == f;
                                assert(p != i);
                                assert(aparece_en_fila(t@, c, f as int, i as int));
                            }
                            if nvf[j as int].contains(f) {
                                let q = choose|q: int| 0 <= q < nvf[j as int].len() && nvf[j as int][q] == f;
                                if ultima != fila {
                                    assert(q < vf[j as int].len());
                                    assert(vf[j as int][q] == f);
                                }
                            }
                            if vf[j as int].contains(f) {
                                let q = choose|q: int| 0 <= q < vf[j as int].len() && vf[j as int][q] == f;
                                assert(nvf[j as int][q] == f);
                            }
                        }
                    }
                }
            } else {
                let ghost viejas_e = entradas@;
                entradas.insert(j, c);
                proof {
                    assert forall|x: char| viejas_e.contains(x) implies entradas@.contains(x) by {
                        let q = choose|q: int| 0 <= q < viejas_e.len() && viejas_e[q] == x;
                        if q < j {
                            assert(entradas@[q] == x);
                        } else {
                            assert(entradas@[q + 1] == x);
                        }
                    }
                    assert(entradas@[j as int] == c);
                }
                let nueva: Vec<u64> = vec![fila];
                assert(nueva@ == seq![fila]);
                let ghost vieja = filas@;
                filas.insert(j, nueva);
                proof {
                    let nvf = vistas_filas(filas@);
                    assert(filas@ == vieja.insert(j as int, nueva));
                    assert forall|idx: int| 0 <= idx < nvf.len() implies #[trigger] nvf[idx] == vf.insert(j as int, seq![fila])[idx] by {
                        if idx < j {
                            assert(filas@[idx] == vieja[idx]);
                        } else if idx > j {
                            assert(filas@[idx] == vieja[idx - 1]);
                        }
                    }
                    assert(nvf =~= vf.insert(j as int, seq![fila]));
                    assert(aparece_en_fila(t@, c, fila as int, i + 1)) by {
                        assert(t@[i as int] == c);
                    }
                    assert forall|f: u64| #[trigger] aparece_en_fila(t@, c, f as int, i + 1) implies f == fila by {
                        let p = choose|p: int| 0 <= p < i + 1 && p < t@.len() && #[trigger] t@[p] == c && fila_de(t@, p) == f;
                        if p != i {
                            assert(entradas@.contains(c));
                        }
                    }
                    assert(nvf[j as int] == seq![fila]);
                }
            }
        } else {
            proof {
                assert forall|a: int| 0 <= a < entradas.len() implies c != #[trigger] entradas@[a] by {
                }
            }
        }
        proof {
            lema_saltos_cota(t@, i + 1);
        }
        if c == '\n' {
            nl = nl + 1;
        }
        i += 1;
    }
    let mut r: Vec<CaracterCorrupto> = Vec::new();
    let ghost ve = entradas@;
    let ghost vf = vistas_filas(filas@);
    let mut k: usize = 0;
    while k < entradas.len()
        invariant
            k <= entradas.len() == ve.len(),
            entradas@ == ve,
            filas.len() + k == ve.len(),
            vistas_filas(filas@) == vf.skip(k as int),
            vf.len() == ve.len(),
            r.len() == k,
            forall|a: int| 0 <= a < k ==> (#[trigger] r@[a]).caracter@ == seq![ve[a]],
            forall|a: int| 0 <= a < k ==> (#[trigger] r@[a]).filas@ == vf[a],
        decreases entradas.len() - k,
    {
        let ghost antes = filas@;
        let fk = filas.remove(0);
        assert(antes.len() > 0);
        assert(vistas_filas(antes) == vf.skip(k as int));
        assert(vf.skip(k as int)[0] == vf[k as int]);
        assert(vistas_filas(antes)[0] == antes[0]@);
        assert(fk@ == vf[k as int]);
        assert forall|idx: int| 0 <= idx < filas.len() implies #[trigger] vistas_filas(filas@)[idx] == vf.skip(k + 1)[idx] by {
            assert(filas@[idx] == antes[idx + 1]);
            assert(vistas_filas(antes)[idx + 1] == vf.skip(k as int)[idx + 1]);
        }
        assert(vistas_filas(filas@) =~= vf.skip(k + 1));
        let uno = vec![entradas[k]];
        r.push(CaracterCorrupto { caracter: cadena_de(&uno), filas: fk });
        k += 1;
    }
    proof {
        assert(caracteres_de(r@) =~= ve);
        assert(filas_de(r@) =~= vf);
    }
    r
}

/// Punctuation that the validator accepts as normal in a data file.
pub open spec fn puntuacion_normal() -> Seq<char> {
    ".,;:()\"'\u{BF}?\u{A1}!-_/"@
}

/// Characters outside ASCII letters, digits and whitespace that are typical
/// of Spanish text and accepted.
pub open spec fn caracteres_tipicos() -> Seq<char> {
    "\u{E1}\u{E9}\u{ED}\u{F3}\u{FA}\u{C1}\u{C9}\u{CD}\u{D3}\u{DA}\u{F1}\u{D1}\u{FC}\u{DC}\u{201C}\u{201D}\"%\u{B0}\u{BA}\u{AA}\u{20AC}$"@
}

/// Which characters are corrupt: the replacement character, the control
/// characters other than tab, line feed and carriage return, and the delete
/// character always are; otherwise a character is corrupt exactly when it is
/// none of the ASCII letters and digits, the ASCII whitespace (space, tab,
/// line feed, form feed, carriage return), the punctuation
/// `.,;:()"'¿?¡!-_/` and the typical characters `áéíóúÁÉÍÓÚñÑüÜ“”"%°ºª€$`.
pub proof fn lema_caracteres_corruptos(c: char)
    ensures
        c == '\u{FFFD}' ==> caracter_corrupto(c),
        ((c as u32) < 32 && (c as u32) != 9 && (c as u32) != 10 && (c as u32) != 13)
            ==> caracter_corrupto(c),
        (c as u32) == 127 ==> caracter_corrupto(c),
        !(c == '\u{FFFD}' || ((c as u32) < 32 && (c as u32) != 9 && (c as u32) != 10
            && (c as u32) != 13) || (c as u32) == 127) ==> (caracter_corrupto(c) <==> !(
        ('a' <= c && c <= 'z') || ('A' <= c && c <= 'Z') || ('0' <= c && c <= '9') || c == ' '
            || c == '\t' || c == '\n' || c == '\x0C' || c == '\r' || puntuacion_normal().contains(c)
            || caracteres_tipicos().contains(c))),
{
    reveal_strlit(".,;:()\"'\u{BF}?\u{A1}!-_/");
    reveal_strlit("\u{E1}\u{E9}\u{ED}\u{F3}\u{FA}\u{C1}\u{C9}\u{CD}\u{D3}\u{DA}\u{F1}\u{D1}\u{FC}\u{DC}\u{201C}\u{201D}\"%\u{B0}\u{BA}\u{AA}\u{20AC}$");
    let pn = puntuacion_normal();
    let ct = caracteres_tipicos();
    assert(pn.len() == 15);
    assert(ct.len() == 23);
    if pn.contains(c) {
        let i = choose|i: int| 0 <= i < pn.len() && pn[i] == c;
        assert(!caracter_corrupto(c)) by {
            if i == 0 {
                assert(pn[0] == '.');
            } else if i == 1 {
                assert(pn[1] == ',');
            } else if i == 2 {
                assert(pn[2] == ';');
            } else if i == 3 {
                assert(pn[3] == ':');
            } else if i == 4 {
                assert(pn[4] == '(');
            } else if i == 5 {
                assert(pn[5] == ')');
            } else if i == 6 {
                assert(pn[6] == '"');
            } else if i == 7 {
                assert(pn[7] == '\'');
            } else if i == 8 {
                assert(pn[8] == '\u{BF}');
            } else if i == 9 {
                assert(pn[9] == '?');
            } else if i == 10 {
                assert(pn[10] == '\u{A1}');
            } else if i == 11 {
                assert(pn[11] == '!');
            } else if i == 12 {
                assert(pn[12] == '-');
            } else if i == 13 {
                assert(pn[13] == '_');
            } else if i == 14 {
                assert(pn[14] == '/');
            }
        }
    }
    if ct.contains(c) {
        let i = choose|i: int| 0 <= i < ct.len() && ct[i] == c;
        assert(!caracter_corrupto(c)) by {
            if i == 0 {
                assert(ct[0] == '\u{E1}');
            } else if i == 1 {
                assert(ct[1] == '\u{E9}');
            } else if i == 2 {
                assert(ct[2] == '\u{ED}');
            } else if i == 3 {
                assert(ct[3] == '\u{F3}');
            } else if i == 4 {
                assert(ct[4] == '\u{FA}');
            } else if i == 5 {
                assert(ct[5] == '\u{C1}');
            } else if i == 6 {
                assert(ct[6] == '\u{C9}');
            } else if i == 7 {
                assert(ct[7] == '\u{CD}');
            } else if i == 8 {
                assert(ct[8] == '\u{D3}');
            } else if i == 9 {
                assert(ct[9] == '\u{DA}');
            } else if i == 10 {
                assert(ct[10] == '\u{F1}');
            } else if i == 11 {
                assert(ct[11] == '\u{D1}');
            } else if i == 12 {
                assert(ct[12] == '\u{FC}');
            } else if i == 13 {
                assert(ct[13] == '\u{DC}');
            } else if i == 14 {
                assert(ct[14] == '\u{201C}');
            } else if i == 15 {
                assert(ct[15] == '\u{201D}');
            } else if i == 16 {
                assert(ct[16] == '"');
            } else if i == 17 {
                assert(ct[17] == '%');
            } else if i == 18 {
                assert(ct[18] == '\u{B0}');
            } else if i == 19 {
                assert(ct[19] == '\u{BA}');
            } else if i == 20 {
                assert(ct[20] == '\u{AA}');
            } else if i == 21 {
                assert(ct[21] == '\u{20AC}');
            } else if i == 22 {
                assert(ct[22] == '$');
            }
        }
    }
    if es_caracter_normal(c) && !(('a' <= c && c <= 'z') || ('A' <= c && c <= 'Z') || ('0' <= c
        && c <= '9') || c == ' ' || c == '\t' || c == '\n' || c == '\x0C' || c == '\r') {
        assert(pn.contains(c)) by {
            if c == '.' {
                assert(pn[0] == c);
            }
            if c == ',' {
                assert(pn[1] == c);
            }
            if c == ';' {
                assert(pn[2] == c);
            }
            if c == ':' {
                assert(pn[3] == c);
            }
            if c == '(' {
                assert(pn[4] == c);
            }
            if c == ')' {
                assert(pn[5] == c);
            }
            if c == '"' {
                assert(pn[6] == c);
            }
            if c == '\'' {
                assert(pn[7] == c);
            }
            if c == '\u{BF}' {
                assert(pn[8] == c);
            }
            if c == '?' {
                assert(pn[9] == c);
            }
            if c == '\u{A1}' {
                assert(pn[10] == c);
            }
            if c == '!' {
                assert(pn[11] == c);
            }
            if c == '-' {
                assert(pn[12] == c);
            }
            if c == '_' {
                assert(pn[13] == c);
            }
            if c == '/' {
                assert(pn[14] == c);
            }
        }
    }
    if es_caracter_tipico(c) {
        assert(ct.contains(c)) by {
            if c == '\u{E1}' {
                assert(ct[0] == c);
            }
            if c == '\u{E9}' {
                assert(ct[1] == c);
            }
            if c == '\u{ED}' {
                assert(ct[2] == c);
            }
            if c == '\u{F3}' {
                assert(ct[3] == c);
            }
            if c == '\u{FA}' {
                assert(ct[4] == c);
            }
            if c == '\u{C1}' {
                assert(ct[5] == c);
            }
            if c == '\u{C9}' {
                assert(ct[6] == c);
            }
            if c == '\u{CD}' {
                assert(ct[7] == c);
            }
            if c == '\u{D3}' {
                assert(ct[8] == c);
            }
            if c == '\u{DA}' {
                assert(ct[9] == c);
            }
            if c == '\u{F1}' {
                assert(ct[10] == c);
            }
            if c == '\u{D1}' {
                assert(ct[11] == c);
            }
            if c == '\u{FC}' {
                assert(ct[12] == c);
            }
            if c == '\u{DC}' {
                assert(ct[13] == c);
            }
            if c == '\u{201C}' {
                assert(ct[14] == c);
            }
            if c == '\u{201D}' {
                assert(ct[15] == c);
            }
            if c == '"' {
                assert(ct[16] == c);
            }
            if c == '%' {
                assert(ct[17] == c);
            }
            if c == '\u{B0}' {
                assert(ct[18] == c);
            }
            if c == '\u{BA}' {
                assert(ct[19] == c);
            }
            if c == '\u{AA}' {
                assert(ct[20] == c);
            }
            if c == '\u{20AC}' {
                assert(ct[21] == c);
            }
            if c == '$' {
                assert(ct[22] == c);
            }
        }
    }
}

} // verus!
