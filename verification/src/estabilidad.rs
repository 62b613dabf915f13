use vstd::prelude::*;

use crate::externos::{en_minusculas, descomposicion_nfd, sustituido, ClaseRegex, reemplazo_regex};
use crate::nombres::{
    caracter_de_nombre, lema_dividido_valido, lema_sugerencia_valida, lema_sustituido_valido,
    nombre_valido, palabra_admitida, palabra_prohibida, palabras_admitidas, sin_marcas,
    sugerencia,
};
use crate::texto::{
    cumple_criterio, espacio_unicode, lema_dividido_no_vacio, recortado, reemplazado, sin_final,
    sin_inicio, unido, Criterio, dividido,
};

verus! {

/// No underscore in `w`.
pub open spec fn sin_guion(w: Seq<char>) -> bool {
    forall|i: int| 0 <= i < w.len() ==> w[i] != '_'
}

/// A word of a suggested name: not empty, not prohibited, made of
/// lower-case ASCII letters and digits.
pub open spec fn palabra_buena(w: Seq<char>) -> bool {
    palabra_admitida(w) && nombre_valido(w) && sin_guion(w)
}

pub open spec fn es_digito(c: char) -> bool {
    '0' <= c && c <= '9'
}

/// The shape of every suggested column name: empty, or words of lower-case
/// ASCII letters and digits, none prohibited, joined by single underscores,
/// no word after the first starting with `1`, no leading digit, and not `id`.
pub open spec fn forma_de_sugerencia(s: Seq<char>) -> bool {
    s.len() == 0 || {
        let ws = dividido(s, Criterio::GuionBajo);
        &&& forall|i: int| 0 <= i < ws.len() ==> palabra_buena(#[trigger] ws[i])
        &&& forall|i: int| 0 < i < ws.len() ==> (#[trigger] ws[i])[0] != '1'
        &&& !es_digito(s[0])
        &&& s != seq!['i', 'd']
    }
}

/// The replacement of `_1` by `_01`, the last step of a suggestion.
pub open spec fn con_cero(s: Seq<char>) -> Seq<char> {
    reemplazado(s, seq!['_', '1'], seq!['_', '0', '1'])
}

/// A word as `con_cero` leaves it after an underscore.
pub open spec fn prefijo_cero(w: Seq<char>) -> Seq<char> {
    if w.len() > 0 && w[0] == '1' {
        seq!['0'] + w
    } else {
        w
    }
}

pub open spec fn prefijadas(ws: Seq<Seq<char>>) -> Seq<Seq<char>> {
    Seq::new(ws.len(), |i: int| if i == 0 { ws[0] } else { prefijo_cero(ws[i]) })
}

proof fn lema_prohibida_sin_digitos(p: Seq<char>)
    requires
        palabra_prohibida(p),
    ensures
        p.len() > 0,
        !es_digito(p[0]),
        p.len() > 1 ==> !es_digito(p[1]),
{
}

proof fn lema_unido_extiende(ps: Seq<Seq<char>>, sep: Seq<char>, t: Seq<char>)
    requires
        ps.len() >= 1,
    ensures
        unido(ps.update(ps.len() - 1, ps.last() + t), sep) == unido(ps, sep) + t,
{
    let q = ps.update(ps.len() - 1, ps.last() + t);
    if ps.len() == 1 {
        assert(unido(q, sep) == q[0]);
    } else {
        assert(q.drop_last() =~= ps.drop_last());
        assert(unido(q, sep) == unido(ps.drop_last(), sep) + sep + (ps.last() + t));
        assert(unido(ps.drop_last(), sep) + sep + (ps.last() + t) =~= unido(ps.drop_last(), sep)
            + sep + ps.last() + t);
    }
}

/// Joining the pieces of a text split at underscores gives the text back.
proof fn lema_unido_dividido(s: Seq<char>)
    ensures
        unido(dividido(s, Criterio::GuionBajo), seq!['_']) == s,
    decreases s.len(),
{
    if s.len() > 0 {
        let t = s.drop_last();
        lema_unido_dividido(t);
        lema_dividido_no_vacio(t, Criterio::GuionBajo);
        let prev = dividido(t, Criterio::GuionBajo);
        if s.last() == '_' {
            let q = prev.push(Seq::<char>::empty());
            assert(q.drop_last() == prev);
            assert(unido(q, seq!['_']) == unido(prev, seq!['_']) + seq!['_'] + Seq::<char>::empty());
            assert(t + seq!['_'] + Seq::<char>::empty() =~= s);
        } else {
            lema_unido_extiende(prev, seq!['_'], seq![s.last()]);
            assert(prev.last().push(s.last()) =~= prev.last() + seq![s.last()]);
            assert(t + seq![s.last()] =~= s);
        }
    }
}

proof fn lema_dividido_concat(s: Seq<char>, w: Seq<char>)
    requires
        sin_guion(w),
    ensures
        dividido(s + w, Criterio::GuionBajo).len() == dividido(s, Criterio::GuionBajo).len(),
        dividido(s + w, Criterio::GuionBajo) == dividido(s, Criterio::GuionBajo).update(
            dividido(s, Criterio::GuionBajo).len() - 1,
            dividido(s, Criterio::GuionBajo).last() + w,
        ),
    decreases w.len(),
{
    lema_dividido_no_vacio(s, Criterio::GuionBajo);
    let d = dividido(s, Criterio::GuionBajo);
    if w.len() == 0 {
        assert(s + w =~= s);
        assert(d.last() + w =~= d.last());
        assert(d.update(d.len() - 1, d.last()) =~= d);
    } else {
        let w1 = w.drop_last();
        lema_dividido_concat(s, w1);
        assert((s + w).drop_last() =~= s + w1);
        assert((s + w).last() == w.last());
        let prev = dividido(s + w1, Criterio::GuionBajo);
        assert(prev.last() == d.last() + w1);
        assert((d.last() + w1).push(w.last()) =~= d.last() + w);
        assert(prev.update(prev.len() - 1, prev.last().push(w.last())) =~= d.update(
            d.len() - 1,
            d.last() + w,
        ));
    }
}

/// Splitting at underscores words without underscores joined by single
/// underscores gives the words back.
proof fn lema_dividido_unido(ws: Seq<Seq<char>>)
    requires
        ws.len() >= 1,
        forall|i: int| 0 <= i < ws.len() ==> sin_guion(#[trigger] ws[i]),
    ensures
        dividido(unido(ws, seq!['_']), Criterio::GuionBajo) == ws,
    decreases ws.len(),
{
    if ws.len() == 1 {
        lema_dividido_concat(Seq::<char>::empty(), ws[0]);
        assert(Seq::<char>::empty() + ws[0] =~= ws[0]);
        assert(dividido(Seq::<char>::empty(), Criterio::GuionBajo) == seq![Seq::<char>::empty()]);
        assert(Seq::<char>::empty() + ws[0] =~= ws[0]);
        assert(seq![Seq::<char>::empty()].update(0, Seq::<char>::empty() + ws[0]) =~= ws);
    } else {
        let a = unido(ws.drop_last(), seq!['_']);
        lema_dividido_unido(ws.drop_last());
        let a1 = a + seq!['_'];
        assert(a1.drop_last() =~= a);
        assert(dividido(a1, Criterio::GuionBajo) == ws.drop_last().push(Seq::<char>::empty()));
        lema_dividido_concat(a1, ws.last());
        assert(Seq::<char>::empty() + ws.last() =~= ws.last());
        assert(ws.drop_last().push(Seq::<char>::empty()).update(ws.len() - 1, ws.last()) =~= ws);
    }
}

/// Every piece of a text split at underscores has no underscore.
proof fn lema_dividido_sin_guion(s: Seq<char>)
    ensures
        forall|i: int|
            0 <= i < dividido(s, Criterio::GuionBajo).len() ==> sin_guion(
                #[trigger] dividido(s, Criterio::GuionBajo)[i],
            ),
    decreases s.len(),
{
    if s.len() > 0 {
        let t = s.drop_last();
        lema_dividido_sin_guion(t);
        lema_dividido_no_vacio(t, Criterio::GuionBajo);
        let p = dividido(t, Criterio::GuionBajo);
        let q = dividido(s, Criterio::GuionBajo);
        assert forall|i: int| 0 <= i < q.len() implies sin_guion(#[trigger] q[i]) by {
            if s.last() == '_' {
                if i < p.len() {
                    assert(q[i] == p[i]);
                }
            } else if i < p.len() - 1 {
                assert(q[i] == p[i]);
            } else {
                assert(sin_guion(p[i]));
                let w = p[i].push(s.last());
                assert(q[i] == w);
                assert forall|j: int| 0 <= j < w.len() implies w[j] != '_' by {
                    if j < p[i].len() {
                        assert(w[j] == p[i][j]);
                    }
                }
            }
        }
    }
}

proof fn lema_admitidas_buenas(ps: Seq<Seq<char>>)
    requires
        forall|k: int| 0 <= k < ps.len() ==> nombre_valido(#[trigger] ps[k]) && sin_guion(ps[k]),
    ensures
        forall|k: int|
            0 <= k < palabras_admitidas(ps).len() ==> palabra_buena(
                #[trigger] palabras_admitidas(ps)[k],
            ),
    decreases ps.len(),
{
    if ps.len() > 0 {
        let t = ps.drop_last();
        assert forall|k: int| 0 <= k < t.len() implies nombre_valido(#[trigger] t[k]) && sin_guion(
            t[k],
        ) by {
            assert(t[k] == ps[k]);
        }
        lema_admitidas_buenas(t);
        let p = palabras_admitidas(t);
        let q = palabras_admitidas(ps);
        assert forall|k: int| 0 <= k < q.len() implies palabra_buena(#[trigger] q[k]) by {
            if k < p.len() {
                assert(q[k] == p[k]);
            } else {
                assert(q[k] == ps.last());
            }
        }
    }
}

proof fn lema_admitidas_todas(ps: Seq<Seq<char>>)
    requires
        forall|k: int| 0 <= k < ps.len() ==> palabra_admitida(#[trigger] ps[k]),
    ensures
        palabras_admitidas(ps) == ps,
    decreases ps.len(),
{
    if ps.len() > 0 {
        let t = ps.drop_last();
        assert forall|k: int| 0 <= k < t.len() implies palabra_admitida(#[trigger] t[k]) by {
            assert(t[k] == ps[k]);
        }
        lema_admitidas_todas(t);
        assert(palabras_admitidas(ps) == t.push(ps.last()));
        assert(t.push(ps.last()) =~= ps);
    }
}

/// Joined words that are not empty and have no underscore: the text is not
/// empty, starts with the first word's first character and does not end in
/// an underscore.
proof fn lema_unido_bordes(ws: Seq<Seq<char>>)
    requires
        ws.len() >= 1,
        forall|i: int| 0 <= i < ws.len() ==> (#[trigger] ws[i]).len() > 0 && sin_guion(ws[i]),
    ensures
        unido(ws, seq!['_']).len() > 0,
        unido(ws, seq!['_'])[0] == ws[0][0],
        unido(ws, seq!['_']).last() != '_',
    decreases ws.len(),
{
    if ws.len() > 1 {
        let t = ws.drop_last();
        assert forall|i: int| 0 <= i < t.len() implies (#[trigger] t[i]).len() > 0 && sin_guion(
            t[i],
        ) by {
            assert(t[i] == ws[i]);
        }
        lema_unido_bordes(t);
        let u = unido(t, seq!['_']) + seq!['_'] + ws.last();
        assert(u[0] == unido(t, seq!['_'])[0]);
        assert(sin_guion(ws[ws.len() - 1]));
        assert(u.last() == ws.last().last());
    }
}

/// `con_cero` leaves a text without underscores as it is.
proof fn lema_con_cero_sin_guion(w: Seq<char>)
    requires
        sin_guion(w),
    ensures
        con_cero(w) == w,
    decreases w.len(),
{
    if w.len() >= 2 {
        assert(w.take(2)[0] != '_');
        assert(w.take(2) != seq!['_', '1']);
        let t = w.drop_first();
        assert forall|i: int| 0 <= i < t.len() implies t[i] != '_' by {
            assert(t[i] == w[i + 1]);
        }
        lema_con_cero_sin_guion(t);
        assert(seq![w[0]] + t =~= w);
    }
}

/// `con_cero` works separately on a prefix that does not end in an
/// underscore and on the rest.
proof fn lema_con_cero_concat(a: Seq<char>, t: Seq<char>)
    requires
        a.len() == 0 || a.last() != '_',
    ensures
        con_cero(a + t) == con_cero(a) + con_cero(t),
    decreases a.len(),
{
    let p = seq!['_', '1'];
    let r = seq!['_', '0', '1'];
    if a.len() == 0 {
        assert(a + t =~= t);
        assert(con_cero(a) == a);
        assert(Seq::<char>::empty() + con_cero(t) =~= con_cero(t));
    } else if (a + t).len() < 2 {
        assert(t.len() == 0);
        assert(a + t =~= a);
        assert(con_cero(t) == t);
        assert(a + Seq::<char>::empty() =~= a);
    } else if (a + t).take(2) == p {
        assert((a + t)[0] == '_');
        assert(a[0] == '_');
        assert(a.len() >= 2);
        assert(a.take(2) =~= (a + t).take(2));
        let a2 = a.skip(2);
        assert((a + t).skip(2) =~= a2 + t);
        lema_con_cero_concat(a2, t);
        assert(con_cero(a) == r + con_cero(a2));
        assert(con_cero(a + t) == r + con_cero(a2 + t));
        assert(r + (con_cero(a2) + con_cero(t)) =~= (r + con_cero(a2)) + con_cero(t));
    } else {
        let s = a + t;
        assert(con_cero(s) == seq![s[0]] + con_cero(s.drop_first()));
        if a.len() >= 2 {
            assert(a.take(2) =~= s.take(2));
            let a1 = a.drop_first();
            assert(s.drop_first() =~= a1 + t);
            lema_con_cero_concat(a1, t);
            assert(con_cero(a) == seq![a[0]] + con_cero(a1));
            assert(seq![s[0]] + (con_cero(a1) + con_cero(t)) =~= (seq![a[0]] + con_cero(a1))
                + con_cero(t));
        } else {
            assert(s.drop_first() =~= t);
            assert(con_cero(a) == a);
            assert(a =~= seq![s[0]]);
        }
    }
}

/// `con_cero` after an underscore puts a `0` before a word starting with `1`.
proof fn lema_con_cero_guion(w: Seq<char>)
    requires
        w.len() > 0,
        sin_guion(w),
    ensures
        con_cero(seq!['_'] + w) == seq!['_'] + prefijo_cero(w),
{
    let s = seq!['_'] + w;
    lema_con_cero_sin_guion(w);
    assert(s.take(2) =~= seq!['_', w[0]]);
    if w[0] == '1' {
        let t = w.drop_first();
        assert forall|i: int| 0 <= i < t.len() implies t[i] != '_' by {
            assert(t[i] == w[i + 1]);
        }
        lema_con_cero_sin_guion(t);
        assert(s.skip(2) =~= t);
        assert(seq!['_', '0', '1'] + t =~= seq!['_'] + (seq!['0'] + w));
    } else {
        assert(s.take(2) != seq!['_', '1']);
        assert(s.drop_first() =~= w);
        assert(seq![s[0]] + w =~= seq!['_'] + w);
    }
}

/// `con_cero` on joined words puts a `0` before every word after the first
/// that starts with `1`.
proof fn lema_con_cero_unido(ws: Seq<Seq<char>>)
    requires
        ws.len() >= 1,
        forall|i: int| 0 <= i < ws.len() ==> (#[trigger] ws[i]).len() > 0 && sin_guion(ws[i]),
    ensures
        con_cero(unido(ws, seq!['_'])) == unido(prefijadas(ws), seq!['_']),
    decreases ws.len(),
{
    let pw = prefijadas(ws);
    if ws.len() == 1 {
        lema_con_cero_sin_guion(ws[0]);
        assert(unido(pw, seq!['_']) == pw[0]);
    } else {
        let t = ws.drop_last();
        assert forall|i: int| 0 <= i < t.len() implies (#[trigger] t[i]).len() > 0 && sin_guion(
            t[i],
        ) by {
            assert(t[i] == ws[i]);
        }
        lema_con_cero_unido(t);
        lema_unido_bordes(t);
        let a = unido(t, seq!['_']);
        let w = ws.last();
        assert(w.len() > 0 && sin_guion(w));
        assert(unido(ws, seq!['_']) == a + seq!['_'] + w);
        assert(a + seq!['_'] + w =~= a + (seq!['_'] + w));
        lema_con_cero_concat(a, seq!['_'] + w);
        lema_con_cero_guion(w);
        assert(pw.drop_last() =~= prefijadas(t));
        assert(pw.last() == prefijo_cero(w));
        assert(unido(pw, seq!['_']) == unido(prefijadas(t), seq!['_']) + seq!['_'] + prefijo_cero(
            w,
        ));
        assert(unido(prefijadas(t), seq!['_']) + (seq!['_'] + prefijo_cero(w)) =~= unido(
            prefijadas(t),
            seq!['_'],
        ) + seq!['_'] + prefijo_cero(w));
    }
}

/// Putting a character before the first of the joined words.
proof fn lema_unido_prefijo(ws: Seq<Seq<char>>, c: char)
    requires
        ws.len() >= 1,
    ensures
        unido(ws.update(0, seq![c] + ws[0]), seq!['_']) == seq![c] + unido(ws, seq!['_']),
    decreases ws.len(),
{
    let q = ws.update(0, seq![c] + ws[0]);
    if ws.len() == 1 {
        assert(unido(q, seq!['_']) == q[0]);
    } else {
        let t = ws.drop_last();
        lema_unido_prefijo(t, c);
        assert(q.drop_last() =~= t.update(0, seq![c] + t[0]));
        assert(q.last() == ws.last());
        assert(seq![c] + unido(t, seq!['_']) + seq!['_'] + ws.last() =~= seq![c] + (unido(
            t,
            seq!['_'],
        ) + seq!['_'] + ws.last()));
    }
}

/// The words of a text of the shape of a suggestion, after `con_cero`, are
/// good and none after the first starts with `1`.
proof fn lema_prefijadas_buenas(ws: Seq<Seq<char>>)
    requires
        forall|i: int| 0 <= i < ws.len() ==> palabra_buena(#[trigger] ws[i]),
    ensures
        forall|i: int| 0 <= i < prefijadas(ws).len() ==> palabra_buena(#[trigger] prefijadas(ws)[i]),
        forall|i: int| 0 < i < prefijadas(ws).len() ==> (#[trigger] prefijadas(ws)[i])[0] != '1',
{
    let pw = prefijadas(ws);
    assert forall|i: int| 0 <= i < pw.len() implies palabra_buena(#[trigger] pw[i]) by {
        let w = ws[i];
        assert(palabra_buena(w));
        if i > 0 && w[0] == '1' {
            let v = seq!['0'] + w;
            assert(pw[i] == v);
            assert forall|j: int| 0 <= j < v.len() implies caracter_de_nombre(#[trigger] v[j]) && v[j]
                != '_' by {
                if j > 0 {
                    assert(v[j] == w[j - 1]);
                }
            }
            if palabra_prohibida(v) {
                lema_prohibida_sin_digitos(v);
            }
        }
    }
    assert forall|i: int| 0 < i < pw.len() implies (#[trigger] pw[i])[0] != '1' by {
        if ws[i][0] == '1' {
            assert((seq!['0'] + ws[i])[0] == '0');
        }
    }
}

/// Validating a suggested name again changes nothing: every suggestion has
/// the shape of a suggestion and only lower-case ASCII letters, digits and
/// underscores, on which `validar_cadena` returns the name itself with no
/// incidence.
pub proof fn lema_forma_de_sugerencia(cadena: Seq<char>)
    ensures
        forma_de_sugerencia(sugerencia(cadena)),
        nombre_valido(sugerencia(cadena)),
{
    lema_sugerencia_valida(cadena);
    let a = recortado(cadena, Criterio::Blancos);
    let b = en_minusculas(a);
    let c = reemplazado(b, seq!['\u{F1}'], seq!['n', 'i']);
    let d = sin_marcas(descomposicion_nfd(c));
    let e = reemplazo_regex(ClaseRegex::NoAlfanumerico, d, seq!['_']);
    lema_sustituido_valido(d);
    lema_dividido_valido(e);
    lema_dividido_sin_guion(e);
    let ps = dividido(e, Criterio::GuionBajo);
    lema_admitidas_buenas(ps);
    let ws = palabras_admitidas(ps);
    let f = unido(ws, seq!['_']);
    let uno = seq!['_', '1'];
    let cero_uno = seq!['_', '0', '1'];
    if ws.len() == 0 {
        assert(f.len() == 0);
        assert(sugerencia(cadena) == con_cero(f));
        assert(con_cero(f) == f);
    } else {
        lema_unido_bordes(ws);
        let g = if f.len() > 0 && '0' <= f[0] && f[0] <= '9' {
            seq!['b'] + f
        } else {
            f
        };
        let wsg = if f.len() > 0 && '0' <= f[0] && f[0] <= '9' {
            ws.update(0, seq!['b'] + ws[0])
        } else {
            ws
        };
        if f.len() > 0 && '0' <= f[0] && f[0] <= '9' {
            lema_unido_prefijo(ws, 'b');
            let v = seq!['b'] + ws[0];
            assert(palabra_buena(ws[0]));
            assert forall|j: int| 0 <= j < v.len() implies caracter_de_nombre(#[trigger] v[j]) && v[j]
                != '_' by {
                if j > 0 {
                    assert(v[j] == ws[0][j - 1]);
                }
            }
            if palabra_prohibida(v) {
                lema_prohibida_sin_digitos(v);
                assert(v[1] == ws[0][0]);
            }
            assert(palabra_buena(v));
        }
        assert(g == unido(wsg, seq!['_']));
        assert(forall|i: int| 0 <= i < wsg.len() ==> palabra_buena(#[trigger] wsg[i]));
        assert(!es_digito(wsg[0][0]));
        let ident = seq!['i', 'd', 'e', 'n', 't', 'i', 'f', 'i', 'c', 'a', 'd', 'o', 'r'];
        let es_id = g == seq!['i', 'd'] || g == seq!['I', 'D'];
        let h = if es_id {
            ident
        } else {
            g
        };
        let wsh = if es_id {
            seq![ident]
        } else {
            wsg
        };
        if es_id {
            assert(unido(wsh, seq!['_']) == ident);
            assert forall|j: int| 0 <= j < ident.len() implies caracter_de_nombre(#[trigger] ident[j])
                && ident[j] != '_' by {
            }
            assert(palabra_buena(ident));
        }
        assert(h == unido(wsh, seq!['_']));
        assert(forall|i: int| 0 <= i < wsh.len() ==> palabra_buena(#[trigger] wsh[i]));
        assert(!es_digito(wsh[0][0]));
        assert(h != seq!['i', 'd']);
        assert(sugerencia(cadena) == con_cero(h));
        lema_con_cero_unido(wsh);
        lema_prefijadas_buenas(wsh);
        let pw = prefijadas(wsh);
        let s = unido(pw, seq!['_']);
        assert forall|i: int| 0 <= i < pw.len() implies sin_guion(#[trigger] pw[i]) by {
            assert(palabra_buena(pw[i]));
        }
        assert forall|i: int| 0 <= i < pw.len() implies (#[trigger] pw[i]).len() > 0 && sin_guion(
            pw[i],
        ) by {
            assert(palabra_buena(pw[i]));
        }
        lema_dividido_unido(pw);
        lema_unido_bordes(pw);
        assert(s[0] == pw[0][0]);
        assert(pw[0] == wsh[0]);
        if s == seq!['i', 'd'] {
            assert(dividido(s, Criterio::GuionBajo) == pw);
            assert(dividido(seq!['i', 'd'], Criterio::GuionBajo) =~= seq![seq!['i', 'd']]) by {
                reveal_with_fuel(dividido, 3);
                assert(seq!['i', 'd'].drop_last() =~= seq!['i']);
                assert(seq!['i'].drop_last() =~= Seq::<char>::empty());
            }
            assert(pw.len() == 1);
            assert(wsh.len() == 1);
            assert(wsh[0] == seq!['i', 'd']);
            assert(unido(wsh, seq!['_']) == wsh[0]);
        }
    }
}

/// Text of the shape of a suggestion has no whitespace at its ends.
pub(crate) proof fn lema_recortado_nombre(s: Seq<char>)
    requires
        nombre_valido(s),
    ensures
        recortado(s, Criterio::Blancos) == s,
{
    if s.len() > 0 {
        assert(caracter_de_nombre(s[0]));
        assert(!espacio_unicode(s[0]));
        assert(sin_inicio(s, Criterio::Blancos) == s);
        assert(caracter_de_nombre(s.last()));
        assert(!cumple_criterio(Criterio::Blancos, s.last()));
    }
}

pub(crate) proof fn lema_sin_enie(s: Seq<char>)
    requires
        nombre_valido(s),
    ensures
        reemplazado(s, seq!['\u{F1}'], seq!['n', 'i']) == s,
    decreases s.len(),
{
    if s.len() >= 1 {
        assert(caracter_de_nombre(s[0]));
        assert(s.take(1) != seq!['\u{F1}']) by {
            assert(s.take(1)[0] == s[0]);
        }
        let t = s.drop_first();
        assert forall|i: int| 0 <= i < t.len() implies caracter_de_nombre(#[trigger] t[i]) by {
            assert(t[i] == s[i + 1]);
        }
        lema_sin_enie(t);
        assert(seq![s[0]] + t =~= s);
    }
}

proof fn lema_sin_marcas_nombre(s: Seq<char>)
    requires
        nombre_valido(s),
    ensures
        sin_marcas(s) == s,
    decreases s.len(),
{
    if s.len() > 0 {
        let t = s.drop_last();
        assert forall|i: int| 0 <= i < t.len() implies caracter_de_nombre(#[trigger] t[i]) by {
            assert(t[i] == s[i]);
        }
        lema_sin_marcas_nombre(t);
        assert(caracter_de_nombre(s.last()));
        assert(t.push(s.last()) =~= s);
    }
}

proof fn lema_sustituido_nombre(s: Seq<char>)
    requires
        nombre_valido(s),
    ensures
        sustituido(s, ClaseRegex::NoAlfanumerico, seq!['_']) == s,
    decreases s.len(),
{
    if s.len() > 0 {
        let t = s.drop_last();
        assert forall|i: int| 0 <= i < t.len() implies caracter_de_nombre(#[trigger] t[i]) by {
            assert(t[i] == s[i]);
        }
        lema_sustituido_nombre(t);
        assert(caracter_de_nombre(s.last()));
        assert(t + seq!['_'] =~= t.push('_'));
        assert(t.push(s.last()) =~= s);
    }
}

/// A name of the shape of a suggestion, which lower-casing and canonical
/// decomposition leave as it is, is its own suggestion.
pub proof fn lema_punto_fijo(s: Seq<char>)
    requires
        forma_de_sugerencia(s),
        nombre_valido(s),
        en_minusculas(s) == s,
        descomposicion_nfd(s) == s,
    ensures
        sugerencia(s) == s,
{
    lema_recortado_nombre(s);
    lema_sin_enie(s);
    lema_sin_marcas_nombre(s);
    lema_sustituido_nombre(s);
    let e = reemplazo_regex(ClaseRegex::NoAlfanumerico, s, seq!['_']);
    assert(e == s);
    let ps = dividido(s, Criterio::GuionBajo);
    if s.len() == 0 {
        assert(ps == seq![Seq::<char>::empty()]);
        assert(palabras_admitidas(ps) == palabras_admitidas(ps.drop_last()));
        assert(ps.drop_last() =~= Seq::<Seq<char>>::empty());
        assert(con_cero(s) == s);
    } else {
        assert(forall|i: int| 0 <= i < ps.len() ==> palabra_buena(#[trigger] ps[i]));
        assert forall|i: int| 0 <= i < ps.len() implies palabra_admitida(#[trigger] ps[i]) by {
            assert(palabra_buena(ps[i]));
        }
        lema_admitidas_todas(ps);
        lema_unido_dividido(s);
        assert(s != seq!['I', 'D']) by {
            if s == seq!['I', 'D'] {
                assert(caracter_de_nombre(s[0]));
            }
        }
        lema_dividido_no_vacio(s, Criterio::GuionBajo);
        assert forall|i: int| 0 <= i < ps.len() implies (#[trigger] ps[i]).len() > 0 && sin_guion(
            ps[i],
        ) by {
            assert(palabra_buena(ps[i]));
        }
        lema_con_cero_unido(ps);
        assert(prefijadas(ps) =~= ps);
    }
}

} // verus!
