use vstd::prelude::*;

use crate::texto::{chars_de, vista_textos, lema_lex_irreflexivo, lema_lex_total, lema_lex_transitivo, menor, menor_lex};

verus! {

/// A dataset of the open-data portal.
#[derive(Debug)]
pub struct Conjunto {
    pub id: String,
    pub name: String,
    pub title: String,
    pub institucion: String,
}

/// An institution (organisation) of the open-data portal.
#[derive(Debug)]
pub struct Institucion {
    pub id: String,
    pub name: String,
    pub display_name: String,
}

impl Institucion {
    pub fn duplicar(&self) -> (r: Institucion)
        ensures
            r == *self,
    {
        Institucion { id: self.id.clone(), name: self.name.clone(), display_name: self.display_name.clone() }
    }
}

/// The institutions kept between sessions.
#[derive(Debug)]
pub struct CacheInstituciones {
    pub instituciones: Vec<Institucion>,
}

impl CacheInstituciones {
    /// An empty cache.
    pub fn new() -> (r: CacheInstituciones)
        ensures
            r.instituciones@ == Seq::<Institucion>::empty(),
    {
        CacheInstituciones { instituciones: Vec::new() }
    }
}

/// The answer of the portal's API when it reports `success`, and otherwise
/// the error message of the validator.
pub fn verificar_respuesta<T>(success: bool, result: T) -> (r: Result<T, String>)
    ensures
        success ==> r == Ok::<T, String>(result),
        !success ==> r is Err && r->Err_0@ == "CKAN regres\u{f3} success=false"@,
{
    if !success {
        return Err(String::from_str("CKAN regres\u{f3} success=false"));
    }
    Ok(result)
}

/// Marks every dataset as belonging to `institucion`.
pub fn asignar_institucion(conjuntos: &mut Vec<Conjunto>, institucion: &str)
    ensures
        final(conjuntos)@.len() == old(conjuntos)@.len(),
        forall|i: int|
            0 <= i < final(conjuntos)@.len() ==> {
                &&& (#[trigger] final(conjuntos)@[i]).id == old(conjuntos)@[i].id
                &&& final(conjuntos)@[i].name == old(conjuntos)@[i].name
                &&& final(conjuntos)@[i].title == old(conjuntos)@[i].title
                &&& final(conjuntos)@[i].institucion@ == institucion@
            },
{
    let mut i: usize = 0;
    while i < conjuntos.len()
        invariant
            i <= conjuntos.len() == old(conjuntos)@.len(),
            forall|j: int|
                0 <= j < conjuntos@.len() ==> {
                    &&& (#[trigger] conjuntos@[j]).id == old(conjuntos)@[j].id
                    &&& conjuntos@[j].name == old(conjuntos)@[j].name
                    &&& conjuntos@[j].title == old(conjuntos)@[j].title
                    &&& j < i ==> conjuntos@[j].institucion@ == institucion@
                },
        decreases conjuntos.len() - i,
    {
        let c = conjuntos.remove(i);
        let nuevo = Conjunto { id: c.id, name: c.name, title: c.title, institucion: String::from_str(institucion) };
        conjuntos.insert(i, nuevo);
        i += 1;
    }
}

pub open spec fn nombres(c: Seq<Institucion>) -> Seq<Seq<char>> {
    c.map_values(|x: Institucion| x.name@)
}

/// The names of `lista` that no institution of the cache has, in order.
pub open spec fn faltantes(lista: Seq<Seq<char>>, cache: Seq<Institucion>) -> Seq<Seq<char>>
    decreases lista.len(),
{
    if lista.len() == 0 {
        seq![]
    } else if nombres(cache).contains(lista.last()) {
        faltantes(lista.drop_last(), cache)
    } else {
        faltantes(lista.drop_last(), cache).push(lista.last())
    }
}

fn esta_el_nombre(c: &Vec<Institucion>, n: &Vec<char>) -> (r: bool)
    ensures
        r == nombres(c@).contains(n@),
{
    let mut i: usize = 0;
    while i < c.len()
        invariant
            i <= c.len(),
            forall|j: int| 0 <= j < i ==> nombres(c@)[j] != n@,
        decreases c.len() - i,
    {
        let v = chars_de(c[i].name.as_str());
        if crate::nombres::iguales(&v, n) {
            assert(nombres(c@)[i as int] == n@);
            return true;
        }
        i += 1;
    }
    false
}

/// The names of the portal's institutions that the cache does not know.
pub fn instituciones_faltantes(cache: &CacheInstituciones, lista: &Vec<String>) -> (r: Vec<String>)
    ensures
        vista_textos(r@) == faltantes(vista_textos(lista@), cache.instituciones@),
{
    let mut r: Vec<String> = Vec::new();
    let mut i: usize = 0;
    while i < lista.len()
        invariant
            i <= lista.len(),
            vista_textos(r@) == faltantes(vista_textos(lista@).take(i as int), cache.instituciones@),
        decreases lista.len() - i,
    {
        let ghost t = vista_textos(lista@).take(i + 1);
        assert(t.drop_last() == vista_textos(lista@).take(i as int));
        assert(t.last() == lista@[i as int]@);
        let n = chars_de(lista[i].as_str());
        if !esta_el_nombre(&cache.instituciones, &n) {
            let ghost antes = r@;
            r.push(lista[i].clone());
            assert(vista_textos(r@) == vista_textos(antes).push(lista@[i as int]@));
        }
        i += 1;
    }
    assert(vista_textos(lista@).take(lista.len() as int) == vista_textos(lista@));
    r
}

/// The institutions of `c` whose name is in `lista`, in order.
pub open spec fn retenidas(c: Seq<Institucion>, lista: Seq<Seq<char>>) -> Seq<Institucion>
    decreases c.len(),
{
    if c.len() == 0 {
        seq![]
    } else if lista.contains(c.last().name@) {
        retenidas(c.drop_last(), lista).push(c.last())
    } else {
        retenidas(c.drop_last(), lista)
    }
}

/// The last institution of `c` named `n`.
pub open spec fn ultima_con_nombre(c: Seq<Institucion>, n: Seq<char>) -> Option<Institucion>
    decreases c.len(),
{
    if c.len() == 0 {
        None
    } else if c.last().name@ == n {
        Some(c.last())
    } else {
        ultima_con_nombre(c.drop_last(), n)
    }
}

/// For each name of `lista` that some institution of `c` has, the last such
/// institution, in the order of `lista`.
pub open spec fn seleccion(lista: Seq<Seq<char>>, c: Seq<Institucion>) -> Seq<Institucion>
    decreases lista.len(),
{
    if lista.len() == 0 {
        seq![]
    } else {
        match ultima_con_nombre(c, lista.last()) {
            Some(x) => seleccion(lista.drop_last(), c).push(x),
            None => seleccion(lista.drop_last(), c),
        }
    }
}

/// The institutions whose display name is `k`.
pub open spec fn con_nombre_visible(k: Seq<char>) -> spec_fn(Institucion) -> bool {
    |x: Institucion| x.display_name@ == k
}

/// `r` is `s` sorted by display name, institutions with the same display
/// name keeping their relative order (a stable sort).
pub open spec fn orden_estable(s: Seq<Institucion>, r: Seq<Institucion>) -> bool {
    &&& forall|i: int, j: int|
        0 <= i < j < r.len() ==> !menor_lex(
            (#[trigger] r[j]).display_name@,
            (#[trigger] r[i]).display_name@,
        )
    &&& forall|k: Seq<char>| #[trigger] r.filter(con_nombre_visible(k)) == s.filter(con_nombre_visible(k))
}

proof fn lema_filtro_unitario(x: Institucion, k: Seq<char>)
    ensures
        seq![x].filter(con_nombre_visible(k)) == (if x.display_name@ == k {
            seq![x]
        } else {
            Seq::<Institucion>::empty()
        }),
{
    reveal_with_fuel(Seq::filter, 2);
    assert(seq![x].drop_last() =~= Seq::<Institucion>::empty());
}

proof fn lema_insertar_filtro(out: Seq<Institucion>, p: int, x: Institucion, k: Seq<char>)
    requires
        0 <= p <= out.len(),
        forall|q: int| p <= q < out.len() ==> menor_lex(x.display_name@, (#[trigger] out[q]).display_name@),
    ensures
        out.insert(p, x).filter(con_nombre_visible(k)) == (if x.display_name@ == k {
            out.filter(con_nombre_visible(k)).push(x)
        } else {
            out.filter(con_nombre_visible(k))
        }),
{
    let f = con_nombre_visible(k);
    let a = out.take(p);
    let b = out.skip(p);
    assert(out.insert(p, x) =~= a + seq![x] + b);
    assert(out =~= a + b);
    Seq::filter_distributes_over_add(a + seq![x], b, f);
    Seq::filter_distributes_over_add(a, seq![x], f);
    Seq::filter_distributes_over_add(a, b, f);
    lema_filtro_unitario(x, k);
    if x.display_name@ == k {
        assert forall|q: int| 0 <= q < b.len() implies !f(#[trigger] b[q]) by {
            assert(b[q] == out[p + q]);
            if b[q].display_name@ == k {
                lema_lex_irreflexivo(k);
            }
        }
        assert(b.all(|y: Institucion| !f(y)));
        b.lemma_all_neg_filter_empty(f);
        assert(b.filter(f) =~= Seq::<Institucion>::empty());
        assert(a.filter(f) + seq![x] + b.filter(f) =~= (a.filter(f) + b.filter(f)).push(x));
    } else {
        assert(a.filter(f) + Seq::<Institucion>::empty() =~= a.filter(f));
    }
}

/// Sorts institutions by display name, stably.
pub fn ordenar_por_nombre_visible(s: &Vec<Institucion>) -> (r: Vec<Institucion>)
    ensures
        orden_estable(s@, r@),
{
    let mut out: Vec<Institucion> = Vec::new();
    let mut i: usize = 0;
    while i < s.len()
        invariant
            i <= s.len(),
            forall|a: int, b: int|
                0 <= a < b < out@.len() ==> !menor_lex(
                    (#[trigger] out@[b]).display_name@,
                    (#[trigger] out@[a]).display_name@,
                ),
            forall|k: Seq<char>|
                #[trigger] out@.filter(con_nombre_visible(k)) == s@.take(i as int).filter(
                    con_nombre_visible(k),
                ),
        decreases s.len() - i,
    {
        let x = s[i].duplicar();
        let kx = chars_de(x.display_name.as_str());
        let mut p: usize = 0;
        while p < out.len() && !menor(&kx, &chars_de(out[p].display_name.as_str()))
            invariant
                p <= out.len(),
                kx@ == x.display_name@,
                forall|q: int| 0 <= q < p ==> !menor_lex(x.display_name@, (#[trigger] out@[q]).display_name@),
            decreases out.len() - p,
        {
            p += 1;
        }
        let ghost viejo = out@;
        proof {
            assert forall|q: int| p <= q < viejo.len() implies menor_lex(x.display_name@, (#[trigger] viejo[q]).display_name@) by {
                assert(menor_lex(x.display_name@, viejo[p as int].display_name@));
                if q > p {
                    lema_lex_total(viejo[p as int].display_name@, viejo[q].display_name@);
                    if viejo[p as int].display_name@ != viejo[q].display_name@ {
                        lema_lex_transitivo(x.display_name@, viejo[p as int].display_name@, viejo[q].display_name@);
                    }
                }
            }
        }
        out.insert(p, x);
        proof {
            assert(out@ == viejo.insert(p as int, x));
            assert(s@.take(i + 1) =~= s@.take(i as int) + seq![x]);
            assert forall|k: Seq<char>| #[trigger] out@.filter(con_nombre_visible(k)) == s@.take(i + 1).filter(con_nombre_visible(k)) by {
                lema_insertar_filtro(viejo, p as int, x, k);
                Seq::filter_distributes_over_add(s@.take(i as int), seq![x], con_nombre_visible(k));
                lema_filtro_unitario(x, k);
                if x.display_name@ != k {
                    assert(s@.take(i as int).filter(con_nombre_visible(k)) + Seq::<Institucion>::empty() =~= s@.take(i as int).filter(con_nombre_visible(k)));
                }
            }
            assert forall|a: int, b: int| 0 <= a < b < out@.len() implies !menor_lex(
                (#[trigger] out@[b]).display_name@,
                (#[trigger] out@[a]).display_name@,
            ) by {
                if a < p && b == p {
                } else if a == p {
                    assert(menor_lex(x.display_name@, viejo[b - 1].display_name@));
                    crate::texto::lema_lex_asimetrico(x.display_name@, viejo[b - 1].display_name@);
                } else if a < p && b > p {
                    assert(out@[b] == viejo[b - 1]);
                } else if a > p {
                    assert(out@[a] == viejo[a - 1]);
                    assert(out@[b] == viejo[b - 1]);
                }
            }
        }
        i += 1;
    }
    assert(s@.take(s.len() as int) == s@);
    out
}

fn esta_en_lista(lista: &Vec<Vec<char>>, n: &Vec<char>) -> (r: bool)
    ensures
        r == crate::texto::vistas(lista@).contains(n@),
{
    crate::nombres::contiene(lista, n)
}

fn ultima_exec(c: &Vec<Institucion>, n: &Vec<char>) -> (r: Option<Institucion>)
    ensures
        r == ultima_con_nombre(c@, n@),
{
    let mut k: usize = c.len();
    assert(c@.take(c.len() as int) == c@);
    while k > 0
        invariant
            k <= c.len(),
            ultima_con_nombre(c@, n@) == ultima_con_nombre(c@.take(k as int), n@),
        decreases k,
    {
        let ghost t = c@.take(k as int);
        assert(t.drop_last() == c@.take(k - 1));
        assert(t.last() == c@[k - 1]);
        let v = chars_de(c[k - 1].name.as_str());
        if crate::nombres::iguales(&v, n) {
            return Some(c[k - 1].duplicar());
        }
        k -= 1;
    }
    None
}

/// The cache and the list of institutions after a refresh: the known and
/// the newly fetched institutions, restricted to those the portal still
/// lists; and, for each name that the portal lists, the last cached
/// institution of that name, sorted stably by display name.
pub fn actualizar_instituciones(
    cache: &CacheInstituciones,
    nuevas: &Vec<Institucion>,
    lista: &Vec<String>,
) -> (r: (CacheInstituciones, Vec<Institucion>))
    ensures
        r.0.instituciones@ == retenidas(cache.instituciones@ + nuevas@, vista_textos(lista@)),
        orden_estable(seleccion(vista_textos(lista@), r.0.instituciones@), r.1@),
{
    let ghost ln = vista_textos(lista@);
    let mut lv: Vec<Vec<char>> = Vec::new();
    let mut m: usize = 0;
    while m < lista.len()
        invariant
            m <= lista.len(),
            ln == vista_textos(lista@),
            crate::texto::vistas(lv@) == ln.take(m as int),
        decreases lista.len() - m,
    {
        let ghost antes = lv@;
        let v = chars_de(lista[m].as_str());
        lv.push(v);
        assert(crate::texto::vistas(lv@) == crate::texto::vistas(antes).push(v@));
        assert(crate::texto::vistas(lv@) =~= ln.take(m + 1));
        m += 1;
    }
    assert(ln.take(lista.len() as int) == ln);
    let ghost todas = cache.instituciones@ + nuevas@;
    let mut guardadas: Vec<Institucion> = Vec::new();
    let n1 = cache.instituciones.len();
    let mut i: usize = 0;
    while i < n1
        invariant
            n1 == cache.instituciones.len(),
            i <= n1,
            todas == cache.instituciones@ + nuevas@,
            crate::texto::vistas(lv@) == ln,
            guardadas@ == retenidas(todas.take(i as int), ln),
        decreases n1 - i,
    {
        let x = cache.instituciones[i].duplicar();
        assert(x == todas[i as int]);
        let ghost t = todas.take(i + 1);
        assert(t.drop_last() == todas.take(i as int));
        assert(t.last() == x);
        let nx = chars_de(x.name.as_str());
        if esta_en_lista(&lv, &nx) {
            guardadas.push(x);
        }
        i += 1;
    }
    let mut j: usize = 0;
    while j < nuevas.len()
        invariant
            n1 == cache.instituciones.len(),
            j <= nuevas.len(),
            todas == cache.instituciones@ + nuevas@,
            crate::texto::vistas(lv@) == ln,
            guardadas@ == retenidas(todas.take(n1 + j), ln),
        decreases nuevas.len() - j,
    {
        let x = nuevas[j].duplicar();
        assert(x == todas[n1 + j]);
        let ghost t = todas.take(n1 + j + 1);
        assert(t.drop_last() == todas.take(n1 + j));
        assert(t.last() == x);
        let nx = chars_de(x.name.as_str());
        if esta_en_lista(&lv, &nx) {
            guardadas.push(x);
        }
        j += 1;
    }
    assert(todas.take(n1 + nuevas.len()) == todas);
    let mut elegidas: Vec<Institucion> = Vec::new();
    let mut j: usize = 0;
    while j < lista.len()
        invariant
            j <= lista.len() == lv.len(),
            crate::texto::vistas(lv@) == ln,
            ln.len() == lista.len(),
            elegidas@ == seleccion(ln.take(j as int), guardadas@),
        decreases lista.len() - j,
    {
        let ghost t = ln.take(j + 1);
        assert(t.drop_last() == ln.take(j as int));
        assert(t.last() == lv@[j as int]@);
        match ultima_exec(&guardadas, &lv[j]) {
            Some(x) => {
                elegidas.push(x);
            },
            None => {},
        }
        j += 1;
    }
    assert(ln.take(lista.len() as int) == ln);
    let ordenadas = ordenar_por_nombre_visible(&elegidas);
    (CacheInstituciones { instituciones: guardadas }, ordenadas)
}

} // verus!
