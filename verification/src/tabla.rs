use vstd::prelude::*;

use crate::nombres::contiene;
use crate::texto::{Criterio, recortado, recortar, cadena_de, chars_de, lema_lex_asimetrico, lema_lex_irreflexivo, lema_lex_total, lema_lex_transitivo, menor, menor_lex, vista_textos, vistas};
use crate::columnas::{
    Regla, celda_transformada, limpiar_coordenadas, limpiar_fechas, limpiar_numericas,
    transformar_celdas, vista_celda, vista_columna,
};
use polars::prelude::{
    CsvReadOptions, CsvReader, DataType, NamedFrom, SerReader, StringChunked, StringMethods,
};
use std::io::Cursor;
use std::sync::Arc;

verus! {

/// The type that the validator assigns to a column.
#[derive(Clone, Copy, PartialEq, Eq, Debug)]
pub enum TipoColumna {
    Numero,
    Coordenada,
    Fecha,
    Texto,
}

/// The data types of the table's columns that the validator distinguishes:
/// 64-bit float, date, string, and every other type.
#[derive(Clone, Copy, PartialEq, Eq, Debug)]
pub enum TipoDato {
    Float64,
    Date,
    String,
    Otro,
}

pub open spec fn tipo_de_dato(t: TipoColumna) -> TipoDato {
    match t {
        TipoColumna::Numero => TipoDato::Float64,
        TipoColumna::Fecha => TipoDato::Date,
        TipoColumna::Texto => TipoDato::String,
        TipoColumna::Coordenada => TipoDato::Float64,
    }
}

pub open spec fn tipo_de_columna(dt: TipoDato, coord: bool) -> TipoColumna {
    match dt {
        TipoDato::Float64 => if coord {
            TipoColumna::Coordenada
        } else {
            TipoColumna::Numero
        },
        TipoDato::Date => TipoColumna::Fecha,
        _ => TipoColumna::Texto,
    }
}

impl TipoColumna {
    /// The data type in which a column of this type is stored.
    pub fn to_polartype(&self) -> (r: TipoDato)
        ensures
            r == tipo_de_dato(*self),
    {
        match self {
            TipoColumna::Numero => TipoDato::Float64,
            TipoColumna::Fecha => TipoDato::Date,
            TipoColumna::Texto => TipoDato::String,
            TipoColumna::Coordenada => TipoDato::Float64,
        }
    }

    /// The type of a column stored with data type `dt`; a float column is a
    /// coordinate when `coord` says so.
    pub fn from_polartype(dt: &TipoDato, coord: bool) -> (r: TipoColumna)
        ensures
            r == tipo_de_columna(*dt, coord),
    {
        match dt {
            TipoDato::Float64 => {
                if coord {
                    TipoColumna::Coordenada
                } else {
                    TipoColumna::Numero
                }
            },
            TipoDato::Date => TipoColumna::Fecha,
            _ => TipoColumna::Texto,
        }
    }
}

/// The transformations that a user can ask for on a column.
#[derive(Clone, Copy, PartialEq, Eq, Debug)]
pub enum OpcionesTrans {
    Texto,
    TextoSinGuiones,
    TextoMinusculas,
    TextoCapitalizado,
    Numero,
    Coordenada,
    Fecha,
    Anonimizar,
    EliminarColumna,
}

/// A transformation of column `nombre`, which is renamed `nuevo`.
#[derive(Clone, Debug)]
pub struct Transformacion {
    pub nombre: String,
    pub nuevo: String,
    pub accion: OpcionesTrans,
}

/// A transformed column: final text, cleaned text still to be converted to
/// 64-bit floats, or dates (days since 1970-01-01).
#[derive(Clone, Debug)]
pub enum ColumnaPreparada {
    Texto(Vec<Option<String>>),
    PorConvertirANumero(Vec<Option<String>>),
    Fechas(Vec<Option<i32>>),
}

/// The per-cell rule and the kind of result of each transformation.
pub open spec fn regla_de(accion: OpcionesTrans) -> (u8, Regla) {
    match accion {
        OpcionesTrans::Texto => (0, Regla::Texto),
        OpcionesTrans::TextoSinGuiones => (0, Regla::SinGuiones),
        OpcionesTrans::TextoMinusculas => (0, Regla::Minusculas),
        OpcionesTrans::TextoCapitalizado => (0, Regla::Capitalizado),
        OpcionesTrans::Anonimizar => (0, Regla::Anonimizado),
        OpcionesTrans::Numero => (1, Regla::Numerica),
        OpcionesTrans::Coordenada => (1, Regla::Coordenada),
        _ => (2, Regla::Fecha),
    }
}

/// A column with a rule applied to each cell.
pub open spec fn columna_transformada(regla: Regla, c: Seq<Option<Seq<char>>>) -> Seq<Option<Seq<char>>> {
    Seq::new(c.len(), |i: int| celda_transformada(regla, c[i]))
}

/// The message of a column that no date format converts.
pub open spec fn sin_formato_de_fecha() -> Seq<char> {
    "No se pudo convertir a fecha"@
}

/// Applies a transformation (other than dropping the column) to the cells
/// of a column: text transformations give the final text; numeric and
/// coordinate transformations give the cleaned text to be converted to
/// 64-bit floats; the date transformation cleans the text and converts it
/// with the first date format that polars accepts, and fails when none does.
pub fn aplicar_transformacion(celdas: &Vec<Option<String>>, accion: OpcionesTrans) -> (r: Result<
    ColumnaPreparada,
    String,
>)
    requires
        !(accion is EliminarColumna),
    ensures
        ({
            let limpia = columna_transformada(regla_de(accion).1, vista_columna(celdas@));
            match r {
                Ok(ColumnaPreparada::Texto(v)) => regla_de(accion).0 == 0 && vista_columna(v@)
                    == limpia,
                Ok(ColumnaPreparada::PorConvertirANumero(v)) => regla_de(accion).0 == 1
                    && vista_columna(v@) == limpia,
                Ok(ColumnaPreparada::Fechas(d)) => regla_de(accion).0 == 2 && primer_parseo(
                    limpia,
                    0,
                ) == Some(d@),
                Err(m) => regla_de(accion).0 == 2 && primer_parseo(limpia, 0) is None && m@
                    == sin_formato_de_fecha(),
            }
        }),
{
    let ghost limpia = columna_transformada(regla_de(accion).1, vista_columna(celdas@));
    let (tipo, v): (u8, Vec<Option<String>>) = match accion {
        OpcionesTrans::Texto => (0u8, transformar_celdas(celdas, Regla::Texto)),
        OpcionesTrans::TextoSinGuiones => (0u8, transformar_celdas(celdas, Regla::SinGuiones)),
        OpcionesTrans::TextoMinusculas => (0u8, transformar_celdas(celdas, Regla::Minusculas)),
        OpcionesTrans::TextoCapitalizado => (0u8, transformar_celdas(celdas, Regla::Capitalizado)),
        OpcionesTrans::Anonimizar => (0u8, transformar_celdas(celdas, Regla::Anonimizado)),
        OpcionesTrans::Numero => (1u8, limpiar_numericas(celdas)),
        OpcionesTrans::Coordenada => (1u8, limpiar_coordenadas(celdas)),
        _ => (2u8, limpiar_fechas(celdas)),
    };
    assert(vista_columna(v@) =~= limpia);
    if tipo == 0 {
        Ok(ColumnaPreparada::Texto(v))
    } else if tipo == 1 {
        Ok(ColumnaPreparada::PorConvertirANumero(v))
    } else {
        match fechas_con_primer_formato(&v) {
            Some(d) => Ok(ColumnaPreparada::Fechas(d)),
            None => Err(String::from_str("No se pudo convertir a fecha")),
        }
    }
}

/// The date formats tried, in order, on a text column.
pub open spec fn formato_fecha(k: int) -> Seq<char> {
    if k == 0 {
        "%Y-%m-%d"@
    } else if k == 1 {
        "%d-%m-%Y"@
    } else if k == 2 {
        "%Y/%m/%d"@
    } else {
        "%d/%m/%Y"@
    }
}

/// The date formats tried, in order, on a text column.
pub fn formatos_fecha() -> (r: Vec<String>)
    ensures
        r@.len() == 4,
        forall|k: int| 0 <= k < 4 ==> (#[trigger] r@[k])@ == formato_fecha(k),
{
    let mut r: Vec<String> = Vec::new();
    r.push(String::from_str("%Y-%m-%d"));
    r.push(String::from_str("%d-%m-%Y"));
    r.push(String::from_str("%Y/%m/%d"));
    r.push(String::from_str("%d/%m/%Y"));
    r
}

/// What polars' `StringMethods::as_date` gives for text cells and a format
/// (with its cache of converted texts): the days since 1970-01-01 of each
/// cell, a text that does not parse giving a null value; `None` when polars
/// reports an error.
pub uninterp spec fn fechas_de_texto(celdas: Seq<Option<Seq<char>>>, formato: Seq<char>) -> Option<
    Seq<Option<i32>>,
>;

/// `StringMethods::as_date` of polars on the cells, and the physical values
/// (days) of the resulting date column. The contract names the result and
/// states that it has one value per cell; which texts parse under a format
/// is not stated.
#[verifier::external_body]
fn parsear_fechas(celdas: &Vec<Option<String>>, formato: &str) -> (r: Option<Vec<Option<i32>>>)
    ensures
        match r {
            Some(d) => fechas_de_texto(vista_columna(celdas@), formato@) == Some(d@) && d.len()
                == celdas.len(),
            None => fechas_de_texto(vista_columna(celdas@), formato@) is None,
        },
{
    let fechas = StringChunked::new("f".into(), celdas.as_slice()).as_date(Some(formato), true).ok()?;
    Some(fechas.physical().iter().collect())
}

/// The number of null cells.
pub open spec fn nulos_celdas(c: Seq<Option<Seq<char>>>) -> nat
    decreases c.len(),
{
    if c.len() == 0 {
        0
    } else {
        nulos_celdas(c.drop_last()) + if c.last() is None { 1nat } else { 0nat }
    }
}

/// The strict conversion of text cells to dates with a format (`to_date` with
/// `strict` and `exact` set): the conversion fails when it leaves more null
/// values than there were null cells, that is, when some text does not
/// parse.
pub open spec fn fechas_parseadas(c: Seq<Option<Seq<char>>>, formato: Seq<char>) -> Option<Seq<Option<i32>>> {
    match fechas_de_texto(c, formato) {
        Some(d) => if nulos(d) == nulos_celdas(c) {
            Some(d)
        } else {
            None
        },
        None => None,
    }
}

fn contar_nulos_celdas(c: &Vec<Option<String>>) -> (r: usize)
    ensures
        r == nulos_celdas(vista_columna(c@)),
{
    let ghost v = vista_columna(c@);
    let mut n: usize = 0;
    let mut i: usize = 0;
    while i < c.len()
        invariant
            i <= c.len(),
            v == vista_columna(c@),
            n == nulos_celdas(v.take(i as int)),
            n <= i,
        decreases c.len() - i,
    {
        assert(v.take(i + 1).drop_last() == v.take(i as int));
        assert(v.take(i + 1).last() == vista_celda(c@[i as int]));
        if c[i].is_none() {
            n += 1;
        }
        i += 1;
    }
    assert(v.take(c.len() as int) == v);
    n
}

/// Converts text cells to dates with a format, strictly (see
/// `fechas_parseadas`).
fn parsear_estricto(celdas: &Vec<Option<String>>, formato: &str) -> (r: Option<Vec<Option<i32>>>)
    ensures
        match r {
            Some(d) => fechas_parseadas(vista_columna(celdas@), formato@) == Some(d@) && d.len()
                == celdas.len(),
            None => fechas_parseadas(vista_columna(celdas@), formato@) is None,
        },
{
    match parsear_fechas(celdas, formato) {
        Some(d) => {
            if contar_nulos(&d) == contar_nulos_celdas(celdas) {
                Some(d)
            } else {
                None
            }
        },
        None => None,
    }
}

/// The number of null values.
pub open spec fn nulos(d: Seq<Option<i32>>) -> nat
    decreases d.len(),
{
    if d.len() == 0 {
        0
    } else {
        nulos(d.drop_last()) + if d.last() is None { 1nat } else { 0nat }
    }
}

/// The dates of the first format, from the `k`-th on, under which the
/// conversion succeeds.
pub open spec fn primer_parseo(c: Seq<Option<Seq<char>>>, k: int) -> Option<Seq<Option<i32>>>
    decreases 4 - k,
{
    if k >= 4 || k < 0 {
        None
    } else {
        match fechas_parseadas(c, formato_fecha(k)) {
            Some(d) => Some(d),
            None => primer_parseo(c, k + 1),
        }
    }
}

/// The dates of the first format, from the `k`-th on, under which the
/// conversion succeeds and leaves at least one value that is not null.
pub open spec fn primer_aceptado(c: Seq<Option<Seq<char>>>, k: int) -> Option<Seq<Option<i32>>>
    decreases 4 - k,
{
    if k >= 4 || k < 0 {
        None
    } else {
        match fechas_parseadas(c, formato_fecha(k)) {
            Some(d) => if nulos(d) < d.len() {
                Some(d)
            } else {
                primer_aceptado(c, k + 1)
            },
            None => primer_aceptado(c, k + 1),
        }
    }
}

/// The date formats of the validator, in the order in which they are tried:
/// `%Y-%m-%d`, `%d-%m-%Y`, `%Y/%m/%d`, `%d/%m/%Y`.
pub open spec fn formatos_de_fecha() -> Seq<Seq<char>> {
    seq![seq!['%', 'Y', '-', '%', 'm', '-', '%', 'd'], seq!['%', 'd', '-', '%', 'm', '-', '%', 'Y'], seq!['%', 'Y', '/', '%', 'm', '/', '%', 'd'], seq!['%', 'd', '/', '%', 'm', '/', '%', 'Y']]
}

/// A conversion that succeeded and left a value that is not null.
pub open spec fn acepta(d: Option<Seq<Option<i32>>>) -> bool {
    match d {
        Some(v) => nulos(v) < v.len(),
        None => false,
    }
}

/// A column converts to the dates of the first of the four formats, in order,
/// under which the strict conversion succeeds, and fails when it succeeds
/// under none; the cast of a loaded file takes the first format under which
/// the conversion succeeds and leaves a value that is not null.
pub proof fn lema_orden_de_formatos(c: Seq<Option<Seq<char>>>, k: int)
    requires
        0 <= k < 4,
    ensures
        ({
            let f = formatos_de_fecha();
            &&& (fechas_parseadas(c, f[k]) is Some && forall|m: int|
                0 <= m < k ==> #[trigger] fechas_parseadas(c, f[m]) is None) ==> primer_parseo(c, 0)
                == fechas_parseadas(c, f[k])
            &&& (forall|m: int| 0 <= m < 4 ==> #[trigger] fechas_parseadas(c, f[m]) is None)
                ==> primer_parseo(c, 0) is None
            &&& (acepta(fechas_parseadas(c, f[k])) && forall|m: int|
                0 <= m < k ==> !acepta(#[trigger] fechas_parseadas(c, f[m]))) ==> primer_aceptado(
                c,
                0,
            ) == fechas_parseadas(c, f[k])
            &&& (forall|m: int| 0 <= m < 4 ==> !acepta(#[trigger] fechas_parseadas(c, f[m])))
                ==> primer_aceptado(c, 0) is None
        }),
{
    reveal_strlit("%Y-%m-%d");
    reveal_strlit("%d-%m-%Y");
    reveal_strlit("%Y/%m/%d");
    reveal_strlit("%d/%m/%Y");
    let f = formatos_de_fecha();
    assert(f[0] == seq!['%', 'Y', '-', '%', 'm', '-', '%', 'd']);
    assert(formato_fecha(0) =~= f[0]);
    assert(f[1] == seq!['%', 'd', '-', '%', 'm', '-', '%', 'Y']);
    assert(formato_fecha(1) =~= f[1]);
    assert(f[2] == seq!['%', 'Y', '/', '%', 'm', '/', '%', 'd']);
    assert(formato_fecha(2) =~= f[2]);
    assert(f[3] == seq!['%', 'd', '/', '%', 'm', '/', '%', 'Y']);
    assert(formato_fecha(3) =~= f[3]);
    reveal_with_fuel(primer_parseo, 5);
    reveal_with_fuel(primer_aceptado, 5);
    let p0 = fechas_parseadas(c, f[0]);
    let p1 = fechas_parseadas(c, f[1]);
    let p2 = fechas_parseadas(c, f[2]);
    let p3 = fechas_parseadas(c, f[3]);
    assert(primer_parseo(c, 3) == (if p3 is Some { p3 } else { None }));
    assert(primer_parseo(c, 2) == (if p2 is Some { p2 } else { primer_parseo(c, 3) }));
    assert(primer_parseo(c, 1) == (if p1 is Some { p1 } else { primer_parseo(c, 2) }));
    assert(primer_parseo(c, 0) == (if p0 is Some { p0 } else { primer_parseo(c, 1) }));
    assert(primer_aceptado(c, 3) == (if acepta(p3) { p3 } else { None }));
    assert(primer_aceptado(c, 2) == (if acepta(p2) { p2 } else { primer_aceptado(c, 3) }));
    assert(primer_aceptado(c, 1) == (if acepta(p1) { p1 } else { primer_aceptado(c, 2) }));
    assert(primer_aceptado(c, 0) == (if acepta(p0) { p0 } else { primer_aceptado(c, 1) }));
}

fn contar_nulos(d: &Vec<Option<i32>>) -> (r: usize)
    ensures
        r == nulos(d@),
{
    let mut n: usize = 0;
    let mut i: usize = 0;
    while i < d.len()
        invariant
            i <= d.len(),
            n == nulos(d@.take(i as int)),
            n <= i,
        decreases d.len() - i,
    {
        assert(d@.take(i + 1).drop_last() == d@.take(i as int));
        if d[i].is_none() {
            n += 1;
        }
        i += 1;
    }
    assert(d@.take(d.len() as int) == d@);
    n
}

/// Converts text cells to dates with the first format that polars accepts
/// (the conversion of a column that the user asks to become dates).
pub fn fechas_con_primer_formato(celdas: &Vec<Option<String>>) -> (r: Option<Vec<Option<i32>>>)
    ensures
        match r {
            Some(d) => primer_parseo(vista_columna(celdas@), 0) == Some(d@) && d.len() == celdas.len(),
            None => primer_parseo(vista_columna(celdas@), 0) is None,
        },
{
    let formatos = formatos_fecha();
    let ghost c = vista_columna(celdas@);
    let mut k: usize = 0;
    while k < 4
        invariant
            k <= 4,
            formatos@.len() == 4,
            forall|m: int| 0 <= m < 4 ==> (#[trigger] formatos@[m])@ == formato_fecha(m),
            c == vista_columna(celdas@),
            primer_parseo(c, 0) == primer_parseo(c, k as int),
        decreases 4 - k,
    {
        match parsear_estricto(celdas, formatos[k].as_str()) {
            Some(d) => {
                return Some(d);
            },
            None => {},
        }
        k += 1;
    }
    None
}

/// Converts a text column to dates when some format leaves a value that is
/// not null: the first such format is used, and `None` means the column
/// stays as it is (the conversion tried on every column of a loaded file).
pub fn castear_fechas(celdas: &Vec<Option<String>>) -> (r: Option<Vec<Option<i32>>>)
    ensures
        match r {
            Some(d) => primer_aceptado(vista_columna(celdas@), 0) == Some(d@) && d.len() == celdas.len(),
            None => primer_aceptado(vista_columna(celdas@), 0) is None,
        },
{
    let formatos = formatos_fecha();
    let ghost c = vista_columna(celdas@);
    let mut k: usize = 0;
    while k < 4
        invariant
            k <= 4,
            formatos@.len() == 4,
            forall|m: int| 0 <= m < 4 ==> (#[trigger] formatos@[m])@ == formato_fecha(m),
            c == vista_columna(celdas@),
            primer_aceptado(c, 0) == primer_aceptado(c, k as int),
        decreases 4 - k,
    {
        match parsear_estricto(celdas, formatos[k].as_str()) {
            Some(d) => {
                if contar_nulos(&d) < d.len() {
                    return Some(d);
                }
            },
            None => {},
        }
        k += 1;
    }
    None
}

/// A cell after the value changes `cambios` (pairs of original and new
/// value): the last pair whose original equals the cell decides; null cells
/// and cells without a pair stay as they are.
pub open spec fn celda_cambiada(c: Option<Seq<char>>, cambios: Seq<(Seq<char>, Seq<char>)>) -> Option<
    Seq<char>,
>
    decreases cambios.len(),
{
    if cambios.len() == 0 {
        c
    } else if c == Some(cambios.last().0) {
        Some(cambios.last().1)
    } else {
        celda_cambiada(c, cambios.drop_last())
    }
}

pub open spec fn vista_cambios(v: Seq<(String, String)>) -> Seq<(Seq<char>, Seq<char>)> {
    v.map_values(|p: (String, String)| (p.0@, p.1@))
}

fn cambiar_celda(c: &Option<String>, cambios: &Vec<(String, String)>) -> (r: Option<String>)
    ensures
        vista_celda(r) == celda_cambiada(vista_celda(*c), vista_cambios(cambios@)),
{
    match c {
        None => {
            proof {
                lema_cambios_nulos(vista_cambios(cambios@));
            }
            None
        },
        Some(s) => {
            let mut k: usize = cambios.len();
            let ghost v = vista_cambios(cambios@);
            assert(v.take(v.len() as int) == v);
            while k > 0
                invariant
                    k <= cambios.len(),
                    v == vista_cambios(cambios@),
                    vista_celda(*c) == Some(s@),
                    celda_cambiada(Some(s@), v) == celda_cambiada(Some(s@), v.take(k as int)),
                decreases k,
            {
                let ghost t = v.take(k as int);
                assert(t.drop_last() == v.take(k - 1));
                assert(t.last() == (cambios@[k - 1].0@, cambios@[k - 1].1@));
                if cambios[k - 1].0 == *s {
                    let nuevo = cambios[k - 1].1.clone();
                    assert(t.len() > 0);
                    assert(t.last().0 == s@);
                    assert(celda_cambiada(Some(s@), t) == Some(t.last().1));
                    assert(nuevo@ == t.last().1);
                    assert(vista_celda(*c) == Some(s@));
                    return Some(nuevo);
                }
                k -= 1;
            }
            Some(s.clone())
        },
    }
}

proof fn lema_cambios_nulos(v: Seq<(Seq<char>, Seq<char>)>)
    ensures
        celda_cambiada(None, v) == None::<Seq<char>>,
    decreases v.len(),
{
    if v.len() > 0 {
        lema_cambios_nulos(v.drop_last());
    }
}

/// Applies the value changes to every cell of a column.
pub fn cambiar_valores(celdas: &Vec<Option<String>>, cambios: &Vec<(String, String)>) -> (r: Vec<
    Option<String>,
>)
    ensures
        r.len() == celdas.len(),
        forall|i: int|
            0 <= i < r.len() ==> vista_celda(#[trigger] r@[i]) == celda_cambiada(
                vista_celda(celdas@[i]),
                vista_cambios(cambios@),
            ),
{
    let mut r: Vec<Option<String>> = Vec::new();
    let mut i: usize = 0;
    while i < celdas.len()
        invariant
            i <= celdas.len(),
            r.len() == i,
            forall|j: int|
                0 <= j < i ==> vista_celda(#[trigger] r@[j]) == celda_cambiada(
                    vista_celda(celdas@[j]),
                    vista_cambios(cambios@),
                ),
        decreases celdas.len() - i,
    {
        r.push(cambiar_celda(&celdas[i], cambios));
        i += 1;
    }
    r
}

pub open spec fn vista_columnas(v: Seq<(String, TipoDato)>) -> Seq<(Seq<char>, TipoDato)> {
    v.map_values(|p: (String, TipoDato)| (p.0@, p.1))
}


/// `claves` and `tipos` form the schema of the first `hasta` columns of
/// `cols`: each column name once, in increasing order, with the type of the
/// last column of that name (a float column being a coordinate when its name
/// is in `coords`).
pub open spec fn esquema_valido(
    cols: Seq<(Seq<char>, TipoDato)>,
    coords: Seq<Seq<char>>,
    claves: Seq<Seq<char>>,
    tipos: Seq<TipoColumna>,
    hasta: int,
) -> bool {
    &&& claves.len() == tipos.len()
    &&& forall|a: int, b: int|
        0 <= a < b < claves.len() ==> menor_lex(#[trigger] claves[a], #[trigger] claves[b])
    &&& forall|k: Seq<char>|
        #![trigger claves.contains(k)]
        claves.contains(k) <==> exists|j: int| 0 <= j < hasta && (#[trigger] cols[j]).0 == k
    &&& forall|a: int|
        #![trigger claves[a]]
        0 <= a < claves.len() ==> exists|j: int|
            0 <= j < hasta && (#[trigger] cols[j]).0 == claves[a] && tipos[a] == tipo_de_columna(
                cols[j].1,
                coords.contains(claves[a]),
            ) && forall|j2: int| j < j2 < hasta ==> (#[trigger] cols[j2]).0 != claves[a]
}

/// The schema of a table: the type of each column, by column name in
/// increasing order (a map keyed by name, so a later column replaces an
/// earlier one of the same name).
#[verifier::rlimit(40)]
#[verifier::spinoff_prover]
pub fn construir_esquema(columnas: &Vec<(String, TipoDato)>, coords: &Vec<String>) -> (r: Vec<
    (String, TipoColumna),
>)
    ensures
        esquema_valido(
            vista_columnas(columnas@),
            vista_textos(coords@),
            r@.map_values(|p: (String, TipoColumna)| p.0@),
            r@.map_values(|p: (String, TipoColumna)| p.1),
            columnas.len() as int,
        ),
{
    let ghost cols = vista_columnas(columnas@);
    let ghost cs = vista_textos(coords@);
    let mut coords_v: Vec<Vec<char>> = Vec::new();
    let mut m: usize = 0;
    while m < coords.len()
        invariant
            m <= coords.len(),
            cs == vista_textos(coords@),
            vistas(coords_v@) == cs.take(m as int),
        decreases coords.len() - m,
    {
        let ghost antes = coords_v@;
        let v = chars_de(coords[m].as_str());
        assert(v@ == cs[m as int]);
        coords_v.push(v);
        assert(vistas(coords_v@) == vistas(antes).push(v@));
        assert(vistas(coords_v@) =~= cs.take(m + 1));
        m += 1;
    }
    assert(cs.take(coords.len() as int) == cs);
    let mut claves: Vec<Vec<char>> = Vec::new();
    let mut tipos: Vec<TipoColumna> = Vec::new();
    let mut j: usize = 0;
    while j < columnas.len()
        invariant
            j <= columnas.len(),
            cols == vista_columnas(columnas@),
            vistas(coords_v@) == cs,
            esquema_valido(cols, cs, vistas(claves@), tipos@, j as int),
        decreases columnas.len() - j,
    {
        let nombre = chars_de(columnas[j].0.as_str());
        let es_coord = contiene(&coords_v, &nombre);
        let tipo = TipoColumna::from_polartype(&columnas[j].1, es_coord);
        assert(cols[j as int] == (nombre@, columnas@[j as int].1));
        let ghost ks = vistas(claves@);
        let ghost ts = tipos@;
        let mut p: usize = 0;
        while p < claves.len() && menor(&claves[p], &nombre)
            invariant
                p <= claves.len(),
                ks == vistas(claves@),
                forall|a: int| 0 <= a < p ==> menor_lex(#[trigger] ks[a], nombre@),
            decreases claves.len() - p,
        {
            p += 1;
        }
        let encontrado = p < claves.len() && crate::nombres::iguales(&claves[p], &nombre);
        if encontrado {
            tipos.set(p, tipo);
            proof {
                assert forall|k: Seq<char>| ks.contains(k) <==> exists|jj: int| 0 <= jj < j + 1 && (#[trigger] cols[jj]).0 == k by {
                    if exists|jj: int| 0 <= jj < j + 1 && (#[trigger] cols[jj]).0 == k {
                        let jj = choose|jj: int| 0 <= jj < j + 1 && (#[trigger] cols[jj]).0 == k;
                        if jj == j {
                            assert(ks[p as int] == k);
                        }
                    }
                }
                assert forall|a: int| #![trigger ks[a]] 0 <= a < ks.len() implies exists|jj: int|
                    0 <= jj < j + 1 && (#[trigger] cols[jj]).0 == ks[a] && tipos@[a] == tipo_de_columna(
                        cols[jj].1,
                        cs.contains(ks[a]),
                    ) && forall|j2: int| jj < j2 < j + 1 ==> (#[trigger] cols[j2]).0 != ks[a] by {
                    if a == p {
                        assert(cols[j as int].0 == ks[a]);
                    } else {
                        let jj = choose|jj: int|
                            0 <= jj < j && (#[trigger] cols[jj]).0 == ks[a] && ts[a] == tipo_de_columna(
                                cols[jj].1,
                                cs.contains(ks[a]),
                            ) && forall|j2: int| jj < j2 < j ==> (#[trigger] cols[j2]).0 != ks[a];
                        assert(ks[a] != ks[p as int]) by {
                            if a < p {
                                lema_lex_irreflexivo(ks[a]);
                            } else {
                                lema_lex_irreflexivo(ks[p as int]);
                            }
                        }
                        assert(cols[j as int].0 != ks[a]);
                    }
                }
            }
        } else {
            proof {
                if p < ks.len() {
                    lema_lex_total(ks[p as int], nombre@);
                }
            }
            let ghost ks_viejo = ks;
            claves.insert(p, nombre);
            tipos.insert(p, tipo);
            proof {
                let nks = vistas(claves@);
                assert(nks =~= ks.insert(p as int, nombre@));
                assert(!ks.contains(nombre@)) by {
                    if ks.contains(nombre@) {
                        let a = choose|a: int| 0 <= a < ks.len() && ks[a] == nombre@;
                        if a < p {
                            lema_lex_irreflexivo(nombre@);
                        } else if a > p {
                            lema_lex_asimetrico(nombre@, ks[p as int]);
                            lema_lex_transitivo(nombre@, ks[p as int], ks[a]);
                            lema_lex_irreflexivo(nombre@);
                        }
                    }
                }
                assert forall|a: int, b: int| 0 <= a < b < nks.len() implies menor_lex(#[trigger] nks[a], #[trigger] nks[b]) by {
                    if b == p {
                        assert(menor_lex(ks[a], nombre@));
                    } else if a == p {
                        assert(nks[b] == ks[b - 1]);
                        if b - 1 > p {
                            lema_lex_transitivo(nombre@, ks[p as int], ks[b - 1]);
                        }
                    } else if a < p && b > p {
                        assert(nks[b] == ks[b - 1]);
                    } else if a > p {
                        assert(nks[a] == ks[a - 1]);
                        assert(nks[b] == ks[b - 1]);
                    }
                }
                assert forall|k: Seq<char>| nks.contains(k) <==> exists|jj: int| 0 <= jj < j + 1 && (#[trigger] cols[jj]).0 == k by {
                    if nks.contains(k) {
                        let a = choose|a: int| 0 <= a < nks.len() && nks[a] == k;
                        if a < p {
                            assert(ks.contains(k));
                        } else if a > p {
                            assert(nks[a] == ks[a - 1]);
                            assert(ks.contains(k));
                        } else {
                            assert(cols[j as int].0 == k);
                        }
                    }
                    if exists|jj: int| 0 <= jj < j + 1 && (#[trigger] cols[jj]).0 == k {
                        let jj = choose|jj: int| 0 <= jj < j + 1 && (#[trigger] cols[jj]).0 == k;
                        if jj == j {
                            assert(nks[p as int] == k);
                        } else {
                            assert(ks.contains(k));
                            let a = choose|a: int| 0 <= a < ks.len() && ks[a] == k;
                            if a < p {
                                assert(nks[a] == k);
                            } else {
                                assert(nks[a + 1] == k);
                            }
                        }
                    }
                }
                assert forall|a: int| #![trigger nks[a]] 0 <= a < nks.len() implies exists|jj: int|
                    0 <= jj < j + 1 && (#[trigger] cols[jj]).0 == nks[a] && tipos@[a] == tipo_de_columna(
                        cols[jj].1,
                        cs.contains(nks[a]),
                    ) && forall|j2: int| jj < j2 < j + 1 ==> (#[trigger] cols[j2]).0 != nks[a] by {
                    if a == p {
                        assert(cols[j as int].0 == nks[a]);
                    } else {
                        let b = if a < p { a } else { a - 1 };
                        assert(nks[a] == ks[b]);
                        assert(tipos@[a] == ts[b]);
                        let jj = choose|jj: int|
                            0 <= jj < j && (#[trigger] cols[jj]).0 == ks[b] && ts[b] == tipo_de_columna(
                                cols[jj].1,
                                cs.contains(ks[b]),
                            ) && forall|j2: int| jj < j2 < j ==> (#[trigger] cols[j2]).0 != ks[b];
                        assert(ks.contains(ks[b]));
                        assert(cols[j as int].0 != ks[b]);
                    }
                }
            }
        }
        j += 1;
    }
    let mut r: Vec<(String, TipoColumna)> = Vec::new();
    let mut a: usize = 0;
    while a < claves.len()
        invariant
            a <= claves.len() == tipos.len(),
            r.len() == a,
            forall|b: int| 0 <= b < a ==> (#[trigger] r@[b]).0@ == claves@[b]@ && r@[b].1 == tipos@[b],
        decreases claves.len() - a,
    {
        r.push((cadena_de(&claves[a]), tipos[a]));
        a += 1;
    }
    proof {
        assert(r@.map_values(|p: (String, TipoColumna)| p.0@) =~= vistas(claves@));
        assert(r@.map_values(|p: (String, TipoColumna)| p.1) =~= tipos@);
    }
    r
}

pub open spec fn vista_tabla(t: Seq<Vec<Option<String>>>) -> Seq<Seq<Option<Seq<char>>>> {
    t.map_values(|c: Vec<Option<String>>| crate::columnas::vista_columna(c@))
}

/// A cell without leading and trailing spaces.
pub open spec fn celda_sin_espacios(c: Option<Seq<char>>) -> Option<Seq<char>> {
    match c {
        Some(x) => Some(recortado(x, Criterio::Espacio)),
        None => None,
    }
}

/// Cleaning a cell removes only plain spaces, and all of them at both ends:
/// the cleaned text is a contiguous part of the cell, everything before and
/// after it is a space (`' '`), and it neither starts nor ends with one.
pub proof fn lema_sin_espacios(x: Seq<char>)
    ensures
        exists|i: int, j: int|
            0 <= i <= j <= x.len() && celda_sin_espacios(Some(x)) == Some(x.subrange(i, j)) && (
            forall|m: int| 0 <= m < i ==> #[trigger] x[m] == ' ') && (forall|m: int|
                j <= m < x.len() ==> #[trigger] x[m] == ' ') && (i < j ==> x[i] != ' ' && x[j - 1]
                != ' '),
{
    crate::texto::lema_recortado_extremos(x, Criterio::Espacio);
    let (i, j) = choose|i: int, j: int|
        0 <= i <= j <= x.len() && recortado(x, Criterio::Espacio) == x.subrange(i, j) && (forall|m: int|
            0 <= m < i ==> crate::texto::cumple_criterio(Criterio::Espacio, #[trigger] x[m])) && (forall|m: int|
            j <= m < x.len() ==> crate::texto::cumple_criterio(Criterio::Espacio, #[trigger] x[m])) && (i < j
            ==> !crate::texto::cumple_criterio(Criterio::Espacio, x[i]) && !crate::texto::cumple_criterio(
            Criterio::Espacio,
            x[j - 1],
        ));
    assert(forall|m: int| 0 <= m < i ==> #[trigger] x[m] == ' ');
    assert(forall|m: int| j <= m < x.len() ==> #[trigger] x[m] == ' ');
}

/// Row `f` has a cell that, without surrounding spaces, is not empty.
pub open spec fn fila_con_datos(t: Seq<Seq<Option<Seq<char>>>>, f: int) -> bool {
    exists|c: int|
        0 <= c < t.len() && match celda_sin_espacios(#[trigger] t[c][f]) {
            Some(x) => x.len() > 0,
            None => false,
        }
}

/// The rows among the first `alto` that have data, in order.
pub open spec fn filas_con_datos(t: Seq<Seq<Option<Seq<char>>>>, alto: int) -> Seq<int>
    decreases alto,
{
    if alto <= 0 {
        seq![]
    } else if fila_con_datos(t, alto - 1) {
        filas_con_datos(t, alto - 1).push(alto - 1)
    } else {
        filas_con_datos(t, alto - 1)
    }
}

pub open spec fn alto_de(t: Seq<Seq<Option<Seq<char>>>>) -> int {
    if t.len() == 0 {
        0
    } else {
        t[0].len() as int
    }
}

proof fn lema_filas_con_datos(t: Seq<Seq<Option<Seq<char>>>>, alto: int)
    requires
        alto >= 0,
    ensures
        forall|k: int|
            0 <= k < filas_con_datos(t, alto).len() ==> 0 <= #[trigger] filas_con_datos(t, alto)[k]
                < alto,
    decreases alto,
{
    if alto > 0 {
        lema_filas_con_datos(t, alto - 1);
        let p = filas_con_datos(t, alto - 1);
        if fila_con_datos(t, alto - 1) {
            assert forall|k: int| 0 <= k < p.push(alto - 1).len() implies 0 <= #[trigger] p.push(alto - 1)[k] < alto by {
                if k < p.len() {
                    assert(p.push(alto - 1)[k] == p[k]);
                }
            }
        }
    }
}

fn sin_espacios(c: &Option<String>) -> (r: Option<String>)
    ensures
        vista_celda(r) == celda_sin_espacios(vista_celda(*c)),
{
    match c {
        Some(s) => {
            let v = chars_de(s.as_str());
            let w = recortar(&v, Criterio::Espacio);
            Some(cadena_de(&w))
        },
        None => None,
    }
}

/// `r` is the table `t` cleaned: spaces around every cell removed, and only
/// the rows with data kept, in order.
pub open spec fn tabla_limpia(t: Seq<Seq<Option<Seq<char>>>>, r: Seq<Seq<Option<Seq<char>>>>) -> bool {
    let filas = filas_con_datos(t, alto_de(t));
    &&& r.len() == t.len()
    &&& forall|c: int| 0 <= c < r.len() ==> (#[trigger] r[c]).len() == filas.len()
    &&& forall|c: int, k: int|
        0 <= c < r.len() && 0 <= k < r[c].len() ==> #[trigger] r[c][k] == celda_sin_espacios(
            t[c][filas[k]],
        )
}

/// Cleans a table given by columns of equal length: spaces around every cell
/// are removed, and the rows whose cells are all null or empty are dropped.
pub fn limpiar_tabla(columnas: &Vec<Vec<Option<String>>>) -> (r: Vec<Vec<Option<String>>>)
    requires
        forall|c: int| 0 <= c < columnas.len() ==> (#[trigger] columnas@[c]).len() == columnas@[0].len(),
    ensures
        r.len() == columnas.len(),
        forall|c: int|
            0 <= c < r.len() ==> (#[trigger] r@[c]).len() == filas_con_datos(
                vista_tabla(columnas@),
                alto_de(vista_tabla(columnas@)),
            ).len(),
        forall|c: int, k: int|
            0 <= c < r.len() && 0 <= k < r@[c].len() ==> vista_celda(#[trigger] r@[c]@[k])
                == celda_sin_espacios(
                vista_tabla(columnas@)[c][filas_con_datos(
                    vista_tabla(columnas@),
                    alto_de(vista_tabla(columnas@)),
                )[k]],
            ),
        tabla_limpia(vista_tabla(columnas@), vista_tabla(r@)),
{
    let ghost t = vista_tabla(columnas@);
    let alto: usize = if columnas.len() == 0 {
        0
    } else {
        columnas[0].len()
    };
    assert(alto == alto_de(t));
    let mut conservadas: Vec<usize> = Vec::new();
    let mut f: usize = 0;
    while f < alto
        invariant
            f <= alto,
            alto == alto_de(t),
            t == vista_tabla(columnas@),
            forall|c: int| 0 <= c < columnas.len() ==> (#[trigger] columnas@[c]).len() == alto,
            conservadas@.map_values(|x: usize| x as int) == filas_con_datos(t, f as int),
        decreases alto - f,
    {
        let mut c: usize = 0;
        let mut hay = false;
        while c < columnas.len() && !hay
            invariant
                c <= columnas.len(),
                f < alto,
                t == vista_tabla(columnas@),
                forall|c: int| 0 <= c < columnas.len() ==> (#[trigger] columnas@[c]).len() == alto,
                hay ==> fila_con_datos(t, f as int),
                !hay ==> forall|d: int|
                    0 <= d < c ==> match celda_sin_espacios(#[trigger] t[d][f as int]) {
                        Some(x) => x.len() == 0,
                        None => true,
                    },
            decreases (columnas.len() - c) + (if hay { 0int } else { 1int }),
        {
            let celda = sin_espacios(&columnas[c][f]);
            assert(t[c as int][f as int] == vista_celda(columnas@[c as int]@[f as int]));
            match celda {
                Some(x) => {
                    if !x.as_str().is_empty() {
                        hay = true;
                    } else {
                        c += 1;
                    }
                },
                None => {
                    c += 1;
                },
            }
        }
        proof {
            if !hay {
                assert(!fila_con_datos(t, f as int));
            }
        }
        let ghost antes = conservadas@;
        if hay {
            conservadas.push(f);
            assert(conservadas@.map_values(|x: usize| x as int) =~= antes.map_values(|x: usize| x as int).push(f as int));
        }
        f += 1;
    }
    proof {
        lema_filas_con_datos(t, alto as int);
    }
    let ghost filas = filas_con_datos(t, alto as int);
    let mut r: Vec<Vec<Option<String>>> = Vec::new();
    let mut c: usize = 0;
    while c < columnas.len()
        invariant
            c <= columnas.len(),
            t == vista_tabla(columnas@),
            forall|d: int| 0 <= d < columnas.len() ==> (#[trigger] columnas@[d]).len() == alto,
            conservadas@.map_values(|x: usize| x as int) == filas,
            forall|k: int| 0 <= k < filas.len() ==> 0 <= #[trigger] filas[k] < alto,
            r.len() == c,
            forall|d: int| 0 <= d < c ==> (#[trigger] r@[d]).len() == filas.len(),
            forall|d: int, k: int|
                0 <= d < c && 0 <= k < r@[d].len() ==> vista_celda(#[trigger] r@[d]@[k])
                    == celda_sin_espacios(t[d][filas[k]]),
        decreases columnas.len() - c,
    {
        let mut col: Vec<Option<String>> = Vec::new();
        let mut k: usize = 0;
        while k < conservadas.len()
            invariant
                k <= conservadas.len(),
                c < columnas.len(),
                t == vista_tabla(columnas@),
                forall|d: int| 0 <= d < columnas.len() ==> (#[trigger] columnas@[d]).len() == alto,
                conservadas@.map_values(|x: usize| x as int) == filas,
                forall|k: int| 0 <= k < filas.len() ==> 0 <= #[trigger] filas[k] < alto,
                col.len() == k,
                forall|m: int|
                    0 <= m < k ==> vista_celda(#[trigger] col@[m]) == celda_sin_espacios(
                        t[c as int][filas[m]],
                    ),
            decreases conservadas.len() - k,
        {
            let fk = conservadas[k];
            assert(filas[k as int] == fk as int);
            assert(t[c as int][fk as int] == vista_celda(columnas@[c as int]@[fk as int]));
            col.push(sin_espacios(&columnas[c][fk]));
            k += 1;
        }
        r.push(col);
        c += 1;
    }
    proof {
        let vr = vista_tabla(r@);
        assert forall|c: int, k: int| 0 <= c < vr.len() && 0 <= k < vr[c].len() implies #[trigger] vr[c][k]
            == celda_sin_espacios(t[c][filas[k]]) by {
            assert(vr[c] == crate::columnas::vista_columna(r@[c]@));
            assert(vr[c][k] == vista_celda(r@[c]@[k]));
        }
        assert forall|c: int| 0 <= c < vr.len() implies (#[trigger] vr[c]).len() == filas.len() by {
            assert(vr[c] == crate::columnas::vista_columna(r@[c]@));
        }
    }
    r
}

/// What polars' CSV reader gives for the header line of a text alone (no
/// rows read, no type inference): the number of columns; `None` when the
/// reader fails.
pub uninterp spec fn ancho_csv(texto: Seq<char>) -> Option<nat>;

/// polars' `CsvReader` on the text with a header line, reading no rows and
/// inferring no types, and the width of the table it gives. The contract
/// names the result.
#[verifier::external_body]
fn leer_cabecera_csv(texto: &str) -> (r: Result<usize, String>)
    ensures
        match r {
            Ok(a) => ancho_csv(texto@) == Some(a as nat),
            Err(_) => ancho_csv(texto@) is None,
        },
{
    let opciones = CsvReadOptions::default().with_has_header(true).with_n_rows(Some(0)).with_infer_schema_length(Some(0));
    let df = CsvReader::new(Cursor::new(texto.as_bytes())).with_options(opciones).finish().map_err(|e| format!("Error al mapear columnas: {}", e))?;
    Ok(df.width())
}

/// What polars' CSV reader gives for a text read with a header line and its
/// first `ancho` columns read as text: the column names and the cells by
/// column; `None` when the reader fails.
pub uninterp spec fn tabla_csv(texto: Seq<char>, ancho: nat) -> Option<(Seq<Seq<char>>, Seq<Seq<Option<Seq<char>>>>)>;

/// polars' `CsvReader` on the text, with a header line and the types of the
/// first `ancho` columns overwritten with text, and the columns' names and
/// cells. The contract names the result and states what a polars table
/// guarantees: one name per column and columns of equal length. How the text
/// is split into fields is not stated.
#[verifier::external_body]
fn leer_celdas_csv(texto: &str, ancho: usize) -> (r: Result<(Vec<String>, Vec<Vec<Option<String>>>), String>)
    ensures
        match r {
            Ok((n, c)) => {
                &&& tabla_csv(texto@, ancho as nat) == Some((vista_textos(n@), vista_tabla(c@)))
                &&& n.len() == c.len()
                &&& forall|i: int| 0 <= i < c.len() ==> (#[trigger] c@[i]).len() == c@[0].len()
            },
            Err(_) => tabla_csv(texto@, ancho as nat) is None,
        },
{
    let opciones = CsvReadOptions::default().with_has_header(true).with_dtype_overwrite(Some(Arc::new(vec![DataType::String; ancho])));
    let df = CsvReader::new(Cursor::new(texto.as_bytes())).with_options(opciones).finish().map_err(|e| format!("No se pudo procesar el texto: {}", e))?;
    let celdas = df.columns().iter().map(|c| c.str().map(|t| t.iter().map(|o| o.map(String::from)).collect())).collect::<Result<_, _>>().map_err(|e| e.to_string())?;
    Ok((df.get_column_names().iter().map(|n| n.to_string()).collect(), celdas))
}

/// The table that the validator reads from a text: the header is read first
/// to count the columns, then the whole text with that many columns read as
/// text.
pub open spec fn tabla_leida(texto: Seq<char>) -> Option<(Seq<Seq<char>>, Seq<Seq<Option<Seq<char>>>>)> {
    match ancho_csv(texto) {
        Some(a) => tabla_csv(texto, a),
        None => None,
    }
}

/// Reads the decoded text of a CSV file as a table of text cells (see
/// `tabla_leida`) and cleans it: spaces around cells removed and rows without
/// data dropped. Fails exactly when one of the two reads fails.
pub fn leer_tabla(texto: &str) -> (r: Result<(Vec<String>, Vec<Vec<Option<String>>>), String>)
    ensures
        tabla_leida(texto@) is None <==> r is Err,
        match r {
            Ok((n, c)) => vista_textos(n@) == tabla_leida(texto@).unwrap().0 && tabla_limpia(
                tabla_leida(texto@).unwrap().1,
                vista_tabla(c@),
            ),
            Err(_) => true,
        },
{
    let ancho = match leer_cabecera_csv(texto) {
        Ok(a) => a,
        Err(e) => {
            return Err(e);
        },
    };
    match leer_celdas_csv(texto, ancho) {
        Ok((nombres, columnas)) => {
            let limpias = limpiar_tabla(&columnas);
            Ok((nombres, limpias))
        },
        Err(e) => Err(e),
    }
}

/// The outcome of a transformation of a column.
#[derive(Debug, PartialEq)]
pub enum ResultadoTransformacion {
    Exito,
    Error(String),
}

/// `None` for a success, the error message for a failure.
pub open spec fn vista_resultado(r: ResultadoTransformacion) -> Option<Seq<char>> {
    match r {
        ResultadoTransformacion::Exito => None,
        ResultadoTransformacion::Error(m) => Some(m@),
    }
}

pub open spec fn vista_resultados(v: Seq<(String, ResultadoTransformacion)>) -> Seq<(Seq<char>, Option<Seq<char>>)> {
    v.map_values(|p: (String, ResultadoTransformacion)| (p.0@, vista_resultado(p.1)))
}

/// No name occurs twice.
pub open spec fn claves_unicas(v: Seq<(Seq<char>, Option<Seq<char>>)>) -> bool {
    forall|i: int, j: int| 0 <= i < j < v.len() ==> (#[trigger] v[i]).0 != (#[trigger] v[j]).0
}

/// The outcomes as a map from the new column name.
pub open spec fn como_mapa(v: Seq<(Seq<char>, Option<Seq<char>>)>) -> Map<Seq<char>, Option<Seq<char>>> {
    Map::new(
        |k: Seq<char>| exists|i: int| 0 <= i < v.len() && (#[trigger] v[i]).0 == k,
        |k: Seq<char>| v[choose|i: int| 0 <= i < v.len() && (#[trigger] v[i]).0 == k].1,
    )
}

proof fn lema_mapa_valor(v: Seq<(Seq<char>, Option<Seq<char>>)>, i: int)
    requires
        claves_unicas(v),
        0 <= i < v.len(),
    ensures
        como_mapa(v).dom().contains(v[i].0),
        como_mapa(v)[v[i].0] == v[i].1,
{
    let k = v[i].0;
    assert(exists|j: int| 0 <= j < v.len() && (#[trigger] v[j]).0 == k);
    let j = choose|j: int| 0 <= j < v.len() && (#[trigger] v[j]).0 == k;
    if j != i {
        if j < i {
            assert(v[j].0 != v[i].0);
        } else {
            assert(v[i].0 != v[j].0);
        }
    }
}

/// What the transformations of a table have recorded: the columns to drop,
/// the columns that became coordinates, and the outcome of each
/// transformation by the new column name.
#[derive(Debug)]
pub struct Bitacora {
    pub eliminar: Vec<String>,
    pub coords: Vec<String>,
    pub resultados: Vec<(String, ResultadoTransformacion)>,
}

impl Bitacora {
    pub fn new() -> (r: Bitacora)
        ensures
            r.eliminar@.len() == 0,
            r.coords@.len() == 0,
            r.resultados@.len() == 0,
    {
        Bitacora { eliminar: Vec::new(), coords: Vec::new(), resultados: Vec::new() }
    }

    /// A column that the user asked to drop.
    pub fn marcar_eliminada(&mut self, nombre: &str)
        ensures
            vista_textos(final(self).eliminar@) == vista_textos(old(self).eliminar@).push(nombre@),
            final(self).coords == old(self).coords,
            final(self).resultados == old(self).resultados,
    {
        let ghost antes = self.eliminar@;
        self.eliminar.push(String::from_str(nombre));
        assert(vista_textos(self.eliminar@) =~= vista_textos(antes).push(nombre@));
    }

    /// Records the outcome of transformation `t` (the column now being
    /// called `t.nuevo`): on success, a coordinate column is noted as such;
    /// the outcome replaces any earlier one under the same name.
    pub fn registrar(&mut self, t: &Transformacion, resultado: Result<(), String>)
        requires
            claves_unicas(vista_resultados(old(self).resultados@)),
        ensures
            claves_unicas(vista_resultados(final(self).resultados@)),
            como_mapa(vista_resultados(final(self).resultados@)) == como_mapa(
                vista_resultados(old(self).resultados@),
            ).insert(
                t.nuevo@,
                match resultado {
                    Ok(_) => None,
                    Err(m) => Some(m@),
                },
            ),
            vista_textos(final(self).coords@) == (if resultado is Ok && t.accion is Coordenada {
                vista_textos(old(self).coords@).push(t.nuevo@)
            } else {
                vista_textos(old(self).coords@)
            }),
            final(self).eliminar == old(self).eliminar,
    {
        let ghost vv = vista_resultados(self.resultados@);
        let ghost valor: Option<Seq<char>> = match &resultado {
            Ok(_) => None,
            Err(m) => Some(m@),
        };
        let r = match resultado {
            Ok(_) => {
                match t.accion {
                    OpcionesTrans::Coordenada => {
                        let ghost antes = self.coords@;
                        self.coords.push(t.nuevo.clone());
                        assert(vista_textos(self.coords@) =~= vista_textos(antes).push(t.nuevo@));
                    },
                    _ => {},
                }
                ResultadoTransformacion::Exito
            },
            Err(m) => ResultadoTransformacion::Error(m),
        };
        assert(vista_resultado(r) == valor);
        let nuevo = chars_de(t.nuevo.as_str());
        let mut p: usize = 0;
        while p < self.resultados.len() && !crate::nombres::iguales(&chars_de(self.resultados[p].0.as_str()), &nuevo)
            invariant
                p <= self.resultados.len(),
                vv == vista_resultados(self.resultados@),
                nuevo@ == t.nuevo@,
                forall|q: int| 0 <= q < p ==> (#[trigger] vv[q]).0 != t.nuevo@,
            decreases self.resultados.len() - p,
        {
            p += 1;
        }
        if p < self.resultados.len() {
            assert(vv[p as int].0 == t.nuevo@);
            let _ = self.resultados.remove(p);
            self.resultados.insert(p, (t.nuevo.clone(), r));
            proof {
                let nv = vista_resultados(self.resultados@);
                assert(nv =~= vv.update(p as int, (t.nuevo@, valor)));
                assert forall|i: int, j: int| 0 <= i < j < nv.len() implies (#[trigger] nv[i]).0 != (#[trigger] nv[j]).0 by {
                    if i == p {
                        assert(vv[j].0 != vv[i].0);
                    } else if j == p {
                        assert(vv[i].0 != vv[j].0);
                    }
                }
                assert forall|k: Seq<char>| #[trigger] como_mapa(nv).dom().contains(k) <==> como_mapa(vv).insert(t.nuevo@, valor).dom().contains(k) by {
                    if como_mapa(nv).dom().contains(k) {
                        let i = choose|i: int| 0 <= i < nv.len() && (#[trigger] nv[i]).0 == k;
                        if i != p {
                            assert(vv[i].0 == k);
                        }
                    }
                    if como_mapa(vv).dom().contains(k) && k != t.nuevo@ {
                        let i = choose|i: int| 0 <= i < vv.len() && (#[trigger] vv[i]).0 == k;
                        assert(nv[i].0 == k);
                    }
                    if k == t.nuevo@ {
                        assert(nv[p as int].0 == k);
                    }
                }
                assert forall|k: Seq<char>| #[trigger] como_mapa(nv).dom().contains(k) implies como_mapa(nv)[k] == como_mapa(vv).insert(t.nuevo@, valor)[k] by {
                    let i = choose|i: int| 0 <= i < nv.len() && (#[trigger] nv[i]).0 == k;
                    lema_mapa_valor(nv, i);
                    if i != p {
                        assert(vv[i] == nv[i]);
                        lema_mapa_valor(vv, i);
                    }
                }
                assert(como_mapa(nv) =~= como_mapa(vv).insert(t.nuevo@, valor));
            }
        } else {
            self.resultados.push((t.nuevo.clone(), r));
            proof {
                let nv = vista_resultados(self.resultados@);
                assert(nv =~= vv.push((t.nuevo@, valor)));
                assert forall|k: Seq<char>| #[trigger] como_mapa(nv).dom().contains(k) <==> como_mapa(vv).insert(t.nuevo@, valor).dom().contains(k) by {
                    if como_mapa(nv).dom().contains(k) {
                        let i = choose|i: int| 0 <= i < nv.len() && (#[trigger] nv[i]).0 == k;
                        if i < vv.len() {
                            assert(vv[i].0 == k);
                        }
                    }
                    if como_mapa(vv).dom().contains(k) {
                        let i = choose|i: int| 0 <= i < vv.len() && (#[trigger] vv[i]).0 == k;
                        assert(nv[i].0 == k);
                    }
                    if k == t.nuevo@ {
                        assert(nv[vv.len() as int].0 == k);
                    }
                }
                assert forall|k: Seq<char>| #[trigger] como_mapa(nv).dom().contains(k) implies como_mapa(nv)[k] == como_mapa(vv).insert(t.nuevo@, valor)[k] by {
                    let i = choose|i: int| 0 <= i < nv.len() && (#[trigger] nv[i]).0 == k;
                    lema_mapa_valor(nv, i);
                    if i < vv.len() {
                        assert(vv[i] == nv[i]);
                        lema_mapa_valor(vv, i);
                    }
                }
                assert(como_mapa(nv) =~= como_mapa(vv).insert(t.nuevo@, valor));
            }
        }
    }
}

} // verus!
