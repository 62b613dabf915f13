use validador::columnas::{
    anonimizar, capitalize, limpiar_coordenadas, limpiar_fechas, limpiar_numericas, texto_capitalizado,
    texto_limpio, texto_minusculas, texto_sin_guiones, transformar_texto,
};
use validador::tabla::{
    aplicar_transformacion, cambiar_valores, construir_esquema, formatos_fecha, limpiar_tabla,
    castear_fechas, fechas_con_primer_formato, leer_tabla, Bitacora, ColumnaPreparada, OpcionesTrans, ResultadoTransformacion, TipoColumna,
    TipoDato, Transformacion,
};

fn s(x: &str) -> Option<String> {
    Some(x.to_string())
}

#[test]
fn texto_limpio_saltos_y_espacios() {
    let celdas = vec![s("  hola\r\n mundo  "), None, s("a\n\nb\tc")];
    let r = texto_limpio(&celdas, "sin dato");
    assert_eq!(r, vec!["hola; mundo".to_string(), "sin dato".to_string(), "a; b c".to_string()]);
    assert_eq!(transformar_texto(&celdas), vec![s("hola; mundo"), s("sin dato"), s("a; b c")]);
}

#[test]
fn minusculas_y_sin_guiones() {
    assert_eq!(texto_minusculas(&vec![s("  HOLA Mundo "), None]), vec![s("hola mundo"), s("sin dato")]);
    assert_eq!(texto_sin_guiones(&vec![s("a_b__c")]), vec![s("a b  c")]);
}

#[test]
fn capitalizado_respeta_articulos() {
    let r = texto_capitalizado(&vec![s("  la CASA de   la pradera y el río "), s("casa De La Casa"), None]);
    assert_eq!(r, vec![s("La Casa de la Pradera y el Río"), s("Casa de la Casa"), s("Sin Dato")]);
    assert_eq!(capitalize("ÁRBOL"), "Árbol");
    assert_eq!(capitalize(""), "");
    assert_eq!(capitalize("ß"), "SS");
}

#[test]
fn anonimizar_con_sha256() {
    let r = anonimizar(&vec![s("abc"), None, s("  sin dato ")]);
    assert_eq!(
        r,
        vec![
            s("ba7816bf8f01cfea414140de5dae2223b00361a396177a9cb410ff61f20015ad"),
            s("sin dato"),
            s("sin dato")
        ]
    );
}

#[test]
fn limpieza_numerica() {
    let r = limpiar_numericas(&vec![s(" $1,234.50 "), s("N/A"), s(" - "), None, s("€ 12"), s("nan"), s("0")]);
    assert_eq!(r, vec![s("1234.50"), None, None, None, s(" 12"), None, s("0")]);
}

#[test]
fn limpieza_de_coordenadas_y_fechas() {
    assert_eq!(limpiar_coordenadas(&vec![s(" 19.43 "), s("nan"), None]), vec![s("19.43"), s("0.0"), s("0.0")]);
    assert_eq!(limpiar_fechas(&vec![s(" 2024-01-05 "), s("NaT"), None, s("None")]), vec![s("2024-01-05"), None, None, None]);
}

#[test]
fn aplicar_transformaciones() {
    let celdas = vec![s(" 1,5 "), None];
    match aplicar_transformacion(&celdas, OpcionesTrans::Numero).unwrap() {
        ColumnaPreparada::PorConvertirANumero(v) => assert_eq!(v, vec![s("15"), None]),
        _ => panic!("tipo inesperado"),
    }
    match aplicar_transformacion(&celdas, OpcionesTrans::Coordenada).unwrap() {
        ColumnaPreparada::PorConvertirANumero(v) => assert_eq!(v, vec![s("1,5"), s("0.0")]),
        _ => panic!("tipo inesperado"),
    }
    assert_eq!(aplicar_transformacion(&celdas, OpcionesTrans::Fecha).unwrap_err(), "No se pudo convertir a fecha");
    match aplicar_transformacion(&vec![s(" 05/01/2024"), s("NA")], OpcionesTrans::Fecha) {
        Ok(ColumnaPreparada::Fechas(d)) => assert_eq!(d, vec![Some(19727), None]),
        _ => panic!("tipo inesperado"),
    }
    match aplicar_transformacion(&celdas, OpcionesTrans::TextoMinusculas).unwrap() {
        ColumnaPreparada::Texto(v) => assert_eq!(v, vec![s("1,5"), s("sin dato")]),
        _ => panic!("tipo inesperado"),
    }
}

#[test]
fn tipos_de_columna() {
    assert_eq!(TipoColumna::Numero.to_polartype(), TipoDato::Float64);
    assert_eq!(TipoColumna::Coordenada.to_polartype(), TipoDato::Float64);
    assert_eq!(TipoColumna::Fecha.to_polartype(), TipoDato::Date);
    assert_eq!(TipoColumna::Texto.to_polartype(), TipoDato::String);
    assert_eq!(TipoColumna::from_polartype(&TipoDato::Float64, true), TipoColumna::Coordenada);
    assert_eq!(TipoColumna::from_polartype(&TipoDato::Float64, false), TipoColumna::Numero);
    assert_eq!(TipoColumna::from_polartype(&TipoDato::Date, true), TipoColumna::Fecha);
    assert_eq!(TipoColumna::from_polartype(&TipoDato::Otro, false), TipoColumna::Texto);
}

#[test]
fn esquema_ordenado_por_nombre() {
    let cols = vec![
        ("b".to_string(), TipoDato::Float64),
        ("a".to_string(), TipoDato::String),
        ("x".to_string(), TipoDato::Float64),
        ("c".to_string(), TipoDato::Date),
        ("b".to_string(), TipoDato::Date),
    ];
    let e = construir_esquema(&cols, &vec!["x".to_string()]);
    assert_eq!(
        e,
        vec![
            ("a".to_string(), TipoColumna::Texto),
            ("b".to_string(), TipoColumna::Fecha),
            ("c".to_string(), TipoColumna::Fecha),
            ("x".to_string(), TipoColumna::Coordenada),
        ]
    );
    let e2 = construir_esquema(&cols[2..3].to_vec(), &vec![]);
    assert_eq!(e2, vec![("x".to_string(), TipoColumna::Numero)]);
}

#[test]
fn limpiar_tabla_quita_filas_vacias() {
    let cols = vec![vec![s(" a "), s("  "), None, s("b")], vec![s("1"), None, None, s(" ")]];
    let r = limpiar_tabla(&cols);
    assert_eq!(r, vec![vec![s("a"), s("b")], vec![s("1"), s("")]]);
    assert!(limpiar_tabla(&vec![]).is_empty());
}

#[test]
fn cambiar_valores_de_columna() {
    let celdas = vec![s("x"), None, s("y"), s("x")];
    let cambios = vec![("x".to_string(), "X".to_string()), ("z".to_string(), "Z".to_string())];
    assert_eq!(cambiar_valores(&celdas, &cambios), vec![s("X"), None, s("y"), s("X")]);
    assert_eq!(cambiar_valores(&celdas, &vec![]), celdas);
}

#[test]
fn formatos_de_fecha() {
    assert_eq!(formatos_fecha(), vec!["%Y-%m-%d", "%d-%m-%Y", "%Y/%m/%d", "%d/%m/%Y"]);
    assert_eq!(fechas_con_primer_formato(&vec![s("2024-01-05"), None]), Some(vec![Some(19727), None]));
    assert_eq!(fechas_con_primer_formato(&vec![s("05/01/2024")]), Some(vec![Some(19727)]));
    assert_eq!(fechas_con_primer_formato(&vec![s("hola")]), None);
    assert_eq!(fechas_con_primer_formato(&vec![None, None]), Some(vec![None, None]));
    assert_eq!(castear_fechas(&vec![None, None]), None);
    assert_eq!(castear_fechas(&vec![s("2024-01-05"), None]), Some(vec![Some(19727), None]));
    assert_eq!(castear_fechas(&vec![s("hola"), s("2024-01-05")]), None);
}

#[test]
fn leer_tabla_de_texto() {
    let (nombres, celdas) = leer_tabla("a,b\n 1 ,x\n,\n3,\n").unwrap();
    assert_eq!(nombres, vec!["a".to_string(), "b".to_string()]);
    assert_eq!(celdas, vec![vec![s("1"), s("3")], vec![s("x"), None]]);
    assert!(leer_tabla("").unwrap_err().starts_with("Error al mapear columnas: "));
}

#[test]
fn bitacora_de_transformaciones() {
    let mut b = Bitacora::new();
    let t1 = Transformacion { nombre: "Lat".into(), nuevo: "lat".into(), accion: OpcionesTrans::Coordenada };
    let t2 = Transformacion { nombre: "F".into(), nuevo: "fecha".into(), accion: OpcionesTrans::Fecha };
    b.registrar(&t1, Ok(()));
    b.registrar(&t2, Err("No se pudo convertir a fecha".into()));
    b.registrar(&t2, Ok(()));
    b.marcar_eliminada("basura");
    assert_eq!(b.coords, vec!["lat".to_string()]);
    assert_eq!(b.eliminar, vec!["basura".to_string()]);
    assert_eq!(
        b.resultados,
        vec![("lat".to_string(), ResultadoTransformacion::Exito), ("fecha".to_string(), ResultadoTransformacion::Exito)]
    );
    let mut c = Bitacora::new();
    c.registrar(&t1, Err("x".into()));
    assert!(c.coords.is_empty());
    assert_eq!(c.resultados, vec![("lat".to_string(), ResultadoTransformacion::Error("x".into()))]);
}
