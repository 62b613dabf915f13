use validador::caracteres::{es_caracter_corrupto, reporte_caracteres_corruptos};
use validador::nombres::{validar_cadena, validar_columnas};
use validador::rutas::{carpetas_remotas, nombre_archivo_sugerido, ruta_archivo_remoto, ruta_publica};

#[test]
fn caracteres_normales_y_tipicos_no_son_corruptos() {
    for c in ['a', 'Z', '5', ' ', '\t', '\n', '\r', '.', ',', ';', '(', ')', '"', '\'', '¿', '?', '¡', '!', '-', '_', '/'] {
        assert!(!es_caracter_corrupto(c), "{:?}", c);
    }
    for c in ['á', 'é', 'í', 'ó', 'ú', 'Á', 'É', 'Í', 'Ó', 'Ú', 'ñ', 'Ñ', 'ü', 'Ü', '“', '”', '%', '°', 'º', 'ª', '€', '$'] {
        assert!(!es_caracter_corrupto(c), "{:?}", c);
    }
}

#[test]
fn caracteres_corruptos() {
    for c in ['\u{FFFD}', '\u{0}', '\u{1}', '\u{0B}', '\u{0C}', '\u{1F}', '\u{7F}', '@', '#', 'ç', 'Ã', '©', '½'] {
        assert!(es_caracter_corrupto(c), "{:?}", c);
    }
}

#[test]
fn reporte_de_caracteres_por_fila() {
    let texto = "ok\nbad\u{0}x\n\u{FFFD}\u{0}\r\nfin";
    let r = reporte_caracteres_corruptos(texto);
    assert_eq!(r.len(), 2);
    assert_eq!(r[0].caracter, "\u{0}");
    assert_eq!(r[0].filas, vec![2, 3]);
    assert_eq!(r[1].caracter, "\u{FFFD}");
    assert_eq!(r[1].filas, vec![3]);
}

#[test]
fn reporte_sin_corruptos_y_filas_repetidas() {
    assert!(reporte_caracteres_corruptos("José, Peña\r\nÁrbol").is_empty());
    let r = reporte_caracteres_corruptos("@@\n\n@");
    assert_eq!(r.len(), 1);
    assert_eq!(r[0].caracter, "@");
    assert_eq!(r[0].filas, vec![1, 3]);
}

#[test]
fn validar_cadena_quita_articulos_y_acentos() {
    let v = validar_cadena("  Nombre del Año ");
    assert_eq!(v.cadena, "  Nombre del Año ");
    assert_eq!(v.sugerido, "nombre_anio");
    assert!(v.incidencia);
    assert_eq!(validar_cadena("El_Monto de la Venta").sugerido, "monto_venta");
    assert_eq!(validar_cadena("Código Postal").sugerido, "codigo_postal");
    assert_eq!(validar_cadena("Ñandú").sugerido, "niandu");
}

#[test]
fn validar_cadena_reglas_especiales() {
    assert_eq!(validar_cadena("Año 1").sugerido, "anio_01");
    assert_eq!(validar_cadena("ID").sugerido, "identificador");
    assert_eq!(validar_cadena("id").sugerido, "identificador");
    assert_eq!(validar_cadena("2020 Población").sugerido, "b2020_poblacion");
    assert_eq!(validar_cadena("de la").sugerido, "");
}

#[test]
fn validar_cadena_sin_incidencia() {
    let v = validar_cadena("clave");
    assert_eq!(v.sugerido, "clave");
    assert!(!v.incidencia);
    let w = validar_cadena("Clave_Entidad");
    assert_eq!(w.sugerido, "clave_entidad");
    assert!(w.incidencia);
}

#[test]
fn validar_columnas_hace_unicos_los_nombres() {
    let cols = vec!["Nombre".to_string(), "nombre".to_string(), "NOMBRE ".to_string()];
    let r = validar_columnas(&cols);
    let sug: Vec<&str> = r.iter().map(|v| v.sugerido.as_str()).collect();
    assert_eq!(sug, vec!["nombre", "nombre_02", "nombre_03"]);
    assert!(r[0].incidencia);
    assert!(!r[1].incidencia);
    assert!(r[2].incidencia);
    assert_eq!(r[1].cadena, "nombre");
}

#[test]
fn validar_columnas_salta_candidatos_ocupados() {
    let cols = vec!["x".to_string(), "x_02".to_string(), "X".to_string()];
    let r = validar_columnas(&cols);
    let sug: Vec<&str> = r.iter().map(|v| v.sugerido.as_str()).collect();
    assert_eq!(sug, vec!["x", "x_02", "x_03"]);
}

#[test]
fn validar_columnas_muchos_repetidos() {
    let cols: Vec<String> = (0..11).map(|_| "v".to_string()).collect();
    let r = validar_columnas(&cols);
    assert_eq!(r[0].sugerido, "v");
    assert_eq!(r[1].sugerido, "v_02");
    assert_eq!(r[9].sugerido, "v_010");
    assert_eq!(r[10].sugerido, "v_011");
    for i in 0..r.len() {
        for j in (i + 1)..r.len() {
            assert_ne!(r[i].sugerido, r[j].sugerido);
        }
    }
}

#[test]
fn columnas_de_solo_articulos() {
    let cols = vec!["a".to_string(), "La".to_string()];
    let r = validar_columnas(&cols);
    assert_eq!(r[0].sugerido, "");
    assert_eq!(r[1].sugerido, "_02");
}

#[test]
fn sugerencias_solo_con_caracteres_validos() {
    for c in ["Hola Mundo!", "¿Qué tal?", "  _a__b_ ", "Ünïcödé—ñ", "1er lugar", "x@y.com"] {
        let s = validar_cadena(c).sugerido;
        assert!(s.chars().all(|ch| ch.is_ascii_lowercase() || ch.is_ascii_digit() || ch == '_'), "{}", s);
    }
}

#[test]
fn rutas_del_repositorio() {
    assert_eq!(
        ruta_publica("/mnt/nfs/datasets/api_update/inst/conj/a.csv"),
        "https://repodatos.atdt.gob.mx/api_update/inst/conj/a.csv"
    );
    assert_eq!(ruta_publica("/otra/ruta.csv"), "/otra/ruta.csv");
    let c = carpetas_remotas("inst", "conj");
    assert_eq!(c.institucion, "/mnt/nfs/datasets/api_update/inst");
    assert_eq!(c.conjunto, "/mnt/nfs/datasets/api_update/inst/conj");
    assert_eq!(c.destino, "/mnt/nfs/datasets/api_update/inst/conj/");
    assert_eq!(ruta_archivo_remoto(&c.destino, "a.csv"), "/mnt/nfs/datasets/api_update/inst/conj/a.csv");
}

#[test]
fn nombre_sugerido_del_archivo() {
    assert_eq!(nombre_archivo_sugerido("/home/u/Datos Año 2023.xlsx"), "datos_anio_2023.csv");
    assert_eq!(nombre_archivo_sugerido(""), "archivo.csv");
    assert_eq!(nombre_archivo_sugerido("ventas.csv"), "ventas.csv");
}

#[test]
fn sugerencia_validada_otra_vez_no_cambia() {
    for nombre in ["  El Número_1 ", "Año de Registro", "1 Cosa", "ID", "de_la", "Ñandú-ÁREA 10", "x__1__y", ""] {
        let s = validar_cadena(nombre).sugerido;
        let v = validar_cadena(&s);
        assert_eq!(v.sugerido, s);
        assert!(!v.incidencia);
    }
    assert_eq!(validar_cadena("x__1__y").sugerido, "x_01");
    assert_eq!(validar_cadena("x__1__z").sugerido, "x_01_z");
}
