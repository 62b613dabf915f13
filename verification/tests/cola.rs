use validador::cola::{ColaSubidas, ConexionConfig, ErrorCola, EstadoSubida, SubidaRepo};
use validador::instituciones::{
    actualizar_instituciones, asignar_institucion, instituciones_faltantes, verificar_respuesta,
    CacheInstituciones, Conjunto, Institucion,
};

fn config(archivo: &str) -> ConexionConfig {
    ConexionConfig {
        usuario: "u".to_string(),
        host: "h".to_string(),
        institucion: "inst".to_string(),
        conjunto: "conj".to_string(),
        archivo: archivo.to_string(),
    }
}

fn ids(c: &ColaSubidas) -> Vec<u64> {
    c.obtener_cola().iter().map(|t| t.id).collect()
}

#[test]
fn cola_de_subidas_completa() {
    let mut c = ColaSubidas::new();
    assert_eq!(c.agregar_subida(1, config("a.csv"), "/tmp/a.csv".to_string()), 1);
    assert_eq!(c.agregar_subida(2, config("b.csv"), "/tmp/b.csv".to_string()), 2);
    assert_eq!(ids(&c), vec![1, 2]);
    let t = c.tomar_siguiente().unwrap();
    assert_eq!(t.id, 1);
    assert_eq!(t.estado, EstadoSubida::Subiendo);
    assert_eq!(t.archivo_remoto, "a.csv");
    assert_eq!(ids(&c), vec![1, 2]);
    assert_eq!(c.obtener_cola()[0].estado, EstadoSubida::Subiendo);
    c.finalizar(t, Err("fallo".to_string()));
    assert!(c.en_proceso.is_none());
    assert_eq!(ids(&c), vec![1, 2]);
    let l = c.obtener_cola();
    assert_eq!(l[0].estado, EstadoSubida::Error);
    assert_eq!(l[0].error.as_deref(), Some("fallo"));
    assert_eq!(l[1].estado, EstadoSubida::EnCola);
}

#[test]
fn reintento_de_subida() {
    let mut c = ColaSubidas::new();
    c.agregar_subida(1, config("a.csv"), "/tmp/a.csv".to_string());
    c.agregar_subida(2, config("b.csv"), "/tmp/b.csv".to_string());
    let t = c.tomar_siguiente().unwrap();
    c.finalizar(t, Err("fallo".to_string()));
    let t = c.preparar_reintento(1).unwrap();
    c.reencolar(t);
    assert_eq!(ids(&c), vec![2, 1]);
    let l = c.obtener_cola();
    assert_eq!(l[1].estado, EstadoSubida::EnCola);
    assert!(l[1].error.is_none());
    assert_eq!(c.preparar_reintento(99).unwrap_err(), ErrorCola::TrabajoNoEncontrado);
    assert_eq!(ErrorCola::TrabajoNoEncontrado.mensaje(), "Trabajo no encontrado");
}

#[test]
fn reintento_de_trabajo_sin_error() {
    let mut c = ColaSubidas::new();
    c.agregar_subida(7, config("a.csv"), "/tmp/a.csv".to_string());
    let t = c.tomar_siguiente().unwrap();
    let subida = SubidaRepo { size_original: 10, size_subido: 10, url: "https://x/a.csv".to_string() };
    c.finalizar(t, Ok(subida));
    let l = c.obtener_cola();
    assert_eq!(l[0].estado, EstadoSubida::Completado);
    assert_eq!(l[0].resultado.as_ref().unwrap().size_subido, 10);
    assert_eq!(c.preparar_reintento(7).unwrap_err(), ErrorCola::TrabajoSinError);
    assert_eq!(ErrorCola::TrabajoSinError.mensaje(), "El trasbajo no tiene error");
    assert!(c.obtener_cola().is_empty());
    assert!(c.tomar_siguiente().is_none());
}

#[test]
fn orden_de_llegada() {
    let mut c = ColaSubidas::new();
    assert!(c.tomar_siguiente().is_none());
    c.agregar_subida(5, config("a.csv"), "/tmp/a.csv".to_string());
    let t = c.tomar_siguiente().unwrap();
    assert_eq!(t.id, 5);
    c.agregar_subida(6, config("b.csv"), "/tmp/b.csv".to_string());
    c.agregar_subida(4, config("c.csv"), "/tmp/c.csv".to_string());
    c.finalizar(t, Err("x".to_string()));
    assert_eq!(c.tomar_siguiente().unwrap().id, 6);
    assert_eq!(ids(&c), vec![5, 6, 4]);
}

fn inst(name: &str, dn: &str) -> Institucion {
    Institucion { id: format!("id-{}", name), name: name.to_string(), display_name: dn.to_string() }
}

#[test]
fn actualizar_cache_de_instituciones() {
    let cache = CacheInstituciones { instituciones: vec![inst("a", "Zeta"), inst("b", "Alfa"), inst("d", "Beta")] };
    let lista = vec!["b".to_string(), "c".to_string(), "a".to_string()];
    assert_eq!(instituciones_faltantes(&cache, &lista), vec!["c".to_string()]);
    let nuevas = vec![inst("c", "Alfa")];
    let (nuevo_cache, resultado) = actualizar_instituciones(&cache, &nuevas, &lista);
    let nombres: Vec<&str> = nuevo_cache.instituciones.iter().map(|i| i.name.as_str()).collect();
    assert_eq!(nombres, vec!["a", "b", "c"]);
    let orden: Vec<&str> = resultado.iter().map(|i| i.name.as_str()).collect();
    assert_eq!(orden, vec!["b", "c", "a"]);
}

#[test]
fn la_ultima_institucion_con_un_nombre_gana() {
    let cache = CacheInstituciones { instituciones: vec![inst("a", "Uno"), inst("a", "Dos")] };
    let lista = vec!["a".to_string()];
    let (_, resultado) = actualizar_instituciones(&cache, &vec![], &lista);
    assert_eq!(resultado.len(), 1);
    assert_eq!(resultado[0].display_name, "Dos");
    assert!(CacheInstituciones::new().instituciones.is_empty());
}

#[test]
fn respuestas_y_conjuntos() {
    assert_eq!(verificar_respuesta(true, 5).unwrap(), 5);
    assert_eq!(verificar_respuesta(false, 5).unwrap_err(), "CKAN regresó success=false");
    let mut cs = vec![Conjunto { id: "1".into(), name: "n".into(), title: "t".into(), institucion: String::new() }];
    asignar_institucion(&mut cs, "sep");
    assert_eq!(cs[0].institucion, "sep");
    assert_eq!(cs[0].title, "t");
}
