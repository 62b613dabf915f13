use validador::codificacion::{con_bom, decodificar_csv};

#[test]
fn csv_en_utf8() {
    let r = decodificar_csv("a,b\n1,ñ".as_bytes());
    assert_eq!(r.texto, "a,b\n1,ñ");
    assert_eq!(r.encoding, "UTF-8");
    assert!(!r.requiere_conversion);
}

#[test]
fn csv_en_latin1() {
    let bytes = b"nombre,ciudad\nJos\xe9,Le\xf3n\nMar\xeda,Canc\xfan\n";
    let r = decodificar_csv(bytes);
    assert!(r.requiere_conversion);
    assert_eq!(r.encoding, "windows-1252");
    assert_eq!(r.texto, "nombre,ciudad\nJosé,León\nMaría,Cancún\n");
}

#[test]
fn exportacion_con_bom() {
    assert_eq!(con_bom(b"a,b\n"), vec![0xEF, 0xBB, 0xBF, b'a', b',', b'b', b'\n']);
    assert_eq!(con_bom(b""), vec![0xEF, 0xBB, 0xBF]);
    let r = decodificar_csv(&con_bom("x\nñ".as_bytes()));
    assert_eq!(r.texto, "x\nñ");
    assert!(!r.requiere_conversion);
}
