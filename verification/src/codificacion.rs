use vstd::prelude::*;

verus! {

/// What `Encoding::decode` returns for the encoding with label `etiqueta`
/// (`None` when no encoding has that label): the decoded text (a byte order
/// mark selects the encoding and is removed) and whether malformed input was
/// replaced by U+FFFD.
pub uninterp spec fn decodificacion(etiqueta: Seq<char>, bytes: Seq<u8>) -> Option<(Seq<char>, bool)>;

/// The label of UTF-8.
pub open spec fn etiqueta_utf8() -> Seq<char> {
    seq!['U', 'T', 'F', '-', '8']
}

/// `encoding_rs::Encoding::for_label` followed by `Encoding::decode`. The
/// contract names the result and states that `UTF-8` is a label; the
/// decoders themselves are not stated.
#[verifier::external_body]
fn decodificar(etiqueta: &str, bytes: &[u8]) -> (r: Option<(String, bool)>)
    ensures
        match r {
            Some((t, errores)) => decodificacion(etiqueta@, bytes@) == Some((t@, errores)),
            None => decodificacion(etiqueta@, bytes@) is None,
        },
        etiqueta@ == etiqueta_utf8() ==> r is Some,
{
    match encoding_rs::Encoding::for_label(etiqueta.as_bytes()) {
        Some(encoding) => {
            let (texto, _, errores) = encoding.decode(bytes);
            Some((texto.into_owned(), errores))
        },
        None => None,
    }
}

/// What the detector of `chardetng` guesses for a sample of bytes taken as
/// a whole stream (ISO-2022-JP excluded, UTF-8 allowed, no top-level
/// domain): the name of the encoding.
pub uninterp spec fn encoding_adivinado(muestra: Seq<u8>) -> Seq<char>;

/// `chardetng::EncodingDetector` (`new`, `feed` with the whole sample as the
/// last chunk, `guess`), and `Encoding::name` of the guess. The contract
/// names the result and states that the name is a label that decodes every
/// input (every encoding that the detector can return is labelled by its
/// name); the detection itself is not stated.
#[verifier::external_body]
fn adivinar_encoding(muestra: &[u8]) -> (r: String)
    ensures
        r@ == encoding_adivinado(muestra@),
        forall|b: Seq<u8>| #[trigger] decodificacion(r@, b) is Some,
{
    let mut detector = chardetng::EncodingDetector::new(chardetng::Iso2022JpDetection::Deny);
    detector.feed(muestra, true);
    detector.guess(None, chardetng::Utf8Detection::Allow).name().to_string()
}

/// The bytes on which the encoding is guessed: the first 4096.
pub open spec fn muestra(bytes: Seq<u8>) -> Seq<u8> {
    if bytes.len() <= 4096 {
        bytes
    } else {
        bytes.take(4096)
    }
}

/// The text of a file, the name of the encoding it was read in, and whether
/// it was not valid UTF-8.
#[derive(Debug)]
pub struct ContenidoCsv {
    pub texto: String,
    pub encoding: String,
    pub requiere_conversion: bool,
}

/// Reads the bytes of a file as text: as UTF-8 when they are valid UTF-8,
/// and otherwise in the encoding that the detector guesses from the first
/// 4096 bytes.
pub fn decodificar_csv(bytes: &[u8]) -> (r: ContenidoCsv)
    ensures
        ({
            let utf8 = decodificacion(etiqueta_utf8(), bytes@).unwrap();
            if !utf8.1 {
                &&& r.texto@ == utf8.0
                &&& r.encoding@ == etiqueta_utf8()
                &&& !r.requiere_conversion
            } else {
                &&& r.encoding@ == encoding_adivinado(muestra(bytes@))
                &&& r.texto@ == decodificacion(r.encoding@, bytes@).unwrap().0
                &&& r.requiere_conversion
            }
        }),
{
    let utf8 = String::from_str("UTF-8");
    proof {
        reveal_strlit("UTF-8");
        assert(utf8@ == etiqueta_utf8());
    }
    let (texto, errores) = match decodificar(utf8.as_str(), bytes) {
        Some(p) => p,
        None => {
            proof {
                assert(false);
            }
            (String::new(), false)
        },
    };
    if !errores {
        return ContenidoCsv { texto, encoding: utf8, requiere_conversion: false };
    }
    let n: usize = if bytes.len() <= 4096 {
        bytes.len()
    } else {
        4096
    };
    let mut m: Vec<u8> = Vec::new();
    let mut i: usize = 0;
    while i < n
        invariant
            i <= n <= bytes.len(),
            m@ == bytes@.take(i as int),
        decreases n - i,
    {
        m.push(bytes[i]);
        i += 1;
        assert(m@ =~= bytes@.take(i as int));
    }
    assert(m@ == muestra(bytes@)) by {
        if bytes.len() <= 4096 {
            assert(bytes@.take(n as int) == bytes@);
        }
    }
    let nombre = adivinar_encoding(m.as_slice());
    let texto = match decodificar(nombre.as_str(), bytes) {
        Some(p) => p.0,
        None => {
            proof {
                assert(decodificacion(nombre@, bytes@) is Some);
            }
            String::new()
        },
    };
    ContenidoCsv { texto, encoding: nombre, requiere_conversion: true }
}

/// The byte order mark of UTF-8, with which every exported file begins.
pub open spec fn bom_utf8() -> Seq<u8> {
    seq![0xEFu8, 0xBBu8, 0xBFu8]
}

/// The bytes of an exported file: the UTF-8 byte order mark followed by the
/// CSV text.
pub fn con_bom(contenido: &[u8]) -> (r: Vec<u8>)
    ensures
        r@ == bom_utf8() + contenido@,
{
    let mut r: Vec<u8> = vec![0xEFu8, 0xBBu8, 0xBFu8];
    let mut i: usize = 0;
    while i < contenido.len()
        invariant
            i <= contenido.len(),
            r@ == bom_utf8() + contenido@.take(i as int),
        decreases contenido.len() - i,
    {
        r.push(contenido[i]);
        i += 1;
        assert(r@ =~= bom_utf8() + contenido@.take(i as int));
    }
    assert(contenido@.take(contenido.len() as int) == contenido@);
    r
}

} // verus!
