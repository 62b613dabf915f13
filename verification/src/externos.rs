use sha2::Digest;
use vstd::prelude::*;

use crate::texto::espacio_unicode;

verus! {

/// The character classes of the regular expressions that the cleaning rules
/// use.
#[derive(Clone, Copy, PartialEq, Eq, Debug)]
pub enum ClaseRegex {
    /// `[^a-z0-9]`: one character that is not a lower-case ASCII letter or digit.
    NoAlfanumerico,
    /// `[\r\n]+`: a run of carriage returns and line feeds.
    Saltos,
    /// `\s+`: a run of Unicode whitespace.
    Blancos,
    /// `[$€]`: a dollar or euro sign.
    Moneda,
}

/// The text of the pattern of each class.
pub open spec fn patron_de(k: ClaseRegex) -> Seq<char> {
    match k {
        ClaseRegex::NoAlfanumerico => seq!['[', '^', 'a', '-', 'z', '0', '-', '9', ']'],
        ClaseRegex::Saltos => seq!['[', '\\', 'r', '\\', 'n', ']', '+'],
        ClaseRegex::Blancos => seq!['\\', 's', '+'],
        ClaseRegex::Moneda => seq!['[', '$', '\u{20AC}', ']'],
    }
}

/// The characters that each class matches one at a time.
pub open spec fn en_clase(k: ClaseRegex, c: char) -> bool {
    match k {
        ClaseRegex::NoAlfanumerico => !(('a' <= c && c <= 'z') || ('0' <= c && c <= '9')),
        ClaseRegex::Saltos => c == '\r' || c == '\n',
        ClaseRegex::Blancos => espacio_unicode(c),
        ClaseRegex::Moneda => c == '$' || c == '\u{20AC}',
    }
}

/// Whether the pattern of the class ends in `+` (matches maximal runs).
pub open spec fn por_tramos(k: ClaseRegex) -> bool {
    k == ClaseRegex::Saltos || k == ClaseRegex::Blancos
}

/// Every character of class `k` replaced by `r`.
pub open spec fn sustituido(s: Seq<char>, k: ClaseRegex, r: Seq<char>) -> Seq<char>
    decreases s.len(),
{
    if s.len() == 0 {
        seq![]
    } else if en_clase(k, s.last()) {
        sustituido(s.drop_last(), k, r) + r
    } else {
        sustituido(s.drop_last(), k, r).push(s.last())
    }
}

/// Every maximal run of characters of class `k` replaced by one `r`.
pub open spec fn colapsado(s: Seq<char>, k: ClaseRegex, r: Seq<char>) -> Seq<char>
    decreases s.len(),
{
    if s.len() == 0 {
        seq![]
    } else if en_clase(k, s.last()) {
        if s.len() >= 2 && en_clase(k, s[s.len() - 2]) {
            colapsado(s.drop_last(), k, r)
        } else {
            colapsado(s.drop_last(), k, r) + r
        }
    } else {
        colapsado(s.drop_last(), k, r).push(s.last())
    }
}

/// What `Regex::replace_all` with the pattern of `k` makes of `s` when the
/// replacement `r` holds no `$`: leftmost-first, non-overlapping matches, and a
/// pattern ending in `+` matches greedily.
pub open spec fn reemplazo_regex(k: ClaseRegex, s: Seq<char>, r: Seq<char>) -> Seq<char> {
    if por_tramos(k) {
        colapsado(s, k, r)
    } else {
        sustituido(s, k, r)
    }
}

pub open spec fn patron_admitido(p: Seq<char>) -> bool {
    exists|k: ClaseRegex| p == patron_de(k)
}

/// `regex::Regex::new` followed by `Regex::replace_all`. The pattern is one of
/// the four patterns of `ClaseRegex` (all of which compile), and the
/// replacement holds no `$`, so it is inserted literally. The contract claims
/// that each match of the pattern is replaced by the replacement, matches
/// being found from the left without overlap, as the crate documents.
#[verifier::external_body]
pub(crate) fn reemplazar_regex(patron: &str, texto: &str, reemplazo: &str) -> (r: String)
    requires
        patron_admitido(patron@),
        !reemplazo@.contains('$'),
    ensures
        forall|k: ClaseRegex|
            patron@ == #[trigger] patron_de(k) ==> r@ == reemplazo_regex(k, texto@, reemplazo@),
{
    regex::Regex::new(patron).unwrap().replace_all(texto, reemplazo).into_owned()
}

/// What `str::to_lowercase` returns (Unicode lower-case mapping).
pub uninterp spec fn en_minusculas(s: Seq<char>) -> Seq<char>;

/// Lower-case ASCII letters, ASCII digits and the underscore.
pub open spec fn minuscula_ascii(c: char) -> bool {
    ('a' <= c && c <= 'z') || ('0' <= c && c <= '9') || c == '_'
}

/// `str::to_lowercase`. The contract names its result, and states that a
/// text made only of lower-case ASCII letters, digits and underscores is
/// unchanged (these characters have no lower-case mapping of their own); the
/// Unicode case tables are not stated.
#[verifier::external_body]
pub(crate) fn minusculas(s: &str) -> (r: String)
    ensures
        r@ == en_minusculas(s@),
        (forall|i: int| 0 <= i < s@.len() ==> minuscula_ascii(#[trigger] s@[i])) ==> r@ == s@,
{
    s.to_lowercase()
}

/// What `char::to_uppercase` yields, collected (one to three characters).
pub uninterp spec fn en_mayusculas(c: char) -> Seq<char>;

/// `char::to_uppercase`, collected into a string. The contract names its
/// result; the Unicode case tables are not stated.
#[verifier::external_body]
pub(crate) fn mayusculas(c: char) -> (r: String)
    ensures
        r@ == en_mayusculas(c),
{
    c.to_uppercase().collect::<String>()
}

/// What `UnicodeNormalization::nfd` yields for a string (its canonical
/// decomposition).
pub uninterp spec fn descomposicion_nfd(s: Seq<char>) -> Seq<char>;

/// `unicode_normalization::UnicodeNormalization::nfd`, collected into a
/// string. The contract names its result, and states that an ASCII text is
/// unchanged (ASCII characters never decompose and have combining class
/// zero, as the crate's source shows); the decomposition tables are not
/// stated.
#[verifier::external_body]
pub(crate) fn descomponer_nfd(s: &str) -> (r: String)
    ensures
        r@ == descomposicion_nfd(s@),
        (forall|i: int| 0 <= i < s@.len() ==> (#[trigger] s@[i] as u32) < 128) ==> r@ == s@,
{
    unicode_normalization::UnicodeNormalization::nfd(s).collect::<String>()
}

/// What SHA-256 computes of a byte string (its 32-byte digest).
pub uninterp spec fn digesto_sha256(bytes: Seq<u8>) -> Seq<u8>;

/// `sha2::Sha256` (`new`, `update`, `finalize`). The contract names the
/// digest and states its length of 32 bytes; the hash function itself is not
/// stated.
#[verifier::external_body]
pub(crate) fn sha256(bytes: &[u8]) -> (r: Vec<u8>)
    ensures
        r@ == digesto_sha256(bytes@),
        r@.len() == 32,
{
    let mut hasher = sha2::Sha256::new();
    hasher.update(bytes);
    hasher.finalize().to_vec()
}

/// The lower-case hexadecimal digit of a number below sixteen.
pub open spec fn digito_hex(x: u8) -> char {
    if x < 10 {
        ((48 + x) as u8) as char
    } else {
        ((87 + x) as u8) as char
    }
}

/// Two lower-case hexadecimal digits per byte, the high half first.
pub open spec fn hex_minusculas(b: Seq<u8>) -> Seq<char>
    decreases b.len(),
{
    if b.len() == 0 {
        seq![]
    } else {
        hex_minusculas(b.drop_last()).push(digito_hex(b.last() / 16)).push(
            digito_hex(b.last() % 16),
        )
    }
}

/// `hex::encode`: each byte becomes two lower-case hexadecimal digits, the
/// high half first, as the crate documents.
#[verifier::external_body]
pub(crate) fn codificar_hex(bytes: &[u8]) -> (r: String)
    ensures
        r@ == hex_minusculas(bytes@),
{
    hex::encode(bytes)
}

} // verus!
