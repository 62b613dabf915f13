use vstd::prelude::*;

use crate::nombres::{sugerencia, validar_cadena};
use crate::texto::{cadena_de, chars_de, extender, reemplazado, reemplazar};

verus! {

/// Where the repository keeps the published files.
pub open spec fn carpeta_repositorio() -> Seq<char> {
    "/mnt/nfs/datasets/"@
}

/// The public address of the repository's files.
pub open spec fn url_repositorio() -> Seq<char> {
    "https://repodatos.atdt.gob.mx/"@
}

/// The folder of the repository under which the uploads are published.
pub open spec fn carpeta_subidas() -> Seq<char> {
    "/mnt/nfs/datasets/api_update/"@
}

/// The public address of a file of the repository: its path with the
/// repository's folder replaced by the public address.
pub fn ruta_publica(ruta_remota: &str) -> (r: String)
    ensures
        r@ == reemplazado(ruta_remota@, carpeta_repositorio(), url_repositorio()),
{
    proof {
        reveal_strlit("/mnt/nfs/datasets/");
    }
    let ruta = chars_de(ruta_remota);
    let carpeta = chars_de("/mnt/nfs/datasets/");
    let url = chars_de("https://repodatos.atdt.gob.mx/");
    cadena_de(&reemplazar(&ruta, &carpeta, &url))
}

/// The folders of the repository where a dataset's files go: the folder of
/// the institution, the folder of the dataset inside it, and the latter with
/// a final slash, under which files are written.
#[derive(Debug)]
pub struct CarpetasRemotas {
    pub institucion: String,
    pub conjunto: String,
    pub destino: String,
}

pub fn carpetas_remotas(institucion: &str, conjunto: &str) -> (r: CarpetasRemotas)
    ensures
        r.institucion@ == carpeta_subidas() + institucion@,
        r.conjunto@ == carpeta_subidas() + institucion@ + seq!['/'] + conjunto@,
        r.destino@ == carpeta_subidas() + institucion@ + seq!['/'] + conjunto@ + seq!['/'],
{
    let mut inst = chars_de("/mnt/nfs/datasets/api_update/");
    extender(&mut inst, &chars_de(institucion));
    let mut conj = crate::nombres::copiar(&inst);
    conj.push('/');
    extender(&mut conj, &chars_de(conjunto));
    let mut destino = crate::nombres::copiar(&conj);
    destino.push('/');
    CarpetasRemotas {
        institucion: cadena_de(&inst),
        conjunto: cadena_de(&conj),
        destino: cadena_de(&destino),
    }
}

/// The remote path of a file: the folder followed by the file name.
pub fn ruta_archivo_remoto(carpeta: &str, archivo: &str) -> (r: String)
    ensures
        r@ == carpeta@ + archivo@,
{
    let mut v = chars_de(carpeta);
    extender(&mut v, &chars_de(archivo));
    cadena_de(&v)
}

/// What `Path::file_stem` gives for a path, as text (`None` when the path
/// has no file name or the stem is not valid Unicode), under the path syntax
/// of the platform the program is built for.
pub uninterp spec fn raiz_de_ruta(ruta: Seq<char>) -> Option<Seq<char>>;

/// `std::path::Path::file_stem` followed by `OsStr::to_str`. The contract
/// names the result; how a path is split into components is not stated, and
/// it follows the path syntax of the platform the program is built for (a
/// backslash separates components on Windows and not elsewhere).
#[verifier::external_body]
fn raiz_de_archivo(ruta: &str) -> (r: Option<String>)
    ensures
        match r {
            Some(s) => raiz_de_ruta(ruta@) == Some(s@),
            None => raiz_de_ruta(ruta@) is None,
        },
{
    match std::path::Path::new(ruta).file_stem() {
        Some(stem) => match stem.to_str() {
            Some(t) => Some(t.to_string()),
            None => None,
        },
        None => None,
    }
}

/// The name under which a loaded file is suggested to be exported: the
/// normalised stem of its name (`archivo` when it has none) with the
/// extension `.csv`.
pub fn nombre_archivo_sugerido(ruta: &str) -> (r: String)
    ensures
        r@ == sugerencia(
            match raiz_de_ruta(ruta@) {
                Some(s) => s,
                None => "archivo"@,
            },
        ) + ".csv"@,
{
    let stem = match raiz_de_archivo(ruta) {
        Some(s) => s,
        None => String::from_str("archivo"),
    };
    let v = validar_cadena(stem.as_str());
    let mut r = chars_de(v.sugerido.as_str());
    extender(&mut r, &chars_de(".csv"));
    cadena_de(&r)
}

} // verus!
