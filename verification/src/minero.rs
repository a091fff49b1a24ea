//! Songs found while mining a directory, built from their ID3 tags.

use vstd::prelude::*;
use crate::texto::chars_of;

verus! {

/// A song to store in the database.
#[derive(Debug)]
pub struct Cancion {
    pub title: String,
    pub artist: String,
    pub album: String,
    pub genre: String,
    pub track: u32,
    pub year: i32,
    pub path: String,
    pub album_path: String,
}

/// The tag fields of an MP3 file that a song takes.
pub struct EtiquetasMp3 {
    pub title: Option<String>,
    pub artist: Option<String>,
    pub track: Option<u32>,
    pub album: Option<String>,
    pub genre: Option<String>,
    pub year: Option<i32>,
    /// The year of the recording date, for tags that keep the year there.
    pub year_recorded: Option<i32>,
}

/// Text of a field that the tags may lack.
pub open spec fn o_desconocido(v: Option<String>) -> Seq<char> {
    match v {
        Some(s) => s@,
        None => "Desconocido"@,
    }
}

/// Year of a song: the tag's year, else the year of its recording date, else `dflt`.
pub open spec fn anio_de(year: Option<i32>, year_recorded: Option<i32>, dflt: i32) -> i32 {
    match year {
        Some(y) => y,
        None => match year_recorded {
            Some(y) => y,
            None => dflt,
        },
    }
}

/// Year used when neither the tags nor the file give one.
pub const ANIO_POR_DEFECTO: i32 = 2026;

fn o_desconocido_exec(v: Option<String>) -> (r: String)
    ensures
        r@ == o_desconocido(v),
{
    match v {
        Some(s) => s,
        None => "Desconocido".to_owned(),
    }
}

/// The song of an MP3 file. `anio_archivo` is the year the file was created,
/// `etiquetas` its tags when they could be read, `ruta` its path and
/// `ruta_album` the path of its directory. A song whose tags could not be read
/// keeps every default, its path included (`"."`).
pub fn cancion_de_mp3(
    anio_archivo: Option<i32>,
    etiquetas: Option<EtiquetasMp3>,
    ruta: String,
    ruta_album: String,
) -> (c: Cancion)
    ensures
        ({
            let dflt = match anio_archivo {
                Some(y) => y,
                None => ANIO_POR_DEFECTO,
            };
            match etiquetas {
                None => {
                    &&& c.title@ == "Desconocido"@
                    &&& c.artist@ == "Desconocido"@
                    &&& c.album@ == "Desconocido"@
                    &&& c.genre@ == "Desconocido"@
                    &&& c.track == 1
                    &&& c.year == dflt
                    &&& c.path@ == "."@
                    &&& c.album_path@ == "."@
                },
                Some(t) => {
                    &&& c.title@ == o_desconocido(t.title)
                    &&& c.artist@ == o_desconocido(t.artist)
                    &&& c.album@ == o_desconocido(t.album)
                    &&& c.genre@ == o_desconocido(t.genre)
                    &&& c.track == (match t.track {
                        Some(n) => n,
                        None => 1,
                    })
                    &&& c.year == anio_de(t.year, t.year_recorded, dflt)
                    &&& c.path@ == ruta@
                    &&& c.album_path@ == ruta_album@
                },
            }
        }),
        // The year: from the tag, else from the recording date, else the
        // year the file was created, else 2026.
        etiquetas is Some && etiquetas->0.year is Some ==> c.year == etiquetas->0.year->0,
        etiquetas is Some && etiquetas->0.year is None && etiquetas->0.year_recorded is Some
            ==> c.year == etiquetas->0.year_recorded->0,
        (etiquetas is None || (etiquetas->0.year is None && etiquetas->0.year_recorded is None))
            ==> c.year == (match anio_archivo {
            Some(y) => y,
            None => 2026i32,
        }),
{
    let dflt = match anio_archivo {
        Some(y) => y,
        None => ANIO_POR_DEFECTO,
    };
    match etiquetas {
        None => Cancion {
            title: "Desconocido".to_owned(),
            artist: "Desconocido".to_owned(),
            album: "Desconocido".to_owned(),
            genre: "Desconocido".to_owned(),
            track: 1,
            year: dflt,
            path: ".".to_owned(),
            album_path: ".".to_owned(),
        },
        Some(t) => {
            let year = match t.year {
                Some(y) => y,
                None => match t.year_recorded {
                    Some(y) => y,
                    None => dflt,
                },
            };
            let track = match t.track {
                Some(n) => n,
                None => 1,
            };
            Cancion {
                title: o_desconocido_exec(t.title),
                artist: o_desconocido_exec(t.artist),
                album: o_desconocido_exec(t.album),
                genre: o_desconocido_exec(t.genre),
                track,
                year,
                path: ruta,
                album_path: ruta_album,
            }
        },
    }
}

/// A file name that ends in `.mp3`.
pub open spec fn nombre_mp3(nombre: Seq<char>) -> bool {
    nombre.len() >= 4 && nombre.skip(nombre.len() - 4) == ".mp3"@
}

/// Whether a file name ends in `.mp3` (case matters).
pub fn es_mp3(nombre: &str) -> (r: bool)
    ensures
        r == nombre_mp3(nombre@),
{
    let v = chars_of(nombre);
    let n = v.len();
    proof {
        reveal_strlit(".mp3");
    }
    if n < 4 {
        return false;
    }
    let r = v[n - 4] == '.' && v[n - 3] == 'm' && v[n - 2] == 'p' && v[n - 1] == '3';
    proof {
        let cola = nombre@.skip(n - 4);
        if r {
            assert(cola =~= ".mp3"@);
        } else {
            if cola == ".mp3"@ {
                assert(cola[0] == nombre@[n - 4]);
                assert(cola[1] == nombre@[n - 3]);
                assert(cola[2] == nombre@[n - 2]);
                assert(cola[3] == nombre@[n - 1]);
            }
        }
    }
    r
}

} // verus!
