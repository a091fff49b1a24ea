//! Where the cover art of a song is cached.

use std::collections::hash_map::DefaultHasher;
use std::hash::{BuildHasher, BuildHasherDefault};
use vstd::prelude::*;
use crate::texto::{hex_fijo, push_hex_fijo};

verus! {

/// Hash that `DefaultHasher::new()` computes for a string slice with these characters.
pub uninterp spec fn hash_por_defecto(s: Seq<char>) -> u64;

/// `BuildHasher::hash_one` of `BuildHasherDefault<DefaultHasher>`: hashes `s`
/// with a fresh `DefaultHasher`, as `DefaultHasher::new()`, `hash` and `finish` do.
/// Every `DefaultHasher` built by `new` or `default` starts in the same state,
/// and `str` feeds only its bytes (and a terminator) to it, so the result is a
/// function of the characters alone; which function is left unnamed.
#[verifier::external_body]
fn hash_de_texto(s: &str) -> (h: u64)
    ensures
        h == hash_por_defecto(s@),
{
    BuildHasherDefault::<DefaultHasher>::default().hash_one(s)
}

/// `dir` joined with the file name `nombre`, as a path: no separator is added
/// after an empty directory or one that already ends in `/`.
pub open spec fn unir_ruta(dir: Seq<char>, nombre: Seq<char>) -> Seq<char> {
    if dir.len() == 0 || dir.last() == '/' {
        dir + nombre
    } else {
        dir + "/"@ + nombre
    }
}

/// File name of the cached cover of the song at `mp3_path`: the 16 hexadecimal
/// digits of the hash of the path, then `.jpg`.
pub open spec fn nombre_arte(mp3_path: Seq<char>) -> Seq<char> {
    hex_fijo(hash_por_defecto(mp3_path) as nat, 16) + ".jpg"@
}

/// Path of the cached cover of the song at `mp3_path`, inside `cache_dir`.
pub fn path_art(cache_dir: &str, mp3_path: &str) -> (r: String)
    ensures
        r@ == unir_ruta(cache_dir@, nombre_arte(mp3_path@)),
{
    let hash = hash_de_texto(mp3_path);
    let mut nombre = String::new();
    push_hex_fijo(&mut nombre, hash, 16);
    nombre.append(".jpg");
    let mut r = cache_dir.to_owned();
    let vacio = cache_dir.is_empty();
    let termina_en_barra = if vacio {
        false
    } else {
        let n = cache_dir.unicode_len();
        cache_dir.get_char(n - 1) == '/'
    };
    if !vacio && !termina_en_barra {
        r.append("/");
    }
    r.append(nombre.as_str());
    proof {
        assert(nombre@ =~= nombre_arte(mp3_path@));
    }
    r
}

} // verus!
