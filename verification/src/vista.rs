//! Texts and choices that the windows show.

use vstd::prelude::*;
use crate::texto::{decimal, es_digito, ley_decimal, push_decimal, valor_decimal, valor_digito};

verus! {

/// Two-digit decimal rendering of a number below 100.
pub open spec fn dos_digitos(n: nat) -> Seq<char> {
    if n < 10 {
        "0"@ + decimal(n)
    } else {
        decimal(n)
    }
}

/// The two-digit rendering of a number below 100 has exactly two digits, which
/// read back as the number.
pub proof fn ley_dos_digitos(m: nat)
    requires
        m < 100,
    ensures
        dos_digitos(m).len() == 2,
        es_digito(dos_digitos(m)[0]),
        es_digito(dos_digitos(m)[1]),
        valor_digito(dos_digitos(m)[0]) * 10 + valor_digito(dos_digitos(m)[1]) == m,
{
    let d = decimal(m);
    ley_decimal(m);
    if m < 10 {
        reveal_strlit("0");
        assert(d.drop_last().len() == 0);
        assert(valor_decimal(d.drop_last()) == 0);
        assert(dos_digitos(m)[0] == '0');
        assert(dos_digitos(m)[1] == d[0]);
        assert(d.last() == d[0]);
    } else {
        ley_decimal(m / 10);
        assert(d.drop_last() =~= decimal(m / 10));
        assert(decimal(m / 10).len() == 1);
        let e = decimal(m / 10);
        assert(e.drop_last().len() == 0);
        assert(valor_decimal(e.drop_last()) == 0);
        assert(e.last() == e[0]);
        assert(d[0] == e[0]);
        assert(d.last() == d[1]);
    }
}

/// `m:ss` for a number of seconds.
pub open spec fn texto_tiempo(seconds: nat) -> Seq<char> {
    decimal(seconds / 60) + ":"@ + dos_digitos(seconds % 60)
}

/// A playing time reads as its minutes in decimal, a colon, and exactly two
/// digits that give the seconds left over.
pub proof fn ley_texto_tiempo(n: nat)
    ensures
        ({
            let t = texto_tiempo(n);
            &&& t.len() >= 4
            &&& t[t.len() - 3] == ':'
            &&& valor_decimal(t.subrange(0, t.len() - 3)) == n / 60
            &&& forall|k: int| 0 <= k < t.len() - 3 ==> es_digito(#[trigger] t[k])
            &&& es_digito(t[t.len() - 2])
            &&& es_digito(t[t.len() - 1])
            &&& valor_digito(t[t.len() - 2]) * 10 + valor_digito(t[t.len() - 1]) == n % 60
        }),
{
    let t = texto_tiempo(n);
    let mins = decimal(n / 60);
    let secs = dos_digitos(n % 60);
    reveal_strlit(":");
    ley_decimal(n / 60);
    ley_dos_digitos(n % 60);
    assert(t =~= mins + seq![':'] + secs);
    assert(t.subrange(0, t.len() - 3) =~= mins);
    assert(t[t.len() - 2] == secs[0]);
    assert(t[t.len() - 1] == secs[1]);
    assert(forall|k: int| 0 <= k < t.len() - 3 ==> t[k] == mins[k]);
}

/// A playing time as minutes and two-digit seconds, `m:ss`.
pub fn format_time(seconds: u64) -> (r: String)
    ensures
        r@ == texto_tiempo(seconds as nat),
{
    let mins = seconds / 60;
    let secs = seconds % 60;
    let mut r = String::new();
    push_decimal(&mut r, mins);
    r.append(":");
    if secs < 10 {
        r.append("0");
    }
    push_decimal(&mut r, secs);
    proof {
        if secs < 10 {
            assert(r@ =~= texto_tiempo(seconds as nat));
        } else {
            assert(r@ =~= texto_tiempo(seconds as nat));
        }
    }
    r
}

/// The line under the title of the song that plays: the artist, and the
/// album after a dash when there is one.
pub open spec fn linea_artista(artist: Seq<char>, album: Seq<char>) -> Seq<char> {
    if album.len() == 0 {
        artist
    } else {
        artist + " - "@ + album
    }
}

/// The line under the title of the song that plays.
pub fn texto_artista_album(artist: &str, album: &str) -> (r: String)
    ensures
        r@ == linea_artista(artist@, album@),
{
    let mut r = artist.to_owned();
    if !album.is_empty() {
        r.append(" - ");
        r.append(album);
    }
    r
}

/// Kind of performer in the database: 0 a person, 1 a group, 2 not known yet.
/// The editing window shows a person's form for any kind but a group.
pub open spec fn indice_de_tipo(tipo: i32) -> u32 {
    if tipo == 1 {
        1
    } else {
        0
    }
}

/// The option that the performer editor selects first for a kind of performer.
pub fn indice_tipo_performer(tipo: i32) -> (r: u32)
    ensures
        r == indice_de_tipo(tipo),
{
    match tipo {
        0 => 0,
        1 => 1,
        _ => 0,
    }
}

/// The text of the song count that the header shows.
pub fn texto_cantidad_canciones(n: u64) -> (r: String)
    ensures
        r@ == decimal(n as nat) + " canciones"@,
{
    let mut r = String::new();
    push_decimal(&mut r, n);
    r.append(" canciones");
    r
}

} // verus!
