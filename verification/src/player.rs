//! Playlist state of the player: which song plays, and which comes next.
//!
//! The audio backend only receives the URI that each operation returns.

use vstd::prelude::*;
use crate::texto::chars_of;

verus! {

/// URI that the audio backend plays for a file path: the path itself when it
/// already is a `file://` URI, else the path behind `file://`.
pub open spec fn uri_de(path: Seq<char>) -> Seq<char> {
    if path.len() >= 7 && path.take(7) == "file://"@ {
        path
    } else {
        "file://"@ + path
    }
}

/// The URI to hand to the audio backend for `path`.
pub fn uri_de_archivo(path: &str) -> (r: String)
    ensures
        r@ == uri_de(path@),
{
    let v = chars_of(path);
    proof {
        reveal_strlit("file://");
    }
    if v.len() >= 7 && v[0] == 'f' && v[1] == 'i' && v[2] == 'l' && v[3] == 'e' && v[4] == ':'
        && v[5] == '/' && v[6] == '/' {
        assert(path@.take(7) =~= "file://"@);
        path.to_owned()
    } else {
        assert(!(path@.len() >= 7 && path@.take(7) == "file://"@)) by {
            if path@.len() >= 7 && path@.take(7) == "file://"@ {
                assert(path@.take(7)[0] == path@[0]);
                assert(path@.take(7)[1] == path@[1]);
                assert(path@.take(7)[2] == path@[2]);
                assert(path@.take(7)[3] == path@[3]);
                assert(path@.take(7)[4] == path@[4]);
                assert(path@.take(7)[5] == path@[5]);
                assert(path@.take(7)[6] == path@[6]);
            }
        }
        let mut r = "file://".to_owned();
        r.append(path);
        r
    }
}

/// Index of the current song, counting none as the first.
pub open spec fn indice_actual(actual: Option<usize>) -> int {
    match actual {
        Some(i) => i as int,
        None => 0,
    }
}

/// The index after `idx`, wrapping around at the end of a playlist of `len` songs.
pub open spec fn paso_siguiente(idx: int, len: nat) -> int {
    (idx + 1) % (len as int)
}

/// The index before `idx`: the last one of a playlist of `len` songs when `idx` is the first.
pub open spec fn paso_anterior(idx: int, len: nat) -> int {
    if idx == 0 {
        len - 1
    } else {
        idx - 1
    }
}

/// Index that `next` plays.
pub open spec fn indice_siguiente(actual: Option<usize>, len: nat) -> int {
    paso_siguiente(indice_actual(actual), len)
}

/// Index that `prev` plays.
pub open spec fn indice_anterior(actual: Option<usize>, len: nat) -> int {
    paso_anterior(indice_actual(actual), len)
}

/// Playlist and position of the player.
pub struct Player {
    playlist: Vec<String>,
    current_index: Option<usize>,
}

impl Player {
    #[verifier::type_invariant]
    spec fn indice_acotado(self) -> bool {
        &&& self.current_index matches Some(i) ==> i < usize::MAX
        &&& self.playlist@.len() <= usize::MAX
    }

    /// The paths of the playlist.
    pub closed spec fn lista(self) -> Seq<Seq<char>> {
        self.playlist@.map_values(|s: String| s@)
    }

    /// The index of the song that plays, if any.
    pub closed spec fn actual(self) -> Option<usize> {
        self.current_index
    }

    /// An empty playlist with nothing playing.
    pub fn new() -> (r: Player)
        ensures
            r.lista() == Seq::<Seq<char>>::empty(),
            r.actual() is None,
            r.lista().len() <= usize::MAX,
    {
        let r = Player { playlist: Vec::new(), current_index: None };
        assert(r.lista() =~= Seq::<Seq<char>>::empty());
        r
    }

    /// Replaces the playlist; the current index stays as it was.
    pub fn set_playlist(&mut self, paths: Vec<String>)
        ensures
            final(self).lista() == paths@.map_values(|s: String| s@),
            final(self).actual() == old(self).actual(),
            final(self).lista().len() <= usize::MAX,
    {
        proof {
            use_type_invariant(&*self);
        }
        let longitud: usize = paths.len();
        assert(paths@.len() == longitud);
        self.playlist = paths;
    }

    /// Makes song `index` the current one and returns the URI to play, when
    /// the playlist has such a song; else changes nothing and returns `None`.
    pub fn play_index(&mut self, index: usize) -> (r: Option<String>)
        ensures
            final(self).lista() == old(self).lista(),
            final(self).lista().len() <= usize::MAX,
            index < old(self).lista().len() ==> {
                &&& final(self).actual() == Some(index)
                &&& r matches Some(u) && u@ == uri_de(old(self).lista()[index as int])
            },
            index >= old(self).lista().len() ==> final(self).actual() == old(self).actual()
                && r is None,
    {
        if index < self.playlist.len() {
            let uri = uri_de_archivo(self.playlist[index].as_str());
            self.current_index = Some(index);
            Some(uri)
        } else {
            None
        }
    }

    /// Plays the song after the current one, wrapping around; nothing when
    /// the playlist is empty.
    pub fn next(&mut self) -> (r: Option<String>)
        ensures
            final(self).lista() == old(self).lista(),
            final(self).lista().len() <= usize::MAX,
            old(self).lista().len() == 0 ==> final(self).actual() == old(self).actual() && r is None,
            old(self).lista().len() > 0 ==> {
                let i = indice_siguiente(old(self).actual(), old(self).lista().len());
                &&& final(self).actual() == Some(i as usize)
                &&& r matches Some(u) && u@ == uri_de(old(self).lista()[i])
            },
    {
        proof {
            use_type_invariant(&*self);
        }
        let idx = match self.current_index {
            Some(i) => i,
            None => 0,
        };
        let len = self.playlist.len();
        if len > 0 {
            self.play_index((idx + 1) % len)
        } else {
            None
        }
    }

    /// Plays the song before the current one (the last one from the first);
    /// nothing when the playlist is empty or the index before is past its end.
    pub fn prev(&mut self) -> (r: Option<String>)
        ensures
            final(self).lista() == old(self).lista(),
            final(self).lista().len() <= usize::MAX,
            ({
                let i = indice_anterior(old(self).actual(), old(self).lista().len());
                if 0 < old(self).lista().len() && i < old(self).lista().len() {
                    &&& final(self).actual() == Some(i as usize)
                    &&& r matches Some(u) && u@ == uri_de(old(self).lista()[i])
                } else {
                    final(self).actual() == old(self).actual() && r is None
                }
            }),
    {
        let idx = match self.current_index {
            Some(i) => i,
            None => 0,
        };
        let len = self.playlist.len();
        if len > 0 {
            let new_idx = if idx == 0 {
                len - 1
            } else {
                idx - 1
            };
            self.play_index(new_idx)
        } else {
            None
        }
    }

    /// The index of the song that plays, if any.
    pub fn current_index(&self) -> (r: Option<usize>)
        ensures
            r == self.actual(),
            self.lista().len() <= usize::MAX,
    {
        proof {
            use_type_invariant(self);
        }
        self.current_index
    }
}

/// Going to the next song and then back to the previous one returns to the
/// song that played, whenever that song is in the playlist.
pub proof fn ley_anterior_deshace_siguiente(i: int, len: nat)
    requires
        0 <= i < len,
    ensures
        0 <= paso_siguiente(i, len) < len,
        paso_anterior(paso_siguiente(i, len), len) == i,
{
    if i + 1 < len {
        vstd::arithmetic::div_mod::lemma_small_mod((i + 1) as nat, len);
    } else {
        vstd::arithmetic::div_mod::lemma_mod_self_0(len as int);
    }
}

/// Going to the previous song and then to the next one returns to the song
/// that played, whenever that song is in the playlist.
pub proof fn ley_siguiente_deshace_anterior(i: int, len: nat)
    requires
        0 <= i < len,
    ensures
        0 <= paso_anterior(i, len) < len,
        paso_siguiente(paso_anterior(i, len), len) == i,
{
    if i == 0 {
        vstd::arithmetic::div_mod::lemma_mod_self_0(len as int);
    } else {
        vstd::arithmetic::div_mod::lemma_small_mod(i as nat, len);
    }
}

/// Index reached from `i` after `k` steps of `next`.
pub open spec fn tras_siguientes(i: int, len: nat, k: nat) -> int
    decreases k,
{
    if k == 0 {
        i
    } else {
        paso_siguiente(tras_siguientes(i, len, (k - 1) as nat), len)
    }
}

proof fn lemma_tras_siguientes(i: int, len: nat, k: nat)
    requires
        0 <= i < len,
    ensures
        tras_siguientes(i, len, k) == (i + k) % (len as int),
    decreases k,
{
    if k == 0 {
        vstd::arithmetic::div_mod::lemma_small_mod(i as nat, len);
    } else {
        lemma_tras_siguientes(i, len, (k - 1) as nat);
        vstd::arithmetic::div_mod::lemma_add_mod_noop(i + k - 1, 1, len as int);
        if len > 1 {
            vstd::arithmetic::div_mod::lemma_small_mod(1, len);
        }
        vstd::arithmetic::div_mod::lemma_mod_bound(i + k - 1, len as int);
        if len == 1 {
            vstd::arithmetic::div_mod::lemma_mod_self_0(1);
            assert(((i + k - 1) % 1 + 1) % 1 == (i + k) % 1) by {
                vstd::arithmetic::div_mod::lemma_add_mod_noop(i + k - 1, 1, 1);
            }
        }
    }
}

/// Each step of `next` advances one place, modulo the length of the playlist:
/// after as many steps as there are songs, the same song plays again.
pub proof fn ley_vuelta_completa(i: int, len: nat, k: nat)
    requires
        0 <= i < len,
    ensures
        tras_siguientes(i, len, k) == (i + k) % (len as int),
        tras_siguientes(i, len, len) == i,
{
    lemma_tras_siguientes(i, len, k);
    lemma_tras_siguientes(i, len, len);
    vstd::arithmetic::div_mod::lemma_mod_self_0(len as int);
    vstd::arithmetic::div_mod::lemma_add_mod_noop(i, len as int, len as int);
    vstd::arithmetic::div_mod::lemma_small_mod(i as nat, len);
}


/// On a player whose song `i` plays, in a playlist of `n` songs (which fits a
/// `usize`, as every playlist does), `next` then `prev` plays song `i` again,
/// and so does `prev` then `next`.
pub proof fn ley_siguiente_y_anterior_en_el_reproductor(i: usize, n: nat)
    requires
        i < n,
        n <= usize::MAX,
    ensures
        ({
            let j = indice_siguiente(Some(i), n);
            &&& 0 <= j < n
            &&& indice_anterior(Some(j as usize), n) == i
        }),
        ({
            let j = indice_anterior(Some(i), n);
            &&& 0 <= j < n
            &&& indice_siguiente(Some(j as usize), n) == i
        }),
{
    ley_anterior_deshace_siguiente(i as int, n);
    ley_siguiente_deshace_anterior(i as int, n);
}

} // verus!
