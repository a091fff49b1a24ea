//! Queries on the song database: the rows the views show, and the SQL of a search.

use vstd::prelude::*;
use crate::parser::{analizar_texto, parsear};
use crate::query_builder::{expr_a_sql, params_sql, vista_params, where_sql};

verus! {

/// A song as the song table shows it.
#[derive(Debug, Clone)]
pub struct RolaView {
    pub id_rola: i64,
    pub title: String,
    pub album: String,
    pub performer: String,
    pub track: u32,
    pub year: i32,
    pub genre: String,
    pub path: String,
}

/// The columns and joins that every listing of songs reads.
pub open spec fn select_rolas() -> Seq<char> {
    "SELECT r.id_rola, r.title, COALESCE(a.name, 'Desconocido'), COALESCE(p.name, 'Desconocido'), r.track, r.year, COALESCE(r.genre, 'Desconocido'), r.path FROM rolas r LEFT JOIN albums a ON r.id_album = a.id_album LEFT JOIN performers p ON r.id_performer = p.id_performer"@
}

/// Order of every listing of songs: by album, then by track.
pub open spec fn orden_rolas() -> Seq<char> {
    " ORDER BY a.name, r.track"@
}

/// SQL that lists every song.
pub open spec fn sql_todas() -> Seq<char> {
    select_rolas() + orden_rolas()
}

/// SQL that lists the songs that match a `WHERE` clause.
pub open spec fn sql_busqueda(where_clause: Seq<char>) -> Seq<char> {
    select_rolas() + " WHERE "@ + where_clause + orden_rolas()
}

fn select_rolas_exec() -> (r: &'static str)
    ensures
        r@ == select_rolas(),
{
    "SELECT r.id_rola, r.title, COALESCE(a.name, 'Desconocido'), COALESCE(p.name, 'Desconocido'), r.track, r.year, COALESCE(r.genre, 'Desconocido'), r.path FROM rolas r LEFT JOIN albums a ON r.id_album = a.id_album LEFT JOIN performers p ON r.id_performer = p.id_performer"
}

/// SQL that lists every song, ordered by album and track.
pub fn consulta_todas() -> (r: String)
    ensures
        r@ == sql_todas(),
{
    let mut r = select_rolas_exec().to_owned();
    r.append(" ORDER BY a.name, r.track");
    r
}

/// SQL that lists the songs matching `where_clause`, ordered by album and track.
pub fn consulta_busqueda(where_clause: &str) -> (r: String)
    ensures
        r@ == sql_busqueda(where_clause@),
{
    let mut r = select_rolas_exec().to_owned();
    r.append(" WHERE ");
    r.append(where_clause);
    r.append(" ORDER BY a.name, r.track");
    r
}

/// What a search query becomes: the SQL that lists its songs and the
/// parameters to bind, or the error message of the query.
pub open spec fn busqueda_de(query: Seq<char>) -> Result<(Seq<char>, Seq<Seq<char>>), Seq<char>> {
    match analizar_texto(query) {
        Ok(e) => Ok((sql_busqueda(where_sql(e, 0)), params_sql(e))),
        Err(m) => Err(m),
    }
}

/// Parses a search query and builds the SQL that lists its songs, with the
/// parameters to bind, in the order of their placeholders.
pub fn preparar_busqueda(query: &str) -> (r: Result<(String, Vec<String>), String>)
    ensures
        match r {
            Ok((sql, params)) => busqueda_de(query@) == Ok::<
                (Seq<char>, Seq<Seq<char>>),
                Seq<char>,
            >((sql@, vista_params(params@))),
            Err(m) => busqueda_de(query@) == Err::<(Seq<char>, Seq<Seq<char>>), Seq<char>>(m@),
        },
{
    let expr = match parsear(query) {
        Ok(e) => e,
        Err(m) => return Err(m),
    };
    let q = expr_a_sql(&expr);
    let sql = consulta_busqueda(q.where_clause.as_str());
    Ok((sql, q.params))
}


// ---------------------------------------------------------------------------
// Storing a mined song: the decisions between the database calls.
// ---------------------------------------------------------------------------

/// Where the storing of a song stands.
#[derive(Debug, Clone, Copy, PartialEq, Eq, Structural)]
pub enum PasoGuardado {
    /// Nothing asked yet.
    Inicio,
    /// Waiting to know whether a song with this path is stored.
    VerificandoRola,
    /// Waiting for the id of the performer with this name, if any.
    BuscandoPerformer,
    /// Waiting for the id of the performer just created.
    CreandoPerformer,
    /// Waiting for the id of the album with this name and year, if any.
    BuscandoAlbum { id_performer: i64 },
    /// Waiting for the id of the album just created.
    CreandoAlbum { id_performer: i64 },
    /// Waiting for the song row to be inserted.
    InsertandoRola { id_performer: i64, id_album: i64 },
    /// Done.
    Terminado,
}

/// What the database answered to the last order.
#[derive(Debug, Clone, Copy, PartialEq, Eq, Structural)]
pub enum RespuestaDb {
    /// No order was given yet.
    Nada,
    /// Whether a song with the path is stored.
    Existe(bool),
    /// The id found by a lookup, if any.
    Id(Option<i64>),
    /// The id of the row just inserted.
    Creado(i64),
    /// The song row was inserted.
    Insertada,
}

/// What to ask the database next.
#[derive(Debug, Clone, Copy, PartialEq, Eq, Structural)]
pub enum OrdenDb {
    /// Is a song with the song's path stored?
    ConsultarRola,
    /// The id of the performer named as the song's artist.
    BuscarPerformer,
    /// Insert a performer of unknown kind named as the song's artist.
    CrearPerformer,
    /// The id of the album with the song's album name and year.
    BuscarAlbum,
    /// Insert the album of the song.
    CrearAlbum,
    /// Insert the song with these performer and album ids.
    InsertarRola { id_performer: i64, id_album: i64 },
    /// Stop; `true` when the song was inserted, `false` when it was already stored.
    Terminar(bool),
}

/// The answers that each step waits for.
pub open spec fn respuesta_esperada(paso: PasoGuardado, r: RespuestaDb) -> bool {
    match paso {
        PasoGuardado::Inicio => r is Nada,
        PasoGuardado::VerificandoRola => r is Existe,
        PasoGuardado::BuscandoPerformer => r is Id,
        PasoGuardado::CreandoPerformer => r is Creado,
        PasoGuardado::BuscandoAlbum { .. } => r is Id,
        PasoGuardado::CreandoAlbum { .. } => r is Creado,
        PasoGuardado::InsertandoRola { .. } => r is Insertada,
        PasoGuardado::Terminado => false,
    }
}

/// Next step and order after an answer: a stored path stops everything; a
/// performer or an album that is not found is created; the song is inserted
/// with the ids that were found or created.
pub open spec fn transicion_guardado(paso: PasoGuardado, r: RespuestaDb) -> (PasoGuardado, OrdenDb) {
    match (paso, r) {
        (PasoGuardado::VerificandoRola, RespuestaDb::Existe(true)) => (
            PasoGuardado::Terminado,
            OrdenDb::Terminar(false),
        ),
        (PasoGuardado::VerificandoRola, _) => (
            PasoGuardado::BuscandoPerformer,
            OrdenDb::BuscarPerformer,
        ),
        (PasoGuardado::BuscandoPerformer, RespuestaDb::Id(Some(p))) => (
            PasoGuardado::BuscandoAlbum { id_performer: p },
            OrdenDb::BuscarAlbum,
        ),
        (PasoGuardado::BuscandoPerformer, _) => (
            PasoGuardado::CreandoPerformer,
            OrdenDb::CrearPerformer,
        ),
        (PasoGuardado::CreandoPerformer, RespuestaDb::Creado(p)) => (
            PasoGuardado::BuscandoAlbum { id_performer: p },
            OrdenDb::BuscarAlbum,
        ),
        (PasoGuardado::BuscandoAlbum { id_performer }, RespuestaDb::Id(Some(a))) => (
            PasoGuardado::InsertandoRola { id_performer, id_album: a },
            OrdenDb::InsertarRola { id_performer, id_album: a },
        ),
        (PasoGuardado::BuscandoAlbum { id_performer }, _) => (
            PasoGuardado::CreandoAlbum { id_performer },
            OrdenDb::CrearAlbum,
        ),
        (PasoGuardado::CreandoAlbum { id_performer }, RespuestaDb::Creado(a)) => (
            PasoGuardado::InsertandoRola { id_performer, id_album: a },
            OrdenDb::InsertarRola { id_performer, id_album: a },
        ),
        (PasoGuardado::InsertandoRola { .. }, _) => (PasoGuardado::Terminado, OrdenDb::Terminar(true)),
        _ => (PasoGuardado::VerificandoRola, OrdenDb::ConsultarRola),
    }
}

/// The next step of storing a song, given the database's answer to the last order.
pub fn paso_guardado(paso: PasoGuardado, r: RespuestaDb) -> (res: (PasoGuardado, OrdenDb))
    requires
        respuesta_esperada(paso, r),
    ensures
        res == transicion_guardado(paso, r),
{
    match (paso, r) {
        (PasoGuardado::VerificandoRola, RespuestaDb::Existe(true)) => (
            PasoGuardado::Terminado,
            OrdenDb::Terminar(false),
        ),
        (PasoGuardado::VerificandoRola, _) => (
            PasoGuardado::BuscandoPerformer,
            OrdenDb::BuscarPerformer,
        ),
        (PasoGuardado::BuscandoPerformer, RespuestaDb::Id(Some(p))) => (
            PasoGuardado::BuscandoAlbum { id_performer: p },
            OrdenDb::BuscarAlbum,
        ),
        (PasoGuardado::BuscandoPerformer, _) => (
            PasoGuardado::CreandoPerformer,
            OrdenDb::CrearPerformer,
        ),
        (PasoGuardado::CreandoPerformer, RespuestaDb::Creado(p)) => (
            PasoGuardado::BuscandoAlbum { id_performer: p },
            OrdenDb::BuscarAlbum,
        ),
        (PasoGuardado::BuscandoAlbum { id_performer }, RespuestaDb::Id(Some(a))) => (
            PasoGuardado::InsertandoRola { id_performer, id_album: a },
            OrdenDb::InsertarRola { id_performer, id_album: a },
        ),
        (PasoGuardado::BuscandoAlbum { id_performer }, _) => (
            PasoGuardado::CreandoAlbum { id_performer },
            OrdenDb::CrearAlbum,
        ),
        (PasoGuardado::CreandoAlbum { id_performer }, RespuestaDb::Creado(a)) => (
            PasoGuardado::InsertandoRola { id_performer, id_album: a },
            OrdenDb::InsertarRola { id_performer, id_album: a },
        ),
        (PasoGuardado::InsertandoRola { .. }, _) => (PasoGuardado::Terminado, OrdenDb::Terminar(true)),
        _ => (PasoGuardado::VerificandoRola, OrdenDb::ConsultarRola),
    }
}

/// The orders that a sequence of answers leads to, from step `paso` on,
/// while each answer is one that the step waits for.
pub open spec fn recorrido(paso: PasoGuardado, rs: Seq<RespuestaDb>) -> Seq<OrdenDb>
    decreases rs.len(),
{
    if rs.len() == 0 || !respuesta_esperada(paso, rs[0]) {
        seq![]
    } else {
        let (p2, o) = transicion_guardado(paso, rs[0]);
        seq![o] + recorrido(p2, rs.drop_first())
    }
}

pub open spec fn inserta(os: Seq<OrdenDb>) -> bool {
    exists|k: int| 0 <= k < os.len() && os[k] is InsertarRola
}

/// A song whose path is already stored is never inserted again: once the
/// database says so, the only order is to stop, reporting `false`.
pub proof fn ley_rola_guardada_no_se_repite(rs: Seq<RespuestaDb>)
    requires
        rs.len() >= 2,
        rs[0] == RespuestaDb::Nada,
        rs[1] == RespuestaDb::Existe(true),
    ensures
        recorrido(PasoGuardado::Inicio, rs) == seq![OrdenDb::ConsultarRola, OrdenDb::Terminar(false)],
        !inserta(recorrido(PasoGuardado::Inicio, rs)),
{
    let r1 = rs.drop_first();
    let r2 = r1.drop_first();
    assert(r1[0] == RespuestaDb::Existe(true));
    assert(recorrido(PasoGuardado::Terminado, r2) =~= Seq::<OrdenDb>::empty());
    assert(recorrido(PasoGuardado::VerificandoRola, r1) =~= seq![OrdenDb::Terminar(false)]);
    assert(recorrido(PasoGuardado::Inicio, rs) =~= seq![OrdenDb::ConsultarRola, OrdenDb::Terminar(false)]);
}

/// A song that is not stored yet is inserted once, after its performer and its
/// album have ids, and with exactly those ids.
pub proof fn ley_rola_nueva_se_inserta(p: Option<i64>, cp: i64, a: Option<i64>, ca: i64)
    ensures
        ({
            let id_p = match p {
                Some(x) => x,
                None => cp,
            };
            let id_a = match a {
                Some(x) => x,
                None => ca,
            };
            let rs = seq![RespuestaDb::Nada, RespuestaDb::Existe(false), RespuestaDb::Id(p)]
                + (if p is None {
                seq![RespuestaDb::Creado(cp)]
            } else {
                seq![]
            }) + seq![RespuestaDb::Id(a)] + (if a is None {
                seq![RespuestaDb::Creado(ca)]
            } else {
                seq![]
            }) + seq![RespuestaDb::Insertada];
            let os = recorrido(PasoGuardado::Inicio, rs);
            &&& os.last() == OrdenDb::Terminar(true)
            &&& os[os.len() - 2] == OrdenDb::InsertarRola { id_performer: id_p, id_album: id_a }
        }),
{
    reveal_with_fuel(recorrido, 8);
    let id_p = match p {
        Some(x) => x,
        None => cp,
    };
    let id_a = match a {
        Some(x) => x,
        None => ca,
    };
    let tail = seq![RespuestaDb::Id(a)] + (if a is None {
        seq![RespuestaDb::Creado(ca)]
    } else {
        seq![]
    }) + seq![RespuestaDb::Insertada];
    let rs = seq![RespuestaDb::Nada, RespuestaDb::Existe(false), RespuestaDb::Id(p)] + (if p is None {
        seq![RespuestaDb::Creado(cp)]
    } else {
        seq![]
    }) + tail;
    let fin = seq![RespuestaDb::Insertada];
    assert(recorrido(PasoGuardado::InsertandoRola { id_performer: id_p, id_album: id_a }, fin)
        =~= seq![OrdenDb::Terminar(true)]) by {
        assert(fin.drop_first() =~= Seq::<RespuestaDb>::empty());
    }
    let after_a = if a is None {
        seq![RespuestaDb::Creado(ca)]
    } else {
        seq![]
    } + fin;
    let tras_album = if a is None {
        seq![OrdenDb::CrearAlbum, OrdenDb::InsertarRola { id_performer: id_p, id_album: id_a }, OrdenDb::Terminar(true)]
    } else {
        seq![OrdenDb::InsertarRola { id_performer: id_p, id_album: id_a }, OrdenDb::Terminar(true)]
    };
    assert(tail =~= seq![RespuestaDb::Id(a)] + after_a);
    if a is None {
        assert(after_a.drop_first() =~= fin);
        assert(recorrido(PasoGuardado::CreandoAlbum { id_performer: id_p }, after_a) =~= seq![
            OrdenDb::InsertarRola { id_performer: id_p, id_album: id_a },
            OrdenDb::Terminar(true),
        ]);
    } else {
        assert(after_a =~= fin);
    }
    assert(tail.drop_first() =~= after_a);
    assert(recorrido(PasoGuardado::BuscandoAlbum { id_performer: id_p }, tail) =~= tras_album);
    let tras_perf = if p is None {
        seq![OrdenDb::CrearPerformer, OrdenDb::BuscarAlbum] + tras_album
    } else {
        seq![OrdenDb::BuscarAlbum] + tras_album
    };
    let after_p = if p is None {
        seq![RespuestaDb::Creado(cp)]
    } else {
        seq![]
    } + tail;
    if p is None {
        assert(after_p.drop_first() =~= tail);
        assert(recorrido(PasoGuardado::CreandoPerformer, after_p) =~= seq![OrdenDb::BuscarAlbum] + tras_album);
    } else {
        assert(after_p =~= tail);
    }
    let from_p = seq![RespuestaDb::Id(p)] + after_p;
    assert(from_p.drop_first() =~= after_p);
    assert(recorrido(PasoGuardado::BuscandoPerformer, from_p) =~= tras_perf);
    let from_e = seq![RespuestaDb::Existe(false)] + from_p;
    assert(from_e.drop_first() =~= from_p);
    assert(rs =~= seq![RespuestaDb::Nada] + from_e);
    assert(rs.drop_first() =~= from_e);
    let os = recorrido(PasoGuardado::Inicio, rs);
    assert(os =~= seq![OrdenDb::ConsultarRola, OrdenDb::BuscarPerformer] + tras_perf);
}

} // verus!
