use music_db::dao::{paso_guardado, OrdenDb, PasoGuardado, RespuestaDb};

fn correr(respuestas: &[RespuestaDb]) -> Vec<OrdenDb> {
    let mut paso = PasoGuardado::Inicio;
    let mut ordenes = Vec::new();
    for r in respuestas {
        let (p, o) = paso_guardado(paso, *r);
        paso = p;
        ordenes.push(o);
    }
    ordenes
}

#[test]
fn cancion_ya_guardada() {
    let o = correr(&[RespuestaDb::Nada, RespuestaDb::Existe(true)]);
    assert_eq!(o, vec![OrdenDb::ConsultarRola, OrdenDb::Terminar(false)]);
}

#[test]
fn performer_y_album_existentes() {
    let o = correr(&[
        RespuestaDb::Nada,
        RespuestaDb::Existe(false),
        RespuestaDb::Id(Some(7)),
        RespuestaDb::Id(Some(3)),
        RespuestaDb::Insertada,
    ]);
    assert_eq!(
        o,
        vec![
            OrdenDb::ConsultarRola,
            OrdenDb::BuscarPerformer,
            OrdenDb::BuscarAlbum,
            OrdenDb::InsertarRola { id_performer: 7, id_album: 3 },
            OrdenDb::Terminar(true),
        ]
    );
}

#[test]
fn performer_y_album_nuevos() {
    let o = correr(&[
        RespuestaDb::Nada,
        RespuestaDb::Existe(false),
        RespuestaDb::Id(None),
        RespuestaDb::Creado(11),
        RespuestaDb::Id(None),
        RespuestaDb::Creado(12),
        RespuestaDb::Insertada,
    ]);
    assert_eq!(
        o,
        vec![
            OrdenDb::ConsultarRola,
            OrdenDb::BuscarPerformer,
            OrdenDb::CrearPerformer,
            OrdenDb::BuscarAlbum,
            OrdenDb::CrearAlbum,
            OrdenDb::InsertarRola { id_performer: 11, id_album: 12 },
            OrdenDb::Terminar(true),
        ]
    );
}
