use music_db::arte::path_art;
use music_db::minero::{cancion_de_mp3, es_mp3, EtiquetasMp3, ANIO_POR_DEFECTO};
use music_db::player::{uri_de_archivo, Player};
use music_db::vista::{format_time, indice_tipo_performer, texto_artista_album, texto_cantidad_canciones};
use std::collections::hash_map::DefaultHasher;
use std::hash::{Hash, Hasher};

fn lista(n: usize) -> Vec<String> {
    (0..n).map(|i| format!("/m/{}.mp3", i)).collect()
}

#[test]
fn uri_de_un_archivo() {
    assert_eq!(uri_de_archivo("/home/a/x.mp3"), "file:///home/a/x.mp3");
    assert_eq!(uri_de_archivo("file:///home/a/x.mp3"), "file:///home/a/x.mp3");
    assert_eq!(uri_de_archivo("file:/x"), "file://file:/x");
    assert_eq!(uri_de_archivo(""), "file://");
}

#[test]
fn lista_vacia_no_toca_nada() {
    let mut p = Player::new();
    assert_eq!(p.current_index(), None);
    assert_eq!(p.next(), None);
    assert_eq!(p.prev(), None);
    assert_eq!(p.play_index(0), None);
    assert_eq!(p.current_index(), None);
}

#[test]
fn siguiente_da_la_vuelta() {
    let mut p = Player::new();
    p.set_playlist(lista(3));
    assert_eq!(p.next(), Some("file:///m/1.mp3".to_string()));
    assert_eq!(p.next(), Some("file:///m/2.mp3".to_string()));
    assert_eq!(p.next(), Some("file:///m/0.mp3".to_string()));
    assert_eq!(p.current_index(), Some(0));
}

#[test]
fn anterior_desde_el_primero_va_al_ultimo() {
    let mut p = Player::new();
    p.set_playlist(lista(4));
    assert_eq!(p.prev(), Some("file:///m/3.mp3".to_string()));
    assert_eq!(p.current_index(), Some(3));
    assert_eq!(p.prev(), Some("file:///m/2.mp3".to_string()));
}

#[test]
fn siguiente_y_anterior_se_deshacen() {
    let mut p = Player::new();
    p.set_playlist(lista(5));
    p.play_index(2);
    p.next();
    p.prev();
    assert_eq!(p.current_index(), Some(2));
    p.prev();
    p.next();
    assert_eq!(p.current_index(), Some(2));
    for _ in 0..5 {
        p.next();
    }
    assert_eq!(p.current_index(), Some(2));
}

#[test]
fn indice_fuera_de_la_lista() {
    let mut p = Player::new();
    p.set_playlist(lista(2));
    assert_eq!(p.play_index(1), Some("file:///m/1.mp3".to_string()));
    assert_eq!(p.play_index(2), None);
    assert_eq!(p.current_index(), Some(1));
    p.set_playlist(lista(1));
    assert_eq!(p.current_index(), Some(1));
    assert_eq!(p.prev(), Some("file:///m/0.mp3".to_string()));
    p.set_playlist(lista(10));
    p.play_index(9);
    p.set_playlist(lista(3));
    assert_eq!(p.prev(), None);
    assert_eq!(p.current_index(), Some(9));
    assert_eq!(p.next(), Some("file:///m/1.mp3".to_string()));
}

fn hash_esperado(s: &str) -> u64 {
    let mut h = DefaultHasher::new();
    s.hash(&mut h);
    h.finish()
}

#[test]
fn ruta_del_arte() {
    let esperado = format!("/cache/art/{:016x}.jpg", hash_esperado("/m/x.mp3"));
    assert_eq!(path_art("/cache/art", "/m/x.mp3"), esperado);
    assert_eq!(path_art("/cache/art/", "/m/x.mp3"), esperado);
    assert_eq!(path_art("", "/m/x.mp3"), format!("{:016x}.jpg", hash_esperado("/m/x.mp3")));
    assert_ne!(path_art("/c", "/m/x.mp3"), path_art("/c", "/m/y.mp3"));
    assert_eq!(path_art("/c", "/m/x.mp3").len(), "/c/".len() + 16 + 4);
}

#[test]
fn nombres_mp3() {
    assert!(es_mp3("cancion.mp3"));
    assert!(es_mp3(".mp3"));
    assert!(!es_mp3("cancion.MP3"));
    assert!(!es_mp3("cancion.mp3.txt"));
    assert!(!es_mp3("mp3"));
    assert!(!es_mp3(""));
}

#[test]
fn cancion_sin_etiquetas() {
    let c = cancion_de_mp3(None, None, "/m/a.mp3".to_string(), "/m".to_string());
    assert_eq!(c.title, "Desconocido");
    assert_eq!(c.artist, "Desconocido");
    assert_eq!(c.album, "Desconocido");
    assert_eq!(c.genre, "Desconocido");
    assert_eq!(c.track, 1);
    assert_eq!(c.year, ANIO_POR_DEFECTO);
    assert_eq!(c.year, 2026);
    assert_eq!(c.path, ".");
    assert_eq!(c.album_path, ".");
    let c2 = cancion_de_mp3(Some(2019), None, "/m/a.mp3".to_string(), "/m".to_string());
    assert_eq!(c2.year, 2019);
}

#[test]
fn cancion_con_etiquetas() {
    let t = EtiquetasMp3 {
        title: Some("Lamento".to_string()),
        artist: None,
        track: Some(4),
        album: Some("Disco".to_string()),
        genre: None,
        year: None,
        year_recorded: Some(1971),
    };
    let c = cancion_de_mp3(Some(2020), Some(t), "/m/a.mp3".to_string(), "/m".to_string());
    assert_eq!(c.title, "Lamento");
    assert_eq!(c.artist, "Desconocido");
    assert_eq!(c.track, 4);
    assert_eq!(c.album, "Disco");
    assert_eq!(c.genre, "Desconocido");
    assert_eq!(c.year, 1971);
    assert_eq!(c.path, "/m/a.mp3");
    assert_eq!(c.album_path, "/m");
    let t2 = EtiquetasMp3 {
        title: None,
        artist: Some("X".to_string()),
        track: None,
        album: None,
        genre: Some("Rock".to_string()),
        year: Some(1980),
        year_recorded: Some(1971),
    };
    let c2 = cancion_de_mp3(None, Some(t2), "p".to_string(), "d".to_string());
    assert_eq!(c2.year, 1980);
    assert_eq!(c2.track, 1);
    assert_eq!(c2.artist, "X");
    assert_eq!(c2.genre, "Rock");
}

#[test]
fn tiempos() {
    assert_eq!(format_time(0), "0:00");
    assert_eq!(format_time(5), "0:05");
    assert_eq!(format_time(65), "1:05");
    assert_eq!(format_time(600), "10:00");
    assert_eq!(format_time(3599), "59:59");
    assert_eq!(format_time(7322), "122:02");
}

#[test]
fn linea_de_artista() {
    assert_eq!(texto_artista_album("Queen", ""), "Queen");
    assert_eq!(texto_artista_album("Queen", "Jazz"), "Queen - Jazz");
    assert_eq!(texto_artista_album("", "Jazz"), " - Jazz");
}

#[test]
fn tipo_de_performer() {
    assert_eq!(indice_tipo_performer(0), 0);
    assert_eq!(indice_tipo_performer(1), 1);
    assert_eq!(indice_tipo_performer(2), 0);
    assert_eq!(indice_tipo_performer(-5), 0);
}

#[test]
fn cantidad_de_canciones() {
    assert_eq!(texto_cantidad_canciones(0), "0 canciones");
    assert_eq!(texto_cantidad_canciones(123), "123 canciones");
}
