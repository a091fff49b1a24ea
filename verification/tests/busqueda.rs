use music_db::ast::{Campo, Expr};
use music_db::dao::{consulta_busqueda, consulta_todas, preparar_busqueda};
use music_db::lexer::{tokenizar, Token};
use music_db::parser::{parsear, parsear_tokens};
use music_db::query_builder::{construir, expr_a_sql};

fn cond(campo: Campo, valor: &str) -> Expr {
    Expr::Condicion { campo, valor: valor.to_string() }
}

fn y(a: Expr, b: Expr) -> Expr {
    Expr::And(Box::new(a), Box::new(b))
}

fn o(a: Expr, b: Expr) -> Expr {
    Expr::Or(Box::new(a), Box::new(b))
}

fn no(a: Expr) -> Expr {
    Expr::Not(Box::new(a))
}

#[test]
fn tokens_con_sus_posiciones() {
    let t = tokenizar("title:\"rock\" ^ year:2001").unwrap();
    assert_eq!(
        t,
        vec![
            (0, Token::Campo("title".to_string()), 5),
            (5, Token::Colon, 6),
            (6, Token::Valor("rock".to_string()), 12),
            (13, Token::And, 14),
            (15, Token::Campo("year".to_string()), 19),
            (19, Token::Colon, 20),
            (20, Token::Valor("2001".to_string()), 24),
        ]
    );
}

#[test]
fn todos_los_operadores() {
    let t = tokenizar("~(a+b)").unwrap();
    let solo: Vec<Token> = t.into_iter().map(|x| x.1).collect();
    assert_eq!(
        solo,
        vec![
            Token::Not,
            Token::LParen,
            Token::Valor("a".to_string()),
            Token::Or,
            Token::Valor("b".to_string()),
            Token::RParen,
        ]
    );
}

#[test]
fn posiciones_en_bytes() {
    let t = tokenizar("genre:canción ^").unwrap();
    assert_eq!(t[2], (6, Token::Valor("canción".to_string()), 14));
    assert_eq!(t[3], (15, Token::And, 16));
}

#[test]
fn palabras_que_no_son_campos() {
    let t = tokenizar("titles Title album").unwrap();
    let solo: Vec<Token> = t.into_iter().map(|x| x.1).collect();
    assert_eq!(
        solo,
        vec![
            Token::Valor("titles".to_string()),
            Token::Valor("Title".to_string()),
            Token::Campo("album".to_string()),
        ]
    );
}

#[test]
fn valor_entre_comillas_con_espacios_y_operadores() {
    let t = tokenizar("album:\"a ^ b (c)\"").unwrap();
    assert_eq!(t[2], (6, Token::Valor("a ^ b (c)".to_string()), 17));
    let vacio = tokenizar("\"\"").unwrap();
    assert_eq!(vacio, vec![(0, Token::Valor(String::new()), 2)]);
}

#[test]
fn entrada_vacia_o_solo_espacios() {
    assert_eq!(tokenizar("").unwrap(), vec![]);
    assert_eq!(tokenizar(" \t\n").unwrap(), vec![]);
}

#[test]
fn comillas_sin_cerrar() {
    let e = tokenizar("title:\"rock").unwrap_err();
    assert_eq!(e, "Error léxico: comillas sin cerrar en la posición 6");
    let e2 = parsear("year:1999 ^ genre:\"x").unwrap_err();
    assert_eq!(e2, "Error léxico: comillas sin cerrar en la posición 18");
}

#[test]
fn texto_de_cada_token() {
    assert_eq!(Token::And.texto(), "^");
    assert_eq!(Token::Or.texto(), "+");
    assert_eq!(Token::Not.texto(), "~");
    assert_eq!(Token::LParen.texto(), "(");
    assert_eq!(Token::RParen.texto(), ")");
    assert_eq!(Token::Colon.texto(), ":");
    assert_eq!(Token::Campo("year".to_string()).texto(), "year");
    assert_eq!(Token::Valor("la luna".to_string()).texto(), "\"la luna\"");
}

#[test]
fn condicion_simple() {
    assert_eq!(parsear("title:\"Yellow\"").unwrap(), cond(Campo::Title, "Yellow"));
    assert_eq!(parsear("performer:Queen").unwrap(), cond(Campo::Performer, "Queen"));
    assert_eq!(parsear("track:3").unwrap(), cond(Campo::Track, "3"));
    assert_eq!(parsear("genre : rock").unwrap(), cond(Campo::Genre, "rock"));
}

#[test]
fn precedencia_de_operadores() {
    let e = parsear("title:a + album:b ^ ~genre:c").unwrap();
    assert_eq!(
        e,
        o(cond(Campo::Title, "a"), y(cond(Campo::Album, "b"), no(cond(Campo::Genre, "c"))))
    );
}

#[test]
fn asociatividad_a_la_izquierda() {
    let e = parsear("title:a ^ title:b ^ title:c").unwrap();
    assert_eq!(e, y(y(cond(Campo::Title, "a"), cond(Campo::Title, "b")), cond(Campo::Title, "c")));
    let e2 = parsear("year:1 + year:2 + year:3").unwrap();
    assert_eq!(e2, o(o(cond(Campo::Year, "1"), cond(Campo::Year, "2")), cond(Campo::Year, "3")));
}

#[test]
fn parentesis_y_negacion_doble() {
    let e = parsear("~~(title:a + title:b) ^ year:\"1990\"").unwrap();
    assert_eq!(
        e,
        y(no(no(o(cond(Campo::Title, "a"), cond(Campo::Title, "b")))), cond(Campo::Year, "1990"))
    );
}

#[test]
fn errores_de_sintaxis() {
    assert_eq!(parsear("").unwrap_err(), "Error de sintaxis: fin inesperado de la consulta");
    assert_eq!(parsear("title:").unwrap_err(), "Error de sintaxis: fin inesperado de la consulta");
    assert_eq!(parsear("^ title:a").unwrap_err(), "Error de sintaxis: token inesperado en la posición 0");
    assert_eq!(
        parsear("title:a title:b").unwrap_err(),
        "Error de sintaxis: token inesperado en la posición 8"
    );
    assert_eq!(
        parsear("(title:a").unwrap_err(),
        "Error de sintaxis: fin inesperado de la consulta"
    );
    assert_eq!(
        parsear("title:a )").unwrap_err(),
        "Error de sintaxis: token inesperado en la posición 8"
    );
    assert_eq!(
        parsear("rock:a").unwrap_err(),
        "Error de sintaxis: token inesperado en la posición 0"
    );
    assert_eq!(
        parsear("title year").unwrap_err(),
        "Error de sintaxis: token inesperado en la posición 6"
    );
    assert_eq!(
        parsear("title:year").unwrap_err(),
        "Error de sintaxis: token inesperado en la posición 6"
    );
}

#[test]
fn parsear_tokens_dados() {
    let ts = vec![
        (0, Token::Not, 1),
        (1, Token::Campo("album".to_string()), 6),
        (6, Token::Colon, 7),
        (7, Token::Valor("x".to_string()), 8),
    ];
    assert_eq!(parsear_tokens(&ts).unwrap(), no(cond(Campo::Album, "x")));
    let malos = vec![(3, Token::Colon, 4)];
    assert_eq!(
        parsear_tokens(&malos).unwrap_err(),
        "Error de sintaxis: token inesperado en la posición 3"
    );
}

#[test]
fn sql_de_cada_campo() {
    let q = expr_a_sql(&cond(Campo::Year, "2001"));
    assert_eq!(q.where_clause, "CAST(r.year AS TEXT) = ?1");
    assert_eq!(q.params, vec!["2001".to_string()]);
    let q = expr_a_sql(&cond(Campo::Track, "7"));
    assert_eq!(q.where_clause, "CAST(r.track AS TEXT) = ?1");
    assert_eq!(q.params, vec!["7".to_string()]);
    let q = expr_a_sql(&cond(Campo::Title, "luz"));
    assert_eq!(q.where_clause, "r.title LIKE ?1");
    assert_eq!(q.params, vec!["%luz%".to_string()]);
    let q = expr_a_sql(&cond(Campo::Album, "luz"));
    assert_eq!(q.where_clause, "a.name LIKE ?1");
    let q = expr_a_sql(&cond(Campo::Genre, "luz"));
    assert_eq!(q.where_clause, "r.genre LIKE ?1");
    let q = expr_a_sql(&cond(Campo::Performer, "Soda"));
    assert_eq!(
        q.where_clause,
        "(p.name LIKE ?1 OR r.id_performer IN (SELECT ig.id_group FROM in_group ig JOIN performers miembro ON ig.id_person = miembro.id_performer WHERE miembro.name LIKE ?2))"
    );
    assert_eq!(q.params, vec!["%Soda%".to_string(), "%Soda%".to_string()]);
}

#[test]
fn sql_compuesto_numera_en_orden() {
    let e = o(y(cond(Campo::Title, "a"), no(cond(Campo::Year, "1999"))), cond(Campo::Performer, "b"));
    let q = expr_a_sql(&e);
    assert_eq!(
        q.where_clause,
        "((r.title LIKE ?1 AND NOT (CAST(r.year AS TEXT) = ?2)) OR (p.name LIKE ?3 OR r.id_performer IN (SELECT ig.id_group FROM in_group ig JOIN performers miembro ON ig.id_person = miembro.id_performer WHERE miembro.name LIKE ?4)))"
    );
    assert_eq!(q.params, vec!["%a%", "1999", "%b%", "%b%"]);
}

#[test]
fn muchos_parametros_con_dos_cifras() {
    let mut e = cond(Campo::Genre, "g0");
    for i in 1..11 {
        e = y(e, cond(Campo::Genre, &format!("g{}", i)));
    }
    let q = expr_a_sql(&e);
    assert_eq!(q.params.len(), 11);
    assert!(q.where_clause.ends_with("AND r.genre LIKE ?10) AND r.genre LIKE ?11)"));
}

#[test]
fn los_valores_no_entran_en_el_sql() {
    let a = expr_a_sql(&parsear("title:\"x' OR 1=1 --\" ^ performer:y").unwrap());
    let b = expr_a_sql(&parsear("title:z ^ performer:\"?1\"").unwrap());
    assert_eq!(a.where_clause, b.where_clause);
    assert!(!a.where_clause.contains("1=1"));
    assert_eq!(a.params[0], "%x' OR 1=1 --%");
}

#[test]
fn una_marca_por_parametro() {
    let q = expr_a_sql(&parsear("~(performer:a + year:2) ^ album:\"b?\" + track:1").unwrap());
    assert_eq!(q.where_clause.matches('?').count(), q.params.len());
    assert_eq!(q.params.len(), 5);
}

#[test]
fn escribir_y_volver_a_leer() {
    let leido = parsear("~(title:\"a b\" + album:c) ^ (year:1 ^ track:2 + genre:x)").unwrap();
    let tokens = tokenizar("~(title:\"a b\" + album:c) ^ (year:1 ^ track:2 + genre:x)").unwrap();
    let texto: Vec<String> = tokens.iter().map(|t| t.1.texto()).collect();
    let reescrito = texto.join(" ");
    assert_eq!(parsear(&reescrito).unwrap(), leido);
}

#[test]
fn consultas_de_listado() {
    assert_eq!(
        consulta_todas(),
        "SELECT r.id_rola, r.title, COALESCE(a.name, 'Desconocido'), COALESCE(p.name, 'Desconocido'), r.track, r.year, COALESCE(r.genre, 'Desconocido'), r.path FROM rolas r LEFT JOIN albums a ON r.id_album = a.id_album LEFT JOIN performers p ON r.id_performer = p.id_performer ORDER BY a.name, r.track"
    );
    assert_eq!(
        consulta_busqueda("r.title LIKE ?1"),
        "SELECT r.id_rola, r.title, COALESCE(a.name, 'Desconocido'), COALESCE(p.name, 'Desconocido'), r.track, r.year, COALESCE(r.genre, 'Desconocido'), r.path FROM rolas r LEFT JOIN albums a ON r.id_album = a.id_album LEFT JOIN performers p ON r.id_performer = p.id_performer WHERE r.title LIKE ?1 ORDER BY a.name, r.track"
    );
}

#[test]
fn preparar_una_busqueda() {
    let (sql, params) = preparar_busqueda("genre:jazz").unwrap();
    assert_eq!(sql, consulta_busqueda("r.genre LIKE ?1"));
    assert_eq!(params, vec!["%jazz%".to_string()]);
    assert_eq!(
        preparar_busqueda("genre:").unwrap_err(),
        "Error de sintaxis: fin inesperado de la consulta"
    );
}

#[test]
fn copiar_una_expresion() {
    let e = parsear("~(title:a + album:b)").unwrap();
    assert_eq!(e.clone(), e);
}

#[test]
fn releer_el_texto_de_los_tokens() {
    let t = tokenizar("~(genre:\"hip hop\"+track:7)^album:x").unwrap();
    let texto: Vec<String> = t.iter().map(|x| x.1.texto()).collect();
    let t2 = tokenizar(&texto.join(" ")).unwrap();
    let a: Vec<Token> = t.into_iter().map(|x| x.1).collect();
    let b: Vec<Token> = t2.into_iter().map(|x| x.1).collect();
    assert_eq!(a, b);
}

#[test]
fn posiciones_en_orden_y_dentro_del_texto() {
    let entrada = "  performer:\"Café Tacvba\"^~year:1994 + ( título )";
    let t = tokenizar(entrada).unwrap();
    for k in 0..t.len() {
        assert!(t[k].0 < t[k].2);
        assert!(t[k].2 <= entrada.len());
        if k + 1 < t.len() {
            assert!(t[k].2 <= t[k + 1].0);
        }
    }
    assert_eq!(&entrada[t[2].0..t[2].2], "\"Café Tacvba\"");
    assert_eq!(t.last().unwrap().2, entrada.len());
}

#[test]
fn componer_dos_consultas() {
    let a = "title:rock ^ year:2001";
    let b = "~genre:jazz + album:\"x y\"";
    let ea = parsear(a).unwrap();
    let eb = parsear(b).unwrap();
    assert_eq!(parsear(&format!("({})^({})", a, b)).unwrap(), y(ea.clone(), eb.clone()));
    assert_eq!(parsear(&format!("({})+({})", a, b)).unwrap(), o(ea.clone(), eb.clone()));
    assert_eq!(parsear(&format!("~({})", a)).unwrap(), no(ea.clone()));
    assert_eq!(
        parsear(&format!("({})^({})", a, b)).unwrap(),
        y(
            y(cond(Campo::Title, "rock"), cond(Campo::Year, "2001")),
            o(no(cond(Campo::Genre, "jazz")), cond(Campo::Album, "x y")),
        )
    );
}

#[test]
fn componer_consultas_que_terminan_en_valor_suelto() {
    let a = "performer:Queen";
    let b = "track:7";
    let ea = parsear(a).unwrap();
    let eb = parsear(b).unwrap();
    assert_eq!(parsear(&format!("({})+({})", a, b)).unwrap(), o(ea.clone(), eb));
    assert_eq!(parsear(&format!("~({})", a)).unwrap(), no(ea));
}

#[test]
fn cada_token_esta_sobre_su_texto() {
    let input = "title:\"rock n\" ^ (year:2001 + ~genre:canción)";
    let t = tokenizar(input).unwrap();
    assert_eq!(t.len(), 14);
    for (a, tok, b) in &t {
        let fuente = &input[*a..*b];
        match tok {
            Token::Valor(v) if !fuente.starts_with('"') => assert_eq!(fuente, v.as_str()),
            _ => assert_eq!(fuente, tok.texto()),
        }
    }
    assert_eq!(&input[t[2].0..t[2].2], "\"rock n\"");
    assert_eq!(&input[t[12].0..t[12].2], "canción");
}

#[test]
fn sql_de_partes_compuestas() {
    let l = y(cond(Campo::Title, "a"), cond(Campo::Year, "1"));
    let r = cond(Campo::Genre, "g");
    let ql = expr_a_sql(&l);
    let q = expr_a_sql(&y(l.clone(), r.clone()));
    assert_eq!(q.where_clause, format!("({} AND r.genre LIKE ?3)", ql.where_clause));
    let q = expr_a_sql(&o(l.clone(), r.clone()));
    assert_eq!(q.where_clause, format!("({} OR r.genre LIKE ?3)", ql.where_clause));
    assert_eq!(q.params, vec!["%a%", "1", "%g%"]);
    let q = expr_a_sql(&no(l.clone()));
    assert_eq!(q.where_clause, format!("NOT ({})", ql.where_clause));
    assert_eq!(q.params, ql.params);
}

#[test]
fn construir_sigue_la_numeracion() {
    let l = cond(Campo::Title, "a");
    let r = no(cond(Campo::Year, "1"));
    let mut p = vec!["previo".to_string()];
    let s1 = construir(&l, &mut p);
    assert_eq!(s1, "r.title LIKE ?2");
    let s2 = construir(&r, &mut p);
    assert_eq!(s2, "NOT (CAST(r.year AS TEXT) = ?3)");
    let mut q = vec!["previo".to_string()];
    let s = construir(&y(l.clone(), r.clone()), &mut q);
    assert_eq!(s, format!("({} AND {})", s1, s2));
    assert_eq!(q, p);
    let mut q = vec!["previo".to_string()];
    assert_eq!(construir(&o(l.clone(), r.clone()), &mut q), format!("({} OR {})", s1, s2));
    assert_eq!(q, vec!["previo", "%a%", "1"]);
    let mut q = vec!["previo".to_string()];
    assert_eq!(construir(&no(l), &mut q), "NOT (r.title LIKE ?2)");
    assert_eq!(q, vec!["previo", "%a%"]);
}
