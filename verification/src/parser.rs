//! Parser of the search language.
//!
//! Grammar, from the loosest operator to the tightest:
//!
//! ```text
//! expr := and ("+" and)*          -- or, left associative
//! and  := not ("^" not)*          -- and, left associative
//! not  := "~" not | atom
//! atom := "(" expr ")" | field ":" value
//! ```

use vstd::prelude::*;
use crate::ast::{Campo, Expr, ExprV};
use crate::lexer::{
    en_contexto, lemma_lexar_en_contexto, lemma_lexar_simbolo, token_de_simbolo,
    lexar, lemma_lexar_texto_de_tokens, mensaje_error_lexico, solo_tokens, spans_view, texto_de_tokens,
    token_escribible, tokenizar, Spanned, Token, TokenV,
};
use crate::texto::{decimal, push_decimal};

verus! {

/// The field that a field token names.
pub open spec fn campo_de_nombre(w: Seq<char>) -> Option<Campo> {
    if w == "title"@ {
        Some(Campo::Title)
    } else if w == "album"@ {
        Some(Campo::Album)
    } else if w == "performer"@ {
        Some(Campo::Performer)
    } else if w == "year"@ {
        Some(Campo::Year)
    } else if w == "genre"@ {
        Some(Campo::Genre)
    } else if w == "track"@ {
        Some(Campo::Track)
    } else {
        None
    }
}

/// The name of a field, as it is written in a query.
pub open spec fn nombre_de_campo(c: Campo) -> Seq<char> {
    match c {
        Campo::Title => "title"@,
        Campo::Album => "album"@,
        Campo::Performer => "performer"@,
        Campo::Year => "year"@,
        Campo::Genre => "genre"@,
        Campo::Track => "track"@,
    }
}

/// Result of a parsing step: the parsed value and the index of the next token,
/// or the index of the token where parsing failed.
pub type Paso<T> = Result<(T, int), int>;

pub open spec fn es_and(t: TokenV) -> bool {
    t is And
}

pub open spec fn es_or(t: TokenV) -> bool {
    t is Or
}

/// Puts `x` in front of the list of a successful step.
pub open spec fn cons(x: ExprV, r: Paso<Seq<ExprV>>) -> Paso<Seq<ExprV>> {
    match r {
        Ok((xs, q)) => Ok((seq![x] + xs, q)),
        Err(k) => Err(k),
    }
}

/// The operands of a chain of `+` from token `p` on, each one an `and`.
pub open spec fn lista_or(ts: Seq<TokenV>, p: int) -> Paso<Seq<ExprV>>
    decreases ts.len() - p, 3int,
{
    match lista_and(ts, p) {
        Err(k) => Err(k),
        Ok((xs, q)) => {
            let x = plegar_and(xs);
            if 0 <= q < ts.len() && es_or(ts[q]) {
                if q < p {
                    Err(q)
                } else {
                    cons(x, lista_or(ts, q + 1))
                }
            } else {
                Ok((seq![x], q))
            }
        },
    }
}

/// The operands of a chain of `^` from token `p` on, each one a `not`.
pub open spec fn lista_and(ts: Seq<TokenV>, p: int) -> Paso<Seq<ExprV>>
    decreases ts.len() - p, 2int,
{
    match negacion(ts, p) {
        Err(k) => Err(k),
        Ok((x, q)) => {
            if 0 <= q < ts.len() && es_and(ts[q]) {
                if q < p {
                    Err(q)
                } else {
                    cons(x, lista_and(ts, q + 1))
                }
            } else {
                Ok((seq![x], q))
            }
        },
    }
}

/// A `not` from token `p` on.
pub open spec fn negacion(ts: Seq<TokenV>, p: int) -> Paso<ExprV>
    decreases ts.len() - p, 1int,
{
    if 0 <= p < ts.len() && ts[p] is Not {
        match negacion(ts, p + 1) {
            Ok((x, q)) => Ok((ExprV::Not(Box::new(x)), q)),
            Err(k) => Err(k),
        }
    } else {
        atomo(ts, p)
    }
}

/// An `atom` from token `p` on.
pub open spec fn atomo(ts: Seq<TokenV>, p: int) -> Paso<ExprV>
    decreases ts.len() - p, 0int,
{
    if p < 0 || p >= ts.len() {
        Err(p)
    } else {
        match ts[p] {
            TokenV::LParen => match lista_or(ts, p + 1) {
                Err(k) => Err(k),
                Ok((xs, q)) => {
                    if 0 <= q < ts.len() && ts[q] is RParen {
                        Ok((plegar_or(xs), q + 1))
                    } else {
                        Err(q)
                    }
                },
            },
            TokenV::Campo(w) => match campo_de_nombre(w) {
                None => Err(p),
                Some(c) => {
                    if p + 1 >= ts.len() || !(ts[p + 1] is Colon) {
                        Err(p + 1)
                    } else if p + 2 >= ts.len() {
                        Err(p + 2)
                    } else {
                        match ts[p + 2] {
                            TokenV::Valor(v) => Ok((ExprV::Condicion { campo: c, valor: v }, p + 3)),
                            _ => Err(p + 2),
                        }
                    }
                },
            },
            _ => Err(p),
        }
    }
}

/// `x1 ^ x2 ^ ... ^ xn`, grouped to the left.
pub open spec fn plegar_and(xs: Seq<ExprV>) -> ExprV
    decreases xs.len(),
{
    if xs.len() <= 1 {
        xs[0]
    } else {
        ExprV::And(Box::new(plegar_and(xs.drop_last())), Box::new(xs.last()))
    }
}

/// `x1 + x2 + ... + xn`, grouped to the left.
pub open spec fn plegar_or(xs: Seq<ExprV>) -> ExprV
    decreases xs.len(),
{
    if xs.len() <= 1 {
        xs[0]
    } else {
        ExprV::Or(Box::new(plegar_or(xs.drop_last())), Box::new(xs.last()))
    }
}

/// An `and` from token `p` on.
pub open spec fn expr_and(ts: Seq<TokenV>, p: int) -> Paso<ExprV> {
    match lista_and(ts, p) {
        Ok((xs, q)) => Ok((plegar_and(xs), q)),
        Err(k) => Err(k),
    }
}

/// An `expr` from token `p` on.
pub open spec fn expr_or(ts: Seq<TokenV>, p: int) -> Paso<ExprV> {
    match lista_or(ts, p) {
        Ok((xs, q)) => Ok((plegar_or(xs), q)),
        Err(k) => Err(k),
    }
}

/// The expression that the whole token sequence spells, or the index of the
/// token where it stops being one.
pub open spec fn analizar(ts: Seq<TokenV>) -> Result<ExprV, int> {
    match expr_or(ts, 0) {
        Ok((e, q)) => if q == ts.len() {
            Ok(e)
        } else {
            Err(q)
        },
        Err(k) => Err(k),
    }
}

/// The error message for a syntax error at token `k`.
pub open spec fn mensaje_error_sintaxis(sp: Seq<(int, TokenV, int)>, k: int) -> Seq<char> {
    if 0 <= k < sp.len() {
        "Error de sintaxis: token inesperado en la posición "@ + decimal(sp[k].0 as nat)
    } else {
        "Error de sintaxis: fin inesperado de la consulta"@
    }
}

/// What parsing a query text gives: the expression, or the error message.
pub open spec fn analizar_texto(s: Seq<char>) -> Result<ExprV, Seq<char>> {
    match lexar(s, 0) {
        Err(p) => Err(mensaje_error_lexico(p)),
        Ok(sp) => match analizar(solo_tokens(sp)) {
            Ok(e) => Ok(e),
            Err(k) => Err(mensaje_error_sintaxis(sp, k)),
        },
    }
}

// Every successful step consumes at least one token and stays within the input.
pub proof fn lemma_avance_or(ts: Seq<TokenV>, p: int)
    ensures
        lista_or(ts, p) matches Ok((xs, q)) ==> p < q <= ts.len() && xs.len() >= 1,
    decreases ts.len() - p, 3int,
{
    lemma_avance_and(ts, p);
    if let Ok((xs, q)) = lista_and(ts, p) {
        if 0 <= q < ts.len() && es_or(ts[q]) && q >= p {
            lemma_avance_or(ts, q + 1);
        }
    }
}

pub proof fn lemma_avance_and(ts: Seq<TokenV>, p: int)
    ensures
        lista_and(ts, p) matches Ok((xs, q)) ==> p < q <= ts.len() && xs.len() >= 1,
    decreases ts.len() - p, 2int,
{
    lemma_avance_not(ts, p);
    if let Ok((x, q)) = negacion(ts, p) {
        if 0 <= q < ts.len() && es_and(ts[q]) && q >= p {
            lemma_avance_and(ts, q + 1);
        }
    }
}

pub proof fn lemma_avance_not(ts: Seq<TokenV>, p: int)
    ensures
        negacion(ts, p) matches Ok((x, q)) ==> p < q <= ts.len(),
    decreases ts.len() - p, 1int,
{
    if 0 <= p < ts.len() && ts[p] is Not {
        lemma_avance_not(ts, p + 1);
    } else {
        lemma_avance_atom(ts, p);
    }
}

pub proof fn lemma_avance_atom(ts: Seq<TokenV>, p: int)
    ensures
        atomo(ts, p) matches Ok((x, q)) ==> p < q <= ts.len(),
    decreases ts.len() - p, 0int,
{
    if 0 <= p < ts.len() && ts[p] is LParen {
        lemma_avance_or(ts, p + 1);
    }
}

pub open spec fn vista_paso(r: Result<(Expr, usize), usize>) -> Paso<ExprV> {
    match r {
        Ok((e, q)) => Ok((e@, q as int)),
        Err(k) => Err(k as int),
    }
}

pub open spec fn vista_tokens(ts: Seq<Spanned>) -> Seq<TokenV> {
    ts.map_values(|x: Spanned| x.1@)
}

fn campo_de_nombre_exec(w: &String) -> (r: Option<Campo>)
    ensures
        r == campo_de_nombre(w@),
{
    if *w == "title".to_owned() {
        Some(Campo::Title)
    } else if *w == "album".to_owned() {
        Some(Campo::Album)
    } else if *w == "performer".to_owned() {
        Some(Campo::Performer)
    } else if *w == "year".to_owned() {
        Some(Campo::Year)
    } else if *w == "genre".to_owned() {
        Some(Campo::Genre)
    } else if *w == "track".to_owned() {
        Some(Campo::Track)
    } else {
        None
    }
}

fn p_atomo(ts: &Vec<Spanned>, p: usize) -> (r: Result<(Expr, usize), usize>)
    ensures
        vista_paso(r) == atomo(vista_tokens(ts@), p as int),
    decreases ts@.len() - p, 0int,
{
    let ghost tv = vista_tokens(ts@);
    let n = ts.len();
    if p >= n {
        return Err(p);
    }
    match &ts[p].1 {
        Token::LParen => {
            proof {
                lemma_avance_or(tv, p + 1);
            }
            match p_or(ts, p + 1) {
                Err(k) => Err(k),
                Ok((e, q)) => {
                    if q < n && matches!(ts[q].1, Token::RParen) {
                        Ok((e, q + 1))
                    } else {
                        Err(q)
                    }
                },
            }
        },
        Token::Campo(nombre) => {
            match campo_de_nombre_exec(nombre) {
                None => Err(p),
                Some(c) => {
                    if p + 1 >= n || !matches!(ts[p + 1].1, Token::Colon) {
                        Err(p + 1)
                    } else if p + 2 >= n {
                        Err(p + 2)
                    } else {
                        match &ts[p + 2].1 {
                            Token::Valor(v) => Ok((Expr::Condicion { campo: c, valor: v.clone() }, p + 3)),
                            _ => Err(p + 2),
                        }
                    }
                },
            }
        },
        _ => Err(p),
    }
}

fn p_not(ts: &Vec<Spanned>, p: usize) -> (r: Result<(Expr, usize), usize>)
    ensures
        vista_paso(r) == negacion(vista_tokens(ts@), p as int),
    decreases ts@.len() - p, 1int,
{
    if p < ts.len() && matches!(ts[p].1, Token::Not) {
        match p_not(ts, p + 1) {
            Ok((e, q)) => Ok((Expr::Not(Box::new(e)), q)),
            Err(k) => Err(k),
        }
    } else {
        p_atomo(ts, p)
    }
}

/// The operands after the operand that ends at `q`, in a chain of `^`.
pub open spec fn resto_and(ts: Seq<TokenV>, q: int) -> Paso<Seq<ExprV>> {
    if 0 <= q < ts.len() && es_and(ts[q]) {
        lista_and(ts, q + 1)
    } else {
        Ok((seq![], q))
    }
}

/// The operands after the operand that ends at `q`, in a chain of `+`.
pub open spec fn resto_or(ts: Seq<TokenV>, q: int) -> Paso<Seq<ExprV>> {
    if 0 <= q < ts.len() && es_or(ts[q]) {
        lista_or(ts, q + 1)
    } else {
        Ok((seq![], q))
    }
}

pub open spec fn juntar(done: Seq<ExprV>, r: Paso<Seq<ExprV>>) -> Paso<Seq<ExprV>> {
    match r {
        Ok((xs, q)) => Ok((done + xs, q)),
        Err(k) => Err(k),
    }
}

proof fn lemma_juntar_cons(done: Seq<ExprV>, x: ExprV, r: Paso<Seq<ExprV>>)
    ensures
        juntar(done, cons(x, r)) == juntar(done.push(x), r),
{
    if let Ok((xs, q)) = r {
        assert(done + (seq![x] + xs) =~= done.push(x) + xs);
    }
}

fn p_and(ts: &Vec<Spanned>, p: usize) -> (r: Result<(Expr, usize), usize>)
    ensures
        vista_paso(r) == expr_and(vista_tokens(ts@), p as int),
    decreases ts@.len() - p, 2int,
{
    let ghost tv = vista_tokens(ts@);
    let n = ts.len();
    let (first, q0) = match p_not(ts, p) {
        Err(k) => return Err(k),
        Ok(t) => t,
    };
    proof {
        lemma_avance_not(tv, p as int);
    }
    let mut acc = first;
    let mut pos = q0;
    let ghost mut done: Seq<ExprV> = seq![acc@];
    assert(juntar(done, resto_and(tv, pos as int)) == lista_and(tv, p as int)) by {
        if let Ok((xs, q)) = resto_and(tv, pos as int) {
            assert(done + xs =~= seq![done[0]] + xs);
        }
    }
    assert(plegar_and(done) == acc@);
    while pos < n && matches!(ts[pos].1, Token::And)
        invariant
            n == ts@.len(),
            tv == vista_tokens(ts@),
            p < pos <= n,
            done.len() >= 1,
            acc@ == plegar_and(done),
            juntar(done, resto_and(tv, pos as int)) == lista_and(tv, p as int),
        decreases n - pos,
    {
        proof {
            lemma_avance_not(tv, pos + 1);
        }
        match p_not(ts, pos + 1) {
            Err(k) => {
                return Err(k);
            },
            Ok((x, q)) => {
                proof {
                    lemma_juntar_cons(done, x@, resto_and(tv, q as int));
                    assert(done.push(x@).drop_last() =~= done);
                }
                acc = Expr::And(Box::new(acc), Box::new(x));
                proof {
                    done = done.push(x@);
                }
                pos = q;
            },
        }
    }
    assert(done + Seq::<ExprV>::empty() =~= done);
    Ok((acc, pos))
}

fn p_or(ts: &Vec<Spanned>, p: usize) -> (r: Result<(Expr, usize), usize>)
    ensures
        vista_paso(r) == expr_or(vista_tokens(ts@), p as int),
    decreases ts@.len() - p, 3int,
{
    let ghost tv = vista_tokens(ts@);
    let n = ts.len();
    let (first, q0) = match p_and(ts, p) {
        Err(k) => return Err(k),
        Ok(t) => t,
    };
    proof {
        lemma_avance_and(tv, p as int);
    }
    let mut acc = first;
    let mut pos = q0;
    let ghost mut done: Seq<ExprV> = seq![acc@];
    assert(juntar(done, resto_or(tv, pos as int)) == lista_or(tv, p as int)) by {
        if let Ok((xs, q)) = resto_or(tv, pos as int) {
            assert(done + xs =~= seq![done[0]] + xs);
        }
    }
    assert(plegar_or(done) == acc@);
    while pos < n && matches!(ts[pos].1, Token::Or)
        invariant
            n == ts@.len(),
            tv == vista_tokens(ts@),
            p < pos <= n,
            done.len() >= 1,
            acc@ == plegar_or(done),
            juntar(done, resto_or(tv, pos as int)) == lista_or(tv, p as int),
        decreases n - pos,
    {
        proof {
            lemma_avance_and(tv, pos + 1);
        }
        match p_and(ts, pos + 1) {
            Err(k) => {
                return Err(k);
            },
            Ok((x, q)) => {
                proof {
                    lemma_juntar_cons(done, x@, resto_or(tv, q as int));
                    assert(done.push(x@).drop_last() =~= done);
                }
                acc = Expr::Or(Box::new(acc), Box::new(x));
                proof {
                    done = done.push(x@);
                }
                pos = q;
            },
        }
    }
    assert(done + Seq::<ExprV>::empty() =~= done);
    Ok((acc, pos))
}

fn mensaje_sintaxis_exec(ts: &Vec<Spanned>, k: usize) -> (m: String)
    ensures
        m@ == mensaje_error_sintaxis(spans_view(ts@), k as int),
{
    if k < ts.len() {
        let mut m = "Error de sintaxis: token inesperado en la posición ".to_owned();
        push_decimal(&mut m, ts[k].0 as u64);
        m
    } else {
        "Error de sintaxis: fin inesperado de la consulta".to_owned()
    }
}

proof fn lemma_tokens_de_spans(ts: Seq<Spanned>)
    ensures
        solo_tokens(spans_view(ts)) == vista_tokens(ts),
{
    assert(solo_tokens(spans_view(ts)) =~= vista_tokens(ts));
}

/// Parses a token sequence into an expression tree.
pub fn parsear_tokens(ts: &Vec<Spanned>) -> (r: Result<Expr, String>)
    ensures
        match r {
            Ok(e) => analizar(vista_tokens(ts@)) == Ok::<ExprV, int>(e@),
            Err(m) => exists|k: int|
                analizar(vista_tokens(ts@)) == Err::<ExprV, int>(k) && m@ == mensaje_error_sintaxis(
                    spans_view(ts@),
                    k,
                ),
        },
{
    match p_or(ts, 0) {
        Ok((e, q)) => {
            if q == ts.len() {
                Ok(e)
            } else {
                Err(mensaje_sintaxis_exec(ts, q))
            }
        },
        Err(k) => Err(mensaje_sintaxis_exec(ts, k)),
    }
}

pub open spec fn vista_resultado(r: Result<Expr, String>) -> Result<ExprV, Seq<char>> {
    match r {
        Ok(e) => Ok(e@),
        Err(m) => Err(m@),
    }
}

/// Parses a search query and returns its expression tree.
pub fn parsear(input: &str) -> (r: Result<Expr, String>)
    ensures
        vista_resultado(r) == analizar_texto(input@),
{
    let tokens = match tokenizar(input) {
        Ok(t) => t,
        Err(m) => return Err(m),
    };
    proof {
        lemma_tokens_de_spans(tokens@);
    }
    parsear_tokens(&tokens)
}


// ---------------------------------------------------------------------------
// Writing a tree as tokens, and reading it back.
// ---------------------------------------------------------------------------

/// Order in which the writing levels of one tree call each other.
pub open spec fn rango(nivel: int, e: ExprV) -> int {
    match e {
        ExprV::And(..) => if nivel == 0 {
            2
        } else if nivel == 1 {
            1
        } else {
            3
        },
        ExprV::Or(..) => if nivel == 0 {
            1
        } else if nivel == 1 {
            3
        } else {
            2
        },
        _ => if nivel == 0 {
            3
        } else if nivel == 1 {
            2
        } else {
            1
        },
    }
}

/// Tokens that write `e` at a grammar level (0: `expr`, 1: `and`, 2: `not`),
/// with parentheses only where the grammar needs them.
pub open spec fn escribir(e: ExprV, nivel: int) -> Seq<TokenV>
    decreases e, rango(nivel, e),
{
    if nivel == 0 {
        match e {
            ExprV::Or(a, b) => escribir(*a, 0) + seq![TokenV::Or] + escribir(*b, 1),
            _ => escribir(e, 1),
        }
    } else if nivel == 1 {
        match e {
            ExprV::And(a, b) => escribir(*a, 1) + seq![TokenV::And] + escribir(*b, 2),
            _ => escribir(e, 2),
        }
    } else {
        match e {
            ExprV::Not(x) => seq![TokenV::Not] + escribir(*x, 2),
            ExprV::Condicion { campo, valor } => seq![
                TokenV::Campo(nombre_de_campo(campo)),
                TokenV::Colon,
                TokenV::Valor(valor),
            ],
            _ => seq![TokenV::LParen] + escribir(e, 0) + seq![TokenV::RParen],
        }
    }
}

/// The operands of the outermost chain of `^` in `e`, from left to right.
pub open spec fn espina_and(e: ExprV) -> Seq<ExprV>
    decreases e,
{
    match e {
        ExprV::And(a, b) => espina_and(*a).push(*b),
        _ => seq![e],
    }
}

/// The operands of the outermost chain of `+` in `e`, from left to right.
pub open spec fn espina_or(e: ExprV) -> Seq<ExprV>
    decreases e,
{
    match e {
        ExprV::Or(a, b) => espina_or(*a).push(*b),
        _ => seq![e],
    }
}

proof fn lemma_espina_and(e: ExprV)
    ensures
        espina_and(e).len() >= 1,
        plegar_and(espina_and(e)) == e,
    decreases e,
{
    if let ExprV::And(a, b) = e {
        lemma_espina_and(*a);
        assert(espina_and(e).drop_last() =~= espina_and(*a));
    }
}

proof fn lemma_espina_or(e: ExprV)
    ensures
        espina_or(e).len() >= 1,
        plegar_or(espina_or(e)) == e,
    decreases e,
{
    if let ExprV::Or(a, b) = e {
        lemma_espina_or(*a);
        assert(espina_or(e).drop_last() =~= espina_or(*a));
    }
}

proof fn lemma_nombre_de_campo(c: Campo)
    ensures
        campo_de_nombre(nombre_de_campo(c)) == Some(c),
{
    reveal_strlit("title");
    reveal_strlit("album");
    reveal_strlit("performer");
    reveal_strlit("year");
    reveal_strlit("genre");
    reveal_strlit("track");
    assert("title"@[0] == 't' && "album"@[0] == 'a' && "performer"@[0] == 'p');
    assert("year"@[0] == 'y' && "genre"@[0] == 'g' && "track"@[0] == 't');
    assert("track"@[1] == 'r' && "title"@[1] == 'i');
    match c {
        Campo::Title => {},
        Campo::Album => {
            assert("album"@ != "title"@);
        },
        Campo::Performer => {
            assert("performer"@ != "title"@);
            assert("performer"@ != "album"@);
        },
        Campo::Year => {
            assert("year"@ != "title"@);
            assert("year"@ != "album"@);
            assert("year"@ != "performer"@);
        },
        Campo::Genre => {
            assert("genre"@ != "title"@);
            assert("genre"@ != "album"@);
            assert("genre"@ != "performer"@);
            assert("genre"@ != "year"@);
        },
        Campo::Track => {
            assert("track"@ != "title"@);
            assert("track"@ != "album"@);
            assert("track"@ != "performer"@);
            assert("track"@ != "year"@);
            assert("track"@ != "genre"@);
        },
    }
}

proof fn lemma_paso_and(ts: Seq<TokenV>, p: int, x: ExprV, q: int)
    requires
        negacion(ts, p) == Ok::<(ExprV, int), int>((x, q)),
        p <= q,
    ensures
        lista_and(ts, p) == cons(x, resto_and(ts, q)),
{
    if !(0 <= q < ts.len() && es_and(ts[q])) {
        assert(seq![x] + Seq::<ExprV>::empty() =~= seq![x]);
    }
}

proof fn lemma_paso_or(ts: Seq<TokenV>, p: int, xs: Seq<ExprV>, q: int)
    requires
        lista_and(ts, p) == Ok::<(Seq<ExprV>, int), int>((xs, q)),
        p <= q,
    ensures
        lista_or(ts, p) == cons(plegar_and(xs), resto_or(ts, q)),
{
    if !(0 <= q < ts.len() && es_or(ts[q])) {
        assert(seq![plegar_and(xs)] + Seq::<ExprV>::empty() =~= seq![plegar_and(xs)]);
    }
}

proof fn lemma_juntar_uno(x: ExprV, r: Paso<Seq<ExprV>>)
    ensures
        juntar(seq![x], r) == cons(x, r),
{
}

proof fn lemma_juntar_vacio(done: Seq<ExprV>, q: int)
    ensures
        juntar(done, Ok((Seq::<ExprV>::empty(), q))) == Ok::<(Seq<ExprV>, int), int>((done, q)),
{
    assert(done + Seq::<ExprV>::empty() =~= done);
}

/// Reading back what [`escribir`] wrote at level 0, in the middle of any
/// token sequence whose rest does not continue an `and`.
pub proof fn lemma_escribir_or(e: ExprV, pre: Seq<TokenV>, post: Seq<TokenV>)
    requires
        post.len() == 0 || !es_and(post[0]),
    ensures
        ({
            let ts = pre + escribir(e, 0) + post;
            let q = pre.len() as int + escribir(e, 0).len();
            lista_or(ts, pre.len() as int) == juntar(espina_or(e), resto_or(ts, q))
        }),
    decreases e, rango(0, e),
{
    let w = escribir(e, 0);
    let ts = pre + w + post;
    let p = pre.len() as int;
    let q = p + w.len();
    match e {
        ExprV::Or(a, b) => {
            let wa = escribir(*a, 0);
            let wb = escribir(*b, 1);
            let q1 = p + wa.len();
            assert(ts =~= pre + wa + (seq![TokenV::Or] + wb + post));
            lemma_escribir_or(*a, pre, seq![TokenV::Or] + wb + post);
            assert(ts[q1] == TokenV::Or);
            assert(ts =~= (pre + wa + seq![TokenV::Or]) + wb + post);
            lemma_escribir_and(*b, pre + wa + seq![TokenV::Or], post);
            assert(q == q1 + 1 + wb.len());
            assert(resto_and(ts, q) == Ok::<(Seq<ExprV>, int), int>((Seq::<ExprV>::empty(), q)));
            lemma_juntar_vacio(espina_and(*b), q);
            lemma_espina_and(*b);
            lemma_paso_or(ts, q1 + 1, espina_and(*b), q);
            lemma_juntar_cons(espina_or(*a), *b, resto_or(ts, q));
        },
        _ => {
            lemma_escribir_and(e, pre, post);
            assert(resto_and(ts, q) == Ok::<(Seq<ExprV>, int), int>((Seq::<ExprV>::empty(), q)));
            lemma_juntar_vacio(espina_and(e), q);
            lemma_espina_and(e);
            lemma_paso_or(ts, p, espina_and(e), q);
            lemma_juntar_uno(e, resto_or(ts, q));
        },
    }
}

/// Reading back what [`escribir`] wrote at level 1, in the middle of any token sequence.
pub proof fn lemma_escribir_and(e: ExprV, pre: Seq<TokenV>, post: Seq<TokenV>)
    ensures
        ({
            let ts = pre + escribir(e, 1) + post;
            let q = pre.len() as int + escribir(e, 1).len();
            lista_and(ts, pre.len() as int) == juntar(espina_and(e), resto_and(ts, q))
        }),
    decreases e, rango(1, e),
{
    let w = escribir(e, 1);
    let ts = pre + w + post;
    let p = pre.len() as int;
    let q = p + w.len();
    match e {
        ExprV::And(a, b) => {
            let wa = escribir(*a, 1);
            let wb = escribir(*b, 2);
            let q1 = p + wa.len();
            assert(ts =~= pre + wa + (seq![TokenV::And] + wb + post));
            lemma_escribir_and(*a, pre, seq![TokenV::And] + wb + post);
            assert(ts[q1] == TokenV::And);
            assert(ts =~= (pre + wa + seq![TokenV::And]) + wb + post);
            lemma_escribir_not(*b, pre + wa + seq![TokenV::And], post);
            assert(q == q1 + 1 + wb.len());
            lemma_paso_and(ts, q1 + 1, *b, q);
            lemma_juntar_cons(espina_and(*a), *b, resto_and(ts, q));
        },
        _ => {
            lemma_escribir_not(e, pre, post);
            lemma_paso_and(ts, p, e, q);
            lemma_juntar_uno(e, resto_and(ts, q));
        },
    }
}

proof fn lemma_escribir_condicion(c: Campo, v: Seq<char>, pre: Seq<TokenV>, post: Seq<TokenV>)
    ensures
        ({
            let e = ExprV::Condicion { campo: c, valor: v };
            let ts = pre + escribir(e, 2) + post;
            negacion(ts, pre.len() as int) == Ok::<(ExprV, int), int>((e, pre.len() as int + 3))
        }),
{
    let e = ExprV::Condicion { campo: c, valor: v };
    let ts = pre + escribir(e, 2) + post;
    let p = pre.len() as int;
    lemma_nombre_de_campo(c);
    assert(escribir(e, 2).len() == 3);
    assert(ts[p] == TokenV::Campo(nombre_de_campo(c)));
    assert(ts[p + 1] == TokenV::Colon);
    assert(ts[p + 2] == TokenV::Valor(v));
    assert(p + 2 < ts.len());
    assert(campo_de_nombre(nombre_de_campo(c)) == Some(c));
    assert(atomo(ts, p) == Ok::<(ExprV, int), int>((e, p + 3)));
    assert(!(ts[p] is Not));
    assert(negacion(ts, p) == atomo(ts, p));
}

/// Reading back what [`escribir`] wrote at level 2, in the middle of any token sequence.
pub proof fn lemma_escribir_not(e: ExprV, pre: Seq<TokenV>, post: Seq<TokenV>)
    ensures
        ({
            let ts = pre + escribir(e, 2) + post;
            let q = pre.len() as int + escribir(e, 2).len();
            negacion(ts, pre.len() as int) == Ok::<(ExprV, int), int>((e, q))
        }),
    decreases e, rango(2, e),
{
    let w = escribir(e, 2);
    let ts = pre + w + post;
    let p = pre.len() as int;
    let q = p + w.len();
    match e {
        ExprV::Not(x) => {
            let wx = escribir(*x, 2);
            assert(ts =~= (pre + seq![TokenV::Not]) + wx + post);
            lemma_escribir_not(*x, pre + seq![TokenV::Not], post);
            assert(ts[p] == TokenV::Not);
        },
        ExprV::Condicion { campo, valor } => {
            lemma_escribir_condicion(campo, valor, pre, post);
        },
        _ => {
            let we = escribir(e, 0);
            let q1 = p + 1 + we.len();
            assert(ts =~= (pre + seq![TokenV::LParen]) + we + (seq![TokenV::RParen] + post));
            lemma_escribir_or(e, pre + seq![TokenV::LParen], seq![TokenV::RParen] + post);
            assert(ts[p] == TokenV::LParen);
            assert(ts[q1] == TokenV::RParen);
            assert(resto_or(ts, q1) == Ok::<(Seq<ExprV>, int), int>((Seq::<ExprV>::empty(), q1)));
            lemma_juntar_vacio(espina_or(e), q1);
            lemma_espina_or(e);
            assert(lista_or(ts, p + 1) == Ok::<(Seq<ExprV>, int), int>((espina_or(e), q1)));
            assert(atomo(ts, p) == Ok::<(ExprV, int), int>((e, q1 + 1)));
        },
    }
}

/// Every expression tree is read back from the tokens that write it:
/// parsing the written form of `e` gives `e`.
pub proof fn ley_analizar_escribir(e: ExprV)
    ensures
        analizar(escribir(e, 0)) == Ok::<ExprV, int>(e),
{
    let w = escribir(e, 0);
    lemma_escribir_or(e, seq![], seq![]);
    assert(Seq::<TokenV>::empty() + w + Seq::<TokenV>::empty() =~= w);
    lemma_juntar_vacio(espina_or(e), w.len() as int);
    lemma_espina_or(e);
}


/// Every value of the tree is free of double quotes.
pub open spec fn valores_sin_comillas(e: ExprV) -> bool
    decreases e,
{
    match e {
        ExprV::Condicion { valor, .. } => forall|k: int| 0 <= k < valor.len() ==> valor[k] != '"',
        ExprV::And(a, b) => valores_sin_comillas(*a) && valores_sin_comillas(*b),
        ExprV::Or(a, b) => valores_sin_comillas(*a) && valores_sin_comillas(*b),
        ExprV::Not(x) => valores_sin_comillas(*x),
    }
}

pub open spec fn escribibles(ts: Seq<TokenV>) -> bool {
    forall|k: int| 0 <= k < ts.len() ==> token_escribible(#[trigger] ts[k])
}

proof fn lemma_escribibles_concat(a: Seq<TokenV>, b: Seq<TokenV>)
    requires
        escribibles(a),
        escribibles(b),
    ensures
        escribibles(a + b),
{
    assert forall|k: int| 0 <= k < (a + b).len() implies token_escribible(#[trigger] (a + b)[k]) by {
        if k < a.len() {
            assert((a + b)[k] == a[k]);
        } else {
            assert((a + b)[k] == b[k - a.len()]);
        }
    }
}

proof fn lemma_escribir_escribible(e: ExprV, nivel: int)
    requires
        valores_sin_comillas(e),
    ensures
        escribibles(escribir(e, nivel)),
    decreases e, rango(nivel, e),
{
    let op = seq![TokenV::Or];
    let and = seq![TokenV::And];
    let not = seq![TokenV::Not];
    let lp = seq![TokenV::LParen];
    let rp = seq![TokenV::RParen];
    assert(escribibles(op) && escribibles(and) && escribibles(not) && escribibles(lp) && escribibles(rp));
    if nivel == 0 {
        match e {
            ExprV::Or(a, b) => {
                lemma_escribir_escribible(*a, 0);
                lemma_escribir_escribible(*b, 1);
                lemma_escribibles_concat(escribir(*a, 0), op);
                lemma_escribibles_concat(escribir(*a, 0) + op, escribir(*b, 1));
            },
            _ => {
                lemma_escribir_escribible(e, 1);
            },
        }
    } else if nivel == 1 {
        match e {
            ExprV::And(a, b) => {
                lemma_escribir_escribible(*a, 1);
                lemma_escribir_escribible(*b, 2);
                lemma_escribibles_concat(escribir(*a, 1), and);
                lemma_escribibles_concat(escribir(*a, 1) + and, escribir(*b, 2));
            },
            _ => {
                lemma_escribir_escribible(e, 2);
            },
        }
    } else {
        match e {
            ExprV::Not(x) => {
                lemma_escribir_escribible(*x, 2);
                lemma_escribibles_concat(not, escribir(*x, 2));
            },
            ExprV::Condicion { campo, valor } => {
                lemma_nombre_de_campo(campo);
                let ts = escribir(e, nivel);
                assert(token_escribible(ts[0]));
                assert(token_escribible(ts[1]));
                assert(token_escribible(ts[2]));
            },
            _ => {
                lemma_escribir_escribible(e, 0);
                lemma_escribibles_concat(lp, escribir(e, 0));
                lemma_escribibles_concat(lp + escribir(e, 0), rp);
            },
        }
    }
}

/// Every expression tree whose values hold no double quote has a query text:
/// the text that writes it parses back to it.
pub proof fn ley_parsear_texto_escrito(e: ExprV)
    requires
        valores_sin_comillas(e),
    ensures
        analizar_texto(texto_de_tokens(escribir(e, 0))) == Ok::<ExprV, Seq<char>>(e),
{
    let ts = escribir(e, 0);
    let s = texto_de_tokens(ts);
    lemma_escribir_escribible(e, 0);
    assert(s.skip(0) =~= s);
    lemma_lexar_texto_de_tokens(s, 0, ts);
    ley_analizar_escribir(e);
}


// ---------------------------------------------------------------------------
// Composing queries.
// ---------------------------------------------------------------------------

/// Tokens after a parsed part that neither an `and` nor an `or` chain continues into.
pub open spec fn cola_neutra(post: Seq<TokenV>) -> bool {
    post.len() == 0 || (!es_and(post[0]) && !es_or(post[0]))
}

/// A successful step, its next index moved by `d`.
pub open spec fn desplazar<T>(r: Paso<T>, d: int) -> Paso<T> {
    match r {
        Ok((x, q)) => Ok((x, q + d)),
        Err(k) => Err(k + d),
    }
}

proof fn lemma_marco_indices(ta: Seq<TokenV>, pre: Seq<TokenV>, post: Seq<TokenV>)
    ensures
        forall|k: int| 0 <= k < ta.len() ==> (pre + ta + post)[pre.len() + k] == #[trigger] ta[k],
        post.len() > 0 ==> (pre + ta + post)[pre.len() + ta.len() as int] == post[0],
        (pre + ta + post).len() == pre.len() + ta.len() + post.len(),
{
}

// Parsing a token sequence that parses from `p`, inside a longer one that
// does not continue its last chain, gives the same result.
proof fn lemma_marco_or(ta: Seq<TokenV>, pre: Seq<TokenV>, post: Seq<TokenV>, p: int)
    requires
        0 <= p <= ta.len(),
        cola_neutra(post),
        lista_or(ta, p) is Ok,
    ensures
        lista_or(pre + ta + post, pre.len() + p) == desplazar(lista_or(ta, p), pre.len() as int),
    decreases ta.len() - p, 3int,
{
    let ts = pre + ta + post;
    let d = pre.len() as int;
    lemma_marco_indices(ta, pre, post);
    lemma_avance_and(ta, p);
    lemma_marco_and(ta, pre, post, p);
    let (xs, q) = lista_and(ta, p)->Ok_0;
    if 0 <= q < ta.len() && es_or(ta[q]) {
        assert(ts[d + q] == ta[q]);
        lemma_marco_or(ta, pre, post, q + 1);
    } else if q < ta.len() {
        assert(ts[d + q] == ta[q]);
    }
}

proof fn lemma_marco_and(ta: Seq<TokenV>, pre: Seq<TokenV>, post: Seq<TokenV>, p: int)
    requires
        0 <= p <= ta.len(),
        cola_neutra(post),
        lista_and(ta, p) is Ok,
    ensures
        lista_and(pre + ta + post, pre.len() + p) == desplazar(lista_and(ta, p), pre.len() as int),
    decreases ta.len() - p, 2int,
{
    let ts = pre + ta + post;
    let d = pre.len() as int;
    lemma_marco_indices(ta, pre, post);
    lemma_avance_not(ta, p);
    lemma_marco_not(ta, pre, post, p);
    let (x, q) = negacion(ta, p)->Ok_0;
    if 0 <= q < ta.len() && es_and(ta[q]) {
        assert(ts[d + q] == ta[q]);
        lemma_marco_and(ta, pre, post, q + 1);
    } else if q < ta.len() {
        assert(ts[d + q] == ta[q]);
    }
}

proof fn lemma_marco_not(ta: Seq<TokenV>, pre: Seq<TokenV>, post: Seq<TokenV>, p: int)
    requires
        0 <= p <= ta.len(),
        cola_neutra(post),
        negacion(ta, p) is Ok,
    ensures
        negacion(pre + ta + post, pre.len() + p) == desplazar(negacion(ta, p), pre.len() as int),
    decreases ta.len() - p, 1int,
{
    let ts = pre + ta + post;
    let d = pre.len() as int;
    lemma_marco_indices(ta, pre, post);
    if 0 <= p < ta.len() && ta[p] is Not {
        assert(ts[d + p] == ta[p]);
        lemma_marco_not(ta, pre, post, p + 1);
    } else {
        if p < ta.len() {
            assert(ts[d + p] == ta[p]);
        }
        lemma_marco_atom(ta, pre, post, p);
    }
}

proof fn lemma_marco_atom(ta: Seq<TokenV>, pre: Seq<TokenV>, post: Seq<TokenV>, p: int)
    requires
        0 <= p <= ta.len(),
        cola_neutra(post),
        atomo(ta, p) is Ok,
    ensures
        atomo(pre + ta + post, pre.len() + p) == desplazar(atomo(ta, p), pre.len() as int),
    decreases ta.len() - p, 0int,
{
    let ts = pre + ta + post;
    let d = pre.len() as int;
    lemma_marco_indices(ta, pre, post);
    assert(p < ta.len());
    assert(ts[d + p] == ta[p]);
    match ta[p] {
        TokenV::LParen => {
            lemma_avance_or(ta, p + 1);
            lemma_marco_or(ta, pre, post, p + 1);
            let (xs, q) = lista_or(ta, p + 1)->Ok_0;
            assert(q < ta.len());
            assert(ts[d + q] == ta[q]);
        },
        TokenV::Campo(w) => {
            assert(ts[d + p + 1] == ta[p + 1]);
            assert(ts[d + p + 2] == ta[p + 2]);
        },
        _ => {},
    }
}

/// A query that parses, between parentheses, inside a longer token sequence.
proof fn lemma_entre_parentesis(ta: Seq<TokenV>, ea: ExprV, pre: Seq<TokenV>, post: Seq<TokenV>)
    requires
        analizar(ta) == Ok::<ExprV, int>(ea),
    ensures
        negacion(
            pre + (seq![TokenV::LParen] + ta + seq![TokenV::RParen]) + post,
            pre.len() as int,
        ) == Ok::<(ExprV, int), int>((ea, pre.len() + ta.len() as int + 2)),
{
    let pre2 = pre + seq![TokenV::LParen];
    let post2 = seq![TokenV::RParen] + post;
    let ts = pre + (seq![TokenV::LParen] + ta + seq![TokenV::RParen]) + post;
    assert(ts =~= pre2 + ta + post2);
    lemma_marco_or(ta, pre2, post2, 0);
    lemma_marco_indices(ta, pre2, post2);
    let d = pre.len() as int;
    assert(ts[d] == TokenV::LParen);
    assert(ts[d + 1 + ta.len()] == TokenV::RParen);
    let (xs, q) = lista_or(ta, 0)->Ok_0;
    assert(q == ta.len());
    assert(plegar_or(xs) == ea);
    assert(lista_or(ts, d + 1) == Ok::<(Seq<ExprV>, int), int>((xs, d + 1 + ta.len())));
    assert(atomo(ts, d) == Ok::<(ExprV, int), int>((ea, d + 2 + ta.len())));
    assert(!(ts[d] is Not));
}

proof fn lemma_una_negacion(ts: Seq<TokenV>, x: ExprV)
    requires
        negacion(ts, 0) == Ok::<(ExprV, int), int>((x, ts.len() as int)),
    ensures
        analizar(ts) == Ok::<ExprV, int>(x),
{
    lemma_paso_and(ts, 0, x, ts.len() as int);
    lemma_paso_or(ts, 0, seq![x], ts.len() as int);
    assert(seq![x] + Seq::<ExprV>::empty() =~= seq![x]);
    assert(seq![plegar_and(seq![x])] + Seq::<ExprV>::empty() =~= seq![x]);
}

proof fn lemma_componer_and(ta: Seq<TokenV>, tb: Seq<TokenV>, ea: ExprV, eb: ExprV)
    requires
        analizar(ta) == Ok::<ExprV, int>(ea),
        analizar(tb) == Ok::<ExprV, int>(eb),
    ensures
        analizar(
            seq![TokenV::LParen] + ta + seq![TokenV::RParen, TokenV::And, TokenV::LParen] + tb
                + seq![TokenV::RParen],
        ) == Ok::<ExprV, int>(ExprV::And(Box::new(ea), Box::new(eb))),
{
    let pa = seq![TokenV::LParen] + ta + seq![TokenV::RParen];
    let pb = seq![TokenV::LParen] + tb + seq![TokenV::RParen];
    let e = Seq::<TokenV>::empty();
    let ts = pa + seq![TokenV::And] + pb;
    assert(ts =~= seq![TokenV::LParen] + ta + seq![TokenV::RParen, TokenV::And, TokenV::LParen] + tb
        + seq![TokenV::RParen]);
    let n = ts.len() as int;
    let m = pa.len() as int;
    assert(ts =~= e + pa + (seq![TokenV::And] + pb));
    lemma_entre_parentesis(ta, ea, e, seq![TokenV::And] + pb);
    assert(ts =~= (pa + seq![TokenV::And]) + pb + e);
    lemma_entre_parentesis(tb, eb, pa + seq![TokenV::And], e);
    assert(ts[m] == TokenV::And);
    assert(negacion(ts, 0) == Ok::<(ExprV, int), int>((ea, m)));
    assert(negacion(ts, m + 1) == Ok::<(ExprV, int), int>((eb, n)));
    assert(seq![eb] + Seq::<ExprV>::empty() =~= seq![eb]);
    lemma_paso_and(ts, m + 1, eb, n);
    assert(resto_and(ts, n) == Ok::<(Seq<ExprV>, int), int>((Seq::<ExprV>::empty(), n)));
    assert(lista_and(ts, m + 1) == Ok::<(Seq<ExprV>, int), int>((seq![eb], n)));
    lemma_paso_and(ts, 0, ea, m);
    assert(resto_and(ts, m) == lista_and(ts, m + 1));
    assert(seq![ea] + seq![eb] =~= seq![ea, eb]);
    assert(lista_and(ts, 0) == Ok::<(Seq<ExprV>, int), int>((seq![ea, eb], n)));
    lemma_paso_or(ts, 0, seq![ea, eb], n);
    assert(resto_or(ts, n) == Ok::<(Seq<ExprV>, int), int>((Seq::<ExprV>::empty(), n)));
    assert(seq![ea, eb].drop_last() =~= seq![ea]);
    assert(plegar_and(seq![ea]) == ea);
    let x = plegar_and(seq![ea, eb]);
    assert(x == ExprV::And(Box::new(ea), Box::new(eb)));
    assert(seq![x] + Seq::<ExprV>::empty() =~= seq![x]);
    assert(lista_or(ts, 0) == Ok::<(Seq<ExprV>, int), int>((seq![x], n)));
    assert(plegar_or(seq![x]) == x);
    assert(expr_or(ts, 0) == Ok::<(ExprV, int), int>((x, n)));
}

proof fn lemma_componer_or(ta: Seq<TokenV>, tb: Seq<TokenV>, ea: ExprV, eb: ExprV)
    requires
        analizar(ta) == Ok::<ExprV, int>(ea),
        analizar(tb) == Ok::<ExprV, int>(eb),
    ensures
        analizar(
            seq![TokenV::LParen] + ta + seq![TokenV::RParen, TokenV::Or, TokenV::LParen] + tb
                + seq![TokenV::RParen],
        ) == Ok::<ExprV, int>(ExprV::Or(Box::new(ea), Box::new(eb))),
{
    let pa = seq![TokenV::LParen] + ta + seq![TokenV::RParen];
    let pb = seq![TokenV::LParen] + tb + seq![TokenV::RParen];
    let e = Seq::<TokenV>::empty();
    let to = pa + seq![TokenV::Or] + pb;
    assert(to =~= seq![TokenV::LParen] + ta + seq![TokenV::RParen, TokenV::Or, TokenV::LParen] + tb
        + seq![TokenV::RParen]);
    let n = to.len() as int;
    let m = pa.len() as int;
    assert(to =~= e + pa + (seq![TokenV::Or] + pb));
    lemma_entre_parentesis(ta, ea, e, seq![TokenV::Or] + pb);
    assert(to =~= (pa + seq![TokenV::Or]) + pb + e);
    lemma_entre_parentesis(tb, eb, pa + seq![TokenV::Or], e);
    assert(to[m] == TokenV::Or);
    assert(negacion(to, 0) == Ok::<(ExprV, int), int>((ea, m)));
    assert(negacion(to, m + 1) == Ok::<(ExprV, int), int>((eb, n)));
    assert(seq![ea] + Seq::<ExprV>::empty() =~= seq![ea]);
    assert(seq![eb] + Seq::<ExprV>::empty() =~= seq![eb]);
    // each side is one operand of its `and` chain
    lemma_paso_and(to, 0, ea, m);
    assert(resto_and(to, m) == Ok::<(Seq<ExprV>, int), int>((Seq::<ExprV>::empty(), m)));
    assert(lista_and(to, 0) == Ok::<(Seq<ExprV>, int), int>((seq![ea], m)));
    lemma_paso_and(to, m + 1, eb, n);
    assert(resto_and(to, n) == Ok::<(Seq<ExprV>, int), int>((Seq::<ExprV>::empty(), n)));
    assert(lista_and(to, m + 1) == Ok::<(Seq<ExprV>, int), int>((seq![eb], n)));
    assert(plegar_and(seq![ea]) == ea);
    assert(plegar_and(seq![eb]) == eb);
    // the `or` chain has the two of them
    lemma_paso_or(to, m + 1, seq![eb], n);
    assert(resto_or(to, n) == Ok::<(Seq<ExprV>, int), int>((Seq::<ExprV>::empty(), n)));
    assert(lista_or(to, m + 1) == Ok::<(Seq<ExprV>, int), int>((seq![eb], n)));
    lemma_paso_or(to, 0, seq![ea], m);
    assert(resto_or(to, m) == lista_or(to, m + 1));
    assert(seq![ea] + seq![eb] =~= seq![ea, eb]);
    assert(lista_or(to, 0) == Ok::<(Seq<ExprV>, int), int>((seq![ea, eb], n)));
    assert(seq![ea, eb].drop_last() =~= seq![ea]);
    assert(plegar_or(seq![ea]) == ea);
    assert(plegar_or(seq![ea, eb]) == ExprV::Or(Box::new(ea), Box::new(eb)));
    assert(expr_or(to, 0) == Ok::<(ExprV, int), int>((ExprV::Or(Box::new(ea), Box::new(eb)), n)));
}

/// Two queries that parse, each between parentheses and joined by `^`, `+`,
/// or one of them after `~`, parse to the `and`, the `or`, or the `not` of
/// their trees (as tokens).
pub proof fn ley_componer_tokens(ta: Seq<TokenV>, tb: Seq<TokenV>, ea: ExprV, eb: ExprV)
    requires
        analizar(ta) == Ok::<ExprV, int>(ea),
        analizar(tb) == Ok::<ExprV, int>(eb),
    ensures
        analizar(
            seq![TokenV::LParen] + ta + seq![TokenV::RParen, TokenV::And, TokenV::LParen] + tb
                + seq![TokenV::RParen],
        ) == Ok::<ExprV, int>(ExprV::And(Box::new(ea), Box::new(eb))),
        analizar(
            seq![TokenV::LParen] + ta + seq![TokenV::RParen, TokenV::Or, TokenV::LParen] + tb
                + seq![TokenV::RParen],
        ) == Ok::<ExprV, int>(ExprV::Or(Box::new(ea), Box::new(eb))),
        analizar(seq![TokenV::Not, TokenV::LParen] + ta + seq![TokenV::RParen]) == Ok::<
            ExprV,
            int,
        >(ExprV::Not(Box::new(ea))),
{
    lemma_componer_and(ta, tb, ea, eb);
    lemma_componer_or(ta, tb, ea, eb);
    let pa = seq![TokenV::LParen] + ta + seq![TokenV::RParen];
    let e = Seq::<TokenV>::empty();
    let tn = seq![TokenV::Not] + pa;
    assert(tn =~= seq![TokenV::Not, TokenV::LParen] + ta + seq![TokenV::RParen]);
    assert(tn =~= seq![TokenV::Not] + pa + e);
    lemma_entre_parentesis(ta, ea, seq![TokenV::Not], e);
    assert(tn[0] == TokenV::Not);
    lemma_una_negacion(tn, ExprV::Not(Box::new(ea)));
}

/// The tokens of `(a)c(b)`, for an operator `c`, are those of `a` and of `b`
/// between parentheses and joined by the token of `c`.
proof fn lemma_lexar_binario(a: Seq<char>, b: Seq<char>, c: char)
    requires
        lexar(a, 0) is Ok,
        lexar(b, 0) is Ok,
        c == '^' || c == '+',
    ensures
        ({
            let s = seq!['('] + a + seq![')', c, '('] + b + seq![')'];
            &&& lexar(s, 0) is Ok
            &&& solo_tokens(lexar(s, 0)->Ok_0) == seq![TokenV::LParen] + solo_tokens(
                lexar(a, 0)->Ok_0,
            ) + seq![TokenV::RParen, token_de_simbolo(c), TokenV::LParen] + solo_tokens(
                lexar(b, 0)->Ok_0,
            ) + seq![TokenV::RParen]
        }),
{
    let s = seq!['('] + a + seq![')', c, '('] + b + seq![')'];
    let la = a.len() as int;
    let lb = b.len() as int;
    let n = s.len() as int;
    let ta = solo_tokens(lexar(a, 0)->Ok_0);
    let tb = solo_tokens(lexar(b, 0)->Ok_0);
    assert(n == la + lb + 5);
    assert(s[0] == '(');
    assert(s[la + 1] == ')');
    assert(s[la + 2] == c);
    assert(s[la + 3] == '(');
    assert(s[n - 1] == ')');
    // the closing parenthesis at the end
    assert(lexar(s, n) == Ok::<Seq<(int, TokenV, int)>, int>(seq![]));
    assert(solo_tokens(Seq::<(int, TokenV, int)>::empty()) =~= Seq::<TokenV>::empty());
    lemma_lexar_simbolo(s, n - 1);
    assert(seq![TokenV::RParen] + Seq::<TokenV>::empty() =~= seq![TokenV::RParen]);
    // `b`
    assert(s.subrange(la + 4, la + 4 + lb) =~= b);
    assert(en_contexto(b, s, la + 4));
    lemma_lexar_en_contexto(b, s, la + 4, 0);
    // `(`, `c` and `)` between the two
    lemma_lexar_simbolo(s, la + 3);
    lemma_lexar_simbolo(s, la + 2);
    lemma_lexar_simbolo(s, la + 1);
    // `a`, and the opening parenthesis
    assert(s.subrange(1, 1 + la) =~= a);
    assert(en_contexto(a, s, 1));
    lemma_lexar_en_contexto(a, s, 1, 0);
    lemma_lexar_simbolo(s, 0);
    assert(token_de_simbolo('(') == TokenV::LParen);
    assert(token_de_simbolo(')') == TokenV::RParen);
    assert(solo_tokens(lexar(s, 0)->Ok_0) =~= seq![TokenV::LParen] + ta + seq![
        TokenV::RParen,
        token_de_simbolo(c),
        TokenV::LParen,
    ] + tb + seq![TokenV::RParen]);
}

/// The tokens of `~(a)` are a `not` and those of `a` between parentheses.
proof fn lemma_lexar_negado(a: Seq<char>)
    requires
        lexar(a, 0) is Ok,
    ensures
        ({
            let s = seq!['~', '('] + a + seq![')'];
            &&& lexar(s, 0) is Ok
            &&& solo_tokens(lexar(s, 0)->Ok_0) == seq![TokenV::Not, TokenV::LParen] + solo_tokens(
                lexar(a, 0)->Ok_0,
            ) + seq![TokenV::RParen]
        }),
{
    let s = seq!['~', '('] + a + seq![')'];
    let la = a.len() as int;
    let n = s.len() as int;
    let ta = solo_tokens(lexar(a, 0)->Ok_0);
    assert(n == la + 3);
    assert(s[0] == '~');
    assert(s[1] == '(');
    assert(s[n - 1] == ')');
    assert(lexar(s, n) == Ok::<Seq<(int, TokenV, int)>, int>(seq![]));
    assert(solo_tokens(Seq::<(int, TokenV, int)>::empty()) =~= Seq::<TokenV>::empty());
    lemma_lexar_simbolo(s, n - 1);
    assert(seq![TokenV::RParen] + Seq::<TokenV>::empty() =~= seq![TokenV::RParen]);
    assert(s.subrange(2, 2 + la) =~= a);
    assert(en_contexto(a, s, 2));
    lemma_lexar_en_contexto(a, s, 2, 0);
    lemma_lexar_simbolo(s, 1);
    lemma_lexar_simbolo(s, 0);
    assert(token_de_simbolo('~') == TokenV::Not);
    assert(solo_tokens(lexar(s, 0)->Ok_0) =~= seq![TokenV::Not, TokenV::LParen] + ta + seq![
        TokenV::RParen,
    ]);
}

/// Two query texts that parse, each put between parentheses and joined by
/// `^` or by `+`, parse to the `and` or the `or` of their trees; the first
/// one put between parentheses after `~` parses to its `not`.
pub proof fn ley_componer_consultas(a: Seq<char>, b: Seq<char>, ea: ExprV, eb: ExprV)
    requires
        analizar_texto(a) == Ok::<ExprV, Seq<char>>(ea),
        analizar_texto(b) == Ok::<ExprV, Seq<char>>(eb),
    ensures
        analizar_texto(seq!['('] + a + seq![')', '^', '('] + b + seq![')']) == Ok::<
            ExprV,
            Seq<char>,
        >(ExprV::And(Box::new(ea), Box::new(eb))),
        analizar_texto(seq!['('] + a + seq![')', '+', '('] + b + seq![')']) == Ok::<
            ExprV,
            Seq<char>,
        >(ExprV::Or(Box::new(ea), Box::new(eb))),
        analizar_texto(seq!['~', '('] + a + seq![')']) == Ok::<ExprV, Seq<char>>(
            ExprV::Not(Box::new(ea)),
        ),
{
    let ta = solo_tokens(lexar(a, 0)->Ok_0);
    let tb = solo_tokens(lexar(b, 0)->Ok_0);
    assert(analizar(ta) == Ok::<ExprV, int>(ea));
    assert(analizar(tb) == Ok::<ExprV, int>(eb));
    ley_componer_tokens(ta, tb, ea, eb);
    lemma_lexar_binario(a, b, '^');
    lemma_lexar_binario(a, b, '+');
    lemma_lexar_negado(a);
    assert(token_de_simbolo('^') == TokenV::And);
    assert(token_de_simbolo('+') == TokenV::Or);
}

} // verus!
