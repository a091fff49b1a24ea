//! Lexer of the search language.
//!
//! A query is a sequence of tokens separated by optional whitespace:
//! the operators `^` (and), `+` (or), `~` (not), the parentheses, `:`,
//! quoted values `"..."` and words. A word that names a field
//! (`title`, `album`, `performer`, `year`, `genre`, `track`) is a field token,
//! any other word is a value. Each token carries the byte span of its text.

use vstd::prelude::*;
use crate::texto::{byte_length, byte_offset, char_width, chars_of, decimal, lemma_byte_offset_bound, lemma_byte_offset_step, push_decimal, utf8_len};

verus! {

/// Tokens of the search language.
#[derive(Debug, PartialEq)]
pub enum Token {
    And,
    Or,
    Not,
    LParen,
    RParen,
    Colon,
    Campo(String),
    Valor(String),
}

/// Mathematical model of [`Token`].
pub enum TokenV {
    And,
    Or,
    Not,
    LParen,
    RParen,
    Colon,
    Campo(Seq<char>),
    Valor(Seq<char>),
}

impl View for Token {
    type V = TokenV;

    open spec fn view(&self) -> TokenV {
        match self {
            Token::And => TokenV::And,
            Token::Or => TokenV::Or,
            Token::Not => TokenV::Not,
            Token::LParen => TokenV::LParen,
            Token::RParen => TokenV::RParen,
            Token::Colon => TokenV::Colon,
            Token::Campo(s) => TokenV::Campo(s@),
            Token::Valor(s) => TokenV::Valor(s@),
        }
    }
}

impl Clone for Token {
    fn clone(&self) -> (r: Self)
        ensures
            r@ == self@,
    {
        match self {
            Token::And => Token::And,
            Token::Or => Token::Or,
            Token::Not => Token::Not,
            Token::LParen => Token::LParen,
            Token::RParen => Token::RParen,
            Token::Colon => Token::Colon,
            Token::Campo(s) => Token::Campo(s.clone()),
            Token::Valor(s) => Token::Valor(s.clone()),
        }
    }
}

/// A token with the byte offsets where its text starts and ends.
pub type Spanned = (usize, Token, usize);

pub open spec fn spanned_view(x: Spanned) -> (int, TokenV, int) {
    (x.0 as int, x.1@, x.2 as int)
}

pub open spec fn spans_view(v: Seq<Spanned>) -> Seq<(int, TokenV, int)> {
    v.map_values(|x: Spanned| spanned_view(x))
}

/// Text of a token as it is written: the operator, the field name,
/// or the value between double quotes.
pub open spec fn token_text(t: TokenV) -> Seq<char> {
    match t {
        TokenV::And => "^"@,
        TokenV::Or => "+"@,
        TokenV::Not => "~"@,
        TokenV::LParen => "("@,
        TokenV::RParen => ")"@,
        TokenV::Colon => ":"@,
        TokenV::Campo(s) => s,
        TokenV::Valor(s) => "\""@ + s + "\""@,
    }
}

impl Token {
    /// The text of the token as it is written in a query.
    pub fn texto(&self) -> (r: String)
        ensures
            r@ == token_text(self@),
    {
        match self {
            Token::And => "^".to_owned(),
            Token::Or => "+".to_owned(),
            Token::Not => "~".to_owned(),
            Token::LParen => "(".to_owned(),
            Token::RParen => ")".to_owned(),
            Token::Colon => ":".to_owned(),
            Token::Campo(s) => s.clone(),
            Token::Valor(s) => {
                let mut r = "\"".to_owned();
                r.append(s.as_str());
                r.append("\"");
                r
            },
        }
    }
}

pub open spec fn es_espacio(c: char) -> bool {
    c == ' ' || c == '\t' || c == '\n' || c == '\r'
}

/// Characters that form a token on their own or open a quoted value.
pub open spec fn es_especial(c: char) -> bool {
    c == '^' || c == '+' || c == '~' || c == '(' || c == ')' || c == ':' || c == '"'
}

pub open spec fn es_de_palabra(c: char) -> bool {
    !es_espacio(c) && !es_especial(c)
}

/// The token of a one-character operator or parenthesis.
pub open spec fn token_de_simbolo(c: char) -> TokenV {
    if c == '^' {
        TokenV::And
    } else if c == '+' {
        TokenV::Or
    } else if c == '~' {
        TokenV::Not
    } else if c == '(' {
        TokenV::LParen
    } else if c == ')' {
        TokenV::RParen
    } else {
        TokenV::Colon
    }
}

pub open spec fn es_nombre_de_campo(w: Seq<char>) -> bool {
    ||| w == "title"@
    ||| w == "album"@
    ||| w == "performer"@
    ||| w == "year"@
    ||| w == "genre"@
    ||| w == "track"@
}

/// A word is a field token when it names a field, else a value.
pub open spec fn clasificar(w: Seq<char>) -> TokenV {
    if es_nombre_de_campo(w) {
        TokenV::Campo(w)
    } else {
        TokenV::Valor(w)
    }
}

/// Index just past the run of word characters that starts at `i`.
pub open spec fn fin_de_palabra(s: Seq<char>, i: int) -> int
    decreases s.len() - i,
{
    if i < 0 || i >= s.len() || !es_de_palabra(s[i]) {
        i
    } else {
        fin_de_palabra(s, i + 1)
    }
}

/// Index of the first double quote at or after `i`, if any.
pub open spec fn cierre_de_comillas(s: Seq<char>, i: int) -> Option<int>
    decreases s.len() - i,
{
    if i < 0 || i >= s.len() {
        None
    } else if s[i] == '"' {
        Some(i)
    } else {
        cierre_de_comillas(s, i + 1)
    }
}

pub proof fn lemma_fin_de_palabra(s: Seq<char>, i: int)
    requires
        0 <= i <= s.len(),
    ensures
        i <= fin_de_palabra(s, i) <= s.len(),
        i < s.len() && es_de_palabra(s[i]) ==> i < fin_de_palabra(s, i),
        forall|k: int| i <= k < fin_de_palabra(s, i) ==> es_de_palabra(#[trigger] s[k]),
        fin_de_palabra(s, i) == s.len() || !es_de_palabra(s[fin_de_palabra(s, i)]),
    decreases s.len() - i,
{
    if i < s.len() && es_de_palabra(s[i]) {
        lemma_fin_de_palabra(s, i + 1);
    }
}

pub proof fn lemma_cierre_de_comillas(s: Seq<char>, i: int)
    requires
        0 <= i <= s.len(),
    ensures
        cierre_de_comillas(s, i) matches Some(j) ==> i <= j < s.len() && s[j] == '"'
            && forall|k: int| i <= k < j ==> #[trigger] s[k] != '"',
        cierre_de_comillas(s, i) is None ==> forall|k: int| i <= k < s.len() ==> #[trigger] s[k]
            != '"',
    decreases s.len() - i,
{
    if i < s.len() && s[i] != '"' {
        lemma_cierre_de_comillas(s, i + 1);
    }
}

/// Puts `p` in front of a successful result.
pub open spec fn anteponer<T>(p: Seq<T>, r: Result<Seq<T>, int>) -> Result<Seq<T>, int> {
    match r {
        Ok(x) => Ok(p + x),
        Err(e) => Err(e),
    }
}

/// Tokens of `s` from character index `i` on, with byte spans; `Err` holds the
/// byte offset of a double quote that is never closed.
pub open spec fn lexar(s: Seq<char>, i: int) -> Result<Seq<(int, TokenV, int)>, int>
    decreases s.len() - i,
{
    if i < 0 || i >= s.len() {
        Ok(seq![])
    } else if es_espacio(s[i]) {
        lexar(s, i + 1)
    } else if s[i] == '"' {
        match cierre_de_comillas(s, i + 1) {
            None => Err(byte_offset(s, i) as int),
            Some(j) => {
                proof {
                    lemma_cierre_de_comillas(s, i + 1);
                }
                anteponer(
                    seq![
                        (
                            byte_offset(s, i) as int,
                            TokenV::Valor(s.subrange(i + 1, j)),
                            byte_offset(s, j + 1) as int,
                        ),
                    ],
                    lexar(s, j + 1),
                )
            },
        }
    } else if es_especial(s[i]) {
        anteponer(
            seq![(byte_offset(s, i) as int, token_de_simbolo(s[i]), byte_offset(s, i + 1) as int)],
            lexar(s, i + 1),
        )
    } else {
        let j = fin_de_palabra(s, i);
        proof {
            lemma_fin_de_palabra(s, i);
        }
        anteponer(
            seq![
                (
                    byte_offset(s, i) as int,
                    clasificar(s.subrange(i, j)),
                    byte_offset(s, j) as int,
                ),
            ],
            lexar(s, j),
        )
    }
}

/// The error message for a double quote at byte offset `p` that is never closed.
pub open spec fn mensaje_error_lexico(p: int) -> Seq<char> {
    "Error léxico: comillas sin cerrar en la posición "@ + decimal(p as nat)
}

fn es_espacio_exec(c: char) -> (r: bool)
    ensures
        r == es_espacio(c),
{
    c == ' ' || c == '\t' || c == '\n' || c == '\r'
}

fn es_especial_exec(c: char) -> (r: bool)
    ensures
        r == es_especial(c),
{
    c == '^' || c == '+' || c == '~' || c == '(' || c == ')' || c == ':' || c == '"'
}

fn token_de_simbolo_exec(c: char) -> (t: Token)
    ensures
        t@ == token_de_simbolo(c),
{
    if c == '^' {
        Token::And
    } else if c == '+' {
        Token::Or
    } else if c == '~' {
        Token::Not
    } else if c == '(' {
        Token::LParen
    } else if c == ')' {
        Token::RParen
    } else {
        Token::Colon
    }
}

fn es_nombre_de_campo_exec(w: &String) -> (r: bool)
    ensures
        r == es_nombre_de_campo(w@),
{
    let nombres = ["title", "album", "performer", "year", "genre", "track"];
    let t0 = nombres[0].to_owned();
    let t1 = nombres[1].to_owned();
    let t2 = nombres[2].to_owned();
    let t3 = nombres[3].to_owned();
    let t4 = nombres[4].to_owned();
    let t5 = nombres[5].to_owned();
    *w == t0 || *w == t1 || *w == t2 || *w == t3 || *w == t4 || *w == t5
}

fn clasificar_exec(w: String) -> (t: Token)
    ensures
        t@ == clasificar(w@),
{
    if es_nombre_de_campo_exec(&w) {
        Token::Campo(w)
    } else {
        Token::Valor(w)
    }
}

proof fn lemma_spans_push(v: Seq<Spanned>, x: Spanned)
    ensures
        spans_view(v.push(x)) == spans_view(v).push(spanned_view(x)),
{
    assert(spans_view(v.push(x)) =~= spans_view(v).push(spanned_view(x)));
}

proof fn lemma_anteponer_assoc<T>(p: Seq<T>, q: Seq<T>, r: Result<Seq<T>, int>)
    ensures
        anteponer(p, anteponer(q, r)) == anteponer(p + q, r),
{
    if r is Ok {
        assert(p + (q + r->Ok_0) =~= (p + q) + r->Ok_0);
    }
}

/// Lexes the quoted value that opens at character `i` (byte offset `b`).
fn lexar_comillas(input: &str, s: &Vec<char>, i: usize, b: usize, total: usize) -> (r: Result<
    (Spanned, usize, usize),
    String,
>)
    requires
        s@ == input@,
        i < s@.len(),
        s@[i as int] == '"',
        b == byte_offset(s@, i as int),
        total == utf8_len(s@),
    ensures
        match r {
            Ok((x, i2, b2)) => {
                &&& i < i2 <= s@.len()
                &&& b2 == byte_offset(s@, i2 as int)
                &&& lexar(s@, i as int) == anteponer(seq![spanned_view(x)], lexar(s@, i2 as int))
            },
            Err(m) => {
                &&& lexar(s@, i as int) == Err::<Seq<(int, TokenV, int)>, int>(b as int)
                &&& m@ == mensaje_error_lexico(b as int)
            },
        },
{
    let n = s.len();
    proof {
        lemma_byte_offset_step(s@, i as int);
        lemma_byte_offset_bound(s@, i as int + 1);
        lemma_cierre_de_comillas(s@, i as int + 1);
    }
    let mut j: usize = i + 1;
    let mut bj: usize = b + char_width(s[i]);
    while j < n && s[j] != '"'
        invariant
            n == s@.len(),
            i < j <= n,
            bj == byte_offset(s@, j as int),
            total == utf8_len(s@),
            cierre_de_comillas(s@, i + 1) == cierre_de_comillas(s@, j as int),
        decreases n - j,
    {
        proof {
            lemma_byte_offset_step(s@, j as int);
            lemma_byte_offset_bound(s@, j as int + 1);
        }
        j = j + 1;
        bj = bj + char_width(s[j - 1]);
    }
    if j == n {
        let mut m = "Error léxico: comillas sin cerrar en la posición ".to_owned();
        push_decimal(&mut m, b as u64);
        return Err(m);
    }
    proof {
        lemma_byte_offset_step(s@, j as int);
        lemma_byte_offset_bound(s@, j as int + 1);
    }
    let valor = input.substring_char(i + 1, j).to_owned();
    let fin = bj + char_width(s[j]);
    Ok(((b, Token::Valor(valor), fin), j + 1, fin))
}

/// Lexes the word that starts at character `i` (byte offset `b`).
fn lexar_palabra(input: &str, s: &Vec<char>, i: usize, b: usize, total: usize) -> (r: (
    Spanned,
    usize,
    usize,
))
    requires
        s@ == input@,
        i < s@.len(),
        es_de_palabra(s@[i as int]),
        b == byte_offset(s@, i as int),
        total == utf8_len(s@),
    ensures
        i < r.1 <= s@.len(),
        r.2 == byte_offset(s@, r.1 as int),
        lexar(s@, i as int) == anteponer(seq![spanned_view(r.0)], lexar(s@, r.1 as int)),
{
    let n = s.len();
    proof {
        lemma_byte_offset_step(s@, i as int);
        lemma_byte_offset_bound(s@, i as int + 1);
        lemma_fin_de_palabra(s@, i as int);
    }
    let mut j: usize = i + 1;
    let mut bj: usize = b + char_width(s[i]);
    while j < n && !es_espacio_exec(s[j]) && !es_especial_exec(s[j])
        invariant
            n == s@.len(),
            i < j <= n,
            bj == byte_offset(s@, j as int),
            total == utf8_len(s@),
            fin_de_palabra(s@, i as int) == fin_de_palabra(s@, j as int),
        decreases n - j,
    {
        proof {
            lemma_byte_offset_step(s@, j as int);
            lemma_byte_offset_bound(s@, j as int + 1);
        }
        j = j + 1;
        bj = bj + char_width(s[j - 1]);
    }
    let palabra = input.substring_char(i, j).to_owned();
    ((b, clasificar_exec(palabra), bj), j, bj)
}

/// Splits a query into tokens with the byte span of each.
pub fn tokenizar(input: &str) -> (r: Result<Vec<Spanned>, String>)
    ensures
        match r {
            Ok(v) => lexar(input@, 0) == Ok::<Seq<(int, TokenV, int)>, int>(spans_view(v@)),
            Err(m) => exists|p: int|
                lexar(input@, 0) == Err::<Seq<(int, TokenV, int)>, int>(p) && m@
                    == mensaje_error_lexico(p),
        },
{
    let s = chars_of(input);
    let n = s.len();
    let total = byte_length(input);
    let mut out: Vec<Spanned> = Vec::new();
    let mut i: usize = 0;
    let mut b: usize = 0;
    assert(s@.take(0) =~= Seq::<char>::empty());
    assert(spans_view(out@) =~= Seq::<(int, TokenV, int)>::empty());
    assert(lexar(s@, 0) == anteponer(spans_view(out@), lexar(s@, 0))) by {
        if lexar(s@, 0) is Ok {
            assert(spans_view(out@) + lexar(s@, 0)->Ok_0 =~= lexar(s@, 0)->Ok_0);
        }
    }
    while i < n
        invariant
            s@ == input@,
            n == s@.len(),
            i <= n,
            b == byte_offset(s@, i as int),
            total == utf8_len(s@),
            lexar(s@, 0) == anteponer(spans_view(out@), lexar(s@, i as int)),
        decreases n - i,
    {
        let c = s[i];
        if es_espacio_exec(c) {
            proof {
                lemma_byte_offset_step(s@, i as int);
                lemma_byte_offset_bound(s@, i as int + 1);
            }
            i = i + 1;
            b = b + char_width(c);
        } else {
            let (x, i2, b2) = if c == '"' {
                match lexar_comillas(input, &s, i, b, total) {
                    Ok(t) => t,
                    Err(m) => {
                        assert(lexar(s@, 0) == Err::<Seq<(int, TokenV, int)>, int>(b as int));
                        return Err(m);
                    },
                }
            } else if es_especial_exec(c) {
                proof {
                    lemma_byte_offset_step(s@, i as int);
                    lemma_byte_offset_bound(s@, i as int + 1);
                }
                ((b, token_de_simbolo_exec(c), b + char_width(c)), i + 1, b + char_width(c))
            } else {
                lexar_palabra(input, &s, i, b, total)
            };
            proof {
                lemma_spans_push(out@, x);
                lemma_anteponer_assoc(spans_view(out@), seq![spanned_view(x)], lexar(s@, i2 as int));
                assert(spans_view(out@) + seq![spanned_view(x)] =~= spans_view(out@).push(
                    spanned_view(x),
                ));
            }
            out.push(x);
            i = i2;
            b = b2;
        }
    }
    assert(spans_view(out@) + Seq::<(int, TokenV, int)>::empty() =~= spans_view(out@));
    Ok(out)
}


// ---------------------------------------------------------------------------
// Writing tokens as text, and lexing it back.
// ---------------------------------------------------------------------------

/// A token that can be written as text and read back as itself: a field token
/// names a field, and a value holds no double quote.
pub open spec fn token_escribible(t: TokenV) -> bool {
    match t {
        TokenV::Campo(w) => es_nombre_de_campo(w),
        TokenV::Valor(v) => forall|k: int| 0 <= k < v.len() ==> v[k] != '"',
        _ => true,
    }
}

/// The tokens written one after the other, separated by single spaces.
pub open spec fn texto_de_tokens(ts: Seq<TokenV>) -> Seq<char>
    decreases ts.len(),
{
    if ts.len() == 0 {
        seq![]
    } else if ts.len() == 1 {
        token_text(ts[0])
    } else {
        token_text(ts[0]) + " "@ + texto_de_tokens(ts.drop_first())
    }
}

/// The tokens of a lexing result, without their spans.
pub open spec fn solo_tokens(sp: Seq<(int, TokenV, int)>) -> Seq<TokenV> {
    sp.map_values(|x: (int, TokenV, int)| x.1)
}

proof fn lemma_cierre_hasta(s: Seq<char>, k: int, j: int)
    requires
        0 <= k <= j < s.len(),
        s[j] == '"',
        forall|m: int| k <= m < j ==> s[m] != '"',
    ensures
        cierre_de_comillas(s, k) == Some(j),
    decreases j - k,
{
    if k < j {
        lemma_cierre_hasta(s, k + 1, j);
    }
}

proof fn lemma_fin_hasta(s: Seq<char>, k: int, j: int)
    requires
        0 <= k <= j <= s.len(),
        j == s.len() || !es_de_palabra(s[j]),
        forall|m: int| k <= m < j ==> es_de_palabra(s[m]),
    ensures
        fin_de_palabra(s, k) == j,
    decreases j - k,
{
    if k < j {
        lemma_fin_hasta(s, k + 1, j);
    }
}

proof fn lemma_nombres_de_palabra(w: Seq<char>)
    requires
        es_nombre_de_campo(w),
    ensures
        w.len() > 0,
        forall|m: int| 0 <= m < w.len() ==> es_de_palabra(#[trigger] w[m]),
{
    reveal_strlit("title");
    reveal_strlit("album");
    reveal_strlit("performer");
    reveal_strlit("year");
    reveal_strlit("genre");
    reveal_strlit("track");
}

proof fn lemma_texto_simbolo(t: TokenV)
    requires
        !(t is Campo),
        !(t is Valor),
    ensures
        token_text(t).len() == 1,
        es_especial(token_text(t)[0]),
        token_text(t)[0] != '"',
        token_de_simbolo(token_text(t)[0]) == t,
{
    reveal_strlit("^");
    reveal_strlit("+");
    reveal_strlit("~");
    reveal_strlit("(");
    reveal_strlit(")");
    reveal_strlit(":");
}

proof fn lemma_solo_tokens_anteponer(x: (int, TokenV, int), r: Result<Seq<(int, TokenV, int)>, int>)
    requires
        r is Ok,
    ensures
        anteponer(seq![x], r) is Ok,
        solo_tokens(anteponer(seq![x], r)->Ok_0) == seq![x.1] + solo_tokens(r->Ok_0),
{
    assert(solo_tokens(seq![x] + r->Ok_0) =~= seq![x.1] + solo_tokens(r->Ok_0));
}

/// Lexing one written token at `i` gives that token, and goes on right after its text.
proof fn lemma_lexar_un_token(s: Seq<char>, i: int, t: TokenV)
    requires
        0 <= i,
        i + token_text(t).len() <= s.len(),
        s.subrange(i, i + token_text(t).len()) == token_text(t),
        token_escribible(t),
        i + token_text(t).len() == s.len() || es_espacio(s[i + token_text(t).len()]),
    ensures
        exists|a: int, b: int|
            lexar(s, i) == anteponer(seq![(a, t, b)], lexar(s, i + token_text(t).len())),
{
    let w = token_text(t);
    let j = i + w.len();
    assert(forall|m: int| 0 <= m < w.len() ==> s[i + m] == #[trigger] w[m]) by {
        assert forall|m: int| 0 <= m < w.len() implies s[i + m] == #[trigger] w[m] by {
            assert(s.subrange(i, j)[m] == s[i + m]);
        }
    }
    match t {
        TokenV::Campo(nombre) => {
            lemma_nombres_de_palabra(nombre);
            assert(es_de_palabra(w[0]));
            assert(s[i + 0] == w[0]);
            assert forall|m: int| i <= m < j implies es_de_palabra(s[m]) by {
                assert(s[i + (m - i)] == w[m - i]);
            }
            lemma_fin_hasta(s, i, j);
            assert(s.subrange(i, j) == nombre);
            let a = byte_offset(s, i) as int;
            let b = byte_offset(s, j) as int;
            assert(lexar(s, i) == anteponer(seq![(a, t, b)], lexar(s, j)));
        },
        TokenV::Valor(v) => {
            reveal_strlit("\"");
            assert(w == "\""@ + v + "\""@);
            assert(w[0] == '"');
            assert(s[i] == '"');
            assert forall|m: int| i + 1 <= m < j - 1 implies s[m] != '"' by {
                assert(s[i + (m - i)] == w[m - i]);
                assert(w[m - i] == v[m - i - 1]);
            }
            assert(w[w.len() - 1] == '"');
            assert(s[i + (w.len() - 1)] == w[w.len() - 1]);
            lemma_cierre_hasta(s, i + 1, j - 1);
            assert(s.subrange(i + 1, j - 1) =~= v) by {
                assert forall|m: int| 0 <= m < v.len() implies s.subrange(i + 1, j - 1)[m] == v[m] by {
                    assert(s[i + (m + 1)] == w[m + 1]);
                }
            }
            let a = byte_offset(s, i) as int;
            let b = byte_offset(s, j) as int;
            assert(lexar(s, i) == anteponer(seq![(a, t, b)], lexar(s, j)));
        },
        _ => {
            lemma_texto_simbolo(t);
            assert(s[i + 0] == w[0]);
            let a = byte_offset(s, i) as int;
            let b = byte_offset(s, i + 1) as int;
            assert(lexar(s, i) == anteponer(seq![(a, t, b)], lexar(s, i + 1)));
        },
    }
}

/// Lexing the written text of writable tokens, wherever it ends a text, gives them back.
pub proof fn lemma_lexar_texto_de_tokens(s: Seq<char>, i: int, ts: Seq<TokenV>)
    requires
        0 <= i <= s.len(),
        s.skip(i) == texto_de_tokens(ts),
        forall|k: int| 0 <= k < ts.len() ==> token_escribible(#[trigger] ts[k]),
    ensures
        lexar(s, i) is Ok,
        solo_tokens(lexar(s, i)->Ok_0) == ts,
    decreases ts.len(),
{
    if ts.len() == 0 {
        assert(s.skip(i).len() == 0);
        assert(solo_tokens(Seq::<(int, TokenV, int)>::empty()) =~= ts);
    } else {
        let t = ts[0];
        let w = token_text(t);
        let j = i + w.len();
        assert(token_escribible(ts[0]));
        if ts.len() == 1 {
            assert(s.skip(i) == w);
            assert(s.subrange(i, j) =~= w) by {
                assert forall|m: int| 0 <= m < w.len() implies s.subrange(i, j)[m] == w[m] by {
                    assert(s.skip(i)[m] == s[i + m]);
                }
            }
            lemma_lexar_un_token(s, i, t);
            let (a, b) = choose|a: int, b: int|
                lexar(s, i) == anteponer(seq![(a, t, b)], lexar(s, j));
            assert(lexar(s, j) == Ok::<Seq<(int, TokenV, int)>, int>(seq![]));
            lemma_solo_tokens_anteponer((a, t, b), lexar(s, j));
            assert(solo_tokens(Seq::<(int, TokenV, int)>::empty()) =~= Seq::<TokenV>::empty());
            assert(seq![t] + Seq::<TokenV>::empty() =~= ts);
        } else {
            let rest = ts.drop_first();
            reveal_strlit(" ");
            assert(s.skip(i) == w + " "@ + texto_de_tokens(rest));
            assert(s.subrange(i, j) =~= w) by {
                assert forall|m: int| 0 <= m < w.len() implies s.subrange(i, j)[m] == w[m] by {
                    assert(s.skip(i)[m] == s[i + m]);
                }
            }
            assert(s[j] == ' ') by {
                assert(s.skip(i)[w.len() as int] == s[i + w.len()]);
            }
            lemma_lexar_un_token(s, i, t);
            let (a, b) = choose|a: int, b: int|
                lexar(s, i) == anteponer(seq![(a, t, b)], lexar(s, j));
            assert(lexar(s, j) == lexar(s, j + 1));
            assert(s.skip(j + 1) =~= texto_de_tokens(rest)) by {
                assert forall|m: int| 0 <= m < s.skip(j + 1).len() implies s.skip(j + 1)[m]
                    == texto_de_tokens(rest)[m] by {
                    assert(s.skip(i)[w.len() + 1 + m] == s[j + 1 + m]);
                }
            }
            assert forall|k: int| 0 <= k < rest.len() implies token_escribible(#[trigger] rest[k]) by {
                assert(rest[k] == ts[k + 1]);
            }
            lemma_lexar_texto_de_tokens(s, j + 1, rest);
            lemma_solo_tokens_anteponer((a, t, b), lexar(s, j));
            assert(seq![t] + rest =~= ts);
        }
    }
}

/// Writing tokens as text and lexing that text gives the same tokens back.
pub proof fn ley_lexar_texto_de_tokens(ts: Seq<TokenV>)
    requires
        forall|k: int| 0 <= k < ts.len() ==> token_escribible(#[trigger] ts[k]),
    ensures
        lexar(texto_de_tokens(ts), 0) is Ok,
        solo_tokens(lexar(texto_de_tokens(ts), 0)->Ok_0) == ts,
{
    let s = texto_de_tokens(ts);
    assert(s.skip(0) =~= s);
    lemma_lexar_texto_de_tokens(s, 0, ts);
}


// ---------------------------------------------------------------------------
// Where the tokens lie.
// ---------------------------------------------------------------------------

/// Every span is non-empty, lies within `[lo, hi]`, and ends before the next one starts.
pub open spec fn spans_ordenados(sp: Seq<(int, TokenV, int)>, lo: int, hi: int) -> bool {
    &&& forall|k: int| 0 <= k < sp.len() ==> lo <= #[trigger] sp[k].0 < sp[k].2 <= hi
    &&& forall|k: int| 0 <= k < sp.len() - 1 ==> #[trigger] sp[k].2 <= sp[k + 1].0
}

proof fn lemma_byte_offset_estricto(s: Seq<char>, i: int, j: int)
    requires
        0 <= i < j <= s.len(),
    ensures
        byte_offset(s, i) < byte_offset(s, j),
    decreases j - i,
{
    lemma_byte_offset_step(s, j - 1);
    if i < j - 1 {
        lemma_byte_offset_estricto(s, i, j - 1);
    }
}

proof fn lemma_ordenados_cons(x: (int, TokenV, int), sp: Seq<(int, TokenV, int)>, lo: int, mid: int, hi: int)
    requires
        lo <= x.0 < x.2 <= mid,
        spans_ordenados(sp, mid, hi),
        x.2 <= hi,
    ensures
        spans_ordenados(seq![x] + sp, lo, hi),
{
    let r = seq![x] + sp;
    assert forall|k: int| 0 <= k < r.len() implies lo <= #[trigger] r[k].0 < r[k].2 <= hi by {
        if k > 0 {
            assert(r[k] == sp[k - 1]);
        }
    }
    assert forall|k: int| 0 <= k < r.len() - 1 implies #[trigger] r[k].2 <= r[k + 1].0 by {
        if k > 0 {
            assert(r[k] == sp[k - 1]);
            assert(r[k + 1] == sp[k]);
        } else {
            assert(r[1] == sp[0]);
        }
    }
}

proof fn lemma_lexar_ordenado(s: Seq<char>, i: int)
    requires
        0 <= i <= s.len(),
    ensures
        lexar(s, i) matches Ok(sp) ==> spans_ordenados(
            sp,
            byte_offset(s, i) as int,
            utf8_len(s) as int,
        ),
    decreases s.len() - i,
{
    if i < s.len() {
        lemma_byte_offset_estricto(s, i, i + 1);
        lemma_byte_offset_bound(s, i + 1);
        if es_espacio(s[i]) {
            lemma_lexar_ordenado(s, i + 1);
        } else if s[i] == '"' {
            lemma_cierre_de_comillas(s, i + 1);
            if let Some(j) = cierre_de_comillas(s, i + 1) {
                lemma_lexar_ordenado(s, j + 1);
                lemma_byte_offset_estricto(s, i, j + 1);
                lemma_byte_offset_bound(s, j + 1);
                if let Ok(rest) = lexar(s, j + 1) {
                    let x = (
                        byte_offset(s, i) as int,
                        TokenV::Valor(s.subrange(i + 1, j)),
                        byte_offset(s, j + 1) as int,
                    );
                    lemma_ordenados_cons(
                        x,
                        rest,
                        byte_offset(s, i) as int,
                        byte_offset(s, j + 1) as int,
                        utf8_len(s) as int,
                    );
                }
            }
        } else if es_especial(s[i]) {
            lemma_lexar_ordenado(s, i + 1);
            if let Ok(rest) = lexar(s, i + 1) {
                let x = (byte_offset(s, i) as int, token_de_simbolo(s[i]), byte_offset(s, i + 1) as int);
                lemma_ordenados_cons(
                    x,
                    rest,
                    byte_offset(s, i) as int,
                    byte_offset(s, i + 1) as int,
                    utf8_len(s) as int,
                );
            }
        } else {
            lemma_fin_de_palabra(s, i);
            let j = fin_de_palabra(s, i);
            lemma_lexar_ordenado(s, j);
            lemma_byte_offset_estricto(s, i, j);
            lemma_byte_offset_bound(s, j);
            if let Ok(rest) = lexar(s, j) {
                let x = (byte_offset(s, i) as int, clasificar(s.subrange(i, j)), byte_offset(s, j) as int);
                lemma_ordenados_cons(
                    x,
                    rest,
                    byte_offset(s, i) as int,
                    byte_offset(s, j) as int,
                    utf8_len(s) as int,
                );
            }
        }
    }
}

/// The spans of the tokens are non-empty, come in the order of the text, do not
/// overlap, and lie within the bytes of the input.
pub proof fn ley_posiciones_ordenadas(s: Seq<char>)
    ensures
        lexar(s, 0) matches Ok(sp) ==> spans_ordenados(sp, 0, utf8_len(s) as int),
{
    assert(s.take(0) =~= Seq::<char>::empty());
    lemma_lexar_ordenado(s, 0);
}


// ---------------------------------------------------------------------------
// What each span holds.
// ---------------------------------------------------------------------------

/// `src` is the text that token `t` was read from: the token's own text, or,
/// for a value written without quotes (a text that does not start with a
/// double quote), the value itself.
pub open spec fn fuente_de_token(src: Seq<char>, t: TokenV) -> bool {
    match t {
        TokenV::Valor(v) => if src.len() > 0 && src[0] == '"' {
            src == token_text(t)
        } else {
            src == v
        },
        _ => src == token_text(t),
    }
}

/// The token `x` spans the characters `i..j` of `s`, which it was read from.
pub open spec fn leido_de(s: Seq<char>, i: int, j: int, x: (int, TokenV, int)) -> bool {
    &&& 0 <= i <= j <= s.len()
    &&& x.0 == byte_offset(s, i)
    &&& x.2 == byte_offset(s, j)
    &&& fuente_de_token(s.subrange(i, j), x.1)
}

/// The token `x` lies over some characters of `s` that it was read from.
pub open spec fn fiel(s: Seq<char>, x: (int, TokenV, int)) -> bool {
    exists|i: int, j: int| #[trigger] leido_de(s, i, j, x)
}

/// Every token lies, in the bytes of `s`, over the text it was read from.
pub open spec fn spans_fieles(s: Seq<char>, sp: Seq<(int, TokenV, int)>) -> bool {
    forall|k: int| 0 <= k < sp.len() ==> #[trigger] fiel(s, sp[k])
}

proof fn lemma_fieles_cons(s: Seq<char>, i: int, j: int, x: (int, TokenV, int), sp: Seq<(int, TokenV, int)>)
    requires
        leido_de(s, i, j, x),
        spans_fieles(s, sp),
    ensures
        spans_fieles(s, seq![x] + sp),
{
    let r = seq![x] + sp;
    assert forall|k: int| 0 <= k < r.len() implies #[trigger] fiel(s, r[k]) by {
        if k == 0 {
            assert(leido_de(s, i, j, r[0]));
        } else {
            assert(r[k] == sp[k - 1]);
            assert(fiel(s, sp[k - 1]));
        }
    }
}

proof fn lemma_texto_de_simbolo(c: char)
    requires
        es_especial(c),
        c != '"',
    ensures
        token_text(token_de_simbolo(c)) == seq![c],
{
    reveal_strlit("^");
    reveal_strlit("+");
    reveal_strlit("~");
    reveal_strlit("(");
    reveal_strlit(")");
    reveal_strlit(":");
    assert("^"@ =~= seq!['^']);
    assert("+"@ =~= seq!['+']);
    assert("~"@ =~= seq!['~']);
    assert("("@ =~= seq!['(']);
    assert(")"@ =~= seq![')']);
    assert(":"@ =~= seq![':']);
}

proof fn lemma_lexar_fiel(s: Seq<char>, i: int)
    requires
        0 <= i <= s.len(),
    ensures
        lexar(s, i) matches Ok(sp) ==> spans_fieles(s, sp),
    decreases s.len() - i,
{
    if i < s.len() {
        if es_espacio(s[i]) {
            lemma_lexar_fiel(s, i + 1);
        } else if s[i] == '"' {
            lemma_cierre_de_comillas(s, i + 1);
            if let Some(j) = cierre_de_comillas(s, i + 1) {
                lemma_lexar_fiel(s, j + 1);
                if let Ok(rest) = lexar(s, j + 1) {
                    let v = s.subrange(i + 1, j);
                    let x = (byte_offset(s, i) as int, TokenV::Valor(v), byte_offset(s, j + 1) as int);
                    reveal_strlit("\"");
                    assert(s.subrange(i, j + 1) =~= "\""@ + v + "\""@);
                    assert(s.subrange(i, j + 1)[0] == '"');
                    assert(leido_de(s, i, j + 1, x));
                    lemma_fieles_cons(s, i, j + 1, x, rest);
                }
            }
        } else if es_especial(s[i]) {
            lemma_lexar_fiel(s, i + 1);
            if let Ok(rest) = lexar(s, i + 1) {
                let x = (byte_offset(s, i) as int, token_de_simbolo(s[i]), byte_offset(s, i + 1) as int);
                lemma_texto_de_simbolo(s[i]);
                assert(s.subrange(i, i + 1) =~= seq![s[i]]);
                assert(leido_de(s, i, i + 1, x));
                lemma_fieles_cons(s, i, i + 1, x, rest);
            }
        } else {
            lemma_fin_de_palabra(s, i);
            let j = fin_de_palabra(s, i);
            lemma_lexar_fiel(s, j);
            if let Ok(rest) = lexar(s, j) {
                let w = s.subrange(i, j);
                let x = (byte_offset(s, i) as int, clasificar(w), byte_offset(s, j) as int);
                assert(w[0] == s[i]);
                assert(leido_de(s, i, j, x));
                lemma_fieles_cons(s, i, j, x, rest);
            }
        }
    }
}

/// Every token of a query lies over the text it was read from: its span runs
/// from the byte offset of the first character of that text to the byte offset
/// just past its last, and the text is the token's own text (what `texto`
/// prints), or the value itself for a value written without quotes.
pub proof fn ley_spans_fieles(s: Seq<char>)
    ensures
        lexar(s, 0) matches Ok(sp) ==> spans_fieles(s, sp),
{
    lemma_lexar_fiel(s, 0);
}


// ---------------------------------------------------------------------------
// Lexing a text inside a longer one.
// ---------------------------------------------------------------------------

/// Lexing at a one-character operator or parenthesis gives its token, then goes on.
pub proof fn lemma_lexar_simbolo(s: Seq<char>, k: int)
    requires
        0 <= k < s.len(),
        es_especial(s[k]),
        s[k] != '"',
    ensures
        lexar(s, k + 1) is Ok ==> lexar(s, k) is Ok && solo_tokens(lexar(s, k)->Ok_0) == seq![
            token_de_simbolo(s[k]),
        ] + solo_tokens(lexar(s, k + 1)->Ok_0),
{
    if lexar(s, k + 1) is Ok {
        let x = (byte_offset(s, k) as int, token_de_simbolo(s[k]), byte_offset(s, k + 1) as int);
        lemma_solo_tokens_anteponer(x, lexar(s, k + 1));
    }
}

/// The part of `s` from `p` on starts with the text `a`.
pub open spec fn en_contexto(a: Seq<char>, s: Seq<char>, p: int) -> bool {
    &&& 0 <= p
    &&& p + a.len() <= s.len()
    &&& s.subrange(p, p + a.len()) == a
    &&& (p + a.len() == s.len() || !es_de_palabra(s[p + a.len()]))
}

/// One lexing step, the same inside `a` and inside `s`: token `r.1`, then index `r.0`.
pub open spec fn paso_igual(a: Seq<char>, s: Seq<char>, p: int, i: int, r: (int, TokenV)) -> bool {
    &&& i < r.0 <= a.len()
    &&& lexar(a, r.0) is Ok
    &&& lexar(a, i) is Ok
    &&& solo_tokens(lexar(a, i)->Ok_0) == seq![r.1] + solo_tokens(lexar(a, r.0)->Ok_0)
    &&& lexar(s, p + r.0) is Ok ==> lexar(s, p + i) is Ok && solo_tokens(lexar(s, p + i)->Ok_0)
        == seq![r.1] + solo_tokens(lexar(s, p + r.0)->Ok_0)
}

proof fn lemma_mismos_caracteres(a: Seq<char>, s: Seq<char>, p: int)
    requires
        en_contexto(a, s, p),
    ensures
        forall|m: int| 0 <= m < a.len() ==> s[p + m] == #[trigger] a[m],
{
    assert forall|m: int| 0 <= m < a.len() implies s[p + m] == #[trigger] a[m] by {
        assert(s.subrange(p, p + a.len())[m] == s[p + m]);
    }
}

proof fn lemma_paso_comillas(a: Seq<char>, s: Seq<char>, p: int, i: int) -> (r: (int, TokenV))
    requires
        en_contexto(a, s, p),
        0 <= i < a.len(),
        a[i] == '"',
        lexar(a, i) is Ok,
    ensures
        paso_igual(a, s, p, i, r),
{
    lemma_mismos_caracteres(a, s, p);
    lemma_cierre_de_comillas(a, i + 1);
    let j = cierre_de_comillas(a, i + 1)->0;
    assert(s[p + i] == a[i]);
    assert forall|m: int| p + i + 1 <= m < p + j implies s[m] != '"' by {
        assert(s[p + (m - p)] == a[m - p]);
    }
    assert(s[p + j] == a[j]);
    lemma_cierre_hasta(s, p + i + 1, p + j);
    assert(s.subrange(p + i + 1, p + j) =~= a.subrange(i + 1, j)) by {
        assert forall|m: int| 0 <= m < j - i - 1 implies #[trigger] s.subrange(p + i + 1, p + j)[m]
            == a.subrange(i + 1, j)[m] by {
            assert(s[p + (i + 1 + m)] == a[i + 1 + m]);
        }
    }
    let t = TokenV::Valor(a.subrange(i + 1, j));
    let xa = (byte_offset(a, i) as int, t, byte_offset(a, j + 1) as int);
    let xs = (byte_offset(s, p + i) as int, t, byte_offset(s, p + j + 1) as int);
    lemma_solo_tokens_anteponer(xa, lexar(a, j + 1));
    if lexar(s, p + j + 1) is Ok {
        lemma_solo_tokens_anteponer(xs, lexar(s, p + j + 1));
    }
    (j + 1, t)
}

proof fn lemma_paso_palabra(a: Seq<char>, s: Seq<char>, p: int, i: int) -> (r: (int, TokenV))
    requires
        en_contexto(a, s, p),
        0 <= i < a.len(),
        es_de_palabra(a[i]),
        lexar(a, i) is Ok,
    ensures
        paso_igual(a, s, p, i, r),
{
    let n = a.len();
    lemma_mismos_caracteres(a, s, p);
    lemma_fin_de_palabra(a, i);
    let j = fin_de_palabra(a, i);
    assert(s[p + i] == a[i]);
    assert forall|m: int| p + i <= m < p + j implies es_de_palabra(s[m]) by {
        assert(s[p + (m - p)] == a[m - p]);
    }
    if j < n {
        assert(s[p + j] == a[j]);
    }
    lemma_fin_hasta(s, p + i, p + j);
    assert(s.subrange(p + i, p + j) =~= a.subrange(i, j)) by {
        assert forall|m: int| 0 <= m < j - i implies #[trigger] s.subrange(p + i, p + j)[m] == a.subrange(
            i,
            j,
        )[m] by {
            assert(s[p + (i + m)] == a[i + m]);
        }
    }
    let t = clasificar(a.subrange(i, j));
    let xa = (byte_offset(a, i) as int, t, byte_offset(a, j) as int);
    let xs = (byte_offset(s, p + i) as int, t, byte_offset(s, p + j) as int);
    lemma_solo_tokens_anteponer(xa, lexar(a, j));
    if lexar(s, p + j) is Ok {
        lemma_solo_tokens_anteponer(xs, lexar(s, p + j));
    }
    (j, t)
}

proof fn lemma_paso_simbolo(a: Seq<char>, s: Seq<char>, p: int, i: int) -> (r: (int, TokenV))
    requires
        en_contexto(a, s, p),
        0 <= i < a.len(),
        es_especial(a[i]),
        a[i] != '"',
        lexar(a, i) is Ok,
    ensures
        paso_igual(a, s, p, i, r),
{
    lemma_mismos_caracteres(a, s, p);
    assert(s[p + i] == a[i]);
    lemma_lexar_simbolo(a, i);
    lemma_lexar_simbolo(s, p + i);
    (i + 1, token_de_simbolo(a[i]))
}

/// A text `a` that lexes on its own lexes to the same tokens inside a longer
/// text `s`, where it starts at `p` and is not followed by a word character.
pub proof fn lemma_lexar_en_contexto(a: Seq<char>, s: Seq<char>, p: int, i: int)
    requires
        en_contexto(a, s, p),
        0 <= i <= a.len(),
        lexar(a, i) is Ok,
    ensures
        lexar(s, p + a.len()) is Ok ==> lexar(s, p + i) is Ok && solo_tokens(lexar(s, p + i)->Ok_0)
            == solo_tokens(lexar(a, i)->Ok_0) + solo_tokens(lexar(s, p + a.len())->Ok_0),
    decreases a.len() - i,
{
    let n = a.len();
    if lexar(s, p + n) is Ok {
        if i == n {
            assert(solo_tokens(Seq::<(int, TokenV, int)>::empty()) =~= Seq::<TokenV>::empty());
            assert(Seq::<TokenV>::empty() + solo_tokens(lexar(s, p + n)->Ok_0) =~= solo_tokens(
                lexar(s, p + n)->Ok_0,
            ));
        } else {
            lemma_mismos_caracteres(a, s, p);
            let c = a[i];
            assert(s[p + i] == c);
            if es_espacio(c) {
                lemma_lexar_en_contexto(a, s, p, i + 1);
            } else {
                let r = if c == '"' {
                    lemma_paso_comillas(a, s, p, i)
                } else if es_especial(c) {
                    lemma_paso_simbolo(a, s, p, i)
                } else {
                    lemma_paso_palabra(a, s, p, i)
                };
                lemma_lexar_en_contexto(a, s, p, r.0);
                let ta = solo_tokens(lexar(a, r.0)->Ok_0);
                let tt = solo_tokens(lexar(s, p + n)->Ok_0);
                assert(seq![r.1] + (ta + tt) =~= (seq![r.1] + ta) + tt);
            }
        }
    }
}


// ---------------------------------------------------------------------------
// Nothing but blanks is skipped.
// ---------------------------------------------------------------------------

/// The span of token `x` holds the bytes of the character at index `m` of `s`.
pub open spec fn cubre(s: Seq<char>, x: (int, TokenV, int), m: int) -> bool {
    x.0 <= byte_offset(s, m) && byte_offset(s, m + 1) <= x.2
}

/// Some token of `sp` holds the character at index `m` of `s`.
pub open spec fn cubierto(s: Seq<char>, sp: Seq<(int, TokenV, int)>, m: int) -> bool {
    exists|k: int| 0 <= k < sp.len() && #[trigger] cubre(s, sp[k], m)
}

proof fn lemma_byte_offset_monotono(s: Seq<char>, i: int, j: int)
    requires
        0 <= i <= j <= s.len(),
    ensures
        byte_offset(s, i) <= byte_offset(s, j),
{
    if i < j {
        lemma_byte_offset_estricto(s, i, j);
    }
}

proof fn lemma_cubierto_cons(s: Seq<char>, x: (int, TokenV, int), rest: Seq<(int, TokenV, int)>, m: int)
    requires
        cubierto(s, rest, m) || cubre(s, x, m),
    ensures
        cubierto(s, seq![x] + rest, m),
{
    let r = seq![x] + rest;
    if cubre(s, x, m) {
        assert(r[0] == x);
        assert(cubre(s, r[0], m));
    } else {
        let k = choose|k: int| 0 <= k < rest.len() && #[trigger] cubre(s, rest[k], m);
        assert(r[k + 1] == rest[k]);
        assert(cubre(s, r[k + 1], m));
    }
}

proof fn lemma_lexar_sin_huecos(s: Seq<char>, i: int)
    requires
        0 <= i <= s.len(),
    ensures
        lexar(s, i) matches Ok(sp) ==> forall|m: int|
            i <= m < s.len() && !(s[m] == ' ' || s[m] == '\t' || s[m] == '\n' || s[m] == '\r')
                ==> #[trigger] cubierto(s, sp, m),
    decreases s.len() - i,
{
    if i < s.len() {
        if es_espacio(s[i]) {
            lemma_lexar_sin_huecos(s, i + 1);
        } else {
            // the token that starts at `i` ends before index `j`
            let j = if s[i] == '"' {
                lemma_cierre_de_comillas(s, i + 1);
                match cierre_de_comillas(s, i + 1) {
                    Some(q) => q + 1,
                    None => i + 1,
                }
            } else if es_especial(s[i]) {
                i + 1
            } else {
                lemma_fin_de_palabra(s, i);
                fin_de_palabra(s, i)
            };
            assert(i < j <= s.len());
            lemma_lexar_sin_huecos(s, j);
            if let Ok(sp) = lexar(s, i) {
                let rest = lexar(s, j)->Ok_0;
                let x = sp[0];
                assert(sp =~= seq![x] + rest);
                assert(x.0 == byte_offset(s, i));
                assert(x.2 == byte_offset(s, j));
                assert forall|m: int|
                    i <= m < s.len() && !(s[m] == ' ' || s[m] == '\t' || s[m] == '\n' || s[m]
                        == '\r') implies #[trigger] cubierto(s, sp, m) by {
                    if m < j {
                        lemma_byte_offset_monotono(s, i, m);
                        lemma_byte_offset_monotono(s, m + 1, j);
                        assert(cubre(s, x, m));
                    } else {
                        assert(cubierto(s, rest, m));
                    }
                    lemma_cubierto_cons(s, x, rest, m);
                }
            }
        }
    }
}

/// Lexing skips nothing but blanks: every character of the query other than a
/// space, a tab, a line feed or a carriage return lies within the byte span of
/// some token.
pub proof fn ley_sin_huecos(s: Seq<char>)
    ensures
        lexar(s, 0) matches Ok(sp) ==> forall|m: int|
            0 <= m < s.len() && !(s[m] == ' ' || s[m] == '\t' || s[m] == '\n' || s[m] == '\r')
                ==> #[trigger] cubierto(s, sp, m),
{
    lemma_lexar_sin_huecos(s, 0);
}

} // verus!
