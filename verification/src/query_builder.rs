//! Turns a search tree into the `WHERE` clause of a parameterised SQL query.
//!
//! Values never enter the SQL text: each one is bound to a numbered
//! placeholder `?n`, and the parameters are listed in the order of their numbers.

use vstd::prelude::*;
use crate::ast::{Campo, Expr, ExprV};
use crate::texto::{decimal, push_decimal};

verus! {

/// Result of turning an expression into SQL.
pub struct QuerySql {
    pub where_clause: String,
    pub params: Vec<String>,
}

/// A piece of the `WHERE` clause: fixed SQL text, or a placeholder.
pub enum Pieza {
    Texto(Seq<char>),
    Marca,
}

/// Text of the subquery that also finds the songs of groups with a matching member.
pub open spec fn texto_miembros() -> Seq<char> {
    " OR r.id_performer IN (SELECT ig.id_group FROM in_group ig JOIN performers miembro ON ig.id_person = miembro.id_performer WHERE miembro.name LIKE "@
}

/// Column compared with `LIKE` for the text fields.
pub open spec fn columna_like(c: Campo) -> Seq<char> {
    match c {
        Campo::Title => "r.title LIKE "@,
        Campo::Album => "a.name LIKE "@,
        _ => "r.genre LIKE "@,
    }
}

/// The pieces of the `WHERE` clause of `e`.
pub open spec fn piezas(e: ExprV) -> Seq<Pieza>
    decreases e,
{
    match e {
        ExprV::Condicion { campo, valor } => match campo {
            Campo::Year => seq![Pieza::Texto("CAST(r.year AS TEXT) = "@), Pieza::Marca],
            Campo::Track => seq![Pieza::Texto("CAST(r.track AS TEXT) = "@), Pieza::Marca],
            Campo::Performer => seq![
                Pieza::Texto("(p.name LIKE "@),
                Pieza::Marca,
                Pieza::Texto(texto_miembros()),
                Pieza::Marca,
                Pieza::Texto("))"@),
            ],
            _ => seq![Pieza::Texto(columna_like(campo)), Pieza::Marca],
        },
        ExprV::And(a, b) => seq![Pieza::Texto("("@)] + piezas(*a) + seq![Pieza::Texto(" AND "@)]
            + piezas(*b) + seq![Pieza::Texto(")"@)],
        ExprV::Or(a, b) => seq![Pieza::Texto("("@)] + piezas(*a) + seq![Pieza::Texto(" OR "@)]
            + piezas(*b) + seq![Pieza::Texto(")"@)],
        ExprV::Not(x) => seq![Pieza::Texto("NOT ("@)] + piezas(*x) + seq![Pieza::Texto(")"@)],
    }
}

/// Number of placeholders among the pieces.
pub open spec fn marcas(ps: Seq<Pieza>) -> nat
    decreases ps.len(),
{
    if ps.len() == 0 {
        0
    } else {
        (if ps[0] is Marca {
            1nat
        } else {
            0nat
        }) + marcas(ps.drop_first())
    }
}

/// SQL text of the pieces, the placeholders numbered from `base + 1` on.
pub open spec fn render(ps: Seq<Pieza>, base: nat) -> Seq<char>
    decreases ps.len(),
{
    if ps.len() == 0 {
        seq![]
    } else {
        match ps[0] {
            Pieza::Texto(t) => t + render(ps.drop_first(), base),
            Pieza::Marca => "?"@ + decimal(base + 1) + render(ps.drop_first(), base + 1),
        }
    }
}

/// The `WHERE` clause of `e`, when `base` parameters come before its own.
pub open spec fn where_sql(e: ExprV, base: nat) -> Seq<char> {
    render(piezas(e), base)
}

/// A value wrapped for a `LIKE` substring match.
pub open spec fn patron_like(v: Seq<char>) -> Seq<char> {
    "%"@ + v + "%"@
}

/// The parameters of `e`, in the order of their placeholders.
pub open spec fn params_sql(e: ExprV) -> Seq<Seq<char>>
    decreases e,
{
    match e {
        ExprV::Condicion { campo, valor } => match campo {
            Campo::Year | Campo::Track => seq![valor],
            Campo::Performer => seq![patron_like(valor), patron_like(valor)],
            _ => seq![patron_like(valor)],
        },
        ExprV::And(a, b) => params_sql(*a) + params_sql(*b),
        ExprV::Or(a, b) => params_sql(*a) + params_sql(*b),
        ExprV::Not(x) => params_sql(*x),
    }
}

pub open spec fn vista_params(v: Seq<String>) -> Seq<Seq<char>> {
    v.map_values(|s: String| s@)
}

pub proof fn lemma_marcas_concat(a: Seq<Pieza>, b: Seq<Pieza>)
    ensures
        marcas(a + b) == marcas(a) + marcas(b),
    decreases a.len(),
{
    if a.len() > 0 {
        assert((a + b).drop_first() =~= a.drop_first() + b);
        lemma_marcas_concat(a.drop_first(), b);
    } else {
        assert(a + b =~= b);
    }
}

pub proof fn lemma_render_concat(a: Seq<Pieza>, b: Seq<Pieza>, base: nat)
    ensures
        render(a + b, base) == render(a, base) + render(b, base + marcas(a)),
    decreases a.len(),
{
    if a.len() > 0 {
        assert((a + b).drop_first() =~= a.drop_first() + b);
        match a[0] {
            Pieza::Texto(t) => {
                lemma_render_concat(a.drop_first(), b, base);
                assert(t + (render(a.drop_first(), base) + render(b, base + marcas(a))) =~= (t
                    + render(a.drop_first(), base)) + render(b, base + marcas(a)));
            },
            Pieza::Marca => {
                lemma_render_concat(a.drop_first(), b, base + 1);
                let h = "?"@ + decimal(base + 1);
                assert(h + (render(a.drop_first(), base + 1) + render(b, base + marcas(a))) =~= (h
                    + render(a.drop_first(), base + 1)) + render(b, base + marcas(a)));
            },
        }
    } else {
        assert(a + b =~= b);
        assert(render(a, base) =~= Seq::<char>::empty());
    }
}

proof fn lemma_render_texto(t: Seq<char>, base: nat)
    ensures
        render(seq![Pieza::Texto(t)], base) == t,
        marcas(seq![Pieza::Texto(t)]) == 0,
{
    let ps = seq![Pieza::Texto(t)];
    assert(ps.drop_first() =~= Seq::<Pieza>::empty());
    assert(render(ps.drop_first(), base) == Seq::<char>::empty());
    assert(marcas(ps.drop_first()) == 0);
    assert(ps[0] == Pieza::Texto(t));
    assert(t + Seq::<char>::empty() =~= t);
}

proof fn lemma_render_marca(base: nat)
    ensures
        render(seq![Pieza::Marca], base) == "?"@ + decimal(base + 1),
        marcas(seq![Pieza::Marca]) == 1,
{
    let ps = seq![Pieza::Marca];
    assert(ps.drop_first() =~= Seq::<Pieza>::empty());
    assert(render(ps.drop_first(), base + 1) == Seq::<char>::empty());
    assert(marcas(ps.drop_first()) == 0);
    assert(ps[0] == Pieza::Marca);
    assert("?"@ + decimal(base + 1) + Seq::<char>::empty() =~= "?"@ + decimal(base + 1));
}

/// Every parameter has exactly one placeholder.
pub proof fn ley_marcas_params(e: ExprV)
    ensures
        marcas(piezas(e)) == params_sql(e).len(),
    decreases e,
{
    match e {
        ExprV::Condicion { campo, valor } => {
            reveal_with_fuel(marcas, 6);
        },
        ExprV::And(a, b) => {
            ley_marcas_params(*a);
            ley_marcas_params(*b);
            lemma_marcas_and_or(*a, *b, " AND "@);
        },
        ExprV::Or(a, b) => {
            ley_marcas_params(*a);
            ley_marcas_params(*b);
            lemma_marcas_and_or(*a, *b, " OR "@);
        },
        ExprV::Not(x) => {
            ley_marcas_params(*x);
            let ps = seq![Pieza::Texto("NOT ("@)] + piezas(*x) + seq![Pieza::Texto(")"@)];
            lemma_marcas_concat(seq![Pieza::Texto("NOT ("@)] + piezas(*x), seq![Pieza::Texto(")"@)]);
            lemma_marcas_concat(seq![Pieza::Texto("NOT ("@)], piezas(*x));
            lemma_render_texto("NOT ("@, 0);
            lemma_render_texto(")"@, 0);
        },
    }
}

proof fn lemma_marcas_and_or(a: ExprV, b: ExprV, op: Seq<char>)
    ensures
        marcas(
            seq![Pieza::Texto("("@)] + piezas(a) + seq![Pieza::Texto(op)] + piezas(b) + seq![
                Pieza::Texto(")"@),
            ],
        ) == marcas(piezas(a)) + marcas(piezas(b)),
{
    let p0 = seq![Pieza::Texto("("@)];
    let p1 = seq![Pieza::Texto(op)];
    let p2 = seq![Pieza::Texto(")"@)];
    lemma_render_texto("("@, 0);
    lemma_render_texto(op, 0);
    lemma_render_texto(")"@, 0);
    lemma_marcas_concat(p0 + piezas(a) + p1 + piezas(b), p2);
    lemma_marcas_concat(p0 + piezas(a) + p1, piezas(b));
    lemma_marcas_concat(p0 + piezas(a), p1);
    lemma_marcas_concat(p0, piezas(a));
}

/// Appends `?n` to `out`.
fn push_marca(out: &mut String, n: usize)
    requires
        n >= 1,
    ensures
        final(out)@ == old(out)@ + render(seq![Pieza::Marca], (n - 1) as nat),
{
    proof {
        lemma_render_marca((n - 1) as nat);
    }
    out.append("?");
    push_decimal(out, n as u64);
    assert(old(out)@ + "?"@ + decimal(n as nat) =~= old(out)@ + ("?"@ + decimal(n as nat)));
}

/// Appends fixed SQL text to `out`.
fn push_texto(out: &mut String, t: &str)
    ensures
        final(out)@ == old(out)@ + render(seq![Pieza::Texto(t@)], 0),
{
    proof {
        lemma_render_texto(t@, 0);
    }
    out.append(t);
}

proof fn lemma_vista_push(v: Seq<String>, s: String)
    ensures
        vista_params(v.push(s)) == vista_params(v).push(s@),
{
    assert(vista_params(v.push(s)) =~= vista_params(v).push(s@));
}

/// Writes the clause of a condition, pushing its parameters.
fn construir_condicion(campo: Campo, valor: &String, params: &mut Vec<String>) -> (r: String)
    ensures
        r@ == render(piezas(ExprV::Condicion { campo, valor: valor@ }), old(params)@.len()),
        vista_params(final(params)@) == vista_params(old(params)@) + params_sql(
            ExprV::Condicion { campo, valor: valor@ },
        ),
{
    let ghost e = ExprV::Condicion { campo, valor: valor@ };
    let ghost base = old(params)@.len();
    let mut out = String::new();
    match campo {
        Campo::Year | Campo::Track => {
            proof {
                lemma_vista_push(params@, *valor);
            }
            params.push(valor.clone());
            let idx = params.len();
            if matches!(campo, Campo::Year) {
                push_texto(&mut out, "CAST(r.year AS TEXT) = ");
            } else {
                push_texto(&mut out, "CAST(r.track AS TEXT) = ");
            }
            push_marca(&mut out, idx);
            proof {
                let t = if campo == Campo::Year {
                    "CAST(r.year AS TEXT) = "@
                } else {
                    "CAST(r.track AS TEXT) = "@
                };
                lemma_render_concat(seq![Pieza::Texto(t)], seq![Pieza::Marca], base);
                lemma_render_texto(t, 0);
                lemma_render_texto(t, base);
                assert(seq![Pieza::Texto(t)] + seq![Pieza::Marca] =~= piezas(e));
                assert(Seq::<char>::empty() + render(seq![Pieza::Texto(t)], 0) + render(
                    seq![Pieza::Marca],
                    base,
                ) =~= render(seq![Pieza::Texto(t)], base) + render(seq![Pieza::Marca], base));
                assert(seq![valor@] =~= params_sql(e));
            }
            out
        },
        Campo::Performer => {
            let mut patron = "%".to_owned();
            patron.append(valor.as_str());
            patron.append("%");
            let patron2 = patron.clone();
            proof {
                lemma_vista_push(params@, patron2);
            }
            params.push(patron2);
            let idx1 = params.len();
            proof {
                lemma_vista_push(params@, patron);
            }
            params.push(patron);
            let idx2 = params.len();
            push_texto(&mut out, "(p.name LIKE ");
            push_marca(&mut out, idx1);
            push_texto(
                &mut out,
                " OR r.id_performer IN (SELECT ig.id_group FROM in_group ig JOIN performers miembro ON ig.id_person = miembro.id_performer WHERE miembro.name LIKE ",
            );
            push_marca(&mut out, idx2);
            push_texto(&mut out, "))");
            proof {
                let p0 = seq![Pieza::Texto("(p.name LIKE "@)];
                let p1 = seq![Pieza::Marca];
                let p2 = seq![Pieza::Texto(texto_miembros())];
                let p3 = seq![Pieza::Marca];
                let p4 = seq![Pieza::Texto("))"@)];
                assert(p0 + p1 + p2 + p3 + p4 =~= piezas(e));
                lemma_render_texto("(p.name LIKE "@, 0);
                lemma_render_texto("(p.name LIKE "@, base);
                lemma_render_texto(texto_miembros(), 0);
                lemma_render_texto(texto_miembros(), base + 1);
                lemma_render_texto("))"@, 0);
                lemma_render_texto("))"@, base + 2);
                lemma_render_marca(base);
                lemma_render_marca(base + 1);
                lemma_render_concat(p0 + p1 + p2 + p3, p4, base);
                lemma_render_concat(p0 + p1 + p2, p3, base);
                lemma_render_concat(p0 + p1, p2, base);
                lemma_render_concat(p0, p1, base);
                lemma_marcas_concat(p0 + p1 + p2, p3);
                lemma_marcas_concat(p0 + p1, p2);
                lemma_marcas_concat(p0, p1);
                assert(out@ =~= render(piezas(e), base));
                assert(seq![patron_like(valor@), patron_like(valor@)] =~= params_sql(e));
                assert(vista_params(params@) =~= vista_params(old(params)@) + params_sql(e));
            }
            out
        },
        _ => {
            let mut patron = "%".to_owned();
            patron.append(valor.as_str());
            patron.append("%");
            proof {
                lemma_vista_push(params@, patron);
            }
            params.push(patron);
            let idx = params.len();
            if matches!(campo, Campo::Title) {
                push_texto(&mut out, "r.title LIKE ");
            } else if matches!(campo, Campo::Album) {
                push_texto(&mut out, "a.name LIKE ");
            } else {
                push_texto(&mut out, "r.genre LIKE ");
            }
            push_marca(&mut out, idx);
            proof {
                let t = columna_like(campo);
                lemma_render_concat(seq![Pieza::Texto(t)], seq![Pieza::Marca], base);
                lemma_render_texto(t, 0);
                lemma_render_texto(t, base);
                assert(seq![Pieza::Texto(t)] + seq![Pieza::Marca] =~= piezas(e));
                assert(Seq::<char>::empty() + render(seq![Pieza::Texto(t)], 0) + render(
                    seq![Pieza::Marca],
                    base,
                ) =~= render(seq![Pieza::Texto(t)], base) + render(seq![Pieza::Marca], base));
                assert(seq![patron_like(valor@)] =~= params_sql(e));
            }
            out
        },
    }
}

/// Writes the clause of `expr`, pushing its parameters after those already in `params`.
pub fn construir(expr: &Expr, params: &mut Vec<String>) -> (r: String)
    ensures
        r@ == where_sql(expr@, old(params)@.len()),
        vista_params(final(params)@) == vista_params(old(params)@) + params_sql(expr@),
    decreases expr,
{
    let ghost base = old(params)@.len();
    match expr {
        Expr::Condicion { campo, valor } => construir_condicion(*campo, valor, params),
        Expr::And(izq, der) => {
            let sql_izq = construir(izq, params);
            let ghost mid = params@.len();
            let sql_der = construir(der, params);
            let mut out = String::new();
            push_texto(&mut out, "(");
            out.append(sql_izq.as_str());
            push_texto(&mut out, " AND ");
            out.append(sql_der.as_str());
            push_texto(&mut out, ")");
            proof {
                assert(vista_params(old(params)@).len() == base);
                assert(mid == vista_params(old(params)@).len() + params_sql(izq@).len());
                lemma_combinar(izq@, der@, " AND "@, base, mid);
                lemma_render_texto("("@, 0);
                lemma_render_texto(" AND "@, 0);
                lemma_render_texto(")"@, 0);
                assert(vista_params(params@) =~= vista_params(old(params)@) + params_sql(expr@));
                assert(out@ =~= where_sql(expr@, base));
            }
            out
        },
        Expr::Or(izq, der) => {
            let sql_izq = construir(izq, params);
            let ghost mid = params@.len();
            let sql_der = construir(der, params);
            let mut out = String::new();
            push_texto(&mut out, "(");
            out.append(sql_izq.as_str());
            push_texto(&mut out, " OR ");
            out.append(sql_der.as_str());
            push_texto(&mut out, ")");
            proof {
                assert(vista_params(old(params)@).len() == base);
                assert(mid == vista_params(old(params)@).len() + params_sql(izq@).len());
                lemma_combinar(izq@, der@, " OR "@, base, mid);
                lemma_render_texto("("@, 0);
                lemma_render_texto(" OR "@, 0);
                lemma_render_texto(")"@, 0);
                assert(vista_params(params@) =~= vista_params(old(params)@) + params_sql(expr@));
                assert(out@ =~= where_sql(expr@, base));
            }
            out
        },
        Expr::Not(inner) => {
            let sql_inner = construir(inner, params);
            let mut out = String::new();
            push_texto(&mut out, "NOT (");
            out.append(sql_inner.as_str());
            push_texto(&mut out, ")");
            proof {
                let p0 = seq![Pieza::Texto("NOT ("@)];
                let p2 = seq![Pieza::Texto(")"@)];
                lemma_render_texto("NOT ("@, 0);
                lemma_render_texto("NOT ("@, base);
                lemma_render_texto(")"@, 0);
                ley_marcas_params(inner@);
                lemma_render_texto(")"@, base + marcas(piezas(inner@)));
                lemma_render_concat(p0 + piezas(inner@), p2, base);
                lemma_render_concat(p0, piezas(inner@), base);
                lemma_marcas_concat(p0, piezas(inner@));
                assert(p0 + piezas(inner@) + p2 =~= piezas(expr@));
                assert(out@ =~= where_sql(expr@, base));
            }
            out
        },
    }
}

proof fn lemma_combinar(a: ExprV, b: ExprV, op: Seq<char>, base: nat, mid: nat)
    requires
        mid == base + params_sql(a).len(),
    ensures
        render(
            seq![Pieza::Texto("("@)] + piezas(a) + seq![Pieza::Texto(op)] + piezas(b) + seq![
                Pieza::Texto(")"@),
            ],
            base,
        ) == "("@ + where_sql(a, base) + op + where_sql(b, mid) + ")"@,
{
    let p0 = seq![Pieza::Texto("("@)];
    let p1 = seq![Pieza::Texto(op)];
    let p2 = seq![Pieza::Texto(")"@)];
    ley_marcas_params(a);
    ley_marcas_params(b);
    lemma_render_texto("("@, base);
    lemma_render_texto(op, mid);
    lemma_render_texto(")"@, mid + marcas(piezas(b)));
    lemma_render_texto("("@, 0);
    lemma_render_texto(op, 0);
    lemma_render_texto(")"@, 0);
    lemma_render_concat(p0 + piezas(a) + p1 + piezas(b), p2, base);
    lemma_render_concat(p0 + piezas(a) + p1, piezas(b), base);
    lemma_render_concat(p0 + piezas(a), p1, base);
    lemma_render_concat(p0, piezas(a), base);
    lemma_marcas_concat(p0 + piezas(a) + p1, piezas(b));
    lemma_marcas_concat(p0 + piezas(a), p1);
    lemma_marcas_concat(p0, piezas(a));
}

/// Turns an expression tree into a `WHERE` clause with its parameters.
pub fn expr_a_sql(expr: &Expr) -> (q: QuerySql)
    ensures
        q.where_clause@ == where_sql(expr@, 0),
        vista_params(q.params@) == params_sql(expr@),
{
    let mut params: Vec<String> = Vec::new();
    let where_clause = construir(expr, &mut params);
    assert(vista_params(Seq::<String>::empty()) + params_sql(expr@) =~= params_sql(expr@));
    QuerySql { where_clause, params }
}


// ---------------------------------------------------------------------------
// What the clause keeps out of its text.
// ---------------------------------------------------------------------------

/// The tree with every value replaced by the empty value: its shape and fields.
pub open spec fn forma(e: ExprV) -> ExprV
    decreases e,
{
    match e {
        ExprV::Condicion { campo, valor } => ExprV::Condicion { campo, valor: seq![] },
        ExprV::And(a, b) => ExprV::And(Box::new(forma(*a)), Box::new(forma(*b))),
        ExprV::Or(a, b) => ExprV::Or(Box::new(forma(*a)), Box::new(forma(*b))),
        ExprV::Not(x) => ExprV::Not(Box::new(forma(*x))),
    }
}

proof fn lemma_piezas_forma(e: ExprV)
    ensures
        piezas(e) == piezas(forma(e)),
    decreases e,
{
    match e {
        ExprV::Condicion { .. } => {},
        ExprV::And(a, b) => {
            lemma_piezas_forma(*a);
            lemma_piezas_forma(*b);
        },
        ExprV::Or(a, b) => {
            lemma_piezas_forma(*a);
            lemma_piezas_forma(*b);
        },
        ExprV::Not(x) => {
            lemma_piezas_forma(*x);
        },
    }
}

/// The values of a search never reach the SQL text: two trees of the same
/// shape and fields give the same `WHERE` clause, whatever their values.
pub proof fn ley_valores_fuera_del_sql(e1: ExprV, e2: ExprV, base: nat)
    requires
        forma(e1) == forma(e2),
    ensures
        where_sql(e1, base) == where_sql(e2, base),
{
    lemma_piezas_forma(e1);
    lemma_piezas_forma(e2);
}

/// Number of occurrences of `c` in `s`.
pub open spec fn contar(s: Seq<char>, c: char) -> nat
    decreases s.len(),
{
    if s.len() == 0 {
        0
    } else {
        contar(s.drop_last(), c) + if s.last() == c {
            1nat
        } else {
            0nat
        }
    }
}

pub open spec fn sin_caracter(s: Seq<char>, c: char) -> bool {
    forall|i: int| 0 <= i < s.len() ==> s[i] != c
}

proof fn lemma_contar_concat(a: Seq<char>, b: Seq<char>, c: char)
    ensures
        contar(a + b, c) == contar(a, c) + contar(b, c),
    decreases b.len(),
{
    if b.len() == 0 {
        assert(a + b =~= a);
    } else {
        assert((a + b).drop_last() =~= a + b.drop_last());
        lemma_contar_concat(a, b.drop_last(), c);
    }
}

proof fn lemma_contar_sin(s: Seq<char>, c: char)
    requires
        sin_caracter(s, c),
    ensures
        contar(s, c) == 0,
    decreases s.len(),
{
    if s.len() > 0 {
        lemma_contar_sin(s.drop_last(), c);
    }
}

proof fn lemma_decimal_sin_interrogacion(n: nat)
    ensures
        sin_caracter(decimal(n), '?'),
    decreases n,
{
    if n >= 10 {
        lemma_decimal_sin_interrogacion(n / 10);
    }
}

/// No fixed text of the pieces holds a `?`.
pub open spec fn textos_sin_interrogacion(ps: Seq<Pieza>) -> bool {
    forall|i: int| 0 <= i < ps.len() ==> (#[trigger] ps[i] matches Pieza::Texto(t) ==> sin_caracter(t, '?'))
}

proof fn lemma_textos_concat(a: Seq<Pieza>, b: Seq<Pieza>)
    requires
        textos_sin_interrogacion(a),
        textos_sin_interrogacion(b),
    ensures
        textos_sin_interrogacion(a + b),
{
    assert forall|i: int| 0 <= i < (a + b).len() implies (#[trigger] (a + b)[i] matches Pieza::Texto(t)
        ==> sin_caracter(t, '?')) by {
        if i < a.len() {
            assert((a + b)[i] == a[i]);
        } else {
            assert((a + b)[i] == b[i - a.len()]);
        }
    }
}

proof fn lemma_texto_sin(t: Seq<char>)
    requires
        sin_caracter(t, '?'),
    ensures
        textos_sin_interrogacion(seq![Pieza::Texto(t)]),
{
}

proof fn lemma_piezas_sin_interrogacion(e: ExprV)
    ensures
        textos_sin_interrogacion(piezas(e)),
    decreases e,
{
    reveal_strlit("(");
    reveal_strlit(")");
    reveal_strlit(" AND ");
    reveal_strlit(" OR ");
    reveal_strlit("NOT (");
    lemma_texto_sin("("@);
    lemma_texto_sin(")"@);
    match e {
        ExprV::Condicion { campo, valor } => {
            reveal_strlit("CAST(r.year AS TEXT) = ");
            reveal_strlit("CAST(r.track AS TEXT) = ");
            reveal_strlit("(p.name LIKE ");
            reveal_strlit(
                " OR r.id_performer IN (SELECT ig.id_group FROM in_group ig JOIN performers miembro ON ig.id_person = miembro.id_performer WHERE miembro.name LIKE ",
            );
            reveal_strlit("))");
            reveal_strlit("r.title LIKE ");
            reveal_strlit("a.name LIKE ");
            reveal_strlit("r.genre LIKE ");
            assert(sin_caracter("CAST(r.year AS TEXT) = "@, '?'));
            assert(sin_caracter("CAST(r.track AS TEXT) = "@, '?'));
            assert(sin_caracter("(p.name LIKE "@, '?'));
            assert(sin_caracter(texto_miembros(), '?'));
            assert(sin_caracter("))"@, '?'));
            assert(sin_caracter("r.title LIKE "@, '?'));
            assert(sin_caracter("a.name LIKE "@, '?'));
            assert(sin_caracter("r.genre LIKE "@, '?'));
        },
        ExprV::And(a, b) => {
            lemma_piezas_sin_interrogacion(*a);
            lemma_piezas_sin_interrogacion(*b);
            assert(sin_caracter(" AND "@, '?'));
            lemma_texto_sin(" AND "@);
            let p0 = seq![Pieza::Texto("("@)];
            let p1 = seq![Pieza::Texto(" AND "@)];
            let p2 = seq![Pieza::Texto(")"@)];
            lemma_textos_concat(p0, piezas(*a));
            lemma_textos_concat(p0 + piezas(*a), p1);
            lemma_textos_concat(p0 + piezas(*a) + p1, piezas(*b));
            lemma_textos_concat(p0 + piezas(*a) + p1 + piezas(*b), p2);
        },
        ExprV::Or(a, b) => {
            lemma_piezas_sin_interrogacion(*a);
            lemma_piezas_sin_interrogacion(*b);
            assert(sin_caracter(" OR "@, '?'));
            lemma_texto_sin(" OR "@);
            let p0 = seq![Pieza::Texto("("@)];
            let p1 = seq![Pieza::Texto(" OR "@)];
            let p2 = seq![Pieza::Texto(")"@)];
            lemma_textos_concat(p0, piezas(*a));
            lemma_textos_concat(p0 + piezas(*a), p1);
            lemma_textos_concat(p0 + piezas(*a) + p1, piezas(*b));
            lemma_textos_concat(p0 + piezas(*a) + p1 + piezas(*b), p2);
        },
        ExprV::Not(x) => {
            lemma_piezas_sin_interrogacion(*x);
            assert(sin_caracter("NOT ("@, '?'));
            lemma_texto_sin("NOT ("@);
            let p0 = seq![Pieza::Texto("NOT ("@)];
            let p2 = seq![Pieza::Texto(")"@)];
            lemma_textos_concat(p0, piezas(*x));
            lemma_textos_concat(p0 + piezas(*x), p2);
        },
    }
}

proof fn lemma_contar_render(ps: Seq<Pieza>, base: nat)
    requires
        textos_sin_interrogacion(ps),
    ensures
        contar(render(ps, base), '?') == marcas(ps),
    decreases ps.len(),
{
    if ps.len() > 0 {
        let rest = ps.drop_first();
        assert(textos_sin_interrogacion(rest)) by {
            assert forall|i: int| 0 <= i < rest.len() implies (#[trigger] rest[i] matches Pieza::Texto(
                t,
            ) ==> sin_caracter(t, '?')) by {
                assert(rest[i] == ps[i + 1]);
            }
        }
        match ps[0] {
            Pieza::Texto(t) => {
                assert(ps[0] matches Pieza::Texto(t) ==> sin_caracter(t, '?'));
                lemma_contar_render(rest, base);
                lemma_contar_concat(t, render(rest, base), '?');
                lemma_contar_sin(t, '?');
            },
            Pieza::Marca => {
                lemma_contar_render(rest, base + 1);
                reveal_strlit("?");
                lemma_decimal_sin_interrogacion(base + 1);
                lemma_contar_sin(decimal(base + 1), '?');
                assert("?"@.len() == 1);
                assert("?"@.last() == '?');
                assert("?"@.drop_last() =~= Seq::<char>::empty());
                assert(contar("?"@.drop_last(), '?') == 0);
                assert(contar("?"@, '?') == 1);
                lemma_contar_concat("?"@, decimal(base + 1), '?');
                lemma_contar_concat("?"@ + decimal(base + 1), render(rest, base + 1), '?');
            },
        }
    }
}

/// Every `?` in the `WHERE` clause is a placeholder, and there is one for each parameter.
pub proof fn ley_una_marca_por_parametro(e: ExprV, base: nat)
    ensures
        contar(where_sql(e, base), '?') == params_sql(e).len(),
{
    lemma_piezas_sin_interrogacion(e);
    lemma_contar_render(piezas(e), base);
    ley_marcas_params(e);
}


/// The clause of a compound search is built from the clauses of its parts: an
/// `and` or `or` puts both between parentheses, the right one numbering its
/// placeholders after those of the left; a `not` wraps its part in `NOT (...)`.
/// The parameters follow the same order.
pub proof fn ley_composicion_sql(l: ExprV, r: ExprV, base: nat)
    ensures
        where_sql(ExprV::And(Box::new(l), Box::new(r)), base) == "("@ + where_sql(l, base) + " AND "@
            + where_sql(r, base + params_sql(l).len()) + ")"@,
        where_sql(ExprV::Or(Box::new(l), Box::new(r)), base) == "("@ + where_sql(l, base) + " OR "@
            + where_sql(r, base + params_sql(l).len()) + ")"@,
        where_sql(ExprV::Not(Box::new(l)), base) == "NOT ("@ + where_sql(l, base) + ")"@,
        params_sql(ExprV::And(Box::new(l), Box::new(r))) == params_sql(l) + params_sql(r),
        params_sql(ExprV::Or(Box::new(l), Box::new(r))) == params_sql(l) + params_sql(r),
        params_sql(ExprV::Not(Box::new(l))) == params_sql(l),
{
    lemma_combinar(l, r, " AND "@, base, base + params_sql(l).len());
    lemma_combinar(l, r, " OR "@, base, base + params_sql(l).len());
    let p0 = seq![Pieza::Texto("NOT ("@)];
    let p2 = seq![Pieza::Texto(")"@)];
    lemma_render_texto("NOT ("@, base);
    ley_marcas_params(l);
    lemma_render_texto(")"@, base + marcas(piezas(l)));
    lemma_render_concat(p0 + piezas(l), p2, base);
    lemma_render_concat(p0, piezas(l), base);
    lemma_marcas_concat(p0, piezas(l));
    assert(p0 + piezas(l) + p2 =~= piezas(ExprV::Not(Box::new(l))));
}

/// The SQL of one condition, when `base` parameters come before it: the
/// text fields (title, album, genre) match their column with `LIKE` against
/// the value wrapped in `%` on both sides, so any text that contains the value
/// matches; year and track compare their column, as text, with the bare
/// value; a performer matches by name or by the name of a member of a group,
/// binding the wrapped value twice.
pub proof fn ley_condicion_sql(c: Campo, v: Seq<char>, base: nat)
    ensures
        ({
            let e = ExprV::Condicion { campo: c, valor: v };
            let envuelto = seq!['%'] + v + seq!['%'];
            let m1 = "?"@ + decimal(base + 1);
            let m2 = "?"@ + decimal(base + 2);
            &&& c is Title ==> params_sql(e) == seq![envuelto] && where_sql(e, base)
                == "r.title LIKE "@ + m1
            &&& c is Album ==> params_sql(e) == seq![envuelto] && where_sql(e, base)
                == "a.name LIKE "@ + m1
            &&& c is Genre ==> params_sql(e) == seq![envuelto] && where_sql(e, base)
                == "r.genre LIKE "@ + m1
            &&& c is Year ==> params_sql(e) == seq![v] && where_sql(e, base)
                == "CAST(r.year AS TEXT) = "@ + m1
            &&& c is Track ==> params_sql(e) == seq![v] && where_sql(e, base)
                == "CAST(r.track AS TEXT) = "@ + m1
            &&& c is Performer ==> params_sql(e) == seq![envuelto, envuelto] && where_sql(e, base)
                == "(p.name LIKE "@ + m1 + texto_miembros() + m2 + "))"@
        }),
{
    reveal_strlit("%");
    assert("%"@ + v + "%"@ =~= seq!['%'] + v + seq!['%']);
    let e = ExprV::Condicion { campo: c, valor: v };
    let ps = piezas(e);
    lemma_render_marca(base);
    match c {
        Campo::Performer => {
            let t1 = seq![Pieza::Texto("(p.name LIKE "@)];
            let t2 = seq![Pieza::Texto(texto_miembros())];
            let t3 = seq![Pieza::Texto("))"@)];
            let mk = seq![Pieza::Marca];
            assert(ps =~= t1 + mk + t2 + mk + t3);
            lemma_render_texto("(p.name LIKE "@, base);
            lemma_render_texto(texto_miembros(), base + 1);
            lemma_render_texto("))"@, base + 2);
            lemma_render_marca(base + 1);
            lemma_render_concat(t1 + mk + t2 + mk, t3, base);
            lemma_render_concat(t1 + mk + t2, mk, base);
            lemma_render_concat(t1 + mk, t2, base);
            lemma_render_concat(t1, mk, base);
            lemma_marcas_concat(t1 + mk + t2, mk);
            lemma_marcas_concat(t1 + mk, t2);
            lemma_marcas_concat(t1, mk);
        },
        _ => {
            let t = match c {
                Campo::Year => "CAST(r.year AS TEXT) = "@,
                Campo::Track => "CAST(r.track AS TEXT) = "@,
                _ => columna_like(c),
            };
            let t1 = seq![Pieza::Texto(t)];
            let mk = seq![Pieza::Marca];
            assert(ps =~= t1 + mk);
            lemma_render_texto(t, base);
            lemma_render_concat(t1, mk, base);
        },
    }
}

} // verus!
