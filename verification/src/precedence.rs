//! Laws of operator precedence: `%` binds as tightly as `*` and `/`, more tightly than
//! `+` and `-`, and operators of one level group to the left.
use vstd::prelude::*;
use crate::ast::{BinaryOp, SExpr, SLiteral};
use crate::lexer::{SToken, TokenKind};
use crate::parser::{
    binary_rest, call_rest, kind_at, op_at, parse_assignment, parse_binary, parse_call, parse_expression, parse_primary,
    parse_unary,
};

verus! {

/// The literal of the number token at `p`.
pub open spec fn number_at(ts: Seq<SToken>, p: int) -> SExpr {
    SExpr::Literal(SLiteral::Number(ts[p].text))
}

/// The node `l op r`.
pub open spec fn node(l: SExpr, op: BinaryOp, r: SExpr) -> SExpr {
    SExpr::Binary { left: Box::new(l), operator: op, right: Box::new(r) }
}

/// A number token not followed by `(` is a whole unary expression.
proof fn lemma_unary_number(ts: Seq<SToken>, p: int)
    requires
        kind_at(ts, p) == TokenKind::Number,
        kind_at(ts, p + 1) != TokenKind::LParen,
    ensures
        parse_unary(ts, p) == Ok::<(SExpr, int), (Seq<char>, int)>((number_at(ts, p), p + 1)),
{
    assert(parse_primary(ts, p) == Ok::<(SExpr, int), (Seq<char>, int)>((number_at(ts, p), p + 1)));
    assert(call_rest(ts, p + 1, number_at(ts, p)) == Ok::<(SExpr, int), (Seq<char>, int)>((number_at(ts, p), p + 1)));
    assert(parse_call(ts, p) == Ok::<(SExpr, int), (Seq<char>, int)>((number_at(ts, p), p + 1)));
}

/// What a level parses is what the levels above it parse, when the next token is an
/// operator of none of them.
proof fn lemma_lift(ts: Seq<SToken>, p: int, lo: nat, lvl: nat, e: SExpr, q: int)
    requires
        parse_binary(ts, p, lo) == Ok::<(SExpr, int), (Seq<char>, int)>((e, q)),
        p <= q <= ts.len(),
        lo <= lvl,
        forall|l: nat| lo < l <= lvl ==> (#[trigger] op_at(l, kind_at(ts, q))) is None,
    ensures
        parse_binary(ts, p, lvl) == Ok::<(SExpr, int), (Seq<char>, int)>((e, q)),
    decreases lvl,
{
    if lvl > lo {
        lemma_lift(ts, p, lo, (lvl - 1) as nat, e, q);
        assert(op_at(lvl, kind_at(ts, q)) is None);
        assert(binary_rest(ts, q, e, lvl) == Ok::<(SExpr, int), (Seq<char>, int)>((e, q)));
    }
}

/// An expression that the top level parses, not followed by `=`, is the whole expression.
proof fn lemma_expression(ts: Seq<SToken>, p: int, e: SExpr, q: int)
    requires
        parse_binary(ts, p, 5) == Ok::<(SExpr, int), (Seq<char>, int)>((e, q)),
        kind_at(ts, q) != TokenKind::Assign,
    ensures
        parse_expression(ts, p) == Ok::<(SExpr, int), (Seq<char>, int)>((e, q)),
{
    assert(parse_assignment(ts, p) == Ok::<(SExpr, int), (Seq<char>, int)>((e, q)));
}

/// `%` binds more tightly than `+` and `-`: for any numbers `x`, `y`, `z`, the tokens
/// `x + y % z ;` (or with `-`) give the expression `x + (y % z)`, up to the `;`.
pub proof fn lemma_mod_binds_tighter_than_add(ts: Seq<SToken>, p: int)
    requires
        0 <= p,
        kind_at(ts, p) == TokenKind::Number,
        kind_at(ts, p + 1) == TokenKind::Plus || kind_at(ts, p + 1) == TokenKind::Minus,
        kind_at(ts, p + 2) == TokenKind::Number,
        kind_at(ts, p + 3) == TokenKind::Percent,
        kind_at(ts, p + 4) == TokenKind::Number,
        kind_at(ts, p + 5) == TokenKind::Semicolon,
    ensures
        parse_expression(ts, p) == Ok::<(SExpr, int), (Seq<char>, int)>((
            node(
                number_at(ts, p),
                if kind_at(ts, p + 1) == TokenKind::Plus { BinaryOp::Add } else { BinaryOp::Sub },
                node(number_at(ts, p + 2), BinaryOp::Mod, number_at(ts, p + 4)),
            ),
            p + 5,
        )),
{
    let x = number_at(ts, p);
    let y = number_at(ts, p + 2);
    let z = number_at(ts, p + 4);
    let op = if kind_at(ts, p + 1) == TokenKind::Plus { BinaryOp::Add } else { BinaryOp::Sub };
    let yz = node(y, BinaryOp::Mod, z);
    let all = node(x, op, yz);
    lemma_unary_number(ts, p);
    lemma_unary_number(ts, p + 2);
    lemma_unary_number(ts, p + 4);
    assert(binary_rest(ts, p + 1, x, 0) == Ok::<(SExpr, int), (Seq<char>, int)>((x, p + 1)));
    assert(parse_binary(ts, p, 0) == Ok::<(SExpr, int), (Seq<char>, int)>((x, p + 1)));
    assert(binary_rest(ts, p + 5, yz, 0) == Ok::<(SExpr, int), (Seq<char>, int)>((yz, p + 5)));
    assert(binary_rest(ts, p + 3, y, 0) == Ok::<(SExpr, int), (Seq<char>, int)>((yz, p + 5)));
    assert(parse_binary(ts, p + 2, 0) == Ok::<(SExpr, int), (Seq<char>, int)>((yz, p + 5)));
    assert(binary_rest(ts, p + 5, all, 1) == Ok::<(SExpr, int), (Seq<char>, int)>((all, p + 5)));
    assert(binary_rest(ts, p + 1, x, 1) == Ok::<(SExpr, int), (Seq<char>, int)>((all, p + 5)));
    assert(parse_binary(ts, p, 1) == Ok::<(SExpr, int), (Seq<char>, int)>((all, p + 5)));
    lemma_lift(ts, p, 1, 5, all, p + 5);
    lemma_expression(ts, p, all, p + 5);
}

/// `%` has the level of `*` and `/`, and one level groups to the left: for any numbers
/// `x`, `y`, `z`, the tokens `x % y * z ;` (or with `/`) give `(x % y) * z`.
pub proof fn lemma_mod_level_of_mul(ts: Seq<SToken>, p: int)
    requires
        0 <= p,
        kind_at(ts, p) == TokenKind::Number,
        kind_at(ts, p + 1) == TokenKind::Percent,
        kind_at(ts, p + 2) == TokenKind::Number,
        kind_at(ts, p + 3) == TokenKind::Star || kind_at(ts, p + 3) == TokenKind::Slash,
        kind_at(ts, p + 4) == TokenKind::Number,
        kind_at(ts, p + 5) == TokenKind::Semicolon,
    ensures
        parse_expression(ts, p) == Ok::<(SExpr, int), (Seq<char>, int)>((
            node(
                node(number_at(ts, p), BinaryOp::Mod, number_at(ts, p + 2)),
                if kind_at(ts, p + 3) == TokenKind::Star { BinaryOp::Mul } else { BinaryOp::Div },
                number_at(ts, p + 4),
            ),
            p + 5,
        )),
{
    let x = number_at(ts, p);
    let y = number_at(ts, p + 2);
    let z = number_at(ts, p + 4);
    let op = if kind_at(ts, p + 3) == TokenKind::Star { BinaryOp::Mul } else { BinaryOp::Div };
    let xy = node(x, BinaryOp::Mod, y);
    let all = node(xy, op, z);
    lemma_unary_number(ts, p);
    lemma_unary_number(ts, p + 2);
    lemma_unary_number(ts, p + 4);
    assert(binary_rest(ts, p + 5, all, 0) == Ok::<(SExpr, int), (Seq<char>, int)>((all, p + 5)));
    assert(binary_rest(ts, p + 3, xy, 0) == Ok::<(SExpr, int), (Seq<char>, int)>((all, p + 5)));
    assert(binary_rest(ts, p + 1, x, 0) == Ok::<(SExpr, int), (Seq<char>, int)>((all, p + 5)));
    assert(parse_binary(ts, p, 0) == Ok::<(SExpr, int), (Seq<char>, int)>((all, p + 5)));
    lemma_lift(ts, p, 0, 5, all, p + 5);
    lemma_expression(ts, p, all, p + 5);
}

} // verus!
