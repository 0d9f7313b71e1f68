//! The Hul parser: recursive descent over the token sequence, with one function per
//! precedence level, and error recovery at statement boundaries.
//!
//! The grammar is specified by the spec functions below, on the tokens' views; each
//! parsing method is proved to compute its spec function, errors and positions included.
use vstd::prelude::*;
use crate::ast::{
    exprs_view, stmts_view, BinaryOp, Expr, Literal, LogicalOp, SExpr, SLiteral, SStmt, Stmt,
    UnaryOp,
};
use crate::lexer::{tokenize, Lexer, SToken, Token, TokenKind, TokenType};
use crate::text::{append_decimal, decimal, located};

verus! {

/// The outcome of parsing from a position: the result and the position after it, or an
/// error message and the position at which it was met.
pub type PRes<T> = Result<(T, int), (Seq<char>, int)>;

/// The kind of the token at `p`; `Eof` past the end.
pub open spec fn kind_at(ts: Seq<SToken>, p: int) -> TokenKind {
    if 0 <= p < ts.len() {
        ts[p].kind
    } else {
        TokenKind::Eof
    }
}

/// `p <= q <= ts.len()`: `q` is a position at or after `p`.
///
/// The grammar below recurses at a later position only under this guard, which makes
/// its recursion well founded. Parsing never moves backwards (the parsing methods
/// prove that they only move forward), so the guard holds wherever it is met, and the
/// branch taken when it fails is never reached.
pub open spec fn fwd(ts: Seq<SToken>, p: int, q: int) -> bool {
    p <= q <= ts.len()
}

/// The name of a token kind, as `{:?}` writes it.
pub open spec fn kind_name(k: TokenKind) -> Seq<char> {
    match k {
        TokenKind::Number => "Number"@,
        TokenKind::String => "String"@,
        TokenKind::True => "True"@,
        TokenKind::False => "False"@,
        TokenKind::Nil => "Nil"@,
        TokenKind::Identifier => "Identifier"@,
        TokenKind::Let => "Let"@,
        TokenKind::If => "If"@,
        TokenKind::Else => "Else"@,
        TokenKind::While => "While"@,
        TokenKind::For => "For"@,
        TokenKind::Break => "Break"@,
        TokenKind::Continue => "Continue"@,
        TokenKind::Print => "Print"@,
        TokenKind::Fn => "Fn"@,
        TokenKind::Return => "Return"@,
        TokenKind::And => "And"@,
        TokenKind::Or => "Or"@,
        TokenKind::Not => "Not"@,
        TokenKind::Plus => "Plus"@,
        TokenKind::Minus => "Minus"@,
        TokenKind::Star => "Star"@,
        TokenKind::Slash => "Slash"@,
        TokenKind::Percent => "Percent"@,
        TokenKind::EqualEqual => "EqualEqual"@,
        TokenKind::BangEqual => "BangEqual"@,
        TokenKind::Less => "Less"@,
        TokenKind::LessEqual => "LessEqual"@,
        TokenKind::Greater => "Greater"@,
        TokenKind::GreaterEqual => "GreaterEqual"@,
        TokenKind::Assign => "Assign"@,
        TokenKind::Semicolon => "Semicolon"@,
        TokenKind::Comma => "Comma"@,
        TokenKind::LParen => "LParen"@,
        TokenKind::RParen => "RParen"@,
        TokenKind::LBrace => "LBrace"@,
        TokenKind::RBrace => "RBrace"@,
        TokenKind::Eof => "Eof"@,
    }
}

/// A control character: U+0000 to U+001F, or U+007F to U+009F.
pub open spec fn control_char(c: char) -> bool {
    (c as u32) < 0x20 || (0x7f <= (c as u32) && (c as u32) <= 0x9f)
}

/// A character inside a quoted text in a message, as `{:?}` writes it: quotes,
/// backslashes, NUL and the newline, carriage-return and tab characters get their
/// escapes, and other control characters are written `\u{..}` in hexadecimal.
pub open spec fn escape_char(c: char) -> Seq<char> {
    if c == '"' {
        seq!['\\', '"']
    } else if c == '\\' {
        seq!['\\', '\\']
    } else if c == '\n' {
        seq!['\\', 'n']
    } else if c == '\r' {
        seq!['\\', 'r']
    } else if c == '\t' {
        seq!['\\', 't']
    } else if c == '\0' {
        seq!['\\', '0']
    } else if control_char(c) {
        seq!['\\', 'u', '{'] + crate::text::hex((c as u32) as nat) + seq!['}']
    } else {
        seq![c]
    }
}

/// A text with `escape_char` applied to each character.
pub open spec fn escape_text(s: Seq<char>) -> Seq<char>
    decreases s.len(),
{
    if s.len() == 0 {
        Seq::empty()
    } else {
        escape_text(s.drop_last()) + escape_char(s.last())
    }
}

/// The index of the first `.` at or after `i`, or the length.
pub open spec fn dot_from(t: Seq<char>, i: int) -> int
    decreases t.len() - i,
{
    if i < 0 || i >= t.len() || t[i] == '.' {
        if i < 0 { 0 } else if i > t.len() { t.len() as int } else { i }
    } else {
        dot_from(t, i + 1)
    }
}

/// Skipping leading zeros from `a` in `t[..d]`, keeping the last digit before `d`.
pub open spec fn lead_from(t: Seq<char>, a: int, d: int) -> int
    decreases d - a,
{
    if a + 1 < d && t[a] == '0' {
        lead_from(t, a + 1, d)
    } else {
        a
    }
}

/// Dropping trailing zeros of `t[lo..e]`: the end that is left.
pub open spec fn trail_from(t: Seq<char>, lo: int, e: int) -> int
    decreases e - lo,
{
    if e > lo && t[e - 1] == '0' {
        trail_from(t, lo, e - 1)
    } else {
        e
    }
}

/// A digit string in the exponent form that `{:?}` uses for doubles: the first digit,
/// the other digits after a dot if there are any, `e` and the exponent `ex`.
pub open spec fn exponent_form(ds: Seq<char>, ex: Seq<char>) -> Seq<char> {
    mantissa(ds) + "e"@ + ex
}

/// A numeral as `{:?}` writes the double it denotes. With the integer part stripped of
/// leading zeros and the fraction of trailing zeros: a value of 1e16 or more, or a
/// nonzero value below 1e-4, in exponent form; any other as the integer part, a dot and
/// the fraction (`0` if nothing is left). This is exactly what `{:?}` writes for numerals
/// of at most 15 significant digits whose value is zero or lies between 1e-307 and
/// 1e308; beyond that `{:?}` rounds the value to a double first.
pub open spec fn numeral_debug(t: Seq<char>) -> Seq<char> {
    let d = dot_from(t, 0);
    let a = lead_from(t, 0, d);
    let e = if d < t.len() { trail_from(t, d + 1, t.len() as int) } else { d + 1 };
    let frac = t.subrange(d + 1, e);
    if d - a >= 17 {
        let ds = if e > d + 1 { t.subrange(a, d) + frac } else { t.subrange(a, trail_from(t, a, d)) };
        exponent_form(ds, decimal((d - a - 1) as nat))
    } else if d - a == 1 && t[a] == '0' && e > d + 1 && lead_from(t, d + 1, e) >= d + 5 {
        let f = lead_from(t, d + 1, e);
        exponent_form(t.subrange(f, e), "-"@ + decimal((f - d) as nat))
    } else {
        t.subrange(a, d) + "."@ + if e <= d + 1 { "0"@ } else { frac }
    }
}

/// How a token is written in a message: its kind, and for a token with text the text
/// (quoted for a string or a name; a numeral as its double is written).
pub open spec fn describe(t: SToken) -> Seq<char> {
    if t.kind == TokenKind::Number {
        "Number("@ + numeral_debug(t.text) + ")"@
    } else if t.kind == TokenKind::String || t.kind == TokenKind::Identifier {
        kind_name(t.kind) + "(\""@ + escape_text(t.text) + "\")"@
    } else {
        kind_name(t.kind)
    }
}

/// The message of a failed `expect` at `p`.
pub open spec fn expect_msg(ts: Seq<SToken>, p: int, msg: Seq<char>) -> Seq<char> {
    if 0 <= p < ts.len() {
        msg + " at "@ + describe(ts[p]) + " ("@ + decimal(ts[p].line) + ":"@ + decimal(ts[p].col)
            + ")"@
    } else {
        msg + " at end of input"@
    }
}

/// The message for a token that cannot start an expression.
pub open spec fn unexpected_msg(ts: Seq<SToken>, p: int) -> Seq<char> {
    if 0 <= p < ts.len() {
        located("Unexpected token "@ + describe(ts[p]), ts[p].line, ts[p].col)
    } else {
        "Unexpected end of input"@
    }
}

/// Expect a token of kind `k` at `p`: the position after it, or the error.
pub open spec fn expect(ts: Seq<SToken>, p: int, k: TokenKind, msg: Seq<char>) -> Result<int, (Seq<char>, int)> {
    if kind_at(ts, p) == k {
        Ok(p + 1)
    } else {
        Err((expect_msg(ts, p, msg), p))
    }
}

// ==================== expressions ====================

/// A binary or logical operator.
#[derive(Clone, Copy)]
pub enum Op {
    Bin(BinaryOp),
    Log(LogicalOp),
}

/// The operator that token kind `k` stands for at precedence level `lvl`
/// (0: `* / %`, 1: `+ -`, 2: `< <= > >=`, 3: `== !=`, 4: `and`, 5: `or`).
pub open spec fn op_at(lvl: nat, k: TokenKind) -> Option<Op> {
    if lvl == 0 {
        if k == TokenKind::Star {
            Some(Op::Bin(BinaryOp::Mul))
        } else if k == TokenKind::Slash {
            Some(Op::Bin(BinaryOp::Div))
        } else if k == TokenKind::Percent {
            Some(Op::Bin(BinaryOp::Mod))
        } else {
            None
        }
    } else if lvl == 1 {
        if k == TokenKind::Plus {
            Some(Op::Bin(BinaryOp::Add))
        } else if k == TokenKind::Minus {
            Some(Op::Bin(BinaryOp::Sub))
        } else {
            None
        }
    } else if lvl == 2 {
        if k == TokenKind::Less {
            Some(Op::Bin(BinaryOp::Less))
        } else if k == TokenKind::LessEqual {
            Some(Op::Bin(BinaryOp::LessEqual))
        } else if k == TokenKind::Greater {
            Some(Op::Bin(BinaryOp::Greater))
        } else if k == TokenKind::GreaterEqual {
            Some(Op::Bin(BinaryOp::GreaterEqual))
        } else {
            None
        }
    } else if lvl == 3 {
        if k == TokenKind::EqualEqual {
            Some(Op::Bin(BinaryOp::Equal))
        } else if k == TokenKind::BangEqual {
            Some(Op::Bin(BinaryOp::NotEqual))
        } else {
            None
        }
    } else if lvl == 4 {
        if k == TokenKind::And {
            Some(Op::Log(LogicalOp::And))
        } else {
            None
        }
    } else {
        if k == TokenKind::Or {
            Some(Op::Log(LogicalOp::Or))
        } else {
            None
        }
    }
}

/// The node `left op right`.
pub open spec fn combine(left: SExpr, op: Op, right: SExpr) -> SExpr {
    match op {
        Op::Bin(b) => SExpr::Binary { left: Box::new(left), operator: b, right: Box::new(right) },
        Op::Log(l) => SExpr::Logical { left: Box::new(left), operator: l, right: Box::new(right) },
    }
}

/// `expression → assignment`
pub open spec fn parse_expression(ts: Seq<SToken>, p: int) -> PRes<SExpr>
    decreases ts.len() - p, 35nat,
{
    parse_assignment(ts, p)
}

/// `assignment → or ('=' assignment)?`, where the target must be a variable.
pub open spec fn parse_assignment(ts: Seq<SToken>, p: int) -> PRes<SExpr>
    decreases ts.len() - p, 30nat,
{
    match parse_binary(ts, p, 5) {
        Err(e) => Err(e),
        Ok((e, q)) => if kind_at(ts, q) == TokenKind::Assign && fwd(ts, p, q) {
            match parse_assignment(ts, q + 1) {
                Err(err) => Err(err),
                Ok((v, q2)) => match e {
                    SExpr::Variable(name) => Ok((SExpr::Assign { name, value: Box::new(v) }, q2)),
                    _ => Err(("Invalid assignment target"@, q2)),
                },
            }
        } else {
            Ok((e, q))
        },
    }
}

/// Precedence level `lvl`: `operand (op operand)*`, left-associative, where the operand
/// is level `lvl - 1` (a unary expression for level 0).
pub open spec fn parse_binary(ts: Seq<SToken>, p: int, lvl: nat) -> PRes<SExpr>
    decreases ts.len() - p, 8 + 2 * lvl,
{
    let operand = if lvl == 0 {
        parse_unary(ts, p)
    } else {
        parse_binary(ts, p, (lvl - 1) as nat)
    };
    match operand {
        Err(e) => Err(e),
        Ok((left, q)) => if fwd(ts, p, q) {
            binary_rest(ts, q, left, lvl)
        } else {
            Ok((left, q))
        },
    }
}

/// The `(op operand)*` part of level `lvl`, after `left`.
pub open spec fn binary_rest(ts: Seq<SToken>, q: int, left: SExpr, lvl: nat) -> PRes<SExpr>
    decreases ts.len() - q, 7 + 2 * lvl,
{
    match op_at(lvl, kind_at(ts, q)) {
        None => Ok((left, q)),
        Some(op) => {
            let operand = if lvl == 0 {
                parse_unary(ts, q + 1)
            } else {
                parse_binary(ts, q + 1, (lvl - 1) as nat)
            };
            match operand {
                Err(e) => Err(e),
                Ok((right, q2)) => if fwd(ts, q + 1, q2) {
                    binary_rest(ts, q2, combine(left, op, right), lvl)
                } else {
                    Ok((combine(left, op, right), q2))
                },
            }
        },
    }
}

/// The unary operator of a token kind.
pub open spec fn unary_op(k: TokenKind) -> Option<UnaryOp> {
    if k == TokenKind::Minus {
        Some(UnaryOp::Negate)
    } else if k == TokenKind::Not {
        Some(UnaryOp::Not)
    } else {
        None
    }
}

/// `unary → ('-' | 'not') unary | call`
pub open spec fn parse_unary(ts: Seq<SToken>, p: int) -> PRes<SExpr>
    decreases ts.len() - p, 6nat,
{
    match unary_op(kind_at(ts, p)) {
        Some(op) => match parse_unary(ts, p + 1) {
            Err(e) => Err(e),
            Ok((right, q)) => Ok((SExpr::Unary { operator: op, right: Box::new(right) }, q)),
        },
        None => parse_call(ts, p),
    }
}

/// `call → primary ('(' arguments ')')*`
pub open spec fn parse_call(ts: Seq<SToken>, p: int) -> PRes<SExpr>
    decreases ts.len() - p, 5nat,
{
    match parse_primary(ts, p) {
        Err(e) => Err(e),
        Ok((e, q)) => if fwd(ts, p, q) {
            call_rest(ts, q, e)
        } else {
            Ok((e, q))
        },
    }
}

/// The calls applied to `callee`, from `q`.
pub open spec fn call_rest(ts: Seq<SToken>, q: int, callee: SExpr) -> PRes<SExpr>
    decreases ts.len() - q, 4nat,
{
    if kind_at(ts, q) == TokenKind::LParen {
        match finish_call(ts, q, callee) {
            Err(e) => Err(e),
            Ok((c, q2)) => if fwd(ts, q + 1, q2) {
                call_rest(ts, q2, c)
            } else {
                Ok((c, q2))
            },
        }
    } else {
        Ok((callee, q))
    }
}

/// `'(' (expression (',' expression)*)? ')'` after `callee`.
pub open spec fn finish_call(ts: Seq<SToken>, q: int, callee: SExpr) -> PRes<SExpr>
    decreases ts.len() - q, 3nat,
{
    match expect(ts, q, TokenKind::LParen, "Expected '(' after function name"@) {
        Err(e) => Err(e),
        Ok(q1) => {
            let args = if kind_at(ts, q1) != TokenKind::RParen {
                parse_arguments(ts, q1, Seq::empty())
            } else {
                Ok((Seq::empty(), q1))
            };
            match args {
                Err(e) => Err(e),
                Ok((arguments, r)) => match expect(ts, r, TokenKind::RParen, "Expected ')' after arguments"@) {
                    Err(e) => Err(e),
                    Ok(r1) => Ok((SExpr::Call { callee: Box::new(callee), arguments }, r1)),
                },
            }
        },
    }
}

/// `expression (',' expression)*`, after the arguments `acc`.
pub open spec fn parse_arguments(ts: Seq<SToken>, p: int, acc: Seq<SExpr>) -> PRes<Seq<SExpr>>
    decreases ts.len() - p, 40nat,
{
    match parse_expression(ts, p) {
        Err(e) => Err(e),
        Ok((a, q)) => if kind_at(ts, q) == TokenKind::Comma && fwd(ts, p, q) {
            parse_arguments(ts, q + 1, acc.push(a))
        } else {
            Ok((acc.push(a), q))
        },
    }
}

/// `primary → number | string | true | false | nil | identifier | '(' expression ')'`
pub open spec fn parse_primary(ts: Seq<SToken>, p: int) -> PRes<SExpr>
    decreases ts.len() - p, 1nat,
{
    let k = kind_at(ts, p);
    if k == TokenKind::Number {
        Ok((SExpr::Literal(SLiteral::Number(ts[p].text)), p + 1))
    } else if k == TokenKind::String {
        Ok((SExpr::Literal(SLiteral::Str(ts[p].text)), p + 1))
    } else if k == TokenKind::True {
        Ok((SExpr::Literal(SLiteral::Boolean(true)), p + 1))
    } else if k == TokenKind::False {
        Ok((SExpr::Literal(SLiteral::Boolean(false)), p + 1))
    } else if k == TokenKind::Nil {
        Ok((SExpr::Literal(SLiteral::Nil), p + 1))
    } else if k == TokenKind::Identifier {
        Ok((SExpr::Variable(ts[p].text), p + 1))
    } else if k == TokenKind::LParen {
        match parse_expression(ts, p + 1) {
            Err(e) => Err(e),
            Ok((e, q)) => match expect(ts, q, TokenKind::RParen, "Expected ')'"@) {
                Err(err) => Err(err),
                Ok(q1) => Ok((SExpr::Grouping(Box::new(e)), q1)),
            },
        }
    } else {
        Err((unexpected_msg(ts, p), p))
    }
}

// ==================== statements ====================

/// `statement → let | fn | return | if | while | for | break | continue | print | block
/// | expression ';'`, chosen by the first token.
#[verifier::opaque]
pub open spec fn parse_statement(ts: Seq<SToken>, p: int) -> PRes<SStmt>
    decreases ts.len() - p, 20nat,
{
    let k = kind_at(ts, p);
    if k == TokenKind::Let {
        parse_let(ts, p)
    } else if k == TokenKind::Fn {
        parse_fn(ts, p)
    } else if k == TokenKind::Return {
        parse_return(ts, p)
    } else if k == TokenKind::If {
        parse_if(ts, p)
    } else if k == TokenKind::While {
        parse_while(ts, p)
    } else if k == TokenKind::For {
        parse_for(ts, p)
    } else if k == TokenKind::Break {
        parse_jump(ts, p, TokenKind::Break)
    } else if k == TokenKind::Continue {
        parse_jump(ts, p, TokenKind::Continue)
    } else if k == TokenKind::Print {
        parse_print(ts, p)
    } else if k == TokenKind::LBrace {
        match parse_block_body(ts, p) {
            Err(e) => Err(e),
            Ok((b, q)) => Ok((SStmt::Block(b), q)),
        }
    } else {
        parse_expression_statement(ts, p)
    }
}

/// `'{' statement* '}'`: the statements of a block.
#[verifier::opaque]
pub open spec fn parse_block_body(ts: Seq<SToken>, p: int) -> PRes<Seq<SStmt>>
    decreases ts.len() - p, 10nat,
{
    match expect(ts, p, TokenKind::LBrace, "Expected '{'"@) {
        Err(e) => Err(e),
        Ok(q) => block_items(ts, q, Seq::empty()),
    }
}

/// The statements of a block from `q` up to its `}`, after the statements `acc`.
#[verifier::opaque]
pub open spec fn block_items(ts: Seq<SToken>, q: int, acc: Seq<SStmt>) -> PRes<Seq<SStmt>>
    decreases ts.len() - q, 30nat,
{
    let k = kind_at(ts, q);
    if k == TokenKind::RBrace || k == TokenKind::Eof {
        match expect(ts, q, TokenKind::RBrace, "Expected '}'"@) {
            Err(e) => Err(e),
            Ok(q1) => Ok((acc, q1)),
        }
    } else {
        match parse_statement(ts, q) {
            Err(e) => Err(e),
            Ok((st, q2)) => if fwd(ts, q + 1, q2) {
                block_items(ts, q2, acc.push(st))
            } else {
                Ok((acc.push(st), q2))
            },
        }
    }
}

/// A branch or loop body: a block, or a single statement.
#[verifier::opaque]
pub open spec fn parse_body(ts: Seq<SToken>, p: int) -> PRes<Seq<SStmt>>
    decreases ts.len() - p, 25nat,
{
    if kind_at(ts, p) == TokenKind::LBrace {
        parse_block_body(ts, p)
    } else {
        match parse_statement(ts, p) {
            Err(e) => Err(e),
            Ok((st, q)) => Ok((seq![st], q)),
        }
    }
}

/// `'let' identifier ('=' expression)? ';'`; without an initializer the value is `nil`.
#[verifier::opaque]
pub open spec fn parse_let(ts: Seq<SToken>, p: int) -> PRes<SStmt>
    decreases ts.len() - p, 9nat,
{
    match expect(ts, p, TokenKind::Let, "Expected 'let'"@) {
        Err(e) => Err(e),
        Ok(q) => if kind_at(ts, q) != TokenKind::Identifier {
            Err(("Expected variable name"@, q))
        } else {
            let name = ts[q].text;
            let init = if kind_at(ts, q + 1) == TokenKind::Assign {
                parse_expression(ts, q + 2)
            } else {
                Ok((SExpr::Literal(SLiteral::Nil), q + 1))
            };
            match init {
                Err(e) => Err(e),
                Ok((initializer, r)) => match expect(ts, r, TokenKind::Semicolon, "Expected ';' after let"@) {
                    Err(e) => Err(e),
                    Ok(r1) => Ok((SStmt::Let { name, initializer }, r1)),
                },
            }
        },
    }
}

/// `'print' expression ';'`
#[verifier::opaque]
pub open spec fn parse_print(ts: Seq<SToken>, p: int) -> PRes<SStmt>
    decreases ts.len() - p, 9nat,
{
    match expect(ts, p, TokenKind::Print, "Expected 'print'"@) {
        Err(e) => Err(e),
        Ok(q) => match parse_expression(ts, q) {
            Err(e) => Err(e),
            Ok((value, r)) => match expect(ts, r, TokenKind::Semicolon, "Expected ';' after print"@) {
                Err(e) => Err(e),
                Ok(r1) => Ok((SStmt::Print(value), r1)),
            },
        },
    }
}

/// `'return' expression ';'`
#[verifier::opaque]
pub open spec fn parse_return(ts: Seq<SToken>, p: int) -> PRes<SStmt>
    decreases ts.len() - p, 9nat,
{
    match expect(ts, p, TokenKind::Return, "Expected 'return'"@) {
        Err(e) => Err(e),
        Ok(q) => match parse_expression(ts, q) {
            Err(e) => Err(e),
            Ok((value, r)) => match expect(ts, r, TokenKind::Semicolon, "Expected ';' after return"@) {
                Err(e) => Err(e),
                Ok(r1) => Ok((SStmt::Return(value), r1)),
            },
        },
    }
}

/// `'break' ';'` or `'continue' ';'`.
#[verifier::opaque]
pub open spec fn parse_jump(ts: Seq<SToken>, p: int, k: TokenKind) -> PRes<SStmt>
    decreases ts.len() - p, 9nat,
{
    let (kw, semi) = if k == TokenKind::Break {
        ("Expected 'break'"@, "Expected ';' after break"@)
    } else {
        ("Expected 'continue'"@, "Expected ';' after continue"@)
    };
    match expect(ts, p, k, kw) {
        Err(e) => Err(e),
        Ok(q) => match expect(ts, q, TokenKind::Semicolon, semi) {
            Err(e) => Err(e),
            Ok(q1) => Ok((if k == TokenKind::Break { SStmt::Break } else { SStmt::Continue }, q1)),
        },
    }
}

/// `'(' expression ')'`: a parenthesized condition.
#[verifier::opaque]
pub open spec fn parse_condition(ts: Seq<SToken>, p: int) -> PRes<SExpr> {
    match expect(ts, p, TokenKind::LParen, "Expected '('"@) {
        Err(e) => Err(e),
        Ok(q) => match parse_expression(ts, q) {
            Err(e) => Err(e),
            Ok((c, r)) => match expect(ts, r, TokenKind::RParen, "Expected ')'"@) {
                Err(e) => Err(e),
                Ok(r1) => Ok((c, r1)),
            },
        },
    }
}

/// `'if' '(' expression ')' body ('else' (if | body))?`; an empty else branch is none.
#[verifier::opaque]
pub open spec fn parse_if(ts: Seq<SToken>, p: int) -> PRes<SStmt>
    decreases ts.len() - p, 9nat,
{
    match expect(ts, p, TokenKind::If, "Expected 'if'"@) {
        Err(e) => Err(e),
        Ok(q) => match parse_condition(ts, q) {
            Err(e) => Err(e),
            Ok((condition, r)) => if !fwd(ts, q, r) {
                Err((Seq::empty(), r))
            } else {
                match parse_body(ts, r) {
                    Err(e) => Err(e),
                    Ok((then_branch, r2)) => {
                        let else_part = if kind_at(ts, r2) == TokenKind::Else && fwd(ts, r, r2) {
                            if kind_at(ts, r2 + 1) == TokenKind::If {
                                match parse_if(ts, r2 + 1) {
                                    Err(e) => Err(e),
                                    Ok((st, r3)) => Ok((seq![st], r3)),
                                }
                            } else {
                                parse_body(ts, r2 + 1)
                            }
                        } else {
                            Ok((Seq::empty(), r2))
                        };
                        match else_part {
                            Err(e) => Err(e),
                            Ok((els, r3)) => Ok(
                                (
                                    SStmt::If {
                                        condition,
                                        then_branch,
                                        else_branch: if els.len() == 0 { None } else { Some(els) },
                                    },
                                    r3,
                                ),
                            ),
                        }
                    },
                }
            },
        },
    }
}

/// `'while' '(' expression ')' body`
#[verifier::opaque]
pub open spec fn parse_while(ts: Seq<SToken>, p: int) -> PRes<SStmt>
    decreases ts.len() - p, 9nat,
{
    match expect(ts, p, TokenKind::While, "Expected 'while'"@) {
        Err(e) => Err(e),
        Ok(q) => match parse_condition(ts, q) {
            Err(e) => Err(e),
            Ok((condition, r)) => if !fwd(ts, q, r) {
                Err((Seq::empty(), r))
            } else {
                match parse_body(ts, r) {
                    Err(e) => Err(e),
                    Ok((body, r2)) => Ok((SStmt::While { condition, body }, r2)),
                }
            },
        },
    }
}

/// `'for' '(' (let | expression ';' | ';') expression? ';' expression? ')' body`
#[verifier::opaque]
pub open spec fn parse_for(ts: Seq<SToken>, p: int) -> PRes<SStmt>
    decreases ts.len() - p, 9nat,
{
    match expect(ts, p, TokenKind::For, "Expected 'for'"@) {
        Err(e) => Err(e),
        Ok(q) => match expect(ts, q, TokenKind::LParen, "Expected '(' after 'for'"@) {
            Err(e) => Err(e),
            Ok(q1) => {
                let init = if kind_at(ts, q1) == TokenKind::Semicolon {
                    Ok((None, q1 + 1))
                } else if kind_at(ts, q1) == TokenKind::Let {
                    match parse_let(ts, q1) {
                        Err(e) => Err(e),
                        Ok((st, r)) => Ok((Some(Box::new(st)), r)),
                    }
                } else {
                    match parse_expression_statement(ts, q1) {
                        Err(e) => Err(e),
                        Ok((st, r)) => Ok((Some(Box::new(st)), r)),
                    }
                };
                match init {
                    Err(e) => Err(e),
                    Ok((initializer, r)) => {
                        let cond = if kind_at(ts, r) != TokenKind::Semicolon {
                            match parse_expression(ts, r) {
                                Err(e) => Err(e),
                                Ok((c, r1)) => Ok((Some(c), r1)),
                            }
                        } else {
                            Ok((None, r))
                        };
                        match cond {
                            Err(e) => Err(e),
                            Ok((condition, r1)) => match expect(ts, r1, TokenKind::Semicolon, "Expected ';' after loop condition"@) {
                                Err(e) => Err(e),
                                Ok(r2) => {
                                    let inc = if kind_at(ts, r2) != TokenKind::RParen {
                                        match parse_expression(ts, r2) {
                                            Err(e) => Err(e),
                                            Ok((c, r3)) => Ok((Some(c), r3)),
                                        }
                                    } else {
                                        Ok((None, r2))
                                    };
                                    match inc {
                                        Err(e) => Err(e),
                                        Ok((increment, r3)) => match expect(ts, r3, TokenKind::RParen, "Expected ')' after for clauses"@) {
                                            Err(e) => Err(e),
                                            Ok(r4) => if !fwd(ts, q, r4) {
                                                Err((Seq::empty(), r4))
                                            } else {
                                                match parse_body(ts, r4) {
                                                    Err(e) => Err(e),
                                                    Ok((body, r5)) => Ok(
                                                        (SStmt::For { initializer, condition, increment, body }, r5),
                                                    ),
                                                }
                                            },
                                        },
                                    }
                                },
                            },
                        }
                    },
                }
            },
        },
    }
}

/// `identifier (',' identifier)*`: parameter names, after the names `acc`.
pub open spec fn parse_params(ts: Seq<SToken>, p: int, acc: Seq<Seq<char>>) -> PRes<Seq<Seq<char>>>
    decreases ts.len() - p,
{
    if kind_at(ts, p) != TokenKind::Identifier {
        Err(("Expected parameter name"@, p))
    } else if kind_at(ts, p + 1) == TokenKind::Comma {
        parse_params(ts, p + 2, acc.push(ts[p].text))
    } else {
        Ok((acc.push(ts[p].text), p + 1))
    }
}

/// `'fn' identifier '(' params? ')' block`
#[verifier::opaque]
pub open spec fn parse_fn(ts: Seq<SToken>, p: int) -> PRes<SStmt>
    decreases ts.len() - p, 9nat,
{
    match expect(ts, p, TokenKind::Fn, "Expected 'fn'"@) {
        Err(e) => Err(e),
        Ok(q) => if kind_at(ts, q) != TokenKind::Identifier {
            Err(("Expected function name"@, q))
        } else {
            let name = ts[q].text;
            match expect(ts, q + 1, TokenKind::LParen, "Expected '(' after function name"@) {
                Err(e) => Err(e),
                Ok(q1) => {
                    let ps = if kind_at(ts, q1) != TokenKind::RParen {
                        parse_params(ts, q1, Seq::empty())
                    } else {
                        Ok((Seq::empty(), q1))
                    };
                    match ps {
                        Err(e) => Err(e),
                        Ok((params, r)) => match expect(ts, r, TokenKind::RParen, "Expected ')' after parameters"@) {
                            Err(e) => Err(e),
                            Ok(r1) => if !fwd(ts, q, r1) {
                                Err((Seq::empty(), r1))
                            } else {
                                match parse_block_body(ts, r1) {
                                    Err(e) => Err(e),
                                    Ok((body, r2)) => Ok((SStmt::Function { name, params, body }, r2)),
                                }
                            },
                        },
                    }
                },
            }
        },
    }
}

/// `expression ';'`; an assignment expression becomes an assignment statement.
#[verifier::opaque]
pub open spec fn parse_expression_statement(ts: Seq<SToken>, p: int) -> PRes<SStmt>
    decreases ts.len() - p, 9nat,
{
    match parse_expression(ts, p) {
        Err(e) => Err(e),
        Ok((e, q)) => match expect(ts, q, TokenKind::Semicolon, "Expected ';' after expression"@) {
            Err(err) => Err(err),
            Ok(q1) => match e {
                SExpr::Assign { name, value } => Ok((SStmt::Assign { name, value: *value }, q1)),
                _ => Ok((SStmt::Expression(e), q1)),
            },
        },
    }
}

// ==================== programs ====================

/// Kinds at which error recovery resumes: the keywords that begin a statement.
pub open spec fn starts_statement(k: TokenKind) -> bool {
    k == TokenKind::Let || k == TokenKind::Fn || k == TokenKind::Return || k == TokenKind::If
        || k == TokenKind::While || k == TokenKind::For || k == TokenKind::Break
        || k == TokenKind::Continue || k == TokenKind::Print
}

/// Error recovery: from `q`, skip tokens up to and including a `;`, or up to (not
/// including) a statement keyword, or to the end.
pub open spec fn synchronize(ts: Seq<SToken>, q: int) -> int
    decreases ts.len() - q,
{
    let k = kind_at(ts, q);
    if k == TokenKind::Eof || q < 0 {
        q
    } else if k == TokenKind::Semicolon {
        q + 1
    } else if starts_statement(k) {
        q
    } else {
        synchronize(ts, q + 1)
    }
}

/// Messages joined by newlines.
pub open spec fn join_lines(ms: Seq<Seq<char>>) -> Seq<char>
    decreases ms.len(),
{
    if ms.len() == 0 {
        Seq::empty()
    } else if ms.len() == 1 {
        ms[0]
    } else {
        join_lines(ms.drop_last()) + "\n"@ + ms.last()
    }
}

/// The statements from `p` to the end, after the statements `stmts` and the errors
/// `errs`: on an error, recovery skips ahead and parsing goes on; at the end the
/// program, or all error messages, one per line.
pub open spec fn program_from(ts: Seq<SToken>, p: int, stmts: Seq<SStmt>, errs: Seq<Seq<char>>) -> Result<
    Seq<SStmt>,
    Seq<char>,
>
    decreases ts.len() - p,
{
    if kind_at(ts, p) == TokenKind::Eof {
        if errs.len() == 0 {
            Ok(stmts)
        } else {
            Err(join_lines(errs))
        }
    } else {
        match parse_statement(ts, p) {
            Ok((st, q)) => if fwd(ts, p + 1, q) {
                program_from(ts, q, stmts.push(st), errs)
            } else {
                Err(Seq::empty())
            },
            Err((m, q)) => {
                let r = synchronize(ts, q);
                if fwd(ts, p + 1, r) {
                    program_from(ts, r, stmts, errs.push(m))
                } else {
                    Err(Seq::empty())
                }
            },
        }
    }
}

/// The program that a token sequence forms, or the messages of its syntax errors.
pub open spec fn parse_tokens(ts: Seq<SToken>) -> Result<Seq<SStmt>, Seq<char>> {
    program_from(ts, 0, Seq::empty(), Seq::empty())
}

/// Recovery always moves past the statement that failed: the failure is at or after
/// its start, and past it when the statement began with a keyword.
pub proof fn lemma_synchronize_progress(ts: Seq<SToken>, p: int, q: int)
    requires
        0 <= p <= q <= ts.len(),
        kind_at(ts, p) != TokenKind::Eof,
        starts_statement(kind_at(ts, p)) ==> p < q,
    ensures
        p < synchronize(ts, q) <= ts.len(),
    decreases ts.len() - q,
{
    lemma_synchronize_bounds(ts, q);
    if q == p {
        let k = kind_at(ts, q);
        if k != TokenKind::Semicolon {
            lemma_synchronize_bounds(ts, q + 1);
        }
    }
}

/// `synchronize` moves forward and stays within the tokens.
pub proof fn lemma_synchronize_bounds(ts: Seq<SToken>, q: int)
    requires
        0 <= q <= ts.len(),
    ensures
        q <= synchronize(ts, q) <= ts.len(),
    decreases ts.len() - q,
{
    if q < ts.len() && kind_at(ts, q) != TokenKind::Semicolon && !starts_statement(kind_at(ts, q))
        && kind_at(ts, q) != TokenKind::Eof {
        lemma_synchronize_bounds(ts, q + 1);
    }
}

} // verus!

verus! {

/// A parse outcome and the parser position after it agree with a specified outcome.
pub open spec fn agrees<T: View>(r: Result<T, String>, cur: usize, s: PRes<T::V>) -> bool {
    match s {
        Ok((v, q)) => r matches Ok(x) && x@ == v && cur == q,
        Err((m, q)) => r matches Err(e) && e@ == m && cur == q,
    }
}

/// `agrees`, for a list of statements.
pub open spec fn agrees_stmts(r: Result<Vec<Stmt>, String>, cur: usize, s: PRes<Seq<SStmt>>) -> bool {
    match s {
        Ok((v, q)) => r matches Ok(x) && stmts_view(x@) == v && cur == q,
        Err((m, q)) => r matches Err(e) && e@ == m && cur == q,
    }
}

/// Messages joined by newlines.
fn join_messages(ms: &Vec<String>) -> (r: String)
    ensures
        r@ == join_lines(ms@.map_values(|m: String| m@)),
{
    let ghost mv = ms@.map_values(|m: String| m@);
    let mut r = String::new();
    let mut i: usize = 0;
    while i < ms.len()
        invariant
            i <= ms.len(),
            mv == ms@.map_values(|m: String| m@),
            r@ == join_lines(mv.take(i as int)),
        decreases ms.len() - i,
    {
        assert(mv.take(i as int + 1).drop_last() =~= mv.take(i as int));
        if i > 0 {
            crate::text::append_str(&mut r, "\n");
        }
        crate::text::append_str(&mut r, ms[i].as_str());
        proof {
            if i == 0 {
                assert(r@ =~= mv[0]);
            }
        }
        i += 1;
    }
    assert(mv.take(ms.len() as int) =~= mv);
    r
}

/// What a program parse returns, for contracts.
pub open spec fn program_view(r: Result<Vec<Stmt>, String>) -> Result<Seq<SStmt>, Seq<char>> {
    match r {
        Ok(v) => Ok(stmts_view(v@)),
        Err(e) => Err(e@),
    }
}

/// The name of a token kind, as `{:?}` writes it.
fn kind_str(k: TokenKind) -> (s: &'static str)
    ensures
        s@ == kind_name(k),
{
    match k {
        TokenKind::Number => "Number",
        TokenKind::String => "String",
        TokenKind::True => "True",
        TokenKind::False => "False",
        TokenKind::Nil => "Nil",
        TokenKind::Identifier => "Identifier",
        TokenKind::Let => "Let",
        TokenKind::If => "If",
        TokenKind::Else => "Else",
        TokenKind::While => "While",
        TokenKind::For => "For",
        TokenKind::Break => "Break",
        TokenKind::Continue => "Continue",
        TokenKind::Print => "Print",
        TokenKind::Fn => "Fn",
        TokenKind::Return => "Return",
        TokenKind::And => "And",
        TokenKind::Or => "Or",
        TokenKind::Not => "Not",
        TokenKind::Plus => "Plus",
        TokenKind::Minus => "Minus",
        TokenKind::Star => "Star",
        TokenKind::Slash => "Slash",
        TokenKind::Percent => "Percent",
        TokenKind::EqualEqual => "EqualEqual",
        TokenKind::BangEqual => "BangEqual",
        TokenKind::Less => "Less",
        TokenKind::LessEqual => "LessEqual",
        TokenKind::Greater => "Greater",
        TokenKind::GreaterEqual => "GreaterEqual",
        TokenKind::Assign => "Assign",
        TokenKind::Semicolon => "Semicolon",
        TokenKind::Comma => "Comma",
        TokenKind::LParen => "LParen",
        TokenKind::RParen => "RParen",
        TokenKind::LBrace => "LBrace",
        TokenKind::RBrace => "RBrace",
        TokenKind::Eof => "Eof",
    }
}

/// Appends `escape_text(t)`.
fn append_escaped(s: &mut String, t: &String)
    ensures
        final(s)@ == old(s)@ + escape_text(t@),
{
    let cs = crate::text::chars_of(t.as_str());
    let mut i: usize = 0;
    assert(t@.subrange(0, 0) =~= Seq::<char>::empty());
    while i < cs.len()
        invariant
            cs@ == t@,
            i <= cs@.len(),
            s@ == old(s)@ + escape_text(t@.subrange(0, i as int)),
        decreases cs.len() - i,
    {
        let c = cs[i];
        let ghost before = s@;
        if c == '"' {
            crate::text::append_str(s, "\\\"");
            assert(s@ =~= before + escape_char(c)) by {
                reveal_strlit("\\\"");
            }
        } else if c == '\\' {
            crate::text::append_str(s, "\\\\");
            assert(s@ =~= before + escape_char(c)) by {
                reveal_strlit("\\\\");
            }
        } else if c == '\n' {
            crate::text::append_str(s, "\\n");
            assert(s@ =~= before + escape_char(c)) by {
                reveal_strlit("\\n");
            }
        } else if c == '\r' {
            crate::text::append_str(s, "\\r");
            assert(s@ =~= before + escape_char(c)) by {
                reveal_strlit("\\r");
            }
        } else if c == '\t' {
            crate::text::append_str(s, "\\t");
            assert(s@ =~= before + escape_char(c)) by {
                reveal_strlit("\\t");
            }
        } else if c == '\0' {
            crate::text::append_str(s, "\\0");
            assert(s@ =~= before + escape_char(c)) by {
                reveal_strlit("\\0");
            }
        } else if (c as u32) < 0x20 || (0x7f <= (c as u32) && (c as u32) <= 0x9f) {
            let n = c as u32;
            crate::text::append_str(s, "\\u{");
            let ghost s1 = s@;
            crate::text::append_hex(s, n);
            let ghost s2 = s@;
            crate::text::append_str(s, "}");
            assert(s@ =~= before + escape_char(c)) by {
                reveal_strlit("\\u{");
                reveal_strlit("}");
                assert(s1 =~= before + seq!['\\', 'u', '{']);
                assert(s2 =~= s1 + crate::text::hex(n as nat));
                assert(s@ =~= s2 + seq!['}']);
            }
        } else {
            crate::text::push_char(s, c);
        }
        assert(t@.subrange(0, i + 1).drop_last() =~= t@.subrange(0, i as int));
        i += 1;
        assert(s@ =~= old(s)@ + escape_text(t@.subrange(0, i as int)));
    }
    assert(t@.subrange(0, i as int) =~= t@);
}

/// Appends the characters `cs[lo..hi]`.
fn append_range(s: &mut String, cs: &Vec<char>, lo: usize, hi: usize)
    requires
        lo <= hi <= cs@.len(),
    ensures
        final(s)@ == old(s)@ + cs@.subrange(lo as int, hi as int),
{
    let mut k = lo;
    while k < hi
        invariant
            lo <= k <= hi <= cs@.len(),
            s@ == old(s)@ + cs@.subrange(lo as int, k as int),
        decreases hi - k,
    {
        crate::text::push_char(s, cs[k]);
        assert(cs@.subrange(lo as int, k + 1) =~= cs@.subrange(lo as int, k as int).push(cs@[k as int]));
        k += 1;
    }
}

/// The index just past the leading zeros of `cs[lo..hi]`, keeping its last digit.
fn skip_zeros(cs: &Vec<char>, lo: usize, hi: usize) -> (r: usize)
    requires
        lo < hi <= cs@.len(),
    ensures
        r == lead_from(cs@, lo as int, hi as int),
        lo <= r < hi,
        r + 1 < hi ==> cs@[r as int] != '0',
        forall|k: int| lo <= k < r ==> cs@[k] == '0',
{
    let mut r = lo;
    while r + 1 < hi && cs[r] == '0'
        invariant
            lo <= r < hi <= cs@.len(),
            lead_from(cs@, r as int, hi as int) == lead_from(cs@, lo as int, hi as int),
            forall|k: int| lo <= k < r ==> cs@[k] == '0',
        decreases hi - r,
    {
        r += 1;
    }
    r
}

/// The end of `cs[lo..hi]` without its trailing zeros.
fn strip_zeros(cs: &Vec<char>, lo: usize, hi: usize) -> (r: usize)
    requires
        lo <= hi <= cs@.len(),
    ensures
        r == trail_from(cs@, lo as int, hi as int),
        lo <= r <= hi,
        r > lo ==> cs@[r - 1] != '0',
        forall|k: int| r <= k < hi ==> cs@[k] == '0',
{
    let mut r = hi;
    while r > lo && cs[r - 1] == '0'
        invariant
            lo <= r <= hi <= cs@.len(),
            trail_from(cs@, lo as int, r as int) == trail_from(cs@, lo as int, hi as int),
            forall|k: int| r <= k < hi ==> cs@[k] == '0',
        decreases r,
    {
        r -= 1;
    }
    r
}

/// The digits before the exponent in `exponent_form`.
pub open spec fn mantissa(ds: Seq<char>) -> Seq<char> {
    seq![ds[0]] + (if ds.len() > 1 { "."@ + ds.subrange(1, ds.len() as int) } else { Seq::empty() })
}

/// Appends `mantissa` of the digits `cs[lo..hi]` followed by `cs[lo2..hi2]`.
fn append_mantissa(s: &mut String, cs: &Vec<char>, lo: usize, hi: usize, lo2: usize, hi2: usize)
    requires
        lo < hi <= cs@.len(),
        lo2 <= hi2 <= cs@.len(),
    ensures
        final(s)@ == old(s)@ + mantissa(cs@.subrange(lo as int, hi as int) + cs@.subrange(lo2 as int, hi2 as int)),
{
    let ghost ds = cs@.subrange(lo as int, hi as int) + cs@.subrange(lo2 as int, hi2 as int);
    crate::text::push_char(s, cs[lo]);
    let ghost s1 = s@;
    if hi - lo > 1 || hi2 > lo2 {
        crate::text::append_str(s, ".");
        append_range(s, cs, lo + 1, hi);
        append_range(s, cs, lo2, hi2);
        proof {
            reveal_strlit(".");
            assert(ds.subrange(1, ds.len() as int) =~= cs@.subrange(lo + 1, hi as int) + cs@.subrange(
                lo2 as int,
                hi2 as int,
            ));
        }
    }
    assert(ds[0] == cs@[lo as int]);
    assert(s@ =~= old(s)@ + mantissa(ds));
}

/// Appends `numeral_debug(t@)`.
#[verifier::rlimit(60)]
fn append_numeral(s: &mut String, t: &String)
    ensures
        final(s)@ == old(s)@ + numeral_debug(t@),
{
    let cs = crate::text::chars_of(t.as_str());
    let ghost tv = t@;
    let n = cs.len();
    let mut d: usize = 0;
    while d < n && cs[d] != '.'
        invariant
            cs@ == tv,
            n == tv.len(),
            d <= n,
            dot_from(tv, d as int) == dot_from(tv, 0),
        decreases n - d,
    {
        d += 1;
    }
    let a = if d > 0 { skip_zeros(&cs, 0, d) } else { 0 };
    // The end of the fraction without trailing zeros, and whether any of it is left.
    let mut fe: usize = d;
    let mut has_frac = false;
    if d < n {
        fe = strip_zeros(&cs, d + 1, n);
        has_frac = fe > d + 1;
    }
    let ghost e: int = if d < n { trail_from(tv, d + 1, n as int) } else { d + 1 };
    assert(has_frac <==> e > d + 1);
    assert(has_frac ==> fe == e);
    assert(a == lead_from(tv, 0, d as int));
    let plen = d - a;
    if plen >= 17 {
        if has_frac {
            append_mantissa(s, &cs, a, d, d + 1, fe);
        } else {
            let pe = strip_zeros(&cs, a, d);
            assert(pe > a);
            append_mantissa(s, &cs, a, pe, d, d);
            assert(tv.subrange(a as int, pe as int) + tv.subrange(d as int, d as int) =~= tv.subrange(
                a as int,
                pe as int,
            ));
        }
        crate::text::append_str(s, "e");
        append_decimal(s, plen - 1);
        proof {
            reveal_strlit("e");
        }
        assert(s@ =~= old(s)@ + numeral_debug(tv));
        return;
    }
    if plen == 1 && cs[a] == '0' && has_frac {
        let f = skip_zeros(&cs, d + 1, fe);
        if f - d >= 5 {
            append_mantissa(s, &cs, f, fe, fe, fe);
            assert(tv.subrange(f as int, e) + tv.subrange(fe as int, fe as int) =~= tv.subrange(f as int, e));
            crate::text::append_str(s, "e-");
            append_decimal(s, f - d);
            proof {
                reveal_strlit("e-");
                reveal_strlit("e");
                reveal_strlit("-");
            }
            assert(s@ =~= old(s)@ + numeral_debug(tv));
            return;
        }
    }
    append_range(s, &cs, a, d);
    crate::text::append_str(s, ".");
    let ghost s1 = s@;
    if has_frac {
        append_range(s, &cs, d + 1, fe);
    } else {
        crate::text::append_str(s, "0");
    }
    proof {
        reveal_strlit(".");
        reveal_strlit("0");
        assert(s1 =~= old(s)@ + tv.subrange(a as int, d as int) + "."@);
    }
    assert(s@ =~= old(s)@ + numeral_debug(tv));
}

/// Appends `describe(t@)`.
fn append_description(s: &mut String, t: &Token)
    ensures
        final(s)@ == old(s)@ + describe(t@),
{
    match &t.ty {
        TokenType::Number(text) => {
            crate::text::append_str(s, "Number(");
            append_numeral(s, text);
            crate::text::append_str(s, ")");
        },
        TokenType::String(text) => {
            crate::text::append_str(s, kind_str(TokenKind::String));
            crate::text::append_str(s, "(\"");
            append_escaped(s, text);
            crate::text::append_str(s, "\")");
        },
        TokenType::Identifier(text) => {
            crate::text::append_str(s, kind_str(TokenKind::Identifier));
            crate::text::append_str(s, "(\"");
            append_escaped(s, text);
            crate::text::append_str(s, "\")");
        },
        _ => {
            crate::text::append_str(s, kind_str(t.ty.kind()));
        },
    }
    assert(final(s)@ =~= old(s)@ + describe(t@));
}

/// The exec counterpart of `op_at`.
fn op_for(lvl: u8, k: TokenKind) -> (r: Option<Op>)
    requires
        lvl <= 5,
    ensures
        r == op_at(lvl as nat, k),
{
    if lvl == 0 {
        match k {
            TokenKind::Star => Some(Op::Bin(BinaryOp::Mul)),
            TokenKind::Slash => Some(Op::Bin(BinaryOp::Div)),
            TokenKind::Percent => Some(Op::Bin(BinaryOp::Mod)),
            _ => None,
        }
    } else if lvl == 1 {
        match k {
            TokenKind::Plus => Some(Op::Bin(BinaryOp::Add)),
            TokenKind::Minus => Some(Op::Bin(BinaryOp::Sub)),
            _ => None,
        }
    } else if lvl == 2 {
        match k {
            TokenKind::Less => Some(Op::Bin(BinaryOp::Less)),
            TokenKind::LessEqual => Some(Op::Bin(BinaryOp::LessEqual)),
            TokenKind::Greater => Some(Op::Bin(BinaryOp::Greater)),
            TokenKind::GreaterEqual => Some(Op::Bin(BinaryOp::GreaterEqual)),
            _ => None,
        }
    } else if lvl == 3 {
        match k {
            TokenKind::EqualEqual => Some(Op::Bin(BinaryOp::Equal)),
            TokenKind::BangEqual => Some(Op::Bin(BinaryOp::NotEqual)),
            _ => None,
        }
    } else if lvl == 4 {
        match k {
            TokenKind::And => Some(Op::Log(LogicalOp::And)),
            _ => None,
        }
    } else {
        match k {
            TokenKind::Or => Some(Op::Log(LogicalOp::Or)),
            _ => None,
        }
    }
}

/// The node `left op right`.
fn make_node(left: Expr, op: Op, right: Expr) -> (e: Expr)
    ensures
        e@ == combine(left@, op, right@),
{
    match op {
        Op::Bin(b) => Expr::Binary { left: Box::new(left), operator: b, right: Box::new(right) },
        Op::Log(l) => Expr::Logical { left: Box::new(left), operator: l, right: Box::new(right) },
    }
}

/// The parser: a token sequence and the index of the next token.
pub struct Parser {
    tokens: Vec<Token>,
    current: usize,
}

impl Parser {
    /// The views of the tokens.
    pub closed spec fn tview(&self) -> Seq<SToken> {
        self.tokens@.map_values(|t: Token| t@)
    }

    /// The index of the next token.
    pub closed spec fn position(&self) -> int {
        self.current as int
    }

    /// The parser's invariant: its position is within the tokens.
    pub closed spec fn wf(&self) -> bool {
        self.current <= self.tokens@.len()
    }

    /// Lexes `source` and makes a parser at its first token; the lexical error otherwise.
    pub fn new(source: &str) -> (r: Result<Parser, String>)
        requires
            source@.len() < usize::MAX,
        ensures
            match tokenize(source@) {
                Ok(ts) => r matches Ok(p) && p.wf() && p.tview() == ts && p.position() == 0,
                Err(m) => r matches Err(e) && e@ == m,
            },
    {
        let mut lexer = Lexer::new(source);
        let tokens = lexer.collect_tokens()?;
        let p = Parser { tokens, current: 0 };
        assert(p.tview() == p.tokens@.map_values(|t: Token| t@));
        Ok(p)
    }

    /// The kind of the next token; `Eof` at the end.
    fn peek(&self) -> (k: TokenKind)
        ensures
            k == kind_at(self.tview(), self.current as int),
    {
        if self.current < self.tokens.len() {
            self.tokens[self.current].ty.kind()
        } else {
            TokenKind::Eof
        }
    }

    /// Whether the next token is of kind `k`.
    fn check(&self, k: TokenKind) -> (r: bool)
        ensures
            r == (kind_at(self.tview(), self.current as int) == k),
    {
        self.peek() == k
    }

    /// Moves past the next token.
    fn advance(&mut self)
        requires
            old(self).current < old(self).tokens.len(),
        ensures
            final(self).tokens@ == old(self).tokens@,
            final(self).current == old(self).current + 1,
    {
        self.current += 1;
    }

    /// The text of the next token (a number, string or identifier).
    fn current_text(&self) -> (s: String)
        requires
            self.current < self.tokens@.len(),
        ensures
            s@ == self.tview()[self.current as int].text,
    {
        match &self.tokens[self.current].ty {
            TokenType::Number(t) => t.clone(),
            TokenType::String(t) => t.clone(),
            TokenType::Identifier(t) => t.clone(),
            _ => String::new(),
        }
    }

    /// The message of a failed `expect` here.
    fn expect_error(&self, msg: &str) -> (e: String)
        ensures
            e@ == expect_msg(self.tview(), self.current as int, msg@),
    {
        let mut e = crate::text::string_of(msg);
        if self.current < self.tokens.len() {
            let tok = &self.tokens[self.current];
            crate::text::append_str(&mut e, " at ");
            append_description(&mut e, tok);
            crate::text::append_str(&mut e, " (");
            crate::text::append_decimal(&mut e, tok.line);
            crate::text::append_str(&mut e, ":");
            crate::text::append_decimal(&mut e, tok.col);
            crate::text::append_str(&mut e, ")");
        } else {
            crate::text::append_str(&mut e, " at end of input");
        }
        assert(e@ =~= expect_msg(self.tview(), self.current as int, msg@));
        e
    }

    /// Moves past a token of kind `k`, or fails with `msg` and the token found.
    fn expect(&mut self, k: TokenKind, msg: &str) -> (r: Result<(), String>)
        requires
            old(self).wf(),
            k != TokenKind::Eof,
        ensures
            final(self).wf(),
            final(self).tokens@ == old(self).tokens@,
            match expect(old(self).tview(), old(self).current as int, k, msg@) {
                Ok(q) => r is Ok && final(self).current == q,
                Err((m, q)) => r matches Err(e) && e@ == m && final(self).current == q,
            },
    {
        if self.check(k) {
            self.advance();
            Ok(())
        } else {
            Err(self.expect_error(msg))
        }
    }

    /// `self` is `before` moved forward over the same tokens.
    closed spec fn moved_from(&self, before: Parser) -> bool {
        &&& self.wf()
        &&& self.tokens@ == before.tokens@
        &&& before.current <= self.current
    }

    /// The message for a token that cannot start an expression.
    fn unexpected_error(&self) -> (e: String)
        ensures
            e@ == unexpected_msg(self.tview(), self.current as int),
    {
        if self.current < self.tokens.len() {
            let tok = &self.tokens[self.current];
            let mut e = crate::text::string_of("Unexpected token ");
            append_description(&mut e, tok);
            crate::text::append_location(&mut e, tok.line, tok.col);
            e
        } else {
            crate::text::string_of("Unexpected end of input")
        }
    }

    /// `expression → assignment`
    fn expression(&mut self) -> (r: Result<Expr, String>)
        requires
            old(self).wf(),
        ensures
            final(self).moved_from(*old(self)),
            r is Ok ==> old(self).current < final(self).current,
            agrees(r, final(self).current, parse_expression(old(self).tview(), old(self).current as int)),
        decreases old(self).tokens@.len() - old(self).current, 35nat,
    {
        self.parse_assignment()
    }

    /// `assignment → or ('=' assignment)?`; the target must be a variable.
    fn parse_assignment(&mut self) -> (r: Result<Expr, String>)
        requires
            old(self).wf(),
        ensures
            final(self).moved_from(*old(self)),
            r is Ok ==> old(self).current < final(self).current,
            agrees(r, final(self).current, parse_assignment(old(self).tview(), old(self).current as int)),
        decreases old(self).tokens@.len() - old(self).current, 30nat,
    {
        let expr = self.parse_or()?;
        if self.check(TokenKind::Assign) {
            self.advance();
            let value = self.parse_assignment()?;
            if let Expr::Variable(name) = expr {
                return Ok(Expr::Assign { name, value: Box::new(value) });
            }
            return Err(crate::text::string_of("Invalid assignment target"));
        }
        Ok(expr)
    }

    /// `or → and ('or' and)*`, the loosest of the operator levels.
    fn parse_or(&mut self) -> (r: Result<Expr, String>)
        requires
            old(self).wf(),
        ensures
            final(self).moved_from(*old(self)),
            r is Ok ==> old(self).current < final(self).current,
            agrees(r, final(self).current, parse_binary(old(self).tview(), old(self).current as int, 5)),
        decreases old(self).tokens@.len() - old(self).current, 19nat,
    {
        self.parse_binary(5)
    }

    /// One operator level (see `op_at`): `operand (op operand)*`, left-associative.
    /// Level 5 is `or`, 4 `and`, 3 equality, 2 comparison, 1 `+ -`, 0 `* / %`.
    fn parse_binary(&mut self, lvl: u8) -> (r: Result<Expr, String>)
        requires
            old(self).wf(),
            lvl <= 5,
        ensures
            final(self).moved_from(*old(self)),
            r is Ok ==> old(self).current < final(self).current,
            agrees(r, final(self).current, parse_binary(old(self).tview(), old(self).current as int, lvl as nat)),
        decreases old(self).tokens@.len() - old(self).current, 8 + 2 * lvl,
    {
        let ghost ts = self.tview();
        let ghost p = self.current as int;
        let ghost target = parse_binary(ts, p, lvl as nat);
        let mut left = if lvl == 0 {
            self.parse_unary()?
        } else {
            self.parse_binary(lvl - 1)?
        };
        loop
            invariant
                self.moved_from(*old(self)),
                self.tview() == ts,
                ts == old(self).tview(),
                p == old(self).current,
                p < self.current,
                lvl <= 5,
                target == parse_binary(ts, p, lvl as nat),
                binary_rest(ts, self.current as int, left@, lvl as nat) == target,
            decreases self.tokens@.len() - self.current,
        {
            match op_for(lvl, self.peek()) {
                None => {
                    return Ok(left);
                },
                Some(op) => {
                    self.advance();
                    let right = if lvl == 0 {
                        self.parse_unary()?
                    } else {
                        self.parse_binary(lvl - 1)?
                    };
                    left = make_node(left, op, right);
                },
            }
        }
    }

    /// `unary → ('-' | 'not') unary | call`
    fn parse_unary(&mut self) -> (r: Result<Expr, String>)
        requires
            old(self).wf(),
        ensures
            final(self).moved_from(*old(self)),
            r is Ok ==> old(self).current < final(self).current,
            agrees(r, final(self).current, parse_unary(old(self).tview(), old(self).current as int)),
        decreases old(self).tokens@.len() - old(self).current, 6nat,
    {
        let k = self.peek();
        if k == TokenKind::Minus || k == TokenKind::Not {
            let op = if k == TokenKind::Minus {
                UnaryOp::Negate
            } else {
                UnaryOp::Not
            };
            self.advance();
            let right = self.parse_unary()?;
            Ok(Expr::Unary { operator: op, right: Box::new(right) })
        } else {
            self.parse_call()
        }
    }

    /// `call → primary ('(' arguments ')')*`
    fn parse_call(&mut self) -> (r: Result<Expr, String>)
        requires
            old(self).wf(),
        ensures
            final(self).moved_from(*old(self)),
            r is Ok ==> old(self).current < final(self).current,
            agrees(r, final(self).current, parse_call(old(self).tview(), old(self).current as int)),
        decreases old(self).tokens@.len() - old(self).current, 5nat,
    {
        let ghost ts = self.tview();
        let ghost p = self.current as int;
        let ghost target = parse_call(ts, p);
        let mut expr = self.parse_primary()?;
        while self.check(TokenKind::LParen)
            invariant
                self.moved_from(*old(self)),
                self.tview() == ts,
                ts == old(self).tview(),
                p == old(self).current,
                p < self.current,
                target == parse_call(ts, p),
                call_rest(ts, self.current as int, expr@) == target,
            decreases self.tokens@.len() - self.current,
        {
            expr = self.finish_call(expr)?;
        }
        Ok(expr)
    }

    /// `'(' (expression (',' expression)*)? ')'`: the arguments of a call of `callee`.
    fn finish_call(&mut self, callee: Expr) -> (r: Result<Expr, String>)
        requires
            old(self).wf(),
        ensures
            final(self).moved_from(*old(self)),
            r is Ok ==> old(self).current < final(self).current,
            agrees(r, final(self).current, finish_call(old(self).tview(), old(self).current as int, callee@)),
        decreases old(self).tokens@.len() - old(self).current, 3nat,
    {
        let ghost ts = self.tview();
        self.expect(TokenKind::LParen, "Expected '(' after function name")?;
        let ghost q1 = self.current as int;
        let ghost args_target = parse_arguments(ts, q1, Seq::empty());
        let mut arguments: Vec<Expr> = Vec::new();
        assert(finish_call(ts, old(self).current as int, callee@) == match (if kind_at(ts, q1) != TokenKind::RParen {
            args_target
        } else {
            Ok((Seq::empty(), q1))
        }) {
            Err(e) => Err(e),
            Ok((arguments, r)) => match expect(ts, r, TokenKind::RParen, "Expected ')' after arguments"@) {
                Err(e) => Err(e),
                Ok(r1) => Ok((SExpr::Call { callee: Box::new(callee@), arguments }, r1)),
            },
        });
        if !self.check(TokenKind::RParen) {
            assert(exprs_view(arguments@) =~= Seq::<SExpr>::empty());
            loop
                invariant_except_break
                    parse_arguments(ts, self.current as int, exprs_view(arguments@)) == args_target,
                invariant
                    self.moved_from(*old(self)),
                    self.tview() == ts,
                    ts == old(self).tview(),
                    old(self).current < q1 <= self.current,
                    args_target == parse_arguments(ts, q1, Seq::empty()),
                    kind_at(ts, q1) != TokenKind::RParen,
                    args_target matches Err(e) ==> finish_call(ts, old(self).current as int, callee@)
                        == Err::<(SExpr, int), (Seq<char>, int)>(e),
                ensures
                    args_target == Ok::<(Seq<SExpr>, int), (Seq<char>, int)>(
                        (exprs_view(arguments@), self.current as int),
                    ),
                decreases self.tokens@.len() - self.current,
            {
                let ghost before = exprs_view(arguments@);
                let ghost cur = self.current as int;
                let a = self.expression()?;
                let ghost av = a@;
                arguments.push(a);
                assert(exprs_view(arguments@) =~= before.push(av));
                assert(parse_arguments(ts, cur, before) == match parse_expression(ts, cur) {
                    Err(e) => Err(e),
                    Ok((a, q)) => if kind_at(ts, q) == TokenKind::Comma && fwd(ts, cur, q) {
                        parse_arguments(ts, q + 1, before.push(a))
                    } else {
                        Ok((before.push(a), q))
                    },
                });
                if self.check(TokenKind::Comma) {
                    self.advance();
                } else {
                    break;
                }
            }
        } else {
            assert(exprs_view(arguments@) =~= Seq::<SExpr>::empty());
        }
        self.expect(TokenKind::RParen, "Expected ')' after arguments")?;
        Ok(Expr::Call { callee: Box::new(callee), arguments })
    }

    /// `primary → number | string | true | false | nil | identifier | '(' expression ')'`
    fn parse_primary(&mut self) -> (r: Result<Expr, String>)
        requires
            old(self).wf(),
        ensures
            final(self).moved_from(*old(self)),
            r is Ok ==> old(self).current < final(self).current,
            agrees(r, final(self).current, parse_primary(old(self).tview(), old(self).current as int)),
        decreases old(self).tokens@.len() - old(self).current, 1nat,
    {
        match self.peek() {
            TokenKind::Number => {
                let t = self.current_text();
                self.advance();
                Ok(Expr::Literal(Literal::Number(t)))
            },
            TokenKind::String => {
                let t = self.current_text();
                self.advance();
                Ok(Expr::Literal(Literal::String(t)))
            },
            TokenKind::True => {
                self.advance();
                Ok(Expr::Literal(Literal::Boolean(true)))
            },
            TokenKind::False => {
                self.advance();
                Ok(Expr::Literal(Literal::Boolean(false)))
            },
            TokenKind::Nil => {
                self.advance();
                Ok(Expr::Literal(Literal::Nil))
            },
            TokenKind::Identifier => {
                let t = self.current_text();
                self.advance();
                Ok(Expr::Variable(t))
            },
            TokenKind::LParen => {
                self.advance();
                let expr = self.expression()?;
                self.expect(TokenKind::RParen, "Expected ')'")?;
                Ok(Expr::Grouping(Box::new(expr)))
            },
            _ => Err(self.unexpected_error()),
        }
    }

    /// Moves past an identifier and returns its name, or fails with `msg`.
    fn expect_identifier(&mut self, msg: &str) -> (r: Result<String, String>)
        requires
            old(self).wf(),
        ensures
            final(self).moved_from(*old(self)),
            kind_at(old(self).tview(), old(self).current as int) == TokenKind::Identifier ==> (r matches Ok(
                name,
            ) && name@ == old(self).tview()[old(self).current as int].text && final(self).current
                == old(self).current + 1),
            kind_at(old(self).tview(), old(self).current as int) != TokenKind::Identifier ==> (r matches Err(
                e,
            ) && e@ == msg@ && final(self).current == old(self).current),
    {
        if self.check(TokenKind::Identifier) {
            let name = self.current_text();
            self.advance();
            Ok(name)
        } else {
            Err(crate::text::string_of(msg))
        }
    }

    /// `statement`, chosen by its first token.
    fn statement(&mut self) -> (r: Result<Stmt, String>)
        requires
            old(self).wf(),
        ensures
            final(self).moved_from(*old(self)),
            r is Ok ==> old(self).current < final(self).current,
            starts_statement(kind_at(old(self).tview(), old(self).current as int)) ==> old(self).current
                < final(self).current,
            agrees(r, final(self).current, parse_statement(old(self).tview(), old(self).current as int)),
        decreases old(self).tokens@.len() - old(self).current, 20nat,
    {
        reveal(parse_statement);
        reveal(parse_block_body);
        reveal(block_items);
        reveal(parse_body);
        reveal(parse_if);
        reveal(parse_while);
        reveal(parse_for);
        reveal(parse_fn);
        match self.peek() {
            TokenKind::Let => self.let_statement(),
            TokenKind::Fn => self.fn_statement(),
            TokenKind::Return => self.return_statement(),
            TokenKind::If => self.if_statement(),
            TokenKind::While => self.while_statement(),
            TokenKind::For => self.for_statement(),
            TokenKind::Break => self.break_statement(),
            TokenKind::Continue => self.continue_statement(),
            TokenKind::Print => self.print_statement(),
            TokenKind::LBrace => self.block_statement(),
            _ => self.expression_statement(),
        }
    }

    /// A block statement, `'{' statement* '}'`.
    fn block_statement(&mut self) -> (r: Result<Stmt, String>)
        requires
            old(self).wf(),
        ensures
            final(self).moved_from(*old(self)),
            r is Ok ==> old(self).current < final(self).current,
            agrees(
                r,
                final(self).current,
                match parse_block_body(old(self).tview(), old(self).current as int) {
                    Err(e) => Err(e),
                    Ok((b, q)) => Ok((SStmt::Block(b), q)),
                },
            ),
        decreases old(self).tokens@.len() - old(self).current, 15nat,
    {
        let stmts = self.block_body()?;
        Ok(Stmt::Block(stmts))
    }

    /// `'{' statement* '}'`: the statements of a block.
    fn block_body(&mut self) -> (r: Result<Vec<Stmt>, String>)
        requires
            old(self).wf(),
        ensures
            final(self).moved_from(*old(self)),
            r is Ok ==> old(self).current < final(self).current,
            agrees_stmts(r, final(self).current, parse_block_body(old(self).tview(), old(self).current as int)),
        decreases old(self).tokens@.len() - old(self).current, 10nat,
    {
        reveal(parse_statement);
        reveal(parse_block_body);
        reveal(block_items);
        reveal(parse_body);
        reveal(parse_if);
        reveal(parse_while);
        reveal(parse_for);
        reveal(parse_fn);
        let ghost ts = self.tview();
        self.expect(TokenKind::LBrace, "Expected '{'")?;
        let ghost q = self.current as int;
        let ghost target = block_items(ts, q, Seq::empty());
        let mut stmts: Vec<Stmt> = Vec::new();
        assert(stmts_view(stmts@) =~= Seq::<SStmt>::empty());
        assert(parse_block_body(ts, old(self).current as int) == target);
        while !self.check(TokenKind::RBrace) && !self.check(TokenKind::Eof)
            invariant
                self.moved_from(*old(self)),
                self.tview() == ts,
                ts == old(self).tview(),
                old(self).current < q <= self.current,
                target == block_items(ts, q, Seq::empty()),
                parse_block_body(ts, old(self).current as int) == target,
                block_items(ts, self.current as int, stmts_view(stmts@)) == target,
            decreases self.tokens@.len() - self.current,
        {
            let ghost before = stmts_view(stmts@);
            let ghost cur = self.current as int;
            assert(block_items(ts, cur, before) == match parse_statement(ts, cur) {
                Err(e) => Err(e),
                Ok((st, q2)) => if fwd(ts, cur + 1, q2) {
                    block_items(ts, q2, before.push(st))
                } else {
                    Ok((before.push(st), q2))
                },
            }) by {
                reveal(parse_statement);
                reveal(parse_block_body);
                reveal(block_items);
                reveal(parse_body);
                reveal(parse_if);
                reveal(parse_while);
                reveal(parse_for);
                reveal(parse_fn);
            }
            let st = self.statement()?;
            let ghost sv = st@;
            stmts.push(st);
            assert(stmts_view(stmts@) =~= before.push(sv));
        }
        proof {
            reveal(parse_statement);
            reveal(parse_block_body);
            reveal(block_items);
            reveal(parse_body);
            reveal(parse_if);
            reveal(parse_while);
            reveal(parse_for);
            reveal(parse_fn);
        }
        self.expect(TokenKind::RBrace, "Expected '}'")?;
        Ok(stmts)
    }

    /// A branch or loop body: a block, or a single statement.
    fn block(&mut self) -> (r: Result<Vec<Stmt>, String>)
        requires
            old(self).wf(),
        ensures
            final(self).moved_from(*old(self)),
            r is Ok ==> old(self).current < final(self).current,
            agrees_stmts(r, final(self).current, parse_body(old(self).tview(), old(self).current as int)),
        decreases old(self).tokens@.len() - old(self).current, 25nat,
    {
        reveal(parse_statement);
        reveal(parse_block_body);
        reveal(block_items);
        reveal(parse_body);
        reveal(parse_if);
        reveal(parse_while);
        reveal(parse_for);
        reveal(parse_fn);
        if self.check(TokenKind::LBrace) {
            self.block_body()
        } else {
            let stmt = self.statement()?;
            let mut stmts: Vec<Stmt> = Vec::new();
            let ghost sv = stmt@;
            stmts.push(stmt);
            assert(stmts_view(stmts@) =~= seq![sv]);
            Ok(stmts)
        }
    }

    /// `'let' identifier ('=' expression)? ';'`
    fn let_statement(&mut self) -> (r: Result<Stmt, String>)
        requires
            old(self).wf(),
        ensures
            final(self).moved_from(*old(self)),
            r is Ok ==> old(self).current < final(self).current,
            kind_at(old(self).tview(), old(self).current as int) == TokenKind::Let ==> old(self).current
                < final(self).current,
            agrees(r, final(self).current, parse_let(old(self).tview(), old(self).current as int)),
        decreases old(self).tokens@.len() - old(self).current, 9nat,
    {
        reveal(parse_let);
        self.expect(TokenKind::Let, "Expected 'let'")?;
        let name = self.expect_identifier("Expected variable name")?;
        let initializer = if self.check(TokenKind::Assign) {
            self.advance();
            self.expression()?
        } else {
            Expr::Literal(Literal::Nil)
        };
        self.expect(TokenKind::Semicolon, "Expected ';' after let")?;
        Ok(Stmt::Let { name, initializer })
    }

    /// `'print' expression ';'`
    fn print_statement(&mut self) -> (r: Result<Stmt, String>)
        requires
            old(self).wf(),
        ensures
            final(self).moved_from(*old(self)),
            r is Ok ==> old(self).current < final(self).current,
            kind_at(old(self).tview(), old(self).current as int) == TokenKind::Print ==> old(self).current
                < final(self).current,
            agrees(r, final(self).current, parse_print(old(self).tview(), old(self).current as int)),
        decreases old(self).tokens@.len() - old(self).current, 9nat,
    {
        reveal(parse_print);
        self.expect(TokenKind::Print, "Expected 'print'")?;
        let expr = self.expression()?;
        self.expect(TokenKind::Semicolon, "Expected ';' after print")?;
        Ok(Stmt::Print(expr))
    }

    /// `'return' expression ';'`
    fn return_statement(&mut self) -> (r: Result<Stmt, String>)
        requires
            old(self).wf(),
        ensures
            final(self).moved_from(*old(self)),
            r is Ok ==> old(self).current < final(self).current,
            kind_at(old(self).tview(), old(self).current as int) == TokenKind::Return ==> old(self).current
                < final(self).current,
            agrees(r, final(self).current, parse_return(old(self).tview(), old(self).current as int)),
        decreases old(self).tokens@.len() - old(self).current, 9nat,
    {
        reveal(parse_return);
        self.expect(TokenKind::Return, "Expected 'return'")?;
        let value = self.expression()?;
        self.expect(TokenKind::Semicolon, "Expected ';' after return")?;
        Ok(Stmt::Return(value))
    }

    /// `'break' ';'`
    fn break_statement(&mut self) -> (r: Result<Stmt, String>)
        requires
            old(self).wf(),
        ensures
            final(self).moved_from(*old(self)),
            r is Ok ==> old(self).current < final(self).current,
            kind_at(old(self).tview(), old(self).current as int) == TokenKind::Break ==> old(self).current
                < final(self).current,
            agrees(r, final(self).current, parse_jump(old(self).tview(), old(self).current as int, TokenKind::Break)),
        decreases old(self).tokens@.len() - old(self).current, 9nat,
    {
        reveal(parse_jump);
        self.expect(TokenKind::Break, "Expected 'break'")?;
        self.expect(TokenKind::Semicolon, "Expected ';' after break")?;
        Ok(Stmt::Break)
    }

    /// `'continue' ';'`
    fn continue_statement(&mut self) -> (r: Result<Stmt, String>)
        requires
            old(self).wf(),
        ensures
            final(self).moved_from(*old(self)),
            r is Ok ==> old(self).current < final(self).current,
            kind_at(old(self).tview(), old(self).current as int) == TokenKind::Continue ==> old(self).current
                < final(self).current,
            agrees(r, final(self).current, parse_jump(old(self).tview(), old(self).current as int, TokenKind::Continue)),
        decreases old(self).tokens@.len() - old(self).current, 9nat,
    {
        reveal(parse_jump);
        self.expect(TokenKind::Continue, "Expected 'continue'")?;
        self.expect(TokenKind::Semicolon, "Expected ';' after continue")?;
        Ok(Stmt::Continue)
    }

    /// `'(' expression ')'`
    fn parenthesized(&mut self) -> (r: Result<Expr, String>)
        requires
            old(self).wf(),
        ensures
            final(self).moved_from(*old(self)),
            r is Ok ==> old(self).current < final(self).current,
            agrees(r, final(self).current, parse_condition(old(self).tview(), old(self).current as int)),
    {
        reveal(parse_condition);
        self.expect(TokenKind::LParen, "Expected '('")?;
        let condition = self.expression()?;
        self.expect(TokenKind::RParen, "Expected ')'")?;
        Ok(condition)
    }

    /// `'while' '(' expression ')' body`
    fn while_statement(&mut self) -> (r: Result<Stmt, String>)
        requires
            old(self).wf(),
        ensures
            final(self).moved_from(*old(self)),
            r is Ok ==> old(self).current < final(self).current,
            kind_at(old(self).tview(), old(self).current as int) == TokenKind::While ==> old(self).current
                < final(self).current,
            agrees(r, final(self).current, parse_while(old(self).tview(), old(self).current as int)),
        decreases old(self).tokens@.len() - old(self).current, 9nat,
    {
        reveal(parse_statement);
        reveal(parse_block_body);
        reveal(block_items);
        reveal(parse_body);
        reveal(parse_if);
        reveal(parse_while);
        reveal(parse_for);
        reveal(parse_fn);
        self.expect(TokenKind::While, "Expected 'while'")?;
        let condition = self.parenthesized()?;
        let body = self.block()?;
        Ok(Stmt::While { condition, body })
    }

    /// `'if' '(' expression ')' body ('else' (if | body))?`
    fn if_statement(&mut self) -> (r: Result<Stmt, String>)
        requires
            old(self).wf(),
        ensures
            final(self).moved_from(*old(self)),
            r is Ok ==> old(self).current < final(self).current,
            kind_at(old(self).tview(), old(self).current as int) == TokenKind::If ==> old(self).current
                < final(self).current,
            agrees(r, final(self).current, parse_if(old(self).tview(), old(self).current as int)),
        decreases old(self).tokens@.len() - old(self).current, 9nat,
    {
        reveal(parse_statement);
        reveal(parse_block_body);
        reveal(block_items);
        reveal(parse_body);
        reveal(parse_if);
        reveal(parse_while);
        reveal(parse_for);
        reveal(parse_fn);
        let ghost ts = self.tview();
        self.expect(TokenKind::If, "Expected 'if'")?;
        let condition = self.parenthesized()?;
        let then_branch = self.block()?;
        let ghost r2 = self.current as int;
        let else_branch = if self.check(TokenKind::Else) {
            self.advance();
            if self.check(TokenKind::If) {
                let st = self.if_statement()?;
                let mut v: Vec<Stmt> = Vec::new();
                let ghost sv = st@;
                v.push(st);
                assert(stmts_view(v@) =~= seq![sv]);
                v
            } else {
                self.block()?
            }
        } else {
            let v: Vec<Stmt> = Vec::new();
            assert(stmts_view(v@) =~= Seq::<SStmt>::empty());
            v
        };
        let ghost ev = stmts_view(else_branch@);
        assert(ev.len() == else_branch@.len());
        let else_branch = if else_branch.len() == 0 {
            None
        } else {
            Some(else_branch)
        };
        Ok(Stmt::If { condition, then_branch, else_branch })
    }

    /// `'for' '(' (let | expression ';' | ';') expression? ';' expression? ')' body`
    #[verifier::rlimit(40)]
    fn for_statement(&mut self) -> (r: Result<Stmt, String>)
        requires
            old(self).wf(),
        ensures
            final(self).moved_from(*old(self)),
            r is Ok ==> old(self).current < final(self).current,
            kind_at(old(self).tview(), old(self).current as int) == TokenKind::For ==> old(self).current
                < final(self).current,
            agrees(r, final(self).current, parse_for(old(self).tview(), old(self).current as int)),
        decreases old(self).tokens@.len() - old(self).current, 9nat,
    {
        reveal(parse_statement);
        reveal(parse_block_body);
        reveal(block_items);
        reveal(parse_body);
        reveal(parse_if);
        reveal(parse_while);
        reveal(parse_for);
        reveal(parse_fn);
        self.expect(TokenKind::For, "Expected 'for'")?;
        self.expect(TokenKind::LParen, "Expected '(' after 'for'")?;
        let initializer = if self.check(TokenKind::Semicolon) {
            self.advance();
            None
        } else if self.check(TokenKind::Let) {
            Some(Box::new(self.let_statement()?))
        } else {
            Some(Box::new(self.expression_statement()?))
        };
        let condition = if !self.check(TokenKind::Semicolon) {
            Some(self.expression()?)
        } else {
            None
        };
        self.expect(TokenKind::Semicolon, "Expected ';' after loop condition")?;
        let increment = if !self.check(TokenKind::RParen) {
            Some(self.expression()?)
        } else {
            None
        };
        self.expect(TokenKind::RParen, "Expected ')' after for clauses")?;
        let body = self.block()?;
        Ok(Stmt::For { initializer, condition, increment, body })
    }

    /// `'fn' identifier '(' (identifier (',' identifier)*)? ')' block`
    fn fn_statement(&mut self) -> (r: Result<Stmt, String>)
        requires
            old(self).wf(),
        ensures
            final(self).moved_from(*old(self)),
            r is Ok ==> old(self).current < final(self).current,
            kind_at(old(self).tview(), old(self).current as int) == TokenKind::Fn ==> old(self).current
                < final(self).current,
            agrees(r, final(self).current, parse_fn(old(self).tview(), old(self).current as int)),
        decreases old(self).tokens@.len() - old(self).current, 9nat,
    {
        reveal(parse_statement);
        reveal(parse_block_body);
        reveal(block_items);
        reveal(parse_body);
        reveal(parse_if);
        reveal(parse_while);
        reveal(parse_for);
        reveal(parse_fn);
        let ghost ts = self.tview();
        self.expect(TokenKind::Fn, "Expected 'fn'")?;
        let name = self.expect_identifier("Expected function name")?;
        self.expect(TokenKind::LParen, "Expected '(' after function name")?;
        let ghost q1 = self.current as int;
        let ghost ps_target = parse_params(ts, q1, Seq::empty());
        let mut params: Vec<String> = Vec::new();
        assert(params@.map_values(|p: String| p@) =~= Seq::<Seq<char>>::empty());
        if !self.check(TokenKind::RParen) {
            loop
                invariant_except_break
                    parse_params(ts, self.current as int, params@.map_values(|p: String| p@))
                        == ps_target,
                invariant
                    self.moved_from(*old(self)),
                    self.tview() == ts,
                    ts == old(self).tview(),
                    old(self).current < q1 <= self.current,
                    ps_target == parse_params(ts, q1, Seq::empty()),
                    ps_target matches Err(e) ==> parse_fn(ts, old(self).current as int)
                        == Err::<(SStmt, int), (Seq<char>, int)>(e),
                ensures
                    ps_target == Ok::<(Seq<Seq<char>>, int), (Seq<char>, int)>(
                        (params@.map_values(|p: String| p@), self.current as int),
                    ),
                decreases self.tokens@.len() - self.current,
            {
                let ghost before = params@.map_values(|p: String| p@);
                let param = self.expect_identifier("Expected parameter name")?;
                let ghost pv = param@;
                params.push(param);
                assert(params@.map_values(|p: String| p@) =~= before.push(pv));
                if self.check(TokenKind::Comma) {
                    self.advance();
                } else {
                    break;
                }
            }
        }
        self.expect(TokenKind::RParen, "Expected ')' after parameters")?;
        let body = self.block_body()?;
        Ok(Stmt::Function { name, params, body })
    }

    /// `expression ';'`; an assignment expression becomes an assignment statement.
    fn expression_statement(&mut self) -> (r: Result<Stmt, String>)
        requires
            old(self).wf(),
        ensures
            final(self).moved_from(*old(self)),
            r is Ok ==> old(self).current < final(self).current,
            agrees(r, final(self).current, parse_expression_statement(old(self).tview(), old(self).current as int)),
        decreases old(self).tokens@.len() - old(self).current, 9nat,
    {
        reveal(parse_expression_statement);
        let expr = self.expression()?;
        self.expect(TokenKind::Semicolon, "Expected ';' after expression")?;
        if let Expr::Assign { name, value } = expr {
            return Ok(Stmt::Assign { name, value: *value });
        }
        Ok(Stmt::Expression(expr))
    }

    /// Error recovery: skips tokens up to and including a `;`, or up to a statement
    /// keyword, or to the end.
    fn synchronize(&mut self)
        requires
            old(self).wf(),
        ensures
            final(self).moved_from(*old(self)),
            final(self).current == synchronize(old(self).tview(), old(self).current as int),
    {
        let ghost ts = self.tview();
        loop
            invariant_except_break
                synchronize(ts, self.current as int) == synchronize(ts, old(self).current as int),
            invariant
                self.moved_from(*old(self)),
                self.tview() == ts,
                ts == old(self).tview(),
            ensures
                self.moved_from(*old(self)),
                self.current == synchronize(ts, old(self).current as int),
            decreases self.tokens@.len() - self.current,
        {
            let k = self.peek();
            if k == TokenKind::Eof {
                break;
            }
            if k == TokenKind::Semicolon {
                self.advance();
                break;
            }
            if k == TokenKind::Let || k == TokenKind::Fn || k == TokenKind::Return || k == TokenKind::If
                || k == TokenKind::While || k == TokenKind::For || k == TokenKind::Break
                || k == TokenKind::Continue || k == TokenKind::Print {
                break;
            }
            self.advance();
        }
    }

    /// Parses statements up to the end of the tokens. After a syntax error the parser
    /// skips ahead (see `synchronize`) and goes on, so that every error is reported:
    /// the result is the program, or the messages of all errors, one per line.
    pub fn parse_program(&mut self) -> (r: Result<Vec<Stmt>, String>)
        requires
            old(self).wf(),
        ensures
            final(self).wf(),
            program_view(r) == program_from(old(self).tview(), old(self).position(), Seq::empty(), Seq::empty()),
    {
        let ghost ts = self.tview();
        let ghost target = program_from(ts, self.current as int, Seq::empty(), Seq::empty());
        let mut stmts: Vec<Stmt> = Vec::new();
        let mut errors: Vec<String> = Vec::new();
        assert(stmts_view(stmts@) =~= Seq::<SStmt>::empty());
        assert(errors@.map_values(|e: String| e@) =~= Seq::<Seq<char>>::empty());
        while !self.check(TokenKind::Eof)
            invariant
                self.moved_from(*old(self)),
                self.tview() == ts,
                ts == old(self).tview(),
                target == program_from(ts, old(self).current as int, Seq::empty(), Seq::empty()),
                program_from(ts, self.current as int, stmts_view(stmts@), errors@.map_values(|e: String| e@))
                    == target,
            decreases self.tokens@.len() - self.current,
        {
            let ghost p = self.current as int;
            let ghost sv = stmts_view(stmts@);
            let ghost ev = errors@.map_values(|e: String| e@);
            match self.statement() {
                Ok(st) => {
                    let ghost s1 = st@;
                    stmts.push(st);
                    assert(stmts_view(stmts@) =~= sv.push(s1));
                },
                Err(e) => {
                    let ghost m = e@;
                    errors.push(e);
                    assert(errors@.map_values(|e: String| e@) =~= ev.push(m));
                    let ghost q = self.current as int;
                    proof {
                        lemma_synchronize_progress(ts, p, q);
                    }
                    self.synchronize();
                },
            }
        }
        if errors.len() == 0 {
            Ok(stmts)
        } else {
            Err(join_messages(&errors))
        }
    }
}

} // verus!
