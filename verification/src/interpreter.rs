//! The Hul interpreter: a tree walker over the syntax tree, proved to follow the
//! big-step semantics written below as spec functions.
//!
//! Numbers are IEEE 754 doubles, held by their bit patterns. Everything a double is
//! needed for (reading a numeral, arithmetic, comparison, formatting) and the output of
//! `print` go through a host: a function from `HostCall` to `HostReply` that the
//! caller supplies. The semantics is stated for the answers of that host.
//!
//! Every step of the semantics spends one unit of fuel; the interpreter starts with
//! `u64::MAX`, which no run exhausts in practice.
use vstd::prelude::*;
use crate::ast::{BinaryOp, Expr, Literal, LogicalOp, SExpr, SLiteral, SStmt, Stmt, UnaryOp, stmts_view, exprs_view};
use crate::value::{
    assign_in, define_in, lookup, push_frame, truthy, undefined_msg, copy_value, is_truthy, Environment,
    SFrame, SValue, Value,
};
use crate::text::decimal;

verus! {

// ==================== the host ====================

/// A request to the host.
pub enum HostCall {
    /// The double that a numeral denotes.
    Parse(String),
    /// A binary operation on doubles: arithmetic gives a number, a comparison a boolean.
    Binary(BinaryOp, u64, u64),
    /// The negation of a double.
    Negate(u64),
    /// The text of a double as `print` shows it.
    Format(u64),
    /// A line to output.
    Print(String),
}

/// The host's answer.
pub enum HostReply {
    Number(u64),
    Boolean(bool),
    Text(String),
    Done,
}

/// What a request is.
pub enum SHostCall {
    Parse(Seq<char>),
    Binary(BinaryOp, u64, u64),
    Negate(u64),
    Format(u64),
    Print(Seq<char>),
}

/// What an answer is.
pub enum SHostReply {
    Number(u64),
    Boolean(bool),
    Text(Seq<char>),
    Done,
}

impl View for HostCall {
    type V = SHostCall;

    open spec fn view(&self) -> SHostCall {
        match self {
            HostCall::Parse(s) => SHostCall::Parse(s@),
            HostCall::Binary(op, a, b) => SHostCall::Binary(*op, *a, *b),
            HostCall::Negate(a) => SHostCall::Negate(*a),
            HostCall::Format(a) => SHostCall::Format(*a),
            HostCall::Print(s) => SHostCall::Print(s@),
        }
    }
}

impl View for HostReply {
    type V = SHostReply;

    open spec fn view(&self) -> SHostReply {
        match self {
            HostReply::Number(n) => SHostReply::Number(*n),
            HostReply::Boolean(b) => SHostReply::Boolean(*b),
            HostReply::Text(s) => SHostReply::Text(s@),
            HostReply::Done => SHostReply::Done,
        }
    }
}

/// What the interpreter needs of a host: it accepts every request, and equal requests
/// get equal answers.
pub open spec fn host_ok<F: Fn(HostCall) -> HostReply>(host: F) -> bool {
    &&& forall|c: HostCall| call_requires(host, (c,))
    &&& forall|c1: HostCall, c2: HostCall, r1: HostReply, r2: HostReply|
        #![trigger call_ensures(host, (c1,), r1), call_ensures(host, (c2,), r2)]
        c1@ == c2@ && call_ensures(host, (c1,), r1) && call_ensures(host, (c2,), r2) ==> r1@ == r2@
}

/// `r` is what `host` can answer to a request that is `c`.
pub open spec fn answered<F: Fn(HostCall) -> HostReply>(host: F, c: SHostCall, r: HostReply) -> bool {
    exists|c1: HostCall| c1@ == c && #[trigger] call_ensures(host, (c1,), r)
}

/// The answer that `host` gives to a request.
pub open spec fn answer<F: Fn(HostCall) -> HostReply>(host: F, c: SHostCall) -> SHostReply {
    (choose|r: HostReply| #[trigger] answered(host, c, r))@
}

/// The answers of `host`, as a function.
pub open spec fn answers<F: Fn(HostCall) -> HostReply>(host: F) -> spec_fn(SHostCall) -> SHostReply {
    |c: SHostCall| answer(host, c)
}

/// What a host answers is its answer.
proof fn lemma_answer<F: Fn(HostCall) -> HostReply>(host: F, c: HostCall, r: HostReply)
    requires
        host_ok(host),
        call_ensures(host, (c,), r),
    ensures
        r@ == answers(host)(c@),
{
    assert(answered(host, c@, r));
    let w = choose|w: HostReply| #[trigger] answered(host, c@, w);
    let c1 = choose|c1: HostCall| c1@ == c@ && #[trigger] call_ensures(host, (c1,), w);
    assert(call_ensures(host, (c1,), w) && call_ensures(host, (c,), r));
}

/// Asks the host.
fn ask<F: Fn(HostCall) -> HostReply>(host: &F, c: HostCall) -> (r: HostReply)
    requires
        host_ok(*host),
    ensures
        r@ == answers(*host)(c@),
{
    let ghost cg = c;
    let r = host(c);
    proof {
        lemma_answer(*host, cg, r);
    }
    r
}

/// A number answer; 0 stands for an answer of another kind.
pub open spec fn num_of(r: SHostReply) -> u64 {
    match r {
        SHostReply::Number(n) => n,
        _ => 0,
    }
}

/// A boolean answer; false stands for an answer of another kind.
pub open spec fn bool_of(r: SHostReply) -> bool {
    match r {
        SHostReply::Boolean(b) => b,
        _ => false,
    }
}

/// A text answer; the empty text stands for an answer of another kind.
pub open spec fn text_of(r: SHostReply) -> Seq<char> {
    match r {
        SHostReply::Text(t) => t,
        _ => Seq::empty(),
    }
}

// ==================== the state ====================

/// A function value: its name, parameters and body, and the frame it was defined in.
#[verifier::ext_equal]
pub struct SFunc {
    pub name: Seq<char>,
    pub params: Seq<Seq<char>>,
    pub body: Seq<SStmt>,
    pub closure: usize,
}

/// The interpreter's state: the scopes, the functions defined so far, and the output
/// so far: the `Print` requests handed to the host, in order.
#[verifier::ext_equal]
pub struct SState {
    pub frames: Seq<SFrame>,
    pub funcs: Seq<SFunc>,
    pub out: Seq<SHostCall>,
}

/// How a statement ends.
pub enum SFlow {
    Normal,
    Break,
    Continue,
    Return(SValue),
}

/// The outcome of evaluating an expression.
pub type EvalOut = (SState, Result<SValue, Seq<char>>);

/// The outcome of executing a statement.
pub type ExecOut = (SState, Result<SFlow, Seq<char>>);

/// The message when a run runs out of fuel or of room for scopes or functions. It also
/// answers a scope index past the existing frames, which no run meets.
pub open spec fn limit_msg() -> Seq<char> {
    "Resource limit exceeded"@
}

/// The state with its scopes replaced.
pub open spec fn with_frames(st: SState, frames: Seq<SFrame>) -> SState {
    SState { frames, ..st }
}

/// Leaving a scope that began in state `before`: when no function was defined
/// meanwhile, nothing can refer to the frames made since, and they are dropped.
pub open spec fn release(before: SState, after: SState) -> SState {
    if after.funcs.len() == before.funcs.len() && before.frames.len() <= after.frames.len() {
        with_frames(after, after.frames.take(before.frames.len() as int))
    } else {
        after
    }
}

// ==================== operators ====================

/// How a value is shown by `print` and in string concatenation.
pub open spec fn display(h: spec_fn(SHostCall) -> SHostReply, funcs: Seq<SFunc>, v: SValue) -> Seq<char> {
    match v {
        SValue::Number(n) => text_of(h(SHostCall::Format(n))),
        SValue::Str(s) => s,
        SValue::Boolean(b) => if b { "true"@ } else { "false"@ },
        SValue::Nil => "nil"@,
        SValue::Function(id) => if id < funcs.len() {
            "<fn "@ + funcs[id as int].name + ">"@
        } else {
            "<fn>"@
        },
    }
}

/// `==`: numbers as doubles, strings by their text, functions by identity; values of
/// different kinds are never equal.
pub open spec fn values_equal(h: spec_fn(SHostCall) -> SHostReply, l: SValue, r: SValue) -> bool {
    match (l, r) {
        (SValue::Number(a), SValue::Number(b)) => bool_of(h(SHostCall::Binary(BinaryOp::Equal, a, b))),
        (SValue::Str(a), SValue::Str(b)) => a == b,
        (SValue::Boolean(a), SValue::Boolean(b)) => a == b,
        (SValue::Nil, SValue::Nil) => true,
        (SValue::Function(a), SValue::Function(b)) => a == b,
        _ => false,
    }
}

/// The symbol of an operator.
pub open spec fn op_symbol(op: BinaryOp) -> Seq<char> {
    match op {
        BinaryOp::Add => "+"@,
        BinaryOp::Sub => "-"@,
        BinaryOp::Mul => "*"@,
        BinaryOp::Div => "/"@,
        BinaryOp::Mod => "%"@,
        BinaryOp::Equal => "=="@,
        BinaryOp::NotEqual => "!="@,
        BinaryOp::Less => "<"@,
        BinaryOp::LessEqual => "<="@,
        BinaryOp::Greater => ">"@,
        BinaryOp::GreaterEqual => ">="@,
    }
}

/// Whether an operator is `+ - * / %`.
pub open spec fn arithmetic(op: BinaryOp) -> bool {
    op == BinaryOp::Add || op == BinaryOp::Sub || op == BinaryOp::Mul || op == BinaryOp::Div || op
        == BinaryOp::Mod
}

/// A binary operator applied to two values. `+` adds numbers and concatenates when
/// either side is a string; the other arithmetic operators and the comparisons take
/// numbers only.
pub open spec fn binary(h: spec_fn(SHostCall) -> SHostReply, funcs: Seq<SFunc>, op: BinaryOp, l: SValue, r: SValue) -> Result<SValue, Seq<char>> {
    if op == BinaryOp::Equal {
        Ok(SValue::Boolean(values_equal(h, l, r)))
    } else if op == BinaryOp::NotEqual {
        Ok(SValue::Boolean(!values_equal(h, l, r)))
    } else {
        match (l, r) {
            (SValue::Number(a), SValue::Number(b)) => if arithmetic(op) {
                Ok(SValue::Number(num_of(h(SHostCall::Binary(op, a, b)))))
            } else {
                Ok(SValue::Boolean(bool_of(h(SHostCall::Binary(op, a, b)))))
            },
            _ => if op == BinaryOp::Add && (l is Str || r is Str) {
                Ok(SValue::Str(display(h, funcs, l) + display(h, funcs, r)))
            } else if op == BinaryOp::Add {
                Err("Operands for '+' must be numbers or strings"@)
            } else {
                Err("Operands for '"@ + op_symbol(op) + "' must be numbers"@)
            },
        }
    }
}

/// The message for a call with the wrong number of arguments.
pub open spec fn arity_msg(expected: nat, got: nat) -> Seq<char> {
    "Expected "@ + decimal(expected) + " arguments but got "@ + decimal(got)
}

/// Binds the parameters from `k` on to the arguments, in frame `fr`.
pub open spec fn bind_params(frames: Seq<SFrame>, fr: usize, params: Seq<Seq<char>>, args: Seq<SValue>, k: int) -> Seq<SFrame>
    decreases params.len() - k,
{
    if k < 0 || k >= params.len() || k >= args.len() {
        frames
    } else {
        bind_params(define_in(frames, fr as int, params[k], args[k]), fr, params, args, k + 1)
    }
}

// ==================== the semantics ====================

/// Evaluating an expression in frame `fr`.
pub open spec fn eval(h: spec_fn(SHostCall) -> SHostReply, st: SState, fr: usize, e: SExpr, fuel: nat) -> EvalOut
    decreases fuel,
{
    if fuel == 0 {
        (st, Err(limit_msg()))
    } else {
        let f = (fuel - 1) as nat;
        match e {
            SExpr::Literal(l) => match l {
                SLiteral::Number(t) => (st, Ok(SValue::Number(num_of(h(SHostCall::Parse(t)))))),
                SLiteral::Str(s) => (st, Ok(SValue::Str(s))),
                SLiteral::Boolean(b) => (st, Ok(SValue::Boolean(b))),
                SLiteral::Nil => (st, Ok(SValue::Nil)),
            },
            SExpr::Variable(n) => match lookup(st.frames, fr as int, n) {
                Some(v) => (st, Ok(v)),
                None => (st, Err(undefined_msg(n))),
            },
            SExpr::Grouping(inner) => eval(h, st, fr, *inner, f),
            SExpr::Assign { name, value } => {
                let (s1, r) = eval(h, st, fr, *value, f);
                match r {
                    Err(m) => (s1, Err(m)),
                    Ok(v) => match assign_in(s1.frames, fr as int, name, v) {
                        Some(fs) => (with_frames(s1, fs), Ok(v)),
                        None => (s1, Err(undefined_msg(name))),
                    },
                }
            },
            SExpr::Unary { operator, right } => {
                let (s1, r) = eval(h, st, fr, *right, f);
                match r {
                    Err(m) => (s1, Err(m)),
                    Ok(v) => if operator == UnaryOp::Not {
                        (s1, Ok(SValue::Boolean(!truthy(v))))
                    } else {
                        match v {
                            SValue::Number(n) => (s1, Ok(SValue::Number(num_of(h(SHostCall::Negate(n)))))),
                            _ => (s1, Err("Negation requires number"@)),
                        }
                    },
                }
            },
            SExpr::Binary { left, operator, right } => {
                let (s1, r1) = eval(h, st, fr, *left, f);
                match r1 {
                    Err(m) => (s1, Err(m)),
                    Ok(l) => {
                        let (s2, r2) = eval(h, s1, fr, *right, f);
                        match r2 {
                            Err(m) => (s2, Err(m)),
                            Ok(r) => (s2, binary(h, s2.funcs, operator, l, r)),
                        }
                    },
                }
            },
            SExpr::Logical { left, operator, right } => {
                let (s1, r1) = eval(h, st, fr, *left, f);
                match r1 {
                    Err(m) => (s1, Err(m)),
                    Ok(l) => if (operator == LogicalOp::And) != truthy(l) {
                        (s1, Ok(l))
                    } else {
                        eval(h, s1, fr, *right, f)
                    },
                }
            },
            SExpr::Call { callee, arguments } => {
                let (s1, r1) = eval(h, st, fr, *callee, f);
                match r1 {
                    Err(m) => (s1, Err(m)),
                    Ok(c) => {
                        let (s2, r2) = eval_args(h, s1, fr, arguments, 0, Seq::empty(), f);
                        match r2 {
                            Err(m) => (s2, Err(m)),
                            Ok(args) => call(h, s2, c, args, f),
                        }
                    },
                }
            },
        }
    }
}

/// Evaluating the arguments from the `i`-th on, left to right, after the values `acc`.
pub open spec fn eval_args(
    h: spec_fn(SHostCall) -> SHostReply,
    st: SState,
    fr: usize,
    args: Seq<SExpr>,
    i: int,
    acc: Seq<SValue>,
    fuel: nat,
) -> (SState, Result<Seq<SValue>, Seq<char>>)
    decreases fuel,
{
    if fuel == 0 {
        (st, Err(limit_msg()))
    } else if i < 0 || i >= args.len() {
        (st, Ok(acc))
    } else {
        let f = (fuel - 1) as nat;
        let (s1, r) = eval(h, st, fr, args[i], f);
        match r {
            Err(m) => (s1, Err(m)),
            Ok(v) => eval_args(h, s1, fr, args, i + 1, acc.push(v), f),
        }
    }
}

/// Calling a value with arguments: the body runs in a new frame inside the frame the
/// function was defined in, with the parameters bound; the call's value is what the
/// body returns, or nil.
pub open spec fn call(h: spec_fn(SHostCall) -> SHostReply, st: SState, c: SValue, args: Seq<SValue>, fuel: nat) -> EvalOut
    decreases fuel,
{
    if fuel == 0 {
        (st, Err(limit_msg()))
    } else {
        match c {
            SValue::Function(id) => if id >= st.funcs.len() {
                (st, Err("Can only call functions"@))
            } else {
                let func = st.funcs[id as int];
                if args.len() != func.params.len() {
                    (st, Err(arity_msg(func.params.len(), args.len())))
                } else if st.frames.len() >= usize::MAX || func.closure >= st.frames.len() {
                    (st, Err(limit_msg()))
                } else {
                    let nf = st.frames.len() as usize;
                    let fs = bind_params(push_frame(st.frames, func.closure), nf, func.params, args, 0);
                    let (s1, r) = exec_block(h, with_frames(st, fs), nf, func.body, 0, (fuel - 1) as nat);
                    let s2 = release(st, s1);
                    match r {
                        Err(m) => (s2, Err(m)),
                        Ok(SFlow::Return(v)) => (s2, Ok(v)),
                        Ok(SFlow::Normal) => (s2, Ok(SValue::Nil)),
                        Ok(SFlow::Break) => (s2, Err(break_msg())),
                        Ok(SFlow::Continue) => (s2, Err(continue_msg())),
                    }
                }
            },
            _ => (st, Err("Can only call functions"@)),
        }
    }
}

/// The message for a `break` that no loop encloses.
pub open spec fn break_msg() -> Seq<char> {
    "'break' outside of loop"@
}

/// The message for a `continue` that no loop encloses.
pub open spec fn continue_msg() -> Seq<char> {
    "'continue' outside of loop"@
}

/// The message for a `return` that no function encloses.
pub open spec fn return_msg() -> Seq<char> {
    "Unexpected return outside function"@
}

/// Executing a statement in frame `fr`.
pub open spec fn exec(h: spec_fn(SHostCall) -> SHostReply, st: SState, fr: usize, s: SStmt, fuel: nat) -> ExecOut
    decreases fuel,
{
    if fuel == 0 {
        (st, Err(limit_msg()))
    } else {
        let f = (fuel - 1) as nat;
        match s {
            SStmt::Let { name, initializer } => {
                let (s1, r) = eval(h, st, fr, initializer, f);
                match r {
                    Err(m) => (s1, Err(m)),
                    Ok(v) => if fr >= s1.frames.len() {
                        (s1, Err(limit_msg()))
                    } else {
                        (with_frames(s1, define_in(s1.frames, fr as int, name, v)), Ok(SFlow::Normal))
                    },
                }
            },
            SStmt::Assign { name, value } => {
                let (s1, r) = eval(h, st, fr, value, f);
                match r {
                    Err(m) => (s1, Err(m)),
                    Ok(v) => match assign_in(s1.frames, fr as int, name, v) {
                        Some(fs) => (with_frames(s1, fs), Ok(SFlow::Normal)),
                        None => (s1, Err(undefined_msg(name))),
                    },
                }
            },
            SStmt::Print(e) => {
                let (s1, r) = eval(h, st, fr, e, f);
                match r {
                    Err(m) => (s1, Err(m)),
                    Ok(v) => (
                        SState { out: s1.out.push(SHostCall::Print(display(h, s1.funcs, v))), ..s1 },
                        Ok(SFlow::Normal),
                    ),
                }
            },
            SStmt::If { condition, then_branch, else_branch } => {
                let (s1, r) = eval(h, st, fr, condition, f);
                match r {
                    Err(m) => (s1, Err(m)),
                    Ok(v) => if truthy(v) {
                        exec_scoped(h, s1, fr, then_branch, f)
                    } else {
                        match else_branch {
                            Some(b) => exec_scoped(h, s1, fr, b, f),
                            None => (s1, Ok(SFlow::Normal)),
                        }
                    },
                }
            },
            SStmt::While { condition, body } => exec_while(h, st, fr, condition, body, f),
            SStmt::For { initializer, condition, increment, body } => if st.frames.len() >= usize::MAX || fr >= st.frames.len() {
                (st, Err(limit_msg()))
            } else {
                let lf = st.frames.len() as usize;
                let s1 = with_frames(st, push_frame(st.frames, fr));
                let (s2, r) = match initializer {
                    Some(init) => exec(h, s1, lf, *init, f),
                    None => (s1, Ok(SFlow::Normal)),
                };
                let (s3, r3) = match r {
                    Err(m) => (s2, Err(m)),
                    Ok(SFlow::Normal) => exec_for(h, s2, lf, condition, increment, body, f),
                    Ok(flow) => (s2, Ok(flow)),
                };
                (release(st, s3), r3)
            },
            SStmt::Block(b) => exec_scoped(h, st, fr, b, f),
            SStmt::Function { name, params, body } => if st.funcs.len() >= usize::MAX || fr >= st.frames.len() {
                (st, Err(limit_msg()))
            } else {
                let id = st.funcs.len() as usize;
                let s1 = SState { funcs: st.funcs.push(SFunc { name, params, body, closure: fr }), ..st };
                (with_frames(s1, define_in(s1.frames, fr as int, name, SValue::Function(id))), Ok(SFlow::Normal))
            },
            SStmt::Return(e) => {
                let (s1, r) = eval(h, st, fr, e, f);
                match r {
                    Err(m) => (s1, Err(m)),
                    Ok(v) => (s1, Ok(SFlow::Return(v))),
                }
            },
            SStmt::Break => (st, Ok(SFlow::Break)),
            SStmt::Continue => (st, Ok(SFlow::Continue)),
            SStmt::Expression(e) => {
                let (s1, r) = eval(h, st, fr, e, f);
                match r {
                    Err(m) => (s1, Err(m)),
                    Ok(_) => (s1, Ok(SFlow::Normal)),
                }
            },
        }
    }
}

/// Executing the statements from the `i`-th on, in frame `fr`, until one ends other
/// than normally.
pub open spec fn exec_block(h: spec_fn(SHostCall) -> SHostReply, st: SState, fr: usize, ss: Seq<SStmt>, i: int, fuel: nat) -> ExecOut
    decreases fuel,
{
    if fuel == 0 {
        (st, Err(limit_msg()))
    } else if i < 0 || i >= ss.len() {
        (st, Ok(SFlow::Normal))
    } else {
        let f = (fuel - 1) as nat;
        let (s1, r) = exec(h, st, fr, ss[i], f);
        match r {
            Ok(SFlow::Normal) => exec_block(h, s1, fr, ss, i + 1, f),
            _ => (s1, r),
        }
    }
}

/// Executing statements in a new frame inside frame `fr`, released at the end.
pub open spec fn exec_scoped(h: spec_fn(SHostCall) -> SHostReply, st: SState, fr: usize, ss: Seq<SStmt>, fuel: nat) -> ExecOut
    decreases fuel,
{
    if fuel == 0 || st.frames.len() >= usize::MAX || fr >= st.frames.len() {
        (st, Err(limit_msg()))
    } else {
        let (s1, r) = exec_block(h, with_frames(st, push_frame(st.frames, fr)), st.frames.len() as usize, ss, 0, (fuel - 1) as nat);
        (release(st, s1), r)
    }
}

/// A `while` loop: the body, in a scope of its own, runs while the condition is true;
/// `break` ends the loop, `continue` goes on with the next round.
pub open spec fn exec_while(
    h: spec_fn(SHostCall) -> SHostReply,
    st: SState,
    fr: usize,
    cond: SExpr,
    body: Seq<SStmt>,
    fuel: nat,
) -> ExecOut
    decreases fuel,
{
    if fuel == 0 {
        (st, Err(limit_msg()))
    } else {
        let f = (fuel - 1) as nat;
        let (s1, r) = eval(h, st, fr, cond, f);
        match r {
            Err(m) => (s1, Err(m)),
            Ok(v) => if !truthy(v) {
                (s1, Ok(SFlow::Normal))
            } else {
                let (s2, rb) = exec_scoped(h, s1, fr, body, f);
                match rb {
                    Err(m) => (s2, Err(m)),
                    Ok(SFlow::Break) => (s2, Ok(SFlow::Normal)),
                    Ok(SFlow::Return(v)) => (s2, Ok(SFlow::Return(v))),
                    Ok(_) => exec_while(h, s2, fr, cond, body, f),
                }
            },
        }
    }
}

/// The rounds of a `for` loop in its frame `lf`: the condition (true when absent), the
/// body in a scope of its own, then the increment; `continue` goes on to the increment.
pub open spec fn exec_for(
    h: spec_fn(SHostCall) -> SHostReply,
    st: SState,
    lf: usize,
    cond: Option<SExpr>,
    inc: Option<SExpr>,
    body: Seq<SStmt>,
    fuel: nat,
) -> ExecOut
    decreases fuel,
{
    if fuel == 0 {
        (st, Err(limit_msg()))
    } else {
        let f = (fuel - 1) as nat;
        let (s1, r) = match cond {
            Some(c) => eval(h, st, lf, c, f),
            None => (st, Ok(SValue::Boolean(true))),
        };
        match r {
            Err(m) => (s1, Err(m)),
            Ok(v) => if !truthy(v) {
                (s1, Ok(SFlow::Normal))
            } else {
                let (s2, rb) = exec_scoped(h, s1, lf, body, f);
                match rb {
                    Err(m) => (s2, Err(m)),
                    Ok(SFlow::Break) => (s2, Ok(SFlow::Normal)),
                    Ok(SFlow::Return(v)) => (s2, Ok(SFlow::Return(v))),
                    Ok(_) => {
                        let (s3, ri) = match inc {
                            Some(e) => eval(h, s2, lf, e, f),
                            None => (s2, Ok(SValue::Nil)),
                        };
                        match ri {
                            Err(m) => (s3, Err(m)),
                            Ok(_) => exec_for(h, s3, lf, cond, inc, body, f),
                        }
                    },
                }
            },
        }
    }
}

/// Running a program's statements in the global frame: a `break`, `continue` or
/// `return` that reaches the top is an error.
pub open spec fn run_program(h: spec_fn(SHostCall) -> SHostReply, st: SState, ss: Seq<SStmt>, fuel: nat) -> (SState, Result<(), Seq<char>>) {
    let (s1, r) = exec_block(h, st, 0, ss, 0, fuel);
    match r {
        Err(m) => (s1, Err(m)),
        Ok(SFlow::Normal) => (s1, Ok(())),
        Ok(SFlow::Break) => (s1, Err(break_msg())),
        Ok(SFlow::Continue) => (s1, Err(continue_msg())),
        Ok(SFlow::Return(_)) => (s1, Err(return_msg())),
    }
}

// ==================== the interpreter ====================

/// A function defined by the program: parts of its definition, and the frame it was
/// defined in.
struct Function<'a> {
    name: &'a String,
    params: &'a Vec<String>,
    body: &'a Vec<Stmt>,
    closure: usize,
}

impl<'a> View for Function<'a> {
    type V = SFunc;

    closed spec fn view(&self) -> SFunc {
        SFunc {
            name: self.name@,
            params: self.params@.map_values(|p: String| p@),
            body: stmts_view(self.body@),
            closure: self.closure,
        }
    }
}

/// How a statement ended.
enum Flow {
    Normal,
    Break,
    Continue,
    Return(Value),
}

/// What a statement's ending is.
spec fn flow_view(f: Flow) -> SFlow {
    match f {
        Flow::Normal => SFlow::Normal,
        Flow::Break => SFlow::Break,
        Flow::Continue => SFlow::Continue,
        Flow::Return(v) => SFlow::Return(v@),
    }
}

/// What an evaluation returned.
pub open spec fn value_res(r: Result<Value, String>) -> Result<SValue, Seq<char>> {
    match r {
        Ok(v) => Ok(v@),
        Err(e) => Err(e@),
    }
}

/// What a statement's execution returned.
spec fn flow_res(r: Result<Flow, String>) -> Result<SFlow, Seq<char>> {
    match r {
        Ok(f) => Ok(flow_view(f)),
        Err(e) => Err(e@),
    }
}

/// What an argument list's evaluation returned.
spec fn values_res(r: Result<Vec<Value>, String>) -> Result<Seq<SValue>, Seq<char>> {
    match r {
        Ok(vs) => Ok(vs@.map_values(|v: Value| v@)),
        Err(e) => Err(e@),
    }
}

/// The view of an optional expression.
pub open spec fn opt_view(e: Option<Expr>) -> Option<SExpr> {
    match e {
        Some(x) => Some(x@),
        None => None,
    }
}

/// What a run returned.
pub open spec fn unit_res(r: Result<(), String>) -> Result<(), Seq<char>> {
    match r {
        Ok(()) => Ok(()),
        Err(e) => Err(e@),
    }
}

/// The state of a new interpreter: one empty global frame, no functions, no output.
pub open spec fn initial_state() -> SState {
    SState { frames: seq![SFrame { vars: Seq::empty(), parent: None }], funcs: Seq::empty(), out: Seq::empty() }
}

/// The message for running out of fuel or room.
fn limit_error() -> (e: String)
    ensures
        e@ == limit_msg(),
{
    crate::text::string_of("Resource limit exceeded")
}

/// The message for calling what is not a function.
fn not_callable_error() -> (e: String)
    ensures
        e@ == "Can only call functions"@,
{
    crate::text::string_of("Can only call functions")
}

/// The number in an answer.
fn number_of(r: HostReply) -> (n: u64)
    ensures
        n == num_of(r@),
{
    match r {
        HostReply::Number(n) => n,
        _ => 0,
    }
}

/// The boolean in an answer.
fn boolean_of(r: HostReply) -> (b: bool)
    ensures
        b == bool_of(r@),
{
    match r {
        HostReply::Boolean(b) => b,
        _ => false,
    }
}

/// The text in an answer.
fn text_reply(r: HostReply) -> (t: String)
    ensures
        t@ == text_of(r@),
{
    match r {
        HostReply::Text(t) => t,
        _ => String::new(),
    }
}

/// The symbol of an operator.
fn symbol(op: BinaryOp) -> (s: &'static str)
    ensures
        s@ == op_symbol(op),
{
    match op {
        BinaryOp::Add => "+",
        BinaryOp::Sub => "-",
        BinaryOp::Mul => "*",
        BinaryOp::Div => "/",
        BinaryOp::Mod => "%",
        BinaryOp::Equal => "==",
        BinaryOp::NotEqual => "!=",
        BinaryOp::Less => "<",
        BinaryOp::LessEqual => "<=",
        BinaryOp::Greater => ">",
        BinaryOp::GreaterEqual => ">=",
    }
}

/// Whether an operator is `+ - * / %`.
fn is_arithmetic(op: BinaryOp) -> (b: bool)
    ensures
        b == arithmetic(op),
{
    op == BinaryOp::Add || op == BinaryOp::Sub || op == BinaryOp::Mul || op == BinaryOp::Div || op
        == BinaryOp::Mod
}

/// The message for a call with the wrong number of arguments.
fn arity_error(expected: usize, got: usize) -> (e: String)
    ensures
        e@ == arity_msg(expected as nat, got as nat),
{
    let mut e = crate::text::string_of("Expected ");
    crate::text::append_decimal(&mut e, expected);
    crate::text::append_str(&mut e, " arguments but got ");
    crate::text::append_decimal(&mut e, got);
    e
}

/// A tree-walking interpreter: the scopes, the functions defined so far, and (as a
/// ghost) the log of the `Print` requests it has handed to the host.
pub struct Interpreter<'a> {
    env: Environment,
    funcs: Vec<Function<'a>>,
    out: Ghost<Seq<SHostCall>>,
}

impl<'a> View for Interpreter<'a> {
    type V = SState;

    closed spec fn view(&self) -> SState {
        SState { frames: self.env@, funcs: self.funcs@.map_values(|f: Function<'a>| f@), out: self.out@ }
    }
}

impl<'a> Interpreter<'a> {
    /// An interpreter with an empty global scope.
    pub fn new() -> (i: Interpreter<'a>)
        ensures
            i@ == initial_state(),
    {
        let i = Interpreter { env: Environment::new(), funcs: Vec::new(), out: Ghost(Seq::empty()) };
        assert(i@.funcs =~= Seq::<SFunc>::empty());
        i
    }

    /// The value of a global variable.
    pub fn get(&self, name: &str) -> (r: Result<Value, String>)
        ensures
            match lookup(self@.frames, 0, name@) {
                Some(v) => r matches Ok(x) && x@ == v,
                None => r matches Err(e) && e@ == undefined_msg(name@),
            },
    {
        self.env.get(0, name)
    }

    /// How a value is shown by `print`: a number as the host formats it, a string as
    /// itself, `true`, `false`, `nil`, and a function as `<fn name>`.
    pub fn display<F: Fn(HostCall) -> HostReply>(&self, host: &F, v: &Value) -> (s: String)
        requires
            host_ok(*host),
        ensures
            s@ == display(answers(*host), self@.funcs, v@),
    {
        match v {
            Value::Number(n) => text_reply(ask(host, HostCall::Format(*n))),
            Value::String(t) => t.clone(),
            Value::Boolean(b) => if *b {
                crate::text::string_of("true")
            } else {
                crate::text::string_of("false")
            },
            Value::Nil => crate::text::string_of("nil"),
            Value::Function(id) => {
                if *id < self.funcs.len() {
                    let mut s = crate::text::string_of("<fn ");
                    crate::text::append_str(&mut s, self.funcs[*id].name.as_str());
                    crate::text::append_str(&mut s, ">");
                    assert(self@.funcs[*id as int] == self.funcs@[*id as int]@);
                    s
                } else {
                    crate::text::string_of("<fn>")
                }
            },
        }
    }

    /// `==` on two values.
    fn equal<F: Fn(HostCall) -> HostReply>(host: &F, l: &Value, r: &Value) -> (b: bool)
        requires
            host_ok(*host),
        ensures
            b == values_equal(answers(*host), l@, r@),
    {
        match (l, r) {
            (Value::Number(a), Value::Number(b)) => boolean_of(ask(host, HostCall::Binary(BinaryOp::Equal, *a, *b))),
            (Value::String(a), Value::String(b)) => *a == *b,
            (Value::Boolean(a), Value::Boolean(b)) => *a == *b,
            (Value::Nil, Value::Nil) => true,
            (Value::Function(a), Value::Function(b)) => *a == *b,
            _ => false,
        }
    }

    /// A binary operator applied to two values.
    fn binary<F: Fn(HostCall) -> HostReply>(&self, host: &F, op: BinaryOp, l: Value, r: Value) -> (res: Result<Value, String>)
        requires
            host_ok(*host),
        ensures
            value_res(res) == binary(answers(*host), self@.funcs, op, l@, r@),
    {
        if op == BinaryOp::Equal {
            return Ok(Value::Boolean(Self::equal(host, &l, &r)));
        }
        if op == BinaryOp::NotEqual {
            return Ok(Value::Boolean(!Self::equal(host, &l, &r)));
        }
        match (&l, &r) {
            (Value::Number(a), Value::Number(b)) => {
                let reply = ask(host, HostCall::Binary(op, *a, *b));
                if is_arithmetic(op) {
                    Ok(Value::Number(number_of(reply)))
                } else {
                    Ok(Value::Boolean(boolean_of(reply)))
                }
            },
            _ => {
                let l_str = match &l {
                    Value::String(_) => true,
                    _ => false,
                };
                let r_str = match &r {
                    Value::String(_) => true,
                    _ => false,
                };
                if op == BinaryOp::Add && (l_str || r_str) {
                    let mut s = self.display(host, &l);
                    let t = self.display(host, &r);
                    crate::text::append_str(&mut s, t.as_str());
                    Ok(Value::String(s))
                } else if op == BinaryOp::Add {
                    Err(crate::text::string_of("Operands for '+' must be numbers or strings"))
                } else {
                    let mut e = crate::text::string_of("Operands for '");
                    crate::text::append_str(&mut e, symbol(op));
                    crate::text::append_str(&mut e, "' must be numbers");
                    Err(e)
                }
            },
        }
    }

    /// Evaluates an expression in frame `fr`.
    fn eval_expr<F: Fn(HostCall) -> HostReply>(&mut self, host: &F, fr: usize, e: &Expr, fuel: u64) -> (r: Result<Value, String>)
        requires
            host_ok(*host),
        ensures
            final(self)@ == eval(answers(*host), old(self)@, fr, e@, fuel as nat).0,
            value_res(r) == eval(answers(*host), old(self)@, fr, e@, fuel as nat).1,
        decreases fuel,
    {
        if fuel == 0 {
            return Err(limit_error());
        }
        let f = fuel - 1;
        match e {
            Expr::Literal(l) => match l {
                Literal::Number(t) => Ok(Value::Number(number_of(ask(host, HostCall::Parse(t.clone()))))),
                Literal::String(t) => Ok(Value::String(t.clone())),
                Literal::Boolean(b) => Ok(Value::Boolean(*b)),
                Literal::Nil => Ok(Value::Nil),
            },
            Expr::Variable(n) => self.env.get(fr, n.as_str()),
            Expr::Grouping(inner) => self.eval_expr(host, fr, inner, f),
            Expr::Assign { name, value } => {
                let v = self.eval_expr(host, fr, value, f)?;
                let w = copy_value(&v);
                self.env.assign(fr, name.as_str(), w)?;
                Ok(v)
            },
            Expr::Unary { operator, right } => {
                let v = self.eval_expr(host, fr, right, f)?;
                if *operator == UnaryOp::Not {
                    Ok(Value::Boolean(!is_truthy(&v)))
                } else {
                    match v {
                        Value::Number(n) => Ok(Value::Number(number_of(ask(host, HostCall::Negate(n))))),
                        _ => Err(crate::text::string_of("Negation requires number")),
                    }
                }
            },
            Expr::Binary { left, operator, right } => {
                let l = self.eval_expr(host, fr, left, f)?;
                let r = self.eval_expr(host, fr, right, f)?;
                self.binary(host, *operator, l, r)
            },
            Expr::Logical { left, operator, right } => {
                let l = self.eval_expr(host, fr, left, f)?;
                if (*operator == LogicalOp::And) != is_truthy(&l) {
                    Ok(l)
                } else {
                    self.eval_expr(host, fr, right, f)
                }
            },
            Expr::Call { callee, arguments } => {
                let c = self.eval_expr(host, fr, callee, f)?;
                let args = self.eval_args(host, fr, arguments, f)?;
                self.call(host, c, args, f)
            },
        }
    }

    /// Evaluates arguments left to right.
    fn eval_args<F: Fn(HostCall) -> HostReply>(&mut self, host: &F, fr: usize, args: &Vec<Expr>, fuel: u64) -> (r: Result<Vec<Value>, String>)
        requires
            host_ok(*host),
        ensures
            final(self)@ == eval_args(answers(*host), old(self)@, fr, exprs_view(args@), 0, Seq::empty(), fuel as nat).0,
            values_res(r) == eval_args(answers(*host), old(self)@, fr, exprs_view(args@), 0, Seq::empty(), fuel as nat).1,
        decreases fuel,
    {
        let ghost h = answers(*host);
        let ghost av = exprs_view(args@);
        let ghost target = eval_args(h, self@, fr, av, 0, Seq::empty(), fuel as nat);
        let mut vals: Vec<Value> = Vec::new();
        let mut i: usize = 0;
        let mut f = fuel;
        assert(vals@.map_values(|v: Value| v@) =~= Seq::<SValue>::empty());
        loop
            invariant
                host_ok(*host),
                h == answers(*host),
                av == exprs_view(args@),
                i <= args@.len(),
                f <= fuel,
                eval_args(h, self@, fr, av, i as int, vals@.map_values(|v: Value| v@), f as nat) == target,
                target == eval_args(h, old(self)@, fr, av, 0, Seq::empty(), fuel as nat),
            decreases f,
        {
            if f == 0 {
                return Err(limit_error());
            }
            if i >= args.len() {
                return Ok(vals);
            }
            let ghost before = vals@.map_values(|v: Value| v@);
            assert(av[i as int] == args@[i as int]@);
            let v = self.eval_expr(host, fr, &args[i], f - 1)?;
            let ghost vv = v@;
            vals.push(v);
            assert(vals@.map_values(|v: Value| v@) =~= before.push(vv));
            i += 1;
            f -= 1;
        }
    }

    /// Calls a value with arguments.
    fn call<F: Fn(HostCall) -> HostReply>(&mut self, host: &F, c: Value, args: Vec<Value>, fuel: u64) -> (r: Result<Value, String>)
        requires
            host_ok(*host),
        ensures
            final(self)@ == call(answers(*host), old(self)@, c@, args@.map_values(|v: Value| v@), fuel as nat).0,
            value_res(r) == call(answers(*host), old(self)@, c@, args@.map_values(|v: Value| v@), fuel as nat).1,
        decreases fuel,
    {
        if fuel == 0 {
            return Err(limit_error());
        }
        let id = match c {
            Value::Function(id) => id,
            _ => {
                return Err(not_callable_error());
            },
        };
        if id >= self.funcs.len() {
            return Err(not_callable_error());
        }
        let params: &'a Vec<String> = self.funcs[id].params;
        let body: &'a Vec<Stmt> = self.funcs[id].body;
        let closure = self.funcs[id].closure;
        let ghost func = self@.funcs[id as int];
        assert(func == self.funcs@[id as int]@);
        if args.len() != params.len() {
            return Err(arity_error(params.len(), args.len()));
        }
        if self.env.len() == usize::MAX || closure >= self.env.len() {
            return Err(limit_error());
        }
        let ghost st0 = self@;
        let funcs = self.funcs.len();
        let nf = self.env.new_with_parent(closure);
        let ghost h = answers(*host);
        let ghost argv = args@.map_values(|v: Value| v@);
        let ghost target = bind_params(self@.frames, nf, func.params, argv, 0);
        assert(self@.frames == push_frame(st0.frames, func.closure));
        let mut k: usize = 0;
        while k < params.len()
            invariant
                self@.funcs == st0.funcs,
                self@.out == st0.out,
                k <= params@.len(),
                nf < self@.frames.len(),
                params@.len() == args@.len(),
                func.params == params@.map_values(|p: String| p@),
                argv == args@.map_values(|v: Value| v@),
                bind_params(self@.frames, nf, func.params, argv, k as int) == target,
            decreases params@.len() - k,
        {
            let ghost fs = self@.frames;
            self.env.define(nf, params[k].clone(), copy_value(&args[k]));
            assert(self@.frames == define_in(fs, nf as int, func.params[k as int], argv[k as int]));
            k += 1;
        }
        assert(self@ == with_frames(st0, target));
        assert(func.body == stmts_view(body@));
        let r = self.exec_block(host, nf, body.as_slice(), fuel - 1);
        self.release_scope(nf, funcs);
        match r {
            Err(m) => Err(m),
            Ok(Flow::Return(v)) => Ok(v),
            Ok(Flow::Normal) => Ok(Value::Nil),
            Ok(Flow::Break) => Err(crate::text::string_of("'break' outside of loop")),
            Ok(Flow::Continue) => Err(crate::text::string_of("'continue' outside of loop")),
        }
    }

    /// Leaves a scope that began when there were `frames` frames and `funcs` functions:
    /// see `release`.
    fn release_scope(&mut self, frames: usize, funcs: usize)
        ensures
            forall|before: SState| before.frames.len() == frames && before.funcs.len() == funcs
                ==> final(self)@ == release(before, old(self)@),
    {
        if self.funcs.len() == funcs && frames <= self.env.len() {
            self.env.truncate(frames);
        }
    }

    /// Hands an output request to the host and logs it: the log holds exactly the
    /// requests this method passed to the host, in order.
    fn send<F: Fn(HostCall) -> HostReply>(&mut self, host: &F, c: HostCall)
        requires
            host_ok(*host),
        ensures
            final(self)@ == (SState { out: old(self)@.out.push(c@), ..old(self)@ }),
    {
        let ghost cg = c;
        let _ = host(c);
        proof {
            self.out@ = self.out@.push(cg@);
        }
    }

    /// Executes a statement in frame `fr`.
    fn exec_stmt<F: Fn(HostCall) -> HostReply>(&mut self, host: &F, fr: usize, s: &'a Stmt, fuel: u64) -> (r: Result<Flow, String>)
        requires
            host_ok(*host),
        ensures
            final(self)@ == exec(answers(*host), old(self)@, fr, s@, fuel as nat).0,
            flow_res(r) == exec(answers(*host), old(self)@, fr, s@, fuel as nat).1,
        decreases fuel,
    {
        if fuel == 0 {
            return Err(limit_error());
        }
        let f = fuel - 1;
        match s {
            Stmt::Let { name, initializer } => {
                let v = self.eval_expr(host, fr, initializer, f)?;
                if fr >= self.env.len() {
                    return Err(limit_error());
                }
                self.env.define(fr, name.clone(), v);
                Ok(Flow::Normal)
            },
            Stmt::Assign { name, value } => {
                let v = self.eval_expr(host, fr, value, f)?;
                self.env.assign(fr, name.as_str(), v)?;
                Ok(Flow::Normal)
            },
            Stmt::Print(e) => {
                let v = self.eval_expr(host, fr, e, f)?;
                let line = self.display(host, &v);
                self.send(host, HostCall::Print(line));
                Ok(Flow::Normal)
            },
            Stmt::If { condition, then_branch, else_branch } => {
                let v = self.eval_expr(host, fr, condition, f)?;
                if is_truthy(&v) {
                    self.exec_scoped(host, fr, then_branch.as_slice(), f)
                } else {
                    match else_branch {
                        Some(b) => self.exec_scoped(host, fr, b.as_slice(), f),
                        None => Ok(Flow::Normal),
                    }
                }
            },
            Stmt::While { condition, body } => self.exec_while(host, fr, condition, body.as_slice(), f),
            Stmt::For { initializer, condition, increment, body } => {
                if self.env.len() == usize::MAX || fr >= self.env.len() {
                    return Err(limit_error());
                }
                let funcs = self.funcs.len();
                let lf = self.env.new_with_parent(fr);
                let r = match initializer {
                    Some(init) => self.exec_stmt(host, lf, init, f),
                    None => Ok(Flow::Normal),
                };
                let r = match r {
                    Err(m) => Err(m),
                    Ok(Flow::Normal) => self.exec_for(host, lf, condition, increment, body.as_slice(), f),
                    Ok(flow) => Ok(flow),
                };
                self.release_scope(lf, funcs);
                r
            },
            Stmt::Block(b) => self.exec_scoped(host, fr, b.as_slice(), f),
            Stmt::Function { name, params, body } => {
                if self.funcs.len() == usize::MAX || fr >= self.env.len() {
                    return Err(limit_error());
                }
                let id = self.funcs.len();
                let ghost fs = self@.funcs;
                self.funcs.push(Function { name, params, body, closure: fr });
                assert(self@.funcs =~= fs.push(SFunc { name: name@, params: params@.map_values(|p: String| p@), body: stmts_view(body@), closure: fr }));
                self.env.define(fr, name.clone(), Value::Function(id));
                Ok(Flow::Normal)
            },
            Stmt::Return(e) => {
                let v = self.eval_expr(host, fr, e, f)?;
                Ok(Flow::Return(v))
            },
            Stmt::Break => Ok(Flow::Break),
            Stmt::Continue => Ok(Flow::Continue),
            Stmt::Expression(e) => {
                let _ = self.eval_expr(host, fr, e, f)?;
                Ok(Flow::Normal)
            },
        }
    }

    /// Executes statements in frame `fr` until one ends other than normally.
    fn exec_block<F: Fn(HostCall) -> HostReply>(&mut self, host: &F, fr: usize, ss: &'a [Stmt], fuel: u64) -> (r: Result<Flow, String>)
        requires
            host_ok(*host),
        ensures
            final(self)@ == exec_block(answers(*host), old(self)@, fr, stmts_view(ss@), 0, fuel as nat).0,
            flow_res(r) == exec_block(answers(*host), old(self)@, fr, stmts_view(ss@), 0, fuel as nat).1,
        decreases fuel,
    {
        let ghost h = answers(*host);
        let ghost sv = stmts_view(ss@);
        let ghost target = exec_block(h, self@, fr, sv, 0, fuel as nat);
        let mut i: usize = 0;
        let mut f = fuel;
        loop
            invariant
                host_ok(*host),
                h == answers(*host),
                sv == stmts_view(ss@),
                i <= ss@.len(),
                f <= fuel,
                exec_block(h, self@, fr, sv, i as int, f as nat) == target,
                target == exec_block(h, old(self)@, fr, sv, 0, fuel as nat),
            decreases f,
        {
            if f == 0 {
                return Err(limit_error());
            }
            if i >= ss.len() {
                return Ok(Flow::Normal);
            }
            assert(sv[i as int] == ss@[i as int]@);
            let r = self.exec_stmt(host, fr, &ss[i], f - 1);
            match r {
                Ok(Flow::Normal) => {},
                _ => {
                    return r;
                },
            }
            i += 1;
            f -= 1;
        }
    }

    /// Executes statements in a new frame inside frame `fr`.
    fn exec_scoped<F: Fn(HostCall) -> HostReply>(&mut self, host: &F, fr: usize, ss: &'a [Stmt], fuel: u64) -> (r: Result<Flow, String>)
        requires
            host_ok(*host),
        ensures
            final(self)@ == exec_scoped(answers(*host), old(self)@, fr, stmts_view(ss@), fuel as nat).0,
            flow_res(r) == exec_scoped(answers(*host), old(self)@, fr, stmts_view(ss@), fuel as nat).1,
        decreases fuel,
    {
        if fuel == 0 || self.env.len() == usize::MAX || fr >= self.env.len() {
            return Err(limit_error());
        }
        let funcs = self.funcs.len();
        let inner = self.env.new_with_parent(fr);
        let r = self.exec_block(host, inner, ss, fuel - 1);
        self.release_scope(inner, funcs);
        r
    }

    /// Executes a `while` loop in frame `fr`.
    fn exec_while<F: Fn(HostCall) -> HostReply>(&mut self, host: &F, fr: usize, cond: &'a Expr, body: &'a [Stmt], fuel: u64) -> (r: Result<Flow, String>)
        requires
            host_ok(*host),
        ensures
            final(self)@ == exec_while(answers(*host), old(self)@, fr, cond@, stmts_view(body@), fuel as nat).0,
            flow_res(r) == exec_while(answers(*host), old(self)@, fr, cond@, stmts_view(body@), fuel as nat).1,
        decreases fuel,
    {
        let ghost h = answers(*host);
        let ghost bv = stmts_view(body@);
        let ghost target = exec_while(h, self@, fr, cond@, bv, fuel as nat);
        let mut f = fuel;
        loop
            invariant
                host_ok(*host),
                h == answers(*host),
                bv == stmts_view(body@),
                f <= fuel,
                exec_while(h, self@, fr, cond@, bv, f as nat) == target,
                target == exec_while(h, old(self)@, fr, cond@, bv, fuel as nat),
            decreases f,
        {
            if f == 0 {
                return Err(limit_error());
            }
            let v = self.eval_expr(host, fr, cond, f - 1)?;
            if !is_truthy(&v) {
                return Ok(Flow::Normal);
            }
            let rb = self.exec_scoped(host, fr, body, f - 1);
            match rb {
                Err(m) => {
                    return Err(m);
                },
                Ok(Flow::Break) => {
                    return Ok(Flow::Normal);
                },
                Ok(Flow::Return(v)) => {
                    return Ok(Flow::Return(v));
                },
                _ => {},
            }
            f -= 1;
        }
    }

    /// Executes the rounds of a `for` loop whose frame is `lf`.
    fn exec_for<F: Fn(HostCall) -> HostReply>(
        &mut self,
        host: &F,
        lf: usize,
        cond: &'a Option<Expr>,
        inc: &'a Option<Expr>,
        body: &'a [Stmt],
        fuel: u64,
    ) -> (r: Result<Flow, String>)
        requires
            host_ok(*host),
        ensures
            final(self)@ == exec_for(answers(*host), old(self)@, lf, opt_view(*cond), opt_view(*inc), stmts_view(body@), fuel as nat).0,
            flow_res(r) == exec_for(answers(*host), old(self)@, lf, opt_view(*cond), opt_view(*inc), stmts_view(body@), fuel as nat).1,
        decreases fuel,
    {
        let ghost h = answers(*host);
        let ghost bv = stmts_view(body@);
        let ghost cv = opt_view(*cond);
        let ghost iv = opt_view(*inc);
        let ghost target = exec_for(h, self@, lf, cv, iv, bv, fuel as nat);
        let mut f = fuel;
        loop
            invariant
                host_ok(*host),
                h == answers(*host),
                bv == stmts_view(body@),
                cv == opt_view(*cond),
                iv == opt_view(*inc),
                f <= fuel,
                exec_for(h, self@, lf, cv, iv, bv, f as nat) == target,
                target == exec_for(h, old(self)@, lf, cv, iv, bv, fuel as nat),
            decreases f,
        {
            if f == 0 {
                return Err(limit_error());
            }
            let go = match cond {
                Some(c) => {
                    let v = self.eval_expr(host, lf, c, f - 1)?;
                    is_truthy(&v)
                },
                None => true,
            };
            if !go {
                return Ok(Flow::Normal);
            }
            let rb = self.exec_scoped(host, lf, body, f - 1);
            match rb {
                Err(m) => {
                    return Err(m);
                },
                Ok(Flow::Break) => {
                    return Ok(Flow::Normal);
                },
                Ok(Flow::Return(v)) => {
                    return Ok(Flow::Return(v));
                },
                _ => {},
            }
            match inc {
                Some(e) => {
                    let _ = self.eval_expr(host, lf, e, f - 1)?;
                },
                None => {},
            }
            f -= 1;
        }
    }

    /// Runs a program's statements in the global scope.
    pub fn interpret<F: Fn(HostCall) -> HostReply>(&mut self, stmts: &'a [Stmt], host: &F) -> (r: Result<(), String>)
        requires
            host_ok(*host),
        ensures
            final(self)@ == run_program(answers(*host), old(self)@, stmts_view(stmts@), u64::MAX as nat).0,
            unit_res(r) == run_program(answers(*host), old(self)@, stmts_view(stmts@), u64::MAX as nat).1,
    {
        match self.exec_block(host, 0, stmts, u64::MAX) {
            Err(m) => Err(m),
            Ok(Flow::Normal) => Ok(()),
            Ok(Flow::Break) => Err(crate::text::string_of("'break' outside of loop")),
            Ok(Flow::Continue) => Err(crate::text::string_of("'continue' outside of loop")),
            Ok(Flow::Return(_)) => Err(crate::text::string_of("Unexpected return outside function")),
        }
    }
}

} // verus!
