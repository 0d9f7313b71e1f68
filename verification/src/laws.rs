//! Laws of the semantics: what every step keeps, and what the logical operators and
//! `let` promise.
use vstd::prelude::*;
use crate::ast::{LogicalOp, SExpr, SStmt};
use crate::ast::BinaryOp;
use crate::interpreter::{
    binary, bind_params, call, eval, eval_args, exec, exec_block, exec_for, exec_scoped, exec_while, release, run_program,
    values_equal, with_frames, SFlow, SHostCall, SHostReply, SState, SFunc,
};
use crate::value::{
    bind, define_in, lemma_bind, lemma_bind_other, lemma_define_then_lookup, lookup, push_frame, scan, truthy, SFrame, SValue,
};

verus! {

/// `t` extends `s`: no scope is removed, no function is changed or removed, and no
/// printed line is taken back.
pub open spec fn grows(s: SState, t: SState) -> bool {
    &&& s.frames.len() <= t.frames.len()
    &&& s.funcs.is_prefix_of(t.funcs)
    &&& s.out.is_prefix_of(t.out)
}

proof fn lemma_prefix_refl<A>(a: Seq<A>)
    ensures
        a.is_prefix_of(a),
{
    assert(a =~= a.subrange(0, a.len() as int));
}

proof fn lemma_prefix_trans<A>(a: Seq<A>, b: Seq<A>, c: Seq<A>)
    requires
        a.is_prefix_of(b),
        b.is_prefix_of(c),
    ensures
        a.is_prefix_of(c),
{
    assert(a =~= c.subrange(0, a.len() as int)) by {
        assert forall|i: int| 0 <= i < a.len() implies a[i] == c.subrange(0, a.len() as int)[i] by {
            assert(a[i] == b.subrange(0, a.len() as int)[i]);
            assert(b[i] == c.subrange(0, b.len() as int)[i]);
        }
    }
}

proof fn lemma_prefix_push<A>(a: Seq<A>, x: A)
    ensures
        a.is_prefix_of(a.push(x)),
{
    assert(a =~= a.push(x).subrange(0, a.len() as int));
}

proof fn lemma_grows_refl(s: SState)
    ensures
        grows(s, s),
{
    lemma_prefix_refl(s.funcs);
    lemma_prefix_refl(s.out);
}

proof fn lemma_grows_trans(s: SState, t: SState, u: SState)
    requires
        grows(s, t),
        grows(t, u),
    ensures
        grows(s, u),
{
    lemma_prefix_trans(s.funcs, t.funcs, u.funcs);
    lemma_prefix_trans(s.out, t.out, u.out);
}

/// Changing the scopes only, without removing one, extends a state.
proof fn lemma_grows_frames(s: SState, frames: Seq<SFrame>)
    requires
        s.frames.len() <= frames.len(),
    ensures
        grows(s, with_frames(s, frames)),
{
    lemma_grows_refl(s);
}

/// Releasing the frames of a scope keeps what the scope began with.
proof fn lemma_grows_release(before: SState, after: SState)
    requires
        grows(before, after),
    ensures
        grows(before, release(before, after)),
{
}

proof fn lemma_bind_params_len(frames: Seq<SFrame>, fr: usize, params: Seq<Seq<char>>, args: Seq<SValue>, k: int)
    ensures
        bind_params(frames, fr, params, args, k).len() == frames.len(),
    decreases params.len() - k,
{
    if 0 <= k < params.len() && k < args.len() {
        lemma_bind_params_len(define_in(frames, fr as int, params[k], args[k]), fr, params, args, k + 1);
    }
}

/// Evaluation extends the state.
pub proof fn lemma_eval_grows(h: spec_fn(SHostCall) -> SHostReply, st: SState, fr: usize, e: SExpr, fuel: nat)
    ensures
        grows(st, eval(h, st, fr, e, fuel).0),
    decreases fuel,
{
    lemma_grows_refl(st);
    if fuel > 0 {
        let f = (fuel - 1) as nat;
        match e {
            SExpr::Grouping(inner) => {
                lemma_eval_grows(h, st, fr, *inner, f);
            },
            SExpr::Assign { name, value } => {
                lemma_eval_grows(h, st, fr, *value, f);
                let s1 = eval(h, st, fr, *value, f).0;
                lemma_grows_frames(s1, s1.frames);
                if let Ok(v) = eval(h, st, fr, *value, f).1 {
                    if let Some(fs) = crate::value::assign_in(s1.frames, fr as int, name, v) {
                        lemma_grows_frames(s1, fs);
                        lemma_grows_trans(st, s1, with_frames(s1, fs));
                    }
                }
            },
            SExpr::Unary { operator, right } => {
                lemma_eval_grows(h, st, fr, *right, f);
            },
            SExpr::Binary { left, operator, right } => {
                lemma_eval_grows(h, st, fr, *left, f);
                let s1 = eval(h, st, fr, *left, f).0;
                lemma_eval_grows(h, s1, fr, *right, f);
                lemma_grows_trans(st, s1, eval(h, s1, fr, *right, f).0);
            },
            SExpr::Logical { left, operator, right } => {
                lemma_eval_grows(h, st, fr, *left, f);
                let s1 = eval(h, st, fr, *left, f).0;
                lemma_eval_grows(h, s1, fr, *right, f);
                lemma_grows_trans(st, s1, eval(h, s1, fr, *right, f).0);
            },
            SExpr::Call { callee, arguments } => {
                lemma_eval_grows(h, st, fr, *callee, f);
                let s1 = eval(h, st, fr, *callee, f).0;
                lemma_eval_args_grows(h, s1, fr, arguments, 0, Seq::empty(), f);
                let (s2, r2) = eval_args(h, s1, fr, arguments, 0, Seq::empty(), f);
                lemma_grows_trans(st, s1, s2);
                if let (Ok(c), Ok(args)) = (eval(h, st, fr, *callee, f).1, r2) {
                    lemma_call_grows(h, s2, c, args, f);
                    lemma_grows_trans(st, s2, call(h, s2, c, args, f).0);
                }
            },
            _ => {},
        }
    }
}

/// Evaluating arguments extends the state.
pub proof fn lemma_eval_args_grows(
    h: spec_fn(SHostCall) -> SHostReply,
    st: SState,
    fr: usize,
    args: Seq<SExpr>,
    i: int,
    acc: Seq<SValue>,
    fuel: nat,
)
    ensures
        grows(st, eval_args(h, st, fr, args, i, acc, fuel).0),
    decreases fuel,
{
    lemma_grows_refl(st);
    if fuel > 0 && 0 <= i < args.len() {
        let f = (fuel - 1) as nat;
        lemma_eval_grows(h, st, fr, args[i], f);
        let (s1, r) = eval(h, st, fr, args[i], f);
        if let Ok(v) = r {
            lemma_eval_args_grows(h, s1, fr, args, i + 1, acc.push(v), f);
            lemma_grows_trans(st, s1, eval_args(h, s1, fr, args, i + 1, acc.push(v), f).0);
        }
    }
}

/// A call extends the state.
pub proof fn lemma_call_grows(h: spec_fn(SHostCall) -> SHostReply, st: SState, c: SValue, args: Seq<SValue>, fuel: nat)
    ensures
        grows(st, call(h, st, c, args, fuel).0),
    decreases fuel,
{
    lemma_grows_refl(st);
    if fuel > 0 {
        if let SValue::Function(id) = c {
            if id < st.funcs.len() && args.len() == st.funcs[id as int].params.len() && st.frames.len() < usize::MAX && st.funcs[id as int].closure < st.frames.len() {
                let func = st.funcs[id as int];
                let nf = st.frames.len() as usize;
                let pushed = push_frame(st.frames, func.closure);
                let fs = bind_params(pushed, nf, func.params, args, 0);
                lemma_bind_params_len(pushed, nf, func.params, args, 0);
                lemma_grows_frames(st, fs);
                lemma_exec_block_grows(h, with_frames(st, fs), nf, func.body, 0, (fuel - 1) as nat);
                let s1 = exec_block(h, with_frames(st, fs), nf, func.body, 0, (fuel - 1) as nat).0;
                lemma_grows_trans(st, with_frames(st, fs), s1);
                lemma_grows_release(st, s1);
            }
        }
    }
}

/// Executing a statement extends the state.
pub proof fn lemma_exec_grows(h: spec_fn(SHostCall) -> SHostReply, st: SState, fr: usize, s: SStmt, fuel: nat)
    ensures
        grows(st, exec(h, st, fr, s, fuel).0),
    decreases fuel,
{
    lemma_grows_refl(st);
    if fuel > 0 {
        let f = (fuel - 1) as nat;
        match s {
            SStmt::Let { name, initializer } => {
                lemma_eval_grows(h, st, fr, initializer, f);
                let (s1, r) = eval(h, st, fr, initializer, f);
                if let Ok(v) = r {
                    lemma_grows_refl(s1);
                    lemma_grows_frames(s1, define_in(s1.frames, fr as int, name, v));
                    lemma_grows_trans(st, s1, with_frames(s1, define_in(s1.frames, fr as int, name, v)));
                }
            },
            SStmt::Assign { name, value } => {
                lemma_eval_grows(h, st, fr, value, f);
                let (s1, r) = eval(h, st, fr, value, f);
                if let Ok(v) = r {
                    if let Some(fs) = crate::value::assign_in(s1.frames, fr as int, name, v) {
                        lemma_grows_frames(s1, fs);
                        lemma_grows_trans(st, s1, with_frames(s1, fs));
                    }
                }
            },
            SStmt::Print(e) => {
                lemma_eval_grows(h, st, fr, e, f);
                let (s1, r) = eval(h, st, fr, e, f);
                if let Ok(v) = r {
                    let line = crate::interpreter::display(h, s1.funcs, v);
                    lemma_prefix_refl(s1.funcs);
                    lemma_prefix_push(s1.out, SHostCall::Print(line));
                    lemma_grows_trans(st, s1, SState { out: s1.out.push(SHostCall::Print(line)), ..s1 });
                }
            },
            SStmt::If { condition, then_branch, else_branch } => {
                lemma_eval_grows(h, st, fr, condition, f);
                let (s1, r) = eval(h, st, fr, condition, f);
                lemma_exec_scoped_grows(h, s1, fr, then_branch, f);
                lemma_grows_trans(st, s1, exec_scoped(h, s1, fr, then_branch, f).0);
                if let Some(b) = else_branch {
                    lemma_exec_scoped_grows(h, s1, fr, b, f);
                    lemma_grows_trans(st, s1, exec_scoped(h, s1, fr, b, f).0);
                }
            },
            SStmt::While { condition, body } => {
                lemma_exec_while_grows(h, st, fr, condition, body, f);
            },
            SStmt::For { initializer, condition, increment, body } => {
                if st.frames.len() < usize::MAX && fr < st.frames.len() {
                    let lf = st.frames.len() as usize;
                    let s1 = with_frames(st, push_frame(st.frames, fr));
                    lemma_grows_frames(st, push_frame(st.frames, fr));
                    let (s2, r) = match initializer {
                        Some(init) => exec(h, s1, lf, *init, f),
                        None => (s1, Ok(crate::interpreter::SFlow::Normal)),
                    };
                    if let Some(init) = initializer {
                        lemma_exec_grows(h, s1, lf, *init, f);
                    } else {
                        lemma_grows_refl(s1);
                    }
                    lemma_grows_trans(st, s1, s2);
                    lemma_exec_for_grows(h, s2, lf, condition, increment, body, f);
                    lemma_grows_trans(st, s2, exec_for(h, s2, lf, condition, increment, body, f).0);
                    lemma_grows_release(st, s2);
                    lemma_grows_release(st, exec_for(h, s2, lf, condition, increment, body, f).0);
                }
            },
            SStmt::Block(b) => {
                lemma_exec_scoped_grows(h, st, fr, b, f);
            },
            SStmt::Function { name, params, body } => {
                if st.funcs.len() < usize::MAX && fr < st.frames.len() {
                    let id = st.funcs.len() as usize;
                    let func = SFunc { name, params, body, closure: fr };
                    let s1 = SState { funcs: st.funcs.push(func), ..st };
                    lemma_prefix_push(st.funcs, func);
                    lemma_prefix_refl(st.out);
                    lemma_grows_frames(s1, define_in(s1.frames, fr as int, name, SValue::Function(id)));
                    lemma_grows_trans(st, s1, with_frames(s1, define_in(s1.frames, fr as int, name, SValue::Function(id))));
                }
            },
            SStmt::Return(e) => {
                lemma_eval_grows(h, st, fr, e, f);
            },
            SStmt::Expression(e) => {
                lemma_eval_grows(h, st, fr, e, f);
            },
            _ => {},
        }
    }
}

/// Executing statements extends the state.
pub proof fn lemma_exec_block_grows(h: spec_fn(SHostCall) -> SHostReply, st: SState, fr: usize, ss: Seq<SStmt>, i: int, fuel: nat)
    ensures
        grows(st, exec_block(h, st, fr, ss, i, fuel).0),
    decreases fuel,
{
    lemma_grows_refl(st);
    if fuel > 0 && 0 <= i < ss.len() {
        let f = (fuel - 1) as nat;
        lemma_exec_grows(h, st, fr, ss[i], f);
        let s1 = exec(h, st, fr, ss[i], f).0;
        lemma_exec_block_grows(h, s1, fr, ss, i + 1, f);
        lemma_grows_trans(st, s1, exec_block(h, s1, fr, ss, i + 1, f).0);
    }
}

/// Executing statements in a scope of their own extends the state.
pub proof fn lemma_exec_scoped_grows(h: spec_fn(SHostCall) -> SHostReply, st: SState, fr: usize, ss: Seq<SStmt>, fuel: nat)
    ensures
        grows(st, exec_scoped(h, st, fr, ss, fuel).0),
    decreases fuel,
{
    lemma_grows_refl(st);
    if fuel > 0 && st.frames.len() < usize::MAX && fr < st.frames.len() {
        let s1 = with_frames(st, push_frame(st.frames, fr));
        lemma_grows_frames(st, push_frame(st.frames, fr));
        lemma_exec_block_grows(h, s1, st.frames.len() as usize, ss, 0, (fuel - 1) as nat);
        let s2 = exec_block(h, s1, st.frames.len() as usize, ss, 0, (fuel - 1) as nat).0;
        lemma_grows_trans(st, s1, s2);
        lemma_grows_release(st, s2);
    }
}

/// A `while` loop extends the state.
pub proof fn lemma_exec_while_grows(
    h: spec_fn(SHostCall) -> SHostReply,
    st: SState,
    fr: usize,
    cond: SExpr,
    body: Seq<SStmt>,
    fuel: nat,
)
    ensures
        grows(st, exec_while(h, st, fr, cond, body, fuel).0),
    decreases fuel,
{
    lemma_grows_refl(st);
    if fuel > 0 {
        let f = (fuel - 1) as nat;
        lemma_eval_grows(h, st, fr, cond, f);
        let s1 = eval(h, st, fr, cond, f).0;
        lemma_exec_scoped_grows(h, s1, fr, body, f);
        let s2 = exec_scoped(h, s1, fr, body, f).0;
        lemma_grows_trans(st, s1, s2);
        lemma_exec_while_grows(h, s2, fr, cond, body, f);
        lemma_grows_trans(st, s2, exec_while(h, s2, fr, cond, body, f).0);
    }
}

/// The rounds of a `for` loop extend the state.
pub proof fn lemma_exec_for_grows(
    h: spec_fn(SHostCall) -> SHostReply,
    st: SState,
    lf: usize,
    cond: Option<SExpr>,
    inc: Option<SExpr>,
    body: Seq<SStmt>,
    fuel: nat,
)
    ensures
        grows(st, exec_for(h, st, lf, cond, inc, body, fuel).0),
    decreases fuel,
{
    lemma_grows_refl(st);
    if fuel > 0 {
        let f = (fuel - 1) as nat;
        let s1 = match cond {
            Some(c) => eval(h, st, lf, c, f).0,
            None => st,
        };
        if let Some(c) = cond {
            lemma_eval_grows(h, st, lf, c, f);
        }
        lemma_exec_scoped_grows(h, s1, lf, body, f);
        let s2 = exec_scoped(h, s1, lf, body, f).0;
        lemma_grows_trans(st, s1, s2);
        let s3 = match inc {
            Some(e) => eval(h, s2, lf, e, f).0,
            None => s2,
        };
        if let Some(e) = inc {
            lemma_eval_grows(h, s2, lf, e, f);
        } else {
            lemma_grows_refl(s2);
        }
        lemma_grows_trans(st, s2, s3);
        lemma_exec_for_grows(h, s3, lf, cond, inc, body, f);
        lemma_grows_trans(st, s3, exec_for(h, s3, lf, cond, inc, body, f).0);
    }
}

/// A run keeps every scope, function and printed line it started with: in particular,
/// what a program printed before an error stays printed.
pub proof fn lemma_run_grows(h: spec_fn(SHostCall) -> SHostReply, st: SState, ss: Seq<SStmt>, fuel: nat)
    ensures
        grows(st, run_program(h, st, ss, fuel).0),
{
    lemma_exec_block_grows(h, st, 0, ss, 0, fuel);
}

/// `and` with a false left operand is that operand, and the right operand is not
/// evaluated; with a true one it is the right operand's value.
pub proof fn lemma_and(h: spec_fn(SHostCall) -> SHostReply, st: SState, fr: usize, left: SExpr, right: SExpr, fuel: nat)
    requires
        fuel > 0,
        eval(h, st, fr, left, (fuel - 1) as nat).1 is Ok,
    ensures
        ({
            let (s1, r1) = eval(h, st, fr, left, (fuel - 1) as nat);
            let e = SExpr::Logical { left: Box::new(left), operator: LogicalOp::And, right: Box::new(right) };
            &&& !truthy(r1->Ok_0) ==> eval(h, st, fr, e, fuel) == (s1, r1)
            &&& truthy(r1->Ok_0) ==> eval(h, st, fr, e, fuel) == eval(h, s1, fr, right, (fuel - 1) as nat)
        }),
{
}

/// `or` with a true left operand is that operand, and the right operand is not
/// evaluated; with a false one it is the right operand's value.
pub proof fn lemma_or(h: spec_fn(SHostCall) -> SHostReply, st: SState, fr: usize, left: SExpr, right: SExpr, fuel: nat)
    requires
        fuel > 0,
        eval(h, st, fr, left, (fuel - 1) as nat).1 is Ok,
    ensures
        ({
            let (s1, r1) = eval(h, st, fr, left, (fuel - 1) as nat);
            let e = SExpr::Logical { left: Box::new(left), operator: LogicalOp::Or, right: Box::new(right) };
            &&& truthy(r1->Ok_0) ==> eval(h, st, fr, e, fuel) == (s1, r1)
            &&& !truthy(r1->Ok_0) ==> eval(h, st, fr, e, fuel) == eval(h, s1, fr, right, (fuel - 1) as nat)
        }),
{
}

/// After `let name = initializer;` runs without error in an existing scope, the name,
/// read in that scope, has the initializer's value.
pub proof fn lemma_let_then_read(h: spec_fn(SHostCall) -> SHostReply, st: SState, fr: usize, name: Seq<char>, initializer: SExpr, fuel: nat)
    requires
        fr < st.frames.len(),
        fuel > 0,
        exec(h, st, fr, SStmt::Let { name, initializer }, fuel).1 is Ok,
    ensures
        eval(h, st, fr, initializer, (fuel - 1) as nat).1 is Ok,
        lookup(exec(h, st, fr, SStmt::Let { name, initializer }, fuel).0.frames, fr as int, name) == Some(
            eval(h, st, fr, initializer, (fuel - 1) as nat).1->Ok_0,
        ),
{
    let f = (fuel - 1) as nat;
    lemma_eval_grows(h, st, fr, initializer, f);
    let (s1, r) = eval(h, st, fr, initializer, f);
    lemma_define_then_lookup(s1.frames, fr as int, name, r->Ok_0);
}

/// Two strings are `==` exactly when their texts are equal, and `!=` otherwise.
pub proof fn lemma_string_equality(h: spec_fn(SHostCall) -> SHostReply, funcs: Seq<SFunc>, a: Seq<char>, b: Seq<char>)
    ensures
        values_equal(h, SValue::Str(a), SValue::Str(b)) <==> a == b,
        binary(h, funcs, BinaryOp::Equal, SValue::Str(a), SValue::Str(b)) == Ok::<SValue, Seq<char>>(SValue::Boolean(a == b)),
        binary(h, funcs, BinaryOp::NotEqual, SValue::Str(a), SValue::Str(b)) == Ok::<SValue, Seq<char>>(
            SValue::Boolean(a != b),
        ),
{
}

/// Frame `f` binds `name` to `v`.
pub open spec fn frame_binds(f: SFrame, name: Seq<char>, v: SValue) -> bool {
    scan(f.vars, name, 0) >= 0 && f.vars[scan(f.vars, name, 0)].1 == v
}

/// No name occurs twice among the parameters.
pub open spec fn distinct_params(params: Seq<Seq<char>>) -> bool {
    forall|i: int, j: int| 0 <= i < j < params.len() ==> params[i] != params[j]
}

/// Binding the parameters from `j` on keeps what frame `fr` binds a name to that none
/// of them has.
proof fn lemma_bind_params_keeps(
    frames: Seq<SFrame>,
    fr: usize,
    params: Seq<Seq<char>>,
    args: Seq<SValue>,
    j: int,
    name: Seq<char>,
    v: SValue,
)
    requires
        0 <= j,
        fr < frames.len(),
        frame_binds(frames[fr as int], name, v),
        forall|k: int| j <= k < params.len() ==> params[k] != name,
    ensures
        bind_params(frames, fr, params, args, j).len() == frames.len(),
        frame_binds(bind_params(frames, fr, params, args, j)[fr as int], name, v),
    decreases params.len() - j,
{
    if j < params.len() && j < args.len() {
        let f1 = define_in(frames, fr as int, params[j], args[j]);
        lemma_bind_other(frames[fr as int].vars, params[j], args[j], name);
        lemma_bind_params_keeps(f1, fr, params, args, j + 1, name, v);
    }
}

/// Binding the parameters from `j` on binds each of them, in frame `fr`, to the
/// argument at its own index.
proof fn lemma_bind_params_binds(frames: Seq<SFrame>, fr: usize, params: Seq<Seq<char>>, args: Seq<SValue>, j: int)
    requires
        0 <= j,
        fr < frames.len(),
        params.len() == args.len(),
        distinct_params(params),
    ensures
        bind_params(frames, fr, params, args, j).len() == frames.len(),
        forall|k: int| j <= k < params.len() ==> frame_binds(#[trigger] bind_params(frames, fr, params, args, j)[fr as int], params[k], args[k]),
    decreases params.len() - j,
{
    if j < params.len() {
        let f1 = define_in(frames, fr as int, params[j], args[j]);
        lemma_bind_params_binds(f1, fr, params, args, j + 1);
        lemma_bind(frames[fr as int].vars, params[j], args[j]);
        assert(frame_binds(f1[fr as int], params[j], args[j]));
        lemma_bind_params_keeps(f1, fr, params, args, j + 1, params[j], args[j]);
    }
}

/// Arguments are bound in order: in the new frame of a call, made inside frame `parent`,
/// the `k`-th parameter has the `k`-th argument, for every `k`, when no parameter name
/// repeats.
pub proof fn lemma_params_bound(frames: Seq<SFrame>, parent: usize, params: Seq<Seq<char>>, args: Seq<SValue>, k: int)
    requires
        frames.len() < usize::MAX,
        params.len() == args.len(),
        distinct_params(params),
        0 <= k < params.len(),
    ensures
        lookup(bind_params(push_frame(frames, parent), frames.len() as usize, params, args, 0), frames.len() as int, params[k])
            == Some(args[k]),
{
    let nf = frames.len() as usize;
    let fs = bind_params(push_frame(frames, parent), nf, params, args, 0);
    lemma_bind_params_binds(push_frame(frames, parent), nf, params, args, 0);
    assert(frame_binds(fs[nf as int], params[k], args[k]));
}

/// A call of a function whose body is `return p;`, for its `k`-th parameter `p`, gives
/// the `k`-th argument, for every list of arguments of the right number.
pub proof fn lemma_call_returns_argument(
    h: spec_fn(SHostCall) -> SHostReply,
    st: SState,
    id: usize,
    args: Seq<SValue>,
    k: int,
    fuel: nat,
)
    requires
        id < st.funcs.len(),
        0 <= k < st.funcs[id as int].params.len(),
        st.funcs[id as int].body == seq![SStmt::Return(SExpr::Variable(st.funcs[id as int].params[k]))],
        distinct_params(st.funcs[id as int].params),
        args.len() == st.funcs[id as int].params.len(),
        st.frames.len() < usize::MAX,
        st.funcs[id as int].closure < st.frames.len(),
        fuel >= 4,
    ensures
        call(h, st, SValue::Function(id), args, fuel).1 == Ok::<SValue, Seq<char>>(args[k]),
{
    let func = st.funcs[id as int];
    let nf = st.frames.len() as usize;
    let fs = bind_params(push_frame(st.frames, func.closure), nf, func.params, args, 0);
    lemma_params_bound(st.frames, func.closure, func.params, args, k);
    let s0 = with_frames(st, fs);
    let name = func.params[k];
    let f1 = (fuel - 1) as nat;
    assert(eval(h, s0, nf, SExpr::Variable(name), (fuel - 3) as nat).1 == Ok::<SValue, Seq<char>>(args[k]));
    assert(exec(h, s0, nf, SStmt::Return(SExpr::Variable(name)), (fuel - 2) as nat).1 == Ok::<SFlow, Seq<char>>(
        SFlow::Return(args[k]),
    ));
    assert(exec_block(h, s0, nf, func.body, 0, f1).1 == Ok::<SFlow, Seq<char>>(SFlow::Return(args[k])));
}

/// A `return` in the body of a `for` loop ends the loop: when the condition holds (or is
/// absent) and the body, in its scope, returns `v`, the loop ends with that `return`,
/// in the state the body left, and runs neither the increment nor another round.
pub proof fn lemma_for_return(
    h: spec_fn(SHostCall) -> SHostReply,
    st: SState,
    lf: usize,
    cond: Option<SExpr>,
    inc: Option<SExpr>,
    body: Seq<SStmt>,
    fuel: nat,
    v: SValue,
)
    requires
        fuel > 0,
        ({
            let (s1, r) = match cond {
                Some(c) => eval(h, st, lf, c, (fuel - 1) as nat),
                None => (st, Ok(SValue::Boolean(true))),
            };
            r is Ok && truthy(r->Ok_0) && exec_scoped(h, s1, lf, body, (fuel - 1) as nat).1 == Ok::<SFlow, Seq<char>>(
                SFlow::Return(v),
            )
        }),
    ensures
        exec_for(h, st, lf, cond, inc, body, fuel).1 == Ok::<SFlow, Seq<char>>(SFlow::Return(v)),
{
}

/// The same for a whole `for` statement without initializer, run in frame `fr`: a
/// `return v;` met in the first round makes the statement end with `return v`, as a
/// `while` loop does.
pub proof fn lemma_for_statement_return(
    h: spec_fn(SHostCall) -> SHostReply,
    st: SState,
    fr: usize,
    cond: Option<SExpr>,
    inc: Option<SExpr>,
    body: Seq<SStmt>,
    fuel: nat,
    v: SValue,
)
    requires
        fuel > 1,
        fr < st.frames.len() < usize::MAX,
        ({
            let lf = st.frames.len() as usize;
            let s0 = with_frames(st, push_frame(st.frames, fr));
            let (s1, r) = match cond {
                Some(c) => eval(h, s0, lf, c, (fuel - 2) as nat),
                None => (s0, Ok(SValue::Boolean(true))),
            };
            r is Ok && truthy(r->Ok_0) && exec_scoped(h, s1, lf, body, (fuel - 2) as nat).1 == Ok::<SFlow, Seq<char>>(
                SFlow::Return(v),
            )
        }),
    ensures
        exec(h, st, fr, SStmt::For { initializer: None, condition: cond, increment: inc, body }, fuel).1 == Ok::<
            SFlow,
            Seq<char>,
        >(SFlow::Return(v)),
{
    let lf = st.frames.len() as usize;
    let s0 = with_frames(st, push_frame(st.frames, fr));
    lemma_for_return(h, s0, lf, cond, inc, body, (fuel - 1) as nat, v);
}

/// `==` on values of other kinds than numbers: booleans are equal when they are the
/// same, `nil` equals `nil`, functions are equal when they are the same function, and
/// values of different kinds are never equal.
pub proof fn lemma_equality_cases(h: spec_fn(SHostCall) -> SHostReply, l: SValue, r: SValue)
    ensures
        !(l is Number && r is Number) ==> (values_equal(h, l, r) <==> l == r),
{
}

/// A `for` loop ends normally, with a `return`, or with an error: never with `break` or
/// `continue`, which it handles itself.
pub proof fn lemma_for_flow(
    h: spec_fn(SHostCall) -> SHostReply,
    st: SState,
    lf: usize,
    cond: Option<SExpr>,
    inc: Option<SExpr>,
    body: Seq<SStmt>,
    fuel: nat,
)
    ensures
        !(exec_for(h, st, lf, cond, inc, body, fuel).1 matches Ok(SFlow::Break)),
        !(exec_for(h, st, lf, cond, inc, body, fuel).1 matches Ok(SFlow::Continue)),
    decreases fuel,
{
    if fuel > 0 {
        let f = (fuel - 1) as nat;
        let (s1, r) = match cond {
            Some(c) => eval(h, st, lf, c, f),
            None => (st, Ok(SValue::Boolean(true))),
        };
        if let Ok(v) = r {
            if truthy(v) {
                let (s2, rb) = exec_scoped(h, s1, lf, body, f);
                let (s3, ri) = match inc {
                    Some(e) => eval(h, s2, lf, e, f),
                    None => (s2, Ok(SValue::Nil)),
                };
                lemma_for_flow(h, s3, lf, cond, inc, body, f);
            }
        }
    }
}

/// A `while` loop likewise ends normally, with a `return`, or with an error.
pub proof fn lemma_while_flow(
    h: spec_fn(SHostCall) -> SHostReply,
    st: SState,
    fr: usize,
    cond: SExpr,
    body: Seq<SStmt>,
    fuel: nat,
)
    ensures
        !(exec_while(h, st, fr, cond, body, fuel).1 matches Ok(SFlow::Break)),
        !(exec_while(h, st, fr, cond, body, fuel).1 matches Ok(SFlow::Continue)),
    decreases fuel,
{
    if fuel > 0 {
        let f = (fuel - 1) as nat;
        let (s1, r) = eval(h, st, fr, cond, f);
        if let Ok(v) = r {
            if truthy(v) {
                let (s2, rb) = exec_scoped(h, s1, fr, body, f);
                lemma_while_flow(h, s2, fr, cond, body, f);
            }
        }
    }
}

} // verus!
