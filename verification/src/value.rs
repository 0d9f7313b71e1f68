//! Runtime values and the scopes that bind names to them.
//!
//! Scopes live in one arena, `Environment`: each scope (a frame) has its bindings and
//! the index of its enclosing scope. A name is looked up in a frame, then in its
//! enclosing frames outwards. Frames are never removed, so a function value keeps the
//! frame it was defined in.
//!
//! A number is held as the bit pattern of an IEEE 754 double; the arithmetic on it is
//! supplied by the caller of the interpreter (see `interpreter`).
use vstd::prelude::*;

verus! {

/// A runtime value.
#[derive(Debug, PartialEq)]
pub enum Value {
    /// A double, by its bit pattern.
    Number(u64),
    String(String),
    Boolean(bool),
    Nil,
    /// A function, by its index in the interpreter's function table.
    Function(usize),
}

/// What a value is.
pub enum SValue {
    Number(u64),
    Str(Seq<char>),
    Boolean(bool),
    Nil,
    Function(usize),
}

impl View for Value {
    type V = SValue;

    open spec fn view(&self) -> SValue {
        match self {
            Value::Number(n) => SValue::Number(*n),
            Value::String(s) => SValue::Str(s@),
            Value::Boolean(b) => SValue::Boolean(*b),
            Value::Nil => SValue::Nil,
            Value::Function(f) => SValue::Function(*f),
        }
    }
}

/// A value as shared between bindings: values are never changed in place, so a copy
/// serves.
pub type ValueRef = Value;

/// A copy of a value.
pub fn copy_value(v: &Value) -> (r: Value)
    ensures
        r@ == v@,
{
    match v {
        Value::Number(n) => Value::Number(*n),
        Value::String(s) => Value::String(s.clone()),
        Value::Boolean(b) => Value::Boolean(*b),
        Value::Nil => Value::Nil,
        Value::Function(f) => Value::Function(*f),
    }
}

/// Makes a value to bind.
pub fn new_value_ref(value: Value) -> (r: ValueRef)
    ensures
        r@ == value@,
{
    value
}

/// Whether a double's bit pattern is `+0.0` or `-0.0`, the two doubles equal to zero.
pub open spec fn is_zero_bits(n: u64) -> bool {
    n == 0 || n == 0x8000_0000_0000_0000
}

/// Truthiness: `nil`, `false`, the number zero and the empty string are false; every
/// other value is true.
pub open spec fn truthy(v: SValue) -> bool {
    match v {
        SValue::Nil => false,
        SValue::Boolean(b) => b,
        SValue::Number(n) => !is_zero_bits(n),
        SValue::Str(s) => s.len() > 0,
        SValue::Function(_) => true,
    }
}

/// What is false in a condition: `nil`, `false`, the empty string and the number zero
/// (as `+0.0` or `-0.0`); every other value, every other number among them, is true.
pub proof fn lemma_truthy_cases(v: SValue)
    ensures
        truthy(v) <==> !(v == SValue::Nil || v == SValue::Boolean(false) || v == SValue::Str(Seq::empty())
            || v == SValue::Number(0) || v == SValue::Number(0x8000_0000_0000_0000)),
{
    if let SValue::Str(s) = v {
        if s.len() == 0 {
            assert(s =~= Seq::<char>::empty());
        }
    }
}

/// Whether a value counts as true in a condition.
pub fn is_truthy(value: &Value) -> (r: bool)
    ensures
        r == truthy(value@),
{
    match value {
        Value::Nil => false,
        Value::Boolean(b) => *b,
        Value::Number(n) => !(*n == 0 || *n == 0x8000_0000_0000_0000),
        Value::String(s) => !s.as_str().is_empty(),
        Value::Function(_) => true,
    }
}

// ==================== scopes ====================

/// One scope: its bindings, in the order of their first definition, and the index of
/// its enclosing scope.
pub struct Frame {
    vars: Vec<(String, Value)>,
    parent: Option<usize>,
}

/// What a scope is.
pub struct SFrame {
    pub vars: Seq<(Seq<char>, SValue)>,
    pub parent: Option<usize>,
}

impl View for Frame {
    type V = SFrame;

    closed spec fn view(&self) -> SFrame {
        SFrame { vars: self.vars@.map_values(|b: (String, Value)| (b.0@, b.1@)), parent: self.parent }
    }
}

/// The index of the binding of `name` among `vars`, scanning from `j`; -1 if none.
pub open spec fn scan(vars: Seq<(Seq<char>, SValue)>, name: Seq<char>, j: int) -> int
    decreases vars.len() - j,
{
    if j < 0 || j >= vars.len() {
        -1
    } else if vars[j].0 == name {
        j
    } else {
        scan(vars, name, j + 1)
    }
}

/// `scan` finds a binding of the name at or after `j`, or none.
pub proof fn lemma_scan(vars: Seq<(Seq<char>, SValue)>, name: Seq<char>, j: int)
    requires
        0 <= j,
    ensures
        -1 <= scan(vars, name, j) < vars.len(),
        scan(vars, name, j) >= 0 ==> j <= scan(vars, name, j) && vars[scan(vars, name, j)].0 == name,
    decreases vars.len() - j,
{
    if j < vars.len() && vars[j].0 != name {
        lemma_scan(vars, name, j + 1);
    }
}

/// The index of the frame, from frame `i` outwards, that binds `name`; -1 if none.
/// An enclosing frame always comes before the frames inside it.
pub open spec fn owner(frames: Seq<SFrame>, i: int, name: Seq<char>) -> int
    decreases i,
{
    if i < 0 || i >= frames.len() {
        -1
    } else if scan(frames[i].vars, name, 0) >= 0 {
        i
    } else {
        match frames[i].parent {
            Some(p) => if p < i {
                owner(frames, p as int, name)
            } else {
                -1
            },
            None => -1,
        }
    }
}

/// The frame that `owner` finds is a frame that binds the name.
pub proof fn lemma_owner(frames: Seq<SFrame>, i: int, name: Seq<char>)
    ensures
        owner(frames, i, name) >= 0 ==> 0 <= owner(frames, i, name) <= i && owner(frames, i, name) < frames.len()
            && scan(frames[owner(frames, i, name)].vars, name, 0) >= 0,
    decreases i,
{
    if 0 <= i < frames.len() && scan(frames[i].vars, name, 0) < 0 {
        if let Some(p) = frames[i].parent {
            if p < i {
                lemma_owner(frames, p as int, name);
            }
        }
    }
}

/// The value that `name` has, seen from frame `i`.
pub open spec fn lookup(frames: Seq<SFrame>, i: int, name: Seq<char>) -> Option<SValue> {
    let o = owner(frames, i, name);
    if o < 0 {
        None
    } else {
        Some(frames[o].vars[scan(frames[o].vars, name, 0)].1)
    }
}

/// Binds `name` to `v` in `vars`: the binding is replaced if there is one, added
/// otherwise.
pub open spec fn bind(vars: Seq<(Seq<char>, SValue)>, name: Seq<char>, v: SValue) -> Seq<(Seq<char>, SValue)> {
    let j = scan(vars, name, 0);
    if j >= 0 {
        vars.update(j, (name, v))
    } else {
        vars.push((name, v))
    }
}

/// `let`: binds `name` in frame `i` itself.
pub open spec fn define_in(frames: Seq<SFrame>, i: int, name: Seq<char>, v: SValue) -> Seq<SFrame> {
    if 0 <= i < frames.len() {
        frames.update(i, SFrame { vars: bind(frames[i].vars, name, v), parent: frames[i].parent })
    } else {
        frames
    }
}

/// Assignment: rebinds `name` in the nearest frame that binds it, seen from frame `i`;
/// none if no frame does.
pub open spec fn assign_in(frames: Seq<SFrame>, i: int, name: Seq<char>, v: SValue) -> Option<Seq<SFrame>> {
    let o = owner(frames, i, name);
    if o < 0 {
        None
    } else {
        Some(define_in(frames, o, name, v))
    }
}

/// A new, empty frame inside frame `parent`.
pub open spec fn push_frame(frames: Seq<SFrame>, parent: usize) -> Seq<SFrame> {
    frames.push(SFrame { vars: Seq::empty(), parent: Some(parent) })
}

/// The message for a name that no frame binds.
pub open spec fn undefined_msg(name: Seq<char>) -> Seq<char> {
    "Undefined variable '"@ + name + "'"@
}

/// `scan` from `j` is `r` when `r` is the first binding of the name at or after `j`
/// (`vars.len()` standing for none).
proof fn lemma_scan_is(vars: Seq<(Seq<char>, SValue)>, name: Seq<char>, j: int, r: int)
    requires
        0 <= j <= r <= vars.len(),
        forall|k: int| j <= k < r ==> vars[k].0 != name,
        r < vars.len() ==> vars[r].0 == name,
    ensures
        scan(vars, name, j) == (if r < vars.len() { r } else { -1 }),
    decreases r - j,
{
    if j < r {
        lemma_scan_is(vars, name, j + 1, r);
    }
}

/// `scan` from 0 finds the first binding of the name.
proof fn lemma_scan_first(vars: Seq<(Seq<char>, SValue)>, name: Seq<char>, j: int)
    requires
        0 <= j,
    ensures
        forall|k: int| j <= k < (if scan(vars, name, j) >= 0 { scan(vars, name, j) } else { vars.len() as int })
            ==> vars[k].0 != name,
    decreases vars.len() - j,
{
    if j < vars.len() && vars[j].0 != name {
        lemma_scan_first(vars, name, j + 1);
    }
}

/// After `bind`, the name is bound to the value.
pub proof fn lemma_bind(vars: Seq<(Seq<char>, SValue)>, name: Seq<char>, v: SValue)
    ensures
        scan(bind(vars, name, v), name, 0) >= 0,
        bind(vars, name, v)[scan(bind(vars, name, v), name, 0)].1 == v,
{
    let j = scan(vars, name, 0);
    let b = bind(vars, name, v);
    lemma_scan(vars, name, 0);
    lemma_scan_first(vars, name, 0);
    if j >= 0 {
        lemma_scan_is(b, name, 0, j);
    } else {
        lemma_scan_is(b, name, 0, vars.len() as int);
    }
}

/// Frames that agree up to index `i` agree on what is seen from frame `i`.
proof fn lemma_owner_same(f1: Seq<SFrame>, f2: Seq<SFrame>, i: int, name: Seq<char>)
    requires
        i < f1.len() <= f2.len(),
        forall|k: int| 0 <= k <= i ==> f1[k] == f2[k],
    ensures
        owner(f1, i, name) == owner(f2, i, name),
    decreases i,
{
    if 0 <= i < f1.len() && scan(f1[i].vars, name, 0) < 0 {
        if let Some(p) = f1[i].parent {
            if p < i {
                lemma_owner_same(f1, f2, p as int, name);
            }
        }
    }
}

/// Rebinding a name in the frame that `owner` found keeps that frame the owner.
proof fn lemma_owner_after_define(frames: Seq<SFrame>, i: int, name: Seq<char>, v: SValue)
    requires
        owner(frames, i, name) >= 0,
    ensures
        owner(define_in(frames, owner(frames, i, name), name, v), i, name) == owner(frames, i, name),
    decreases i,
{
    let o = owner(frames, i, name);
    let fs = define_in(frames, o, name, v);
    lemma_owner(frames, i, name);
    if i == o {
        lemma_bind(frames[o].vars, name, v);
    } else {
        let p = frames[i].parent->0;
        lemma_owner_after_define(frames, p as int, name, v);
    }
}

/// Binding one name keeps where and to what another name is bound.
pub proof fn lemma_bind_other(vars: Seq<(Seq<char>, SValue)>, name: Seq<char>, v: SValue, other: Seq<char>)
    requires
        other != name,
        scan(vars, other, 0) >= 0,
    ensures
        scan(bind(vars, name, v), other, 0) == scan(vars, other, 0),
        bind(vars, name, v)[scan(vars, other, 0)].1 == vars[scan(vars, other, 0)].1,
{
    let o = scan(vars, other, 0);
    let b = bind(vars, name, v);
    lemma_scan(vars, other, 0);
    lemma_scan_first(vars, other, 0);
    lemma_scan(vars, name, 0);
    assert forall|k: int| 0 <= k < o implies b[k].0 != other by {
        assert(vars[k].0 != other);
    }
    lemma_scan_is(b, other, 0, o);
}

/// A `let` binds the name in its frame: looked up from that frame, the name has the
/// value defined.
pub proof fn lemma_define_then_lookup(frames: Seq<SFrame>, i: int, name: Seq<char>, v: SValue)
    requires
        0 <= i < frames.len(),
    ensures
        lookup(define_in(frames, i, name, v), i, name) == Some(v),
{
    lemma_bind(frames[i].vars, name, v);
}

/// An assignment that succeeds makes the name, seen from the same frame, have the value
/// assigned.
pub proof fn lemma_assign_then_lookup(frames: Seq<SFrame>, i: int, name: Seq<char>, v: SValue)
    requires
        assign_in(frames, i, name, v) is Some,
    ensures
        lookup(assign_in(frames, i, name, v)->0, i, name) == Some(v),
{
    let o = owner(frames, i, name);
    lemma_owner(frames, i, name);
    lemma_owner_after_define(frames, i, name, v);
    lemma_bind(frames[o].vars, name, v);
}

/// An assignment fails exactly when the name is not defined in the frame or around it.
pub proof fn lemma_assign_undefined(frames: Seq<SFrame>, i: int, name: Seq<char>, v: SValue)
    ensures
        assign_in(frames, i, name, v) is None <==> lookup(frames, i, name) is None,
{
}

/// A scope's bindings stay in it: a `let` in a new frame changes nothing seen from the
/// frames that were there before, while from the new frame the name has the new value.
pub proof fn lemma_inner_scope(frames: Seq<SFrame>, parent: usize, name: Seq<char>, v: SValue, k: int, other: Seq<char>)
    requires
        0 <= k < frames.len(),
    ensures
        lookup(define_in(push_frame(frames, parent), frames.len() as int, name, v), k, other) == lookup(frames, k, other),
        lookup(define_in(push_frame(frames, parent), frames.len() as int, name, v), frames.len() as int, name) == Some(v),
{
    let fs = define_in(push_frame(frames, parent), frames.len() as int, name, v);
    assert forall|j: int| 0 <= j <= k implies frames[j] == fs[j] by {}
    lemma_owner_same(frames, fs, k, other);
    lemma_owner(frames, k, other);
    lemma_define_then_lookup(push_frame(frames, parent), frames.len() as int, name, v);
}

/// No name is bound twice in `vars`.
pub open spec fn distinct_names(vars: Seq<(Seq<char>, SValue)>) -> bool {
    forall|i: int, j: int| 0 <= i < j < vars.len() ==> #[trigger] vars[i].0 != #[trigger] vars[j].0
}

/// The invariant of the scopes: each frame binds a name at most once, and a frame's
/// enclosing frame comes before it.
pub open spec fn frames_ok(frames: Seq<SFrame>) -> bool {
    forall|k: int| 0 <= k < frames.len() ==> {
        &&& distinct_names(#[trigger] frames[k].vars)
        &&& (frames[k].parent matches Some(p) ==> p < k)
    }
}

/// Binding a name keeps the names of a frame distinct.
pub proof fn lemma_bind_distinct(vars: Seq<(Seq<char>, SValue)>, name: Seq<char>, v: SValue)
    requires
        distinct_names(vars),
    ensures
        distinct_names(bind(vars, name, v)),
{
    lemma_scan(vars, name, 0);
    lemma_scan_first(vars, name, 0);
    let b = bind(vars, name, v);
    assert forall|i: int, j: int| 0 <= i < j < b.len() implies #[trigger] b[i].0 != #[trigger] b[j].0 by {
        if scan(vars, name, 0) < 0 && j == vars.len() {
            assert(vars[i].0 != name);
        }
    }
}

/// A `let` keeps the invariant of the scopes.
pub proof fn lemma_define_ok(frames: Seq<SFrame>, i: int, name: Seq<char>, v: SValue)
    requires
        frames_ok(frames),
    ensures
        frames_ok(define_in(frames, i, name, v)),
{
    if 0 <= i < frames.len() {
        lemma_bind_distinct(frames[i].vars, name, v);
        let fs = define_in(frames, i, name, v);
        assert forall|k: int| 0 <= k < fs.len() implies {
            &&& distinct_names(#[trigger] fs[k].vars)
            &&& (fs[k].parent matches Some(p) ==> p < k)
        } by {
            if k != i {
                assert(fs[k] == frames[k]);
            }
        }
    }
}

/// All scopes of a program run. Frame 0 is the global scope.
pub struct Environment {
    frames: Vec<Frame>,
}

impl View for Environment {
    type V = Seq<SFrame>;

    closed spec fn view(&self) -> Seq<SFrame> {
        self.frames@.map_values(|f: Frame| f@)
    }
}

/// The message for an undefined name.
fn undefined_error(name: &str) -> (e: String)
    ensures
        e@ == undefined_msg(name@),
{
    let mut e = crate::text::string_of("Undefined variable '");
    crate::text::append_str(&mut e, name);
    crate::text::append_str(&mut e, "'");
    e
}

impl Environment {
    /// The invariant of the scopes (see `frames_ok`).
    pub open spec fn wf(&self) -> bool {
        frames_ok(self@)
    }

    /// The environment with one empty scope, the global one (frame 0).
    pub fn new() -> (env: Environment)
        ensures
            env@ == seq![SFrame { vars: Seq::empty(), parent: None }],
            env.wf(),
    {
        let mut frames: Vec<Frame> = Vec::new();
        frames.push(Frame { vars: Vec::new(), parent: None });
        let env = Environment { frames };
        assert(env@ =~= seq![SFrame { vars: Seq::empty(), parent: None }]) by {
            assert(env.frames@[0]@.vars =~= Seq::<(Seq<char>, SValue)>::empty());
        }
        env
    }

    /// The number of frames.
    pub fn len(&self) -> (n: usize)
        ensures
            n == self@.len(),
    {
        self.frames.len()
    }

    /// Adds an empty scope inside frame `parent` and returns its index.
    pub fn new_with_parent(&mut self, parent: usize) -> (i: usize)
        requires
            old(self)@.len() < usize::MAX,
            parent < old(self)@.len(),
        ensures
            final(self)@ == push_frame(old(self)@, parent),
            i == old(self)@.len(),
            old(self).wf() ==> final(self).wf(),
    {
        let i = self.frames.len();
        self.frames.push(Frame { vars: Vec::new(), parent: Some(parent) });
        assert(self@ =~= push_frame(old(self)@, parent)) by {
            assert(self.frames@[i as int]@.vars =~= Seq::<(Seq<char>, SValue)>::empty());
        }
        i
    }

    /// Drops the frames from index `n` on.
    pub fn truncate(&mut self, n: usize)
        requires
            n <= old(self)@.len(),
        ensures
            final(self)@ == old(self)@.take(n as int),
            old(self).wf() ==> final(self).wf(),
    {
        self.frames.truncate(n);
        assert(self@ =~= old(self)@.take(n as int));
        assert(frames_ok(old(self)@) ==> frames_ok(self@)) by {
            if frames_ok(old(self)@) {
                assert forall|k: int| 0 <= k < self@.len() implies {
                    &&& distinct_names(#[trigger] self@[k].vars)
                    &&& (self@[k].parent matches Some(p) ==> p < k)
                } by {
                    assert(self@[k] == old(self)@[k]);
                }
            }
        }
    }

    /// The index of the binding of `name` in frame `i`, if it has one.
    fn find(&self, i: usize, name: &String) -> (r: Option<usize>)
        requires
            i < self@.len(),
        ensures
            match r {
                Some(j) => j == scan(self@[i as int].vars, name@, 0) && j < self.frames@[i as int].vars@.len(),
                None => scan(self@[i as int].vars, name@, 0) < 0,
            },
    {
        let ghost vs = self@[i as int].vars;
        let vars = &self.frames[i].vars;
        assert(vs == vars@.map_values(|b: (String, Value)| (b.0@, b.1@)));
        let mut j: usize = 0;
        while j < vars.len()
            invariant
                j <= vars@.len(),
                vars@ == self.frames@[i as int].vars@,
                vs == self@[i as int].vars,
                vs == vars@.map_values(|b: (String, Value)| (b.0@, b.1@)),
                scan(vs, name@, j as int) == scan(vs, name@, 0),
            decreases vars@.len() - j,
        {
            assert(vs.len() == vars@.len());
            assert(vs[j as int].0 == vars@[j as int].0@);
            if vars[j].0 == *name {
                assert(scan(vs, name@, j as int) == j as int);
                return Some(j);
            }
            j += 1;
        }
        None
    }

    /// The frame, from frame `i` outwards, that binds `name`.
    fn owner_of(&self, i: usize, name: &String) -> (r: Option<usize>)
        ensures
            match r {
                Some(o) => o == owner(self@, i as int, name@) && o < self@.len(),
                None => owner(self@, i as int, name@) < 0,
            },
    {
        let mut k = i;
        loop
            invariant
                owner(self@, k as int, name@) == owner(self@, i as int, name@),
            decreases k,
        {
            if k >= self.frames.len() {
                return None;
            }
            if self.find(k, name).is_some() {
                return Some(k);
            }
            assert(self@[k as int].parent == self.frames@[k as int].parent);
            match self.frames[k].parent {
                Some(p) => {
                    if p < k {
                        k = p;
                    } else {
                        return None;
                    }
                },
                None => {
                    return None;
                },
            }
        }
    }

    /// Binds `name` to `value` in frame `frame` itself (`let`); an existing binding there
    /// is replaced.
    pub fn define(&mut self, frame: usize, name: String, value: Value)
        requires
            frame < old(self)@.len(),
        ensures
            final(self)@ == define_in(old(self)@, frame as int, name@, value@),
            old(self).wf() ==> final(self).wf(),
    {
        let ghost old_frames = self@;
        let ghost nv = name@;
        let ghost vv = value@;
        let found = self.find(frame, &name);
        proof {
            lemma_scan(old_frames[frame as int].vars, nv, 0);
        }
        match found {
            Some(j) => {
                self.frames[frame].vars[j] = (name, value);
            },
            None => {
                self.frames[frame].vars.push((name, value));
            },
        }
        assert(self.frames@[frame as int]@.vars =~= bind(old_frames[frame as int].vars, nv, vv));
        assert(self@ =~= define_in(old_frames, frame as int, nv, vv));
        proof {
            if frames_ok(old_frames) {
                lemma_define_ok(old_frames, frame as int, nv, vv);
            }
        }
    }

    /// Rebinds `name` in the nearest frame, from `frame` outwards, that binds it; an
    /// error if none does.
    pub fn assign(&mut self, frame: usize, name: &str, value: Value) -> (r: Result<(), String>)
        ensures
            match assign_in(old(self)@, frame as int, name@, value@) {
                Some(fs) => r is Ok && final(self)@ == fs,
                None => r matches Err(e) && e@ == undefined_msg(name@) && final(self)@ == old(self)@,
            },
            old(self).wf() ==> final(self).wf(),
    {
        let n = crate::text::string_of(name);
        match self.owner_of(frame, &n) {
            Some(o) => {
                self.define(o, n, value);
                Ok(())
            },
            None => Err(undefined_error(name)),
        }
    }

    /// The value of `name` seen from frame `frame`; an error if no frame binds it.
    pub fn get(&self, frame: usize, name: &str) -> (r: Result<Value, String>)
        ensures
            match lookup(self@, frame as int, name@) {
                Some(v) => r matches Ok(x) && x@ == v,
                None => r matches Err(e) && e@ == undefined_msg(name@),
            },
    {
        let n = crate::text::string_of(name);
        proof {
            lemma_owner(self@, frame as int, name@);
        }
        match self.owner_of(frame, &n) {
            Some(o) => {
                match self.find(o, &n) {
                    Some(j) => {
                        assert(self@[o as int] == self.frames@[o as int]@);
                        assert(self@[o as int].vars[j as int] == (
                            self.frames@[o as int].vars@[j as int].0@,
                            self.frames@[o as int].vars@[j as int].1@,
                        ));
                        Ok(copy_value(&self.frames[o].vars[j].1))
                    },
                    None => Err(undefined_error(name)),
                }
            },
            None => Err(undefined_error(name)),
        }
    }
}

} // verus!
