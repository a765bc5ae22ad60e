use vstd::prelude::*;
use std::rc::Rc;
use crate::errors::{BadNumber, CallNotFunction, EvalError, NoVar};
use crate::parser::{is_expr, Action, ActionKind};
use crate::state::{bindings_ok, lemma_bindings_ok_mono, Bindings, Env, State};
use crate::token::Span;

verus! {

/// The host functions a program can call.
#[derive(Clone, Copy, Debug, PartialEq, Eq, Structural)]
pub enum Native {
    /// Applies a numeral to the successor function and zero, and prints the number.
    PrintNum,
    /// Forces a value and prints its structure.
    Debug,
    /// Forces a value to a number and adds one.
    Succ,
}

/// What a native function printed.
#[derive(Debug)]
pub enum Output {
    Number(u32),
    Value(Value),
}

/// A run-time value.
#[derive(Debug)]
pub enum Value {
    Number(u32),
    NativeFunction(Native),
    /// A closure: its parameter, the bindings it captured, and its body.
    Function { arg_name: String, captures: Bindings, action: Rc<Action> },
    /// An application that has not been performed yet.
    LazyCall { func: Rc<Value>, arg: Rc<Value>, path: String, span: Span },
}

/// `v` refers only to cells below `n`, and every closure body in it is an
/// expression tree.
pub open spec fn value_ok(v: Value, n: nat) -> bool
    decreases v,
{
    match v {
        Value::Function { captures, action, .. } => bindings_ok(captures, n) && is_expr(*action),
        Value::LazyCall { func, arg, .. } => value_ok(*func, n) && value_ok(*arg, n),
        _ => true,
    }
}

/// The function and argument sides of a thunk.
pub open spec fn sides_of(v: Value) -> (Value, Value) {
    match v {
        Value::LazyCall { func, arg, .. } => (*func, *arg),
        _ => (v, v),
    }
}

pub proof fn lemma_value_ok_mono(v: Value, n: nat, m: nat)
    requires
        value_ok(v, n),
        n <= m,
    ensures
        value_ok(v, m),
    decreases v,
{
    match v {
        Value::Function { captures, .. } => lemma_bindings_ok_mono(captures, n, m),
        Value::LazyCall { .. } => {
            lemma_value_ok_mono(sides_of(v).0, n, m);
            lemma_value_ok_mono(sides_of(v).1, n, m);
        },
        _ => {},
    }
}

/// The bindings a closure captures for `names`, each resolved in `st`; the
/// first name that does not resolve is reported against `body`.
pub open spec fn capture_list(st: Env, names: Seq<String>, body: Action) -> Result<
    Bindings,
    EvalError,
>
    decreases names.len(),
{
    if names.len() == 0 {
        Ok(Bindings::Nil)
    } else {
        match capture_list(st, names.drop_last(), body) {
            Err(e) => Err(e),
            Ok(rest) => match st.lookup(names.last()@) {
                Some(c) => Ok(Bindings::Cons(names.last(), c, Rc::new(rest))),
                None => Err(
                    EvalError::NoVar(NoVar { path: body.path, span: body.span, name: names.last() }),
                ),
            },
        }
    }
}

/// Lowering an expression tree to a value in `st`, evaluating nothing: an
/// identifier takes the value of its binding, an application becomes a
/// `LazyCall` of its two lowered sides, a lambda becomes a closure over the
/// bindings of its captures.
pub open spec fn lower(st: Env, a: Action) -> Result<Value, EvalError>
    decreases a,
{
    match a.kind {
        ActionKind::Ident(n) => match st.lookup(n@) {
            Some(c) => Ok(st.cells[c as int]),
            None => Err(EvalError::NoVar(NoVar { path: a.path, span: a.span, name: n })),
        },
        ActionKind::Call { func, arg } => match lower(st, *func) {
            Err(e) => Err(e),
            Ok(f) => match lower(st, *arg) {
                Err(e) => Err(e),
                Ok(x) => Ok(
                    Value::LazyCall {
                        func: Rc::new(f),
                        arg: Rc::new(x),
                        path: func.path,
                        span: Span { start: func.span.start, end: arg.span.end },
                    },
                ),
            },
        },
        ActionKind::FuncDef { arg, expr, captures } => match capture_list(st, captures@, *expr) {
            Err(e) => Err(e),
            Ok(b) => Ok(Value::Function { arg_name: arg, captures: b, action: expr }),
        },
        // Statements and programs are not expressions: lowering is never asked
        // for them (see `is_expr`), so any value would do here.
        _ => Err(EvalError::DepthExceeded),
    }
}

proof fn lemma_capture_list_ok(st: Env, names: Seq<String>, body: Action)
    requires
        st.wf(),
    ensures
        capture_list(st, names, body) matches Ok(b) ==> bindings_ok(b, st.cells.len()),
    decreases names.len(),
{
    if names.len() > 0 {
        lemma_capture_list_ok(st, names.drop_last(), body);
        lemma_lookup_ok(st, names.last()@);
    }
}

pub proof fn lemma_lookup_ok(st: Env, name: Seq<char>)
    requires
        st.wf(),
    ensures
        st.lookup(name) matches Some(c) ==> c < st.cells.len(),
{
    lemma_resolve_ok(st, st.scopes, name);
}

proof fn lemma_resolve_ok(st: Env, scopes: Seq<Bindings>, name: Seq<char>)
    requires
        st.wf(),
        forall|i: int| 0 <= i < scopes.len() ==> bindings_ok(#[trigger] scopes[i], st.cells.len()),
    ensures
        crate::state::resolve(scopes, st.globals, name) matches Some(c) ==> c < st.cells.len(),
    decreases scopes.len(),
{
    crate::state::lemma_find_ok(st.globals, st.cells.len(), name);
    if scopes.len() > 0 {
        crate::state::lemma_find_ok(scopes.last(), st.cells.len(), name);
        assert forall|i: int| 0 <= i < scopes.drop_last().len() implies bindings_ok(
            #[trigger] scopes.drop_last()[i],
            st.cells.len(),
        ) by {
            assert(scopes.drop_last()[i] == scopes[i]);
        }
        lemma_resolve_ok(st, scopes.drop_last(), name);
    }
}

/// The body of a lambda.
pub open spec fn body_of(a: Action) -> Action {
    match a.kind {
        ActionKind::FuncDef { expr, .. } => *expr,
        _ => a,
    }
}

/// What lowering returns refers only to existing cells.
pub proof fn lemma_lower_ok(st: Env, a: Action)
    requires
        st.wf(),
        is_expr(a),
    ensures
        lower(st, a) matches Ok(v) ==> value_ok(v, st.cells.len()),
    decreases a,
{
    match a.kind {
        ActionKind::Ident(n) => lemma_lookup_ok(st, n@),
        ActionKind::Call { func, arg } => {
            lemma_lower_ok(st, *func);
            lemma_lower_ok(st, *arg);
        },
        ActionKind::FuncDef { captures, .. } => {
            lemma_capture_list_ok(st, captures@, body_of(a));
        },
        _ => {},
    }
}

impl Value {
    /// Whether the value is an unforced application.
    pub fn is_lazy(&self) -> (r: bool)
        ensures
            r == (*self is LazyCall),
    {
        match self {
            Value::LazyCall { .. } => true,
            _ => false,
        }
    }

    /// A native function as a value.
    pub fn native_function(val: Native) -> (r: Value)
        ensures
            r == Value::NativeFunction(val),
    {
        Value::NativeFunction(val)
    }

    /// A copy of the value; closures and thunks share their parts.
    pub fn copy(&self) -> (r: Value)
        ensures
            r == *self,
    {
        match self {
            Value::Number(n) => Value::Number(*n),
            Value::NativeFunction(f) => Value::NativeFunction(*f),
            Value::Function { arg_name, captures, action } => Value::Function {
                arg_name: arg_name.clone(),
                captures: copy_bindings(captures),
                action: Rc::clone(action),
            },
            Value::LazyCall { func, arg, path, span } => Value::LazyCall {
                func: Rc::clone(func),
                arg: Rc::clone(arg),
                path: path.clone(),
                span: *span,
            },
        }
    }

    /// Lowers an expression tree to a value in `state`, evaluating nothing.
    pub fn from_action(state: &State, action: &Action) -> (r: Result<Value, EvalError>)
        requires
            state.wf(),
            is_expr(*action),
        ensures
            r == lower(state.env(), *action),
            r matches Ok(v) ==> value_ok(v, state.cells@.len()),
        decreases action,
    {
        proof {
            state.lemma_env_wf();
            lemma_lower_ok(state.env(), *action);
        }
        match &action.kind {
            ActionKind::Ident(name) => match state.local(name) {
                Some(c) => Ok(state.cells[c].copy()),
                None => Err(EvalError::NoVar(NoVar::new(&action.path, action.span, name))),
            },
            ActionKind::Call { func, arg } => {
                let f = match Value::from_action(state, func) {
                    Err(e) => {
                        return Err(e);
                    },
                    Ok(f) => f,
                };
                let x = match Value::from_action(state, arg) {
                    Err(e) => {
                        return Err(e);
                    },
                    Ok(x) => x,
                };
                Ok(
                    Value::LazyCall {
                        func: Rc::new(f),
                        arg: Rc::new(x),
                        path: func.path.clone(),
                        span: Span { start: func.span.start, end: arg.span.end },
                    },
                )
            },
            ActionKind::FuncDef { arg, expr, captures } => {
                match capture_bindings(state, captures, expr) {
                    Err(e) => Err(e),
                    Ok(b) => Ok(
                        Value::Function { arg_name: arg.clone(), captures: b, action: Rc::clone(expr) },
                    ),
                }
            },
            _ => {
                proof {
                    assert(false);
                }
                Err(EvalError::DepthExceeded)
            },
        }
    }
}

/// A copy of a list of bindings.
pub fn copy_bindings(b: &Bindings) -> (r: Bindings)
    ensures
        r == *b,
{
    match b {
        Bindings::Nil => Bindings::Nil,
        Bindings::Cons(n, c, rest) => Bindings::Cons(n.clone(), *c, Rc::clone(rest)),
    }
}

/// Resolves each captured name in `state`, as `capture_list` describes.
fn capture_bindings(state: &State, names: &Vec<String>, body: &Action) -> (r: Result<
    Bindings,
    EvalError,
>)
    requires
        state.wf(),
    ensures
        r == capture_list(state.env(), names@, *body),
{
    let mut list = Bindings::Nil;
    let mut i: usize = 0;
    while i < names.len()
        invariant
            i <= names.len(),
            state.wf(),
            capture_list(state.env(), names@.subrange(0, i as int), *body) == Ok::<Bindings, EvalError>(
                list,
            ),
        decreases names.len() - i,
    {
        let ghost next = names@.subrange(0, i as int + 1);
        proof {
            assert(next.drop_last() =~= names@.subrange(0, i as int));
            assert(next.last() == names@[i as int]);
        }
        match state.local(&names[i]) {
            Some(c) => {
                list = Bindings::Cons(names[i].clone(), c, Rc::new(list));
            },
            None => {
                proof {
                    let k = i as int;
                    assert(capture_list(state.env(), names@.subrange(0, k + 1), *body) is Err);
                    lemma_capture_err_extends(state.env(), names@, *body, k + 1);
                    assert(names@.subrange(0, names@.len() as int) =~= names@);
                }
                return Err(EvalError::NoVar(NoVar::new(&body.path, body.span, &names[i])));
            },
        }
        i = i + 1;
    }
    proof {
        assert(names@.subrange(0, names@.len() as int) =~= names@);
    }
    Ok(list)
}

/// Once resolving a prefix of the names fails, resolving any longer prefix
/// fails with the same error.
proof fn lemma_capture_err_extends(st: Env, names: Seq<String>, body: Action, k: int)
    requires
        0 <= k <= names.len(),
        capture_list(st, names.subrange(0, k), body) is Err,
    ensures
        capture_list(st, names, body) == capture_list(st, names.subrange(0, k), body),
    decreases names.len() - k,
{
    if k < names.len() {
        let next = names.subrange(0, k + 1);
        assert(next.drop_last() =~= names.subrange(0, k));
        lemma_capture_err_extends(st, names, body, k + 1);
    } else {
        assert(names.subrange(0, k) =~= names);
    }
}


/// `a` is a prefix of `b`: cells are only ever added.
pub open spec fn grows(a: Seq<Value>, b: Seq<Value>) -> bool {
    a.len() <= b.len() && forall|i: int| 0 <= i < a.len() ==> #[trigger] b[i] == a[i]
}

/// What forcing may change in a state: it adds cells and output, and leaves
/// the scopes and the globals as they were.
pub open spec fn forcing_frame(s0: State, s1: State) -> bool {
    &&& s1.wf()
    &&& s1.scope@ == s0.scope@
    &&& s1.globals == s0.globals
    &&& grows(s0.cells@, s1.cells@)
}

/// The error for applying something that is not a function.
pub open spec fn not_function(path: String, span: Span) -> EvalError {
    EvalError::CallNotFunction(CallNotFunction { path, span })
}

/// The environment a closure body is lowered in: the argument in a new cell,
/// bound together with the captures in a new innermost scope.
pub open spec fn call_env(st: State, arg_name: String, captures: Bindings, arg: Value) -> Env {
    Env {
        cells: st.cells@.push(arg),
        scopes: st.scope@.push(Bindings::Cons(arg_name, st.cells@.len() as usize, Rc::new(captures))),
        globals: st.globals,
    }
}


/// Everything forcing reads or changes, as plain values.
pub struct Machine {
    pub cells: Seq<Value>,
    pub scopes: Seq<Bindings>,
    pub globals: Bindings,
    pub output: Seq<Output>,
}

pub open spec fn machine(s: State) -> Machine {
    Machine { cells: s.cells@, scopes: s.scope@, globals: s.globals, output: s.output@ }
}

pub open spec fn env_of(m: Machine) -> Env {
    Env { cells: m.cells, scopes: m.scopes, globals: m.globals }
}

/// Forcing a value one application, as `Value::eval` does it: the function
/// side is forced until it is no longer a thunk, the argument side once, and
/// the function is applied. `fuel` bounds how deeply this may nest.
pub open spec fn eval_spec(m: Machine, v: Value, fuel: nat) -> (Result<Value, EvalError>, Machine)
    decreases fuel, 3nat, 0nat,
{
    match v {
        Value::LazyCall { func, arg, path, span } => if fuel == 0 {
            (Err(EvalError::DepthExceeded), m)
        } else {
            let (rf, m1) = eval_spec(m, *func, (fuel - 1) as nat);
            match rf {
                Err(e) => (Err(e), m1),
                Ok(f) => {
                    let (rx, m2) = eval_spec(m1, *arg, (fuel - 1) as nat);
                    match rx {
                        Err(e) => (Err(e), m2),
                        Ok(x) => {
                            let (rg, m3) = force_loop(m2, f, (fuel - 1) as nat, (fuel - 1) as nat);
                            match rg {
                                Err(e) => (Err(e), m3),
                                Ok(g) => apply_spec(m3, g, x, path, span, (fuel - 1) as nat),
                            }
                        },
                    }
                },
            }
        },
        _ => (Ok(v), m),
    }
}

/// Forcing until the value is no longer a thunk, at most `steps` times.
pub open spec fn force_loop(m: Machine, v: Value, fuel: nat, steps: nat) -> (
    Result<Value, EvalError>,
    Machine,
)
    decreases fuel, 2nat, steps,
{
    if !(v is LazyCall) {
        (Ok(v), m)
    } else if steps == 0 || fuel == 0 {
        (Err(EvalError::DepthExceeded), m)
    } else {
        let (r, m1) = eval_spec(m, v, (fuel - 1) as nat);
        match r {
            Err(e) => (Err(e), m1),
            Ok(w) => force_loop(m1, w, fuel, (steps - 1) as nat),
        }
    }
}

/// Applying a forced function, as `apply` does it.
pub open spec fn apply_spec(m: Machine, g: Value, x: Value, path: String, span: Span, fuel: nat) -> (
    Result<Value, EvalError>,
    Machine,
)
    decreases fuel, 0nat, 0nat,
{
    match g {
        Value::Function { arg_name, captures, action } => {
            let frame = Bindings::Cons(arg_name, m.cells.len() as usize, Rc::new(captures));
            let inner = Env { cells: m.cells.push(x), scopes: m.scopes.push(frame), globals: m.globals };
            (lower(inner, *action), Machine { cells: m.cells.push(x), ..m })
        },
        Value::NativeFunction(n) => if fuel == 0 {
            (Err(EvalError::DepthExceeded), m)
        } else {
            native_spec(m, n, x, path, span, (fuel - 1) as nat)
        },
        _ => (Err(not_function(path, span)), m),
    }
}

/// Running a native function, as `call_native` does it.
pub open spec fn native_spec(m: Machine, n: Native, x: Value, path: String, span: Span, fuel: nat) -> (
    Result<Value, EvalError>,
    Machine,
)
    decreases fuel, 4nat, 0nat,
{
    match n {
        Native::Succ => {
            let (r, m1) = force_loop(m, x, fuel, fuel);
            (
                match r {
                    Err(e) => Err(e),
                    Ok(Value::Number(k)) => if k == u32::MAX {
                        Err(EvalError::BadNumber(BadNumber))
                    } else {
                        Ok(Value::Number((k + 1) as u32))
                    },
                    Ok(_) => Err(EvalError::BadNumber(BadNumber)),
                },
                m1,
            )
        },
        Native::Debug => {
            let (r, m1) = force_loop(m, x, fuel, fuel);
            match r {
                Err(e) => (Err(e), m1),
                Ok(v) => (
                    Ok(Value::NativeFunction(Native::Debug)),
                    Machine { output: m1.output.push(Output::Value(v)), ..m1 },
                ),
            }
        },
        Native::PrintNum => {
            let numeral = Value::LazyCall {
                func: Rc::new(x),
                arg: Rc::new(Value::NativeFunction(Native::Succ)),
                path,
                span,
            };
            let applied = Value::LazyCall {
                func: Rc::new(numeral),
                arg: Rc::new(Value::Number(0)),
                path,
                span,
            };
            let (r, m1) = force_loop(m, applied, fuel, fuel);
            match r {
                Ok(Value::Number(k)) => (
                    Ok(Value::NativeFunction(Native::PrintNum)),
                    Machine { output: m1.output.push(Output::Number(k)), ..m1 },
                ),
                Ok(_) => (Err(EvalError::BadNumber(BadNumber)), m1),
                Err(EvalError::CallNotFunction(_)) => (Err(EvalError::BadNumber(BadNumber)), m1),
                Err(e) => (Err(e), m1),
            }
        },
    }
}

proof fn lemma_frame_refl(s: State)
    requires
        s.wf(),
    ensures
        forcing_frame(s, s),
{
    assert(grows(s.cells@, s.cells@));
}

proof fn lemma_frame_trans(s0: State, s1: State, s2: State)
    requires
        forcing_frame(s0, s1),
        forcing_frame(s1, s2),
    ensures
        forcing_frame(s0, s2),
{
}

impl Value {
    /// Forces a thunk one application: the function side is forced until it
    /// is no longer a thunk, the argument side is forced once, and the
    /// function is applied. Any other value is already in normal form.
    pub fn eval(&self, state: &mut State, fuel: u64) -> (r: Result<Value, EvalError>)
        requires
            old(state).wf(),
            value_ok(*self, old(state).cells@.len()),
        ensures
            (r, machine(*final(state))) == eval_spec(machine(*old(state)), *self, fuel as nat),
            forcing_frame(*old(state), *final(state)),
            r matches Ok(v) ==> value_ok(v, final(state).cells@.len()),
            !(*self is LazyCall) ==> r == Ok::<Value, EvalError>(*self) && *final(state) == *old(
                state,
            ),
            match *self {
                Value::LazyCall { func, arg, path, span } => {
                    &&& (*func is Number && !(*arg is LazyCall) && fuel > 0) ==> r == Err::<
                        Value,
                        EvalError,
                    >(not_function(path, span))
                    &&& (!(*arg is LazyCall) && fuel > 0) ==> match *func {
                        Value::Function { arg_name, captures, action } => {
                            &&& r == lower(call_env(*old(state), arg_name, captures, *arg), *action)
                            &&& final(state).cells@ == old(state).cells@.push(*arg)
                        },
                        _ => true,
                    }
                },
                _ => true,
            },
        decreases fuel, 2nat,
    {
        match self {
            Value::LazyCall { func, arg, path, span } => {
                if fuel == 0 {
                    return Err(EvalError::DepthExceeded);
                }
                let ghost s0 = *state;
                let f = match func.eval(state, fuel - 1) {
                    Err(e) => {
                        return Err(e);
                    },
                    Ok(f) => f,
                };
                let ghost s1 = *state;
                proof {
                    lemma_value_ok_mono(sides_of(*self).1, s0.cells@.len(), s1.cells@.len());
                }
                let x = match arg.eval(state, fuel - 1) {
                    Err(e) => {
                        return Err(e);
                    },
                    Ok(x) => x,
                };
                let ghost s2 = *state;
                proof {
                    lemma_value_ok_mono(f, s1.cells@.len(), s2.cells@.len());
                }
                let f = match force(f, state, fuel - 1) {
                    Err(e) => {
                        return Err(e);
                    },
                    Ok(f) => f,
                };
                let ghost s3 = *state;
                proof {
                    lemma_value_ok_mono(x, s2.cells@.len(), s3.cells@.len());
                }
                let r = apply(f, x, path, *span, state, fuel - 1);
                proof {
                    lemma_frame_trans(s0, s1, s2);
                    lemma_frame_trans(s0, s2, s3);
                    lemma_frame_trans(s0, s3, *state);
                }
                r
            },
            _ => Ok(self.copy()),
        }
    }
}

/// Forces `v` until it is no longer a thunk.
pub fn force(v: Value, state: &mut State, fuel: u64) -> (r: Result<Value, EvalError>)
    requires
        old(state).wf(),
        value_ok(v, old(state).cells@.len()),
    ensures
        (r, machine(*final(state))) == force_loop(machine(*old(state)), v, fuel as nat, fuel as nat),
        forcing_frame(*old(state), *final(state)),
        r matches Ok(w) ==> value_ok(w, final(state).cells@.len()) && !(w is LazyCall),
        !(v is LazyCall) ==> r == Ok::<Value, EvalError>(v) && *final(state) == *old(state),
    decreases fuel, 1nat,
{
    let ghost s0 = *state;
    let mut cur = v;
    let mut steps = fuel;
    proof {
        assert(grows(s0.cells@, s0.cells@));
    }
    while cur.is_lazy()
        invariant
            forcing_frame(s0, *state),
            s0 == *old(state),
            value_ok(cur, state.cells@.len()),
            steps <= fuel,
            !(v is LazyCall) ==> *state == s0 && cur == v,
            force_loop(machine(s0), v, fuel as nat, fuel as nat) == force_loop(
                machine(*state),
                cur,
                fuel as nat,
                steps as nat,
            ),
        decreases steps,
    {
        if steps == 0 || fuel == 0 {
            return Err(EvalError::DepthExceeded);
        }
        steps = steps - 1;
        let ghost s1 = *state;
        cur = match cur.eval(state, fuel - 1) {
            Err(e) => {
                proof {
                    lemma_frame_trans(s0, s1, *state);
                }
                return Err(e);
            },
            Ok(w) => w,
        };
        proof {
            lemma_frame_trans(s0, s1, *state);
        }
    }
    Ok(cur)
}

/// Applies a forced function to an argument. A closure runs its body in a
/// new scope that binds the parameter (to a new cell holding the argument)
/// and its captures; the scope is left again whatever the body gives. A
/// native function does its own work. Anything else is not a function.
pub fn apply(func: Value, arg: Value, path: &String, span: Span, state: &mut State, fuel: u64) -> (r:
    Result<Value, EvalError>)
    requires
        old(state).wf(),
        value_ok(func, old(state).cells@.len()),
        value_ok(arg, old(state).cells@.len()),
    ensures
        (r, machine(*final(state))) == apply_spec(machine(*old(state)), func, arg, *path, span, fuel as nat),
        forcing_frame(*old(state), *final(state)),
        r matches Ok(v) ==> value_ok(v, final(state).cells@.len()),
        match func {
            Value::Function { arg_name, captures, action } => {
                &&& final(state).cells@ == old(state).cells@.push(arg)
                &&& final(state).output == old(state).output
                &&& r == lower(call_env(*old(state), arg_name, captures, arg), *action)
            },
            Value::NativeFunction(_) => true,
            _ => {
                &&& r == Err::<Value, EvalError>(not_function(*path, span))
                &&& *final(state) == *old(state)
            },
        },
    decreases fuel, 0nat,
{
    proof {
        lemma_frame_refl(*state);
    }
    match func {
        Value::Function { arg_name, captures, action } => {
            let ghost s0 = *state;
            let c = state.new_cell(arg);
            proof {
                lemma_bindings_ok_mono(captures, s0.cells@.len(), state.cells@.len());
            }
            state.push_scope(Bindings::Cons(arg_name, c, Rc::new(captures)));
            proof {
                assert(state.env() == call_env(s0, arg_name, captures, arg));
            }
            let r = Value::from_action(state, &action);
            state.pop_scope();
            proof {
                assert(state.scope@ =~= s0.scope@);
                assert(state.scope@ == s0.scope@);
                assert(grows(s0.cells@, state.cells@));
                assert(state.globals == s0.globals);
                assert(state.wf());
            }
            r
        },
        Value::NativeFunction(n) => {
            if fuel == 0 {
                return Err(EvalError::DepthExceeded);
            }
            call_native(n, arg, path, span, state, fuel - 1)
        },
        _ => Err(EvalError::CallNotFunction(CallNotFunction::new(path, span))),
    }
}

/// Runs a native function on its (unforced) argument; `path` and `span`
/// locate the application that called it.
pub fn call_native(n: Native, arg: Value, path: &String, span: Span, state: &mut State, fuel: u64) -> (r:
    Result<Value, EvalError>)
    requires
        old(state).wf(),
        value_ok(arg, old(state).cells@.len()),
    ensures
        (r, machine(*final(state))) == native_spec(machine(*old(state)), n, arg, *path, span, fuel as nat),
        forcing_frame(*old(state), *final(state)),
        r matches Ok(v) ==> value_ok(v, final(state).cells@.len()),
        n == Native::Succ ==> match arg {
            Value::Number(k) => *final(state) == *old(state) && r == if k == u32::MAX {
                Err::<Value, EvalError>(EvalError::BadNumber(BadNumber))
            } else {
                Ok::<Value, EvalError>(Value::Number((k + 1) as u32))
            },
            Value::LazyCall { .. } => r matches Ok(v) ==> v is Number,
            _ => r == Err::<Value, EvalError>(EvalError::BadNumber(BadNumber)),
        },
        n == Native::Debug ==> (r is Ok ==> r == Ok::<Value, EvalError>(Value::NativeFunction(Native::Debug))),
        n == Native::Debug && !(arg is LazyCall) ==> {
            &&& r == Ok::<Value, EvalError>(Value::NativeFunction(Native::Debug))
            &&& final(state).output@ == old(state).output@.push(Output::Value(arg))
            &&& final(state).cells == old(state).cells
        },
        n == Native::PrintNum ==> (r is Ok ==> r == Ok::<Value, EvalError>(Value::NativeFunction(Native::PrintNum))
            && final(state).output@.len() > 0 && final(state).output@.last() is Number),
    decreases fuel, 3nat,
{
    match n {
        Native::Succ => match force(arg, state, fuel) {
            Err(e) => Err(e),
            Ok(Value::Number(k)) => {
                if k == u32::MAX {
                    Err(EvalError::BadNumber(BadNumber))
                } else {
                    Ok(Value::Number(k + 1))
                }
            },
            Ok(_) => Err(EvalError::BadNumber(BadNumber)),
        },
        Native::Debug => match force(arg, state, fuel) {
            Err(e) => Err(e),
            Ok(v) => {
                state.output.push(Output::Value(v));
                Ok(Value::NativeFunction(Native::Debug))
            },
        },
        Native::PrintNum => {
            let numeral = Value::LazyCall {
                func: Rc::new(arg),
                arg: Rc::new(Value::NativeFunction(Native::Succ)),
                path: path.clone(),
                span,
            };
            let applied = Value::LazyCall {
                func: Rc::new(numeral),
                arg: Rc::new(Value::Number(0)),
                path: path.clone(),
                span,
            };
            proof {
                assert(value_ok(arg, state.cells@.len()));
                assert(sides_of(numeral).0 == arg);
                assert(value_ok(sides_of(numeral).1, state.cells@.len()));
                assert(value_ok(numeral, state.cells@.len()));
                assert(sides_of(applied).0 == numeral);
                assert(value_ok(sides_of(applied).1, state.cells@.len()));
                assert(value_ok(applied, state.cells@.len()));
            }
            match force(applied, state, fuel) {
                Ok(Value::Number(k)) => {
                    state.output.push(Output::Number(k));
                    Ok(Value::NativeFunction(Native::PrintNum))
                },
                Ok(_) => Err(EvalError::BadNumber(BadNumber)),
                Err(EvalError::CallNotFunction(_)) => Err(EvalError::BadNumber(BadNumber)),
                Err(e) => Err(e),
            }
        },
    }
}

} // verus!
