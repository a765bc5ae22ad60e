use vstd::prelude::*;
use vstd::string::*;
use std::rc::Rc;
use crate::errors::EvalError;
use crate::parser::{self, fault, is_statement, paths_are, stmts_of, Action, ActionKind, Fault, Stmt};
use crate::token::lex_from;
use crate::state::{Bindings, State};
use crate::value::{env_of, force, force_loop, lower, machine, Machine, Native, Value};

verus! {

/// How deep forcing may nest before a statement is given up.
pub const DEFAULT_FUEL: u64 = 10000;

/// Why running a program stopped.
#[derive(Debug)]
pub enum Failure {
    Parse(parser::Error),
    Eval(EvalError),
}

/// One top-level statement, as `run_statement` runs it: a `let` binds its
/// lowered expression to a new global cell; any other statement is lowered
/// and, if that gives a thunk, forced until it no longer is one.
pub open spec fn stmt_spec(m: Machine, a: Action, fuel: nat) -> (Result<(), EvalError>, Machine) {
    match a.kind {
        ActionKind::Assign { target, expr } => match lower(env_of(m), *expr) {
            Ok(v) => (
                Ok(()),
                Machine {
                    cells: m.cells.push(v),
                    globals: Bindings::Cons(target, m.cells.len() as usize, Rc::new(m.globals)),
                    ..m
                },
            ),
            Err(e) => (Err(e), m),
        },
        _ => match lower(env_of(m), a) {
            Ok(v) => if v is LazyCall {
                let (forced, m1) = force_loop(m, v, fuel, fuel);
                (
                    match forced {
                        Ok(_) => Ok(()),
                        Err(e) => Err(e),
                    },
                    m1,
                )
            } else {
                (Ok(()), m)
            },
            Err(e) => (Err(e), m),
        },
    }
}

/// Statements run in order, stopping at the first error; what earlier
/// statements did stays.
pub open spec fn stmts_spec(m: Machine, v: Seq<Action>, fuel: nat) -> (Result<(), EvalError>, Machine)
    decreases v.len(),
{
    if v.len() == 0 {
        (Ok(()), m)
    } else {
        let (r, m1) = stmt_spec(m, v[0], fuel);
        match r {
            Err(e) => (Err(e), m1),
            Ok(_) => stmts_spec(m1, v.drop_first(), fuel),
        }
    }
}

/// What running a program gives: a parse error, or the statements of the
/// parsed program (each an expression or a `let` of one, every node from
/// `path`) run in order from `m`.
pub open spec fn run_outcome(
    src: Seq<char>,
    path: Seq<char>,
    m0: Machine,
    fuel: nat,
    r: Result<(), Failure>,
    m1: Machine,
) -> bool {
    match parser::program(lex_from(src, 0), 0) {
        Err(f) => r matches Err(Failure::Parse(e)) && fault(e) == f && m1 == m0,
        Ok(ss) => exists|v: Seq<Action>|
            {
                &&& #[trigger] stmts_of(v) == ss
                &&& forall|i: int| 0 <= i < v.len() ==> is_statement(#[trigger] v[i]) && paths_are(v[i], path)
                &&& m1 == stmts_spec(m0, v, fuel).1
                &&& match stmts_spec(m0, v, fuel).0 {
                    Ok(_) => r is Ok,
                    Err(e) => r == Err::<(), Failure>(Failure::Eval(e)),
                }
            },
    }
}

/// Runs one top-level statement.
pub fn run_statement(state: &mut State, action: &Action, fuel: u64) -> (r: Result<(), EvalError>)
    requires
        old(state).wf(),
        is_statement(*action),
    ensures
        final(state).wf(),
        final(state).scope@ == old(state).scope@,
        (r, machine(*final(state))) == stmt_spec(machine(*old(state)), *action, fuel as nat),
        match action.kind {
            ActionKind::Assign { target, expr } => match lower(old(state).env(), *expr) {
                Ok(v) => {
                    &&& r is Ok
                    &&& final(state).cells@ == old(state).cells@.push(v)
                    &&& final(state).globals == Bindings::Cons(
                        target,
                        old(state).cells@.len() as usize,
                        Rc::new(old(state).globals),
                    )
                    &&& final(state).output == old(state).output
                },
                Err(e) => r == Err::<(), EvalError>(e) && *final(state) == *old(state),
            },
            _ => match lower(old(state).env(), *action) {
                Ok(v) => if v is LazyCall {
                    let (forced, m) = force_loop(machine(*old(state)), v, fuel as nat, fuel as nat);
                    &&& machine(*final(state)) == m
                    &&& match forced {
                        Ok(_) => r is Ok,
                        Err(e) => r == Err::<(), EvalError>(e),
                    }
                } else {
                    r is Ok && *final(state) == *old(state)
                },
                Err(e) => r == Err::<(), EvalError>(e) && *final(state) == *old(state),
            },
        },
{
    proof {
        state.lemma_env_wf();
    }
    match &action.kind {
        ActionKind::Assign { target, expr } => {
            let v = match Value::from_action(state, expr) {
                Err(e) => {
                    return Err(e);
                },
                Ok(v) => v,
            };
            state.set_global(target.clone(), v);
            Ok(())
        },
        _ => {
            let v = match Value::from_action(state, action) {
                Err(e) => {
                    return Err(e);
                },
                Ok(v) => v,
            };
            if v.is_lazy() {
                match force(v, state, fuel) {
                    Err(e) => Err(e),
                    Ok(_) => Ok(()),
                }
            } else {
                Ok(())
            }
        },
    }
}

/// After `let` binds a name at top level, the name resolves to the cell that
/// holds the bound value.
pub proof fn lemma_let_binds(s0: State, s1: State, target: String, v: Value)
    requires
        s0.scope@.len() == 0,
        s1.scope@ == s0.scope@,
        s1.cells@ == s0.cells@.push(v),
        s1.globals == Bindings::Cons(target, s0.cells@.len() as usize, Rc::new(s0.globals)),
    ensures
        s1.lookup(target@) == Some(s0.cells@.len() as usize),
        s1.cells@[s0.cells@.len() as int] == v,
{
}

/// Binds the native functions to their global names.
pub fn install_natives(state: &mut State)
    requires
        old(state).wf(),
        old(state).scope@.len() == 0,
    ensures
        final(state).wf(),
        final(state).scope@ == old(state).scope@,
        final(state).lookup("print_num"@) is Some,
        final(state).cells@[final(state).lookup("print_num"@).unwrap() as int]
            == Value::NativeFunction(Native::PrintNum),
        final(state).lookup("debug"@) is Some,
        final(state).cells@[final(state).lookup("debug"@).unwrap() as int]
            == Value::NativeFunction(Native::Debug),
{
    let ghost s0 = *state;
    state.set_global(String::from_str("print_num"), Value::NativeFunction(Native::PrintNum));
    let ghost s1 = *state;
    state.set_global(String::from_str("debug"), Value::NativeFunction(Native::Debug));
    proof {
        reveal_strlit("print_num");
        reveal_strlit("debug");
        assert("print_num"@ != "debug"@) by {
            assert("print_num"@.len() != "debug"@.len());
        }
        assert(state.cells@[s1.cells@.len() as int] == Value::NativeFunction(Native::Debug));
        assert(s0.cells@.len() == s0.cells.len());
        assert(s1.cells@.len() == s1.cells.len());
        assert(s1.cells@[s0.cells@.len() as int] == Value::NativeFunction(Native::PrintNum));
        assert(state.cells@[s0.cells@.len() as int] == s1.cells@[s0.cells@.len() as int]);
        assert(state.scope@.len() == 0);
        assert(state.lookup("debug"@) == crate::state::find(state.globals, "debug"@));
        assert(state.lookup("debug"@) == Some(s1.cells@.len() as usize));
        assert(state.lookup("print_num"@) == crate::state::find(state.globals, "print_num"@));
        assert(crate::state::find(s1.globals, "print_num"@) == Some(s0.cells@.len() as usize));
        assert(state.lookup("print_num"@) == Some(s0.cells@.len() as usize));
    }
}

/// Parses `src` and runs its statements in order, stopping at the first
/// error; bindings made before it stay.
pub fn run(src: &str, path: &str, state: &mut State, fuel: u64) -> (r: Result<(), Failure>)
    requires
        old(state).wf(),
        src@.len() < usize::MAX / 8,
    ensures
        final(state).wf(),
        final(state).scope@ == old(state).scope@,
        run_outcome(src@, path@, machine(*old(state)), fuel as nat, r, machine(*final(state))),
{
    let program = match parser::parse(src, path) {
        Err(e) => {
            return Err(Failure::Parse(e));
        },
        Ok(p) => p,
    };
    match &program.kind {
        ActionKind::Chunk(statements) => {
            let ghost s0 = *state;
            let ghost v = statements@;
            let ghost n = v.len();
            proof {
                assert(forall|j: int| 0 <= j < v.len() ==> is_statement(#[trigger] v[j]));
                assert(forall|j: int| 0 <= j < v.len() ==> paths_are(#[trigger] v[j], path@));
                assert(v.subrange(0, n as int) =~= v);
            }
            let mut i: usize = 0;
            while i < statements.len()
                invariant
                    i <= statements@.len(),
                    v == statements@,
                    n == v.len(),
                    state.wf(),
                    state.scope@ == s0.scope@,
                    s0 == *old(state),
                    forall|j: int| 0 <= j < v.len() ==> is_statement(#[trigger] v[j]) && paths_are(v[j], path@),
                    parser::program(lex_from(src@, 0), 0) == Ok::<Seq<Stmt>, Fault>(stmts_of(v)),
                    stmts_spec(machine(s0), v, fuel as nat) == stmts_spec(
                        machine(*state),
                        v.subrange(i as int, n as int),
                        fuel as nat,
                    ),
                decreases statements.len() - i,
            {
                let ghost rest = v.subrange(i as int, n as int);
                proof {
                    assert(rest[0] == v[i as int]);
                    assert(rest.drop_first() =~= v.subrange(i as int + 1, n as int));
                }
                let ghost before = *state;
                match run_statement(state, &statements[i], fuel) {
                    Err(e) => {
                        proof {
                            assert(stmts_spec(machine(before), rest, fuel as nat) == (
                                Err::<(), EvalError>(e),
                                machine(*state),
                            ));
                            assert(run_witness(src@, path@, machine(s0), fuel as nat, Err(Failure::Eval(e)), machine(*state), v));
                        }
                        return Err(Failure::Eval(e));
                    },
                    Ok(()) => {
                        proof {
                            assert(stmts_spec(machine(before), rest, fuel as nat) == stmts_spec(
                                machine(*state),
                                v.subrange(i as int + 1, n as int),
                                fuel as nat,
                            ));
                        }
                    },
                }
                i = i + 1;
            }
            proof {
                assert(v.subrange(n as int, n as int).len() == 0);
                assert(run_witness(src@, path@, machine(s0), fuel as nat, Ok(()), machine(*state), v));
            }
            Ok(())
        },
        _ => {
            proof {
                assert(false);
            }
            Ok(())
        },
    }
}

/// `v` witnesses `run_outcome` for a program that parses.
pub open spec fn run_witness(
    src: Seq<char>,
    path: Seq<char>,
    m0: Machine,
    fuel: nat,
    r: Result<(), Failure>,
    m1: Machine,
    v: Seq<Action>,
) -> bool {
    &&& parser::program(lex_from(src, 0), 0) == Ok::<Seq<Stmt>, Fault>(stmts_of(v))
    &&& forall|i: int| 0 <= i < v.len() ==> is_statement(#[trigger] v[i]) && paths_are(v[i], path)
    &&& m1 == stmts_spec(m0, v, fuel).1
    &&& match stmts_spec(m0, v, fuel).0 {
        Ok(_) => r is Ok,
        Err(e) => r == Err::<(), Failure>(Failure::Eval(e)),
    }
}

} // verus!
