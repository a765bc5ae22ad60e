use lambda::errors::EvalError;
use lambda::parser::{parse, ActionKind};
use lambda::program::{install_natives, run, run_statement, Failure};
use lambda::state::{Bindings, State};
use lambda::value::{apply, call_native, Native, Output, Value};
use lambda::Lambda;

fn here() -> String {
    "p".to_string()
}

fn origin() -> lambda::token::Span {
    lambda::token::Span { start: 0, end: 0 }
}

fn fresh() -> State {
    let mut s = State::new();
    install_natives(&mut s);
    s
}

fn numbers(s: &State) -> Vec<u32> {
    s.output
        .iter()
        .filter_map(|o| match o {
            Output::Number(n) => Some(*n),
            _ => None,
        })
        .collect()
}

#[test]
fn print_num_of_identity_successor() {
    let mut s = fresh();
    let r = run("let inc = \\n -> n\nprint_num inc", "t", &mut s, 1000);
    assert!(r.is_ok());
    assert_eq!(numbers(&s), vec![1]);
    assert_eq!(s.scope.len(), 0);
}

#[test]
fn church_numerals_print() {
    let mut s = fresh();
    let src = "let zero = \\f -> \\x -> x\n\
               let two = \\f -> \\x -> f (f x)\n\
               print_num zero\n\
               print_num two";
    assert!(run(src, "t", &mut s, 1000).is_ok());
    assert_eq!(numbers(&s), vec![0, 2]);
}

#[test]
fn let_binds_for_later_statements() {
    let mut s = fresh();
    s.set_global("five".to_string(), Value::Number(5));
    assert!(run("let x = five\ndebug x", "t", &mut s, 1000).is_ok());
    assert_eq!(s.output.len(), 1);
    assert!(matches!(s.output[0], Output::Value(Value::Number(5))));
    let c = s.local(&"x".to_string()).unwrap();
    assert!(matches!(s.cells[c], Value::Number(5)));
}

#[test]
fn later_let_shadows_earlier() {
    let mut s = fresh();
    s.set_global("one".to_string(), Value::Number(1));
    s.set_global("two".to_string(), Value::Number(2));
    assert!(run("let x = one\nlet x = two\ndebug x", "t", &mut s, 1000).is_ok());
    assert!(matches!(s.output[0], Output::Value(Value::Number(2))));
}

#[test]
fn undefined_variable_fails() {
    let mut s = fresh();
    match run("let x = 5", "t", &mut s, 1000) {
        Err(Failure::Eval(EvalError::NoVar(e))) => {
            assert_eq!(e.name, "5");
            assert_eq!((e.span.start, e.span.end), (8, 9));
        }
        other => panic!("unexpected {:?}", other),
    }
}

#[test]
fn capture_of_missing_name_fails_when_closure_is_built() {
    let mut s = fresh();
    match run("let f = \\x -> y", "t", &mut s, 1000) {
        Err(Failure::Eval(EvalError::NoVar(e))) => assert_eq!(e.name, "y"),
        other => panic!("unexpected {:?}", other),
    }
}

#[test]
fn application_does_not_force_its_argument() {
    let mut s = fresh();
    s.set_global("five".to_string(), Value::Number(5));
    // `five five` fails when forced; building applications of it does not.
    assert!(run("let bad = five five", "t", &mut s, 1000).is_ok());
    assert!(run("let g = (\\x -> five) bad", "t", &mut s, 1000).is_ok());
    let c = s.local(&"g".to_string()).unwrap();
    assert!(matches!(s.cells[c], Value::LazyCall { .. }));
    assert!(s.output.is_empty());
    // Forcing is what reports the error.
    assert!(matches!(
        run("debug g", "t", &mut s, 1000),
        Err(Failure::Eval(EvalError::CallNotFunction(_)))
    ));
}

#[test]
fn calling_a_number_is_a_non_function_error() {
    let mut s = fresh();
    s.set_global("five".to_string(), Value::Number(5));
    match run("\nfive five", "t", &mut s, 1000) {
        Err(Failure::Eval(EvalError::CallNotFunction(e))) => {
            assert_eq!((e.span.start, e.span.end), (1, 10));
            assert_eq!(e.path, "t");
        }
        other => panic!("unexpected {:?}", other),
    }
    assert_eq!(s.scope.len(), 0);
}

#[test]
fn apply_number_gives_non_function_error() {
    let mut s = State::new();
    let r = apply(Value::Number(3), Value::Number(4), &"p".to_string(), lambda::token::Span { start: 1, end: 2 }, &mut s, 10);
    match r {
        Err(EvalError::CallNotFunction(e)) => assert_eq!((e.span.start, e.span.end), (1, 2)),
        other => panic!("unexpected {:?}", other),
    }
    assert_eq!(s.cells.len(), 0);
}

#[test]
fn closures_share_captured_cells() {
    let mut s = fresh();
    s.set_global("y".to_string(), Value::Number(7));
    let y_cell = s.local(&"y".to_string()).unwrap();
    assert!(run("let f = \\a -> y\nlet g = \\b -> y", "t", &mut s, 1000).is_ok());
    let cell_of = |name: &str| -> usize {
        let c = s.local(&name.to_string()).unwrap();
        match &s.cells[c] {
            Value::Function { captures: Bindings::Cons(n, cell, _), .. } => {
                assert_eq!(n, "y");
                *cell
            }
            other => panic!("unexpected {:?}", other),
        }
    };
    assert_eq!(cell_of("f"), y_cell);
    assert_eq!(cell_of("g"), y_cell);
}

#[test]
fn scope_stack_restored_after_failed_application() {
    let mut s = fresh();
    s.set_global("five".to_string(), Value::Number(5));
    let r = run("let id = \\x -> x\nprint_num (id five)", "t", &mut s, 1000);
    assert!(matches!(r, Err(Failure::Eval(EvalError::BadNumber(_)))));
    assert_eq!(s.scope.len(), 0);
}

#[test]
fn depth_budget_is_reported() {
    let mut s = fresh();
    let src = "let two = \\f -> \\x -> f (f x)\nprint_num two";
    let r = run(src, "t", &mut s, 2);
    assert!(matches!(r, Err(Failure::Eval(EvalError::DepthExceeded))));
    assert_eq!(s.scope.len(), 0);
}

#[test]
fn statement_values_are_discarded() {
    let mut s = fresh();
    let p = parse("\\x -> x", "t").unwrap();
    let stmt = match p.kind() {
        ActionKind::Chunk(v) => &v[0],
        _ => panic!(),
    };
    let before = s.cells.len();
    assert!(run_statement(&mut s, stmt, 10).is_ok());
    assert_eq!(s.cells.len(), before);
    assert!(s.output.is_empty());
}

#[test]
fn parse_failure_is_reported() {
    let mut s = fresh();
    assert!(matches!(run("let x =", "t", &mut s, 10), Err(Failure::Parse(_))));
}

#[test]
fn interpreter_instances_are_independent() {
    let mut a = Lambda::new();
    a.init();
    let mut b = Lambda::new();
    b.set_input(Native::Succ);
    b.init();
    assert!(a.run("let inc = \\n -> n\nprint_num inc", "t").is_ok());
    assert!(b.run("let three = \\f -> \\x -> f (f (f x))\nprint_num three", "t").is_ok());
    assert_eq!(numbers(&a.state), vec![1]);
    assert_eq!(numbers(&b.state), vec![3]);
    assert!(a.state.local(&"input".to_string()).is_none());
    assert!(b.state.local(&"input".to_string()).is_some());
}

#[test]
fn input_function_is_callable() {
    let mut l = Lambda::new();
    l.set_input(Native::Debug);
    assert_eq!(l.input, Some(Native::Debug));
    l.init();
    assert!(l.run("let f = \\x -> x\ninput f", "t").is_ok());
    assert!(matches!(l.state.output[0], Output::Value(Value::Function { .. })));
}

#[test]
fn successor_adds_one_and_rejects_overflow() {
    let mut s = State::new();
    assert!(matches!(call_native(Native::Succ, Value::Number(41), &here(), origin(), &mut s, 5), Ok(Value::Number(42))));
    assert!(matches!(
        call_native(Native::Succ, Value::Number(u32::MAX), &here(), origin(), &mut s, 5),
        Err(EvalError::BadNumber(_))
    ));
    assert!(matches!(
        call_native(Native::Succ, Value::NativeFunction(Native::Debug), &here(), origin(), &mut s, 5),
        Err(EvalError::BadNumber(_))
    ));
}

#[test]
fn debug_records_forced_value() {
    let mut s = State::new();
    let r = call_native(Native::Debug, Value::Number(9), &here(), origin(), &mut s, 5);
    assert!(matches!(r, Ok(Value::NativeFunction(Native::Debug))));
    assert!(matches!(s.output[0], Output::Value(Value::Number(9))));
}

#[test]
fn default_interpreter_has_natives() {
    let mut l = Lambda::default();
    assert!(l.state.local(&"print_num".to_string()).is_some());
    assert!(l.state.local(&"debug".to_string()).is_some());
    assert!(l.run("print_num (\\f -> \\x -> f x)", "t").is_ok());
    assert_eq!(numbers(&l.state), vec![1]);
}

#[test]
fn eval_of_normal_form_is_identity() {
    let mut s = State::new();
    let v = Value::Number(3);
    assert!(matches!(v.eval(&mut s, 0), Ok(Value::Number(3))));
    assert_eq!(s.cells.len(), 0);
}

#[test]
fn native_bound_under_another_name() {
    let mut s = fresh();
    assert!(run("let a = print_num\na (\\f -> \\z -> f z)", "t", &mut s, 1000).is_ok());
    assert_eq!(numbers(&s), vec![1]);
    assert_eq!(s.output.len(), 1);
}

#[test]
fn later_let_of_native_wins() {
    let mut s = fresh();
    assert!(run("let a = debug\nlet a = print_num\na (\\f -> \\z -> z)", "t", &mut s, 1000).is_ok());
    assert_eq!(numbers(&s), vec![0]);
    assert_eq!(s.output.len(), 1);
}

#[test]
fn output_of_earlier_statements_stays_after_error() {
    let mut s = fresh();
    match run("print_num (\\f -> \\z -> f z)\nq", "t", &mut s, 1000) {
        Err(Failure::Eval(EvalError::NoVar(e))) => assert_eq!(e.name, "q"),
        other => panic!("unexpected {:?}", other),
    }
    assert_eq!(numbers(&s), vec![1]);
}

#[test]
fn nested_nodes_carry_the_path() {
    let p = parse("let f = \\x -> g (x y)", "file.lam").unwrap();
    fn all_paths(a: &lambda::parser::Action, out: &mut Vec<String>) {
        out.push(a.path().to_string());
        match a.kind() {
            ActionKind::Call { func, arg } => {
                all_paths(func, out);
                all_paths(arg, out);
            }
            ActionKind::FuncDef { expr, .. } => all_paths(expr, out),
            ActionKind::Assign { expr, .. } => all_paths(expr, out),
            _ => {}
        }
    }
    let mut paths = Vec::new();
    match p.kind() {
        ActionKind::Chunk(v) => v.iter().for_each(|a| all_paths(a, &mut paths)),
        _ => panic!(),
    }
    assert_eq!(paths.len(), 7);
    assert!(paths.iter().all(|p| p == "file.lam"));
}
