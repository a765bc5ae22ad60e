//! A small call-by-need lambda calculus: a lexer and parser that build
//! expression trees with precomputed capture sets, and a lazy evaluator.
pub mod args;
pub mod errors;
pub mod laws;
pub mod parser;
pub mod program;
pub mod state;
pub mod token;
pub mod value;
pub mod variable;

use vstd::prelude::*;
use crate::program::{install_natives, run, run_outcome, Failure, DEFAULT_FUEL};
use crate::state::State;
use crate::value::{machine, Native, Value};

verus! {

/// An interpreter instance: its own environment, so that several can coexist.
pub struct Lambda {
    pub state: State,
    pub input: Option<Native>,
}

impl Lambda {
    /// An interpreter with nothing bound.
    pub fn new() -> (r: Self)
        ensures
            r.state.wf(),
            r.state.cells@.len() == 0,
            r.state.scope@.len() == 0,
            r.input is None,
    {
        Lambda { state: State::new(), input: None }
    }

    /// Binds the native functions, and the input function if one was set
    /// (under the name `input`).
    pub fn init(&mut self)
        requires
            old(self).state.wf(),
            old(self).state.scope@.len() == 0,
        ensures
            final(self).state.wf(),
            final(self).state.scope@.len() == 0,
            final(self).input == old(self).input,
            final(self).state.lookup("print_num"@) is Some,
            final(self).state.lookup("debug"@) is Some,
            old(self).input matches Some(f) ==> final(self).state.lookup("input"@) is Some
                && final(self).state.cells@[final(self).state.lookup("input"@).unwrap() as int]
                == Value::NativeFunction(f),
    {
        match self.input {
            Some(f) => {
                install_natives(&mut self.state);
                let ghost s1 = self.state;
                self.state.set_global(String::from_str("input"), Value::NativeFunction(f));
                proof {
                    reveal_strlit("input");
                    reveal_strlit("print_num");
                    reveal_strlit("debug");
                    assert("print_num"@ != "input"@) by {
                        assert("print_num"@.len() != "input"@.len());
                    }
                    assert("debug"@ != "input"@) by {
                        assert("debug"@[0] != "input"@[0]);
                    }
                    assert(s1.cells@.len() == s1.cells.len());
                    assert(self.state.lookup("input"@) == Some(s1.cells@.len() as usize));
                    assert(self.state.lookup("print_num"@) == s1.lookup("print_num"@));
                    assert(self.state.lookup("debug"@) == s1.lookup("debug"@));
                }
            },
            None => {
                install_natives(&mut self.state);
            },
        }
    }

    /// Sets the function that `init` binds as `input`.
    pub fn set_input(&mut self, func: Native)
        ensures
            final(self).input == Some(func),
            final(self).state == old(self).state,
    {
        self.input = Some(func);
    }

    /// Runs a program's text against this interpreter's bindings.
    pub fn run(&mut self, text: &str, path: &str) -> (r: Result<(), Failure>)
        requires
            old(self).state.wf(),
            text@.len() < usize::MAX / 8,
        ensures
            final(self).state.wf(),
            final(self).state.scope@ == old(self).state.scope@,
            final(self).input == old(self).input,
            run_outcome(
                text@,
                path@,
                machine(old(self).state),
                DEFAULT_FUEL as nat,
                r,
                machine(final(self).state),
            ),
    {
        run(text, path, &mut self.state, DEFAULT_FUEL)
    }
}

impl Default for Lambda {
    /// An interpreter with the native functions bound.
    fn default() -> (r: Self)
        ensures
            r.state.wf(),
            r.state.scope@.len() == 0,
            r.input is None,
            r.state.lookup("print_num"@) is Some,
            r.state.lookup("debug"@) is Some,
    {
        let mut vm = Lambda::new();
        vm.init();
        vm
    }
}

} // verus!
