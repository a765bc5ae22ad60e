use vstd::prelude::*;
use std::rc::Rc;
use crate::errors::EvalError;
use crate::parser::{
    chain, fault_at, free_vars, is_expr, name_set, program, Action, ActionKind, ErrorKind, Fault, Tree,
};
use crate::token::{LexToken, TokenView};
use crate::state::{find, Bindings, Env};
use crate::token::Span;
use crate::value::{capture_list, lower, Value};

verus! {

/// A lambda's capture set is exactly the free identifiers of its body other
/// than its parameter; it is fixed by the tree alone, with no environment.
pub proof fn lemma_captures_are_free_vars(a: Action)
    requires
        is_expr(a),
        a.kind is FuncDef,
    ensures
        match a.kind {
            ActionKind::FuncDef { arg, expr, captures } => name_set(captures@) == free_vars(
                *expr,
            ).remove(arg@),
            _ => false,
        },
{
}

/// Lowering an application evaluates neither side: whenever both sides
/// lower, the application lowers to a thunk that holds them as they are,
/// whatever forcing either of them would do.
pub proof fn lemma_call_is_lazy(env: Env, a: Action, f: Action, x: Action)
    requires
        a.kind == (ActionKind::Call { func: Box::new(f), arg: Box::new(x) }),
        lower(env, f) is Ok,
        lower(env, x) is Ok,
    ensures
        lower(env, a) == Ok::<Value, EvalError>(
            Value::LazyCall {
                func: Rc::new(lower(env, f).unwrap()),
                arg: Rc::new(lower(env, x).unwrap()),
                path: f.path,
                span: Span { start: f.span.start, end: x.span.end },
            },
        ),
{
}

/// Each binding a closure captures is the binding its name resolves to where
/// the closure is built.
pub proof fn lemma_capture_list_resolves(env: Env, names: Seq<String>, body: Action, name: Seq<char>)
    requires
        capture_list(env, names, body) is Ok,
    ensures
        find(capture_list(env, names, body).unwrap(), name) matches Some(c) ==> env.lookup(name)
            == Some(c),
    decreases names.len(),
{
    if names.len() > 0 {
        lemma_capture_list_resolves(env, names.drop_last(), body, name);
    }
}

/// Two closures built in the same environment that both capture a name
/// share one binding cell for it: the cell that the name resolves to there.
pub proof fn lemma_shared_capture(env: Env, a1: Action, a2: Action, name: Seq<char>)
    requires
        a1.kind is FuncDef,
        a2.kind is FuncDef,
        lower(env, a1) is Ok,
        lower(env, a2) is Ok,
    ensures
        match (lower(env, a1).unwrap(), lower(env, a2).unwrap()) {
            (
                Value::Function { captures: b1, .. },
                Value::Function { captures: b2, .. },
            ) => (find(b1, name) is Some && find(b2, name) is Some) ==> find(b1, name) == find(
                b2,
                name,
            ) && find(b1, name) == env.lookup(name),
            _ => false,
        },
{
    match (a1.kind, a2.kind) {
        (
            ActionKind::FuncDef { expr: e1, captures: c1, .. },
            ActionKind::FuncDef { expr: e2, captures: c2, .. },
        ) => {
            lemma_capture_list_resolves(env, c1@, crate::value::body_of(a1), name);
            lemma_capture_list_resolves(env, c2@, crate::value::body_of(a2), name);
        },
        _ => {},
    }
}


/// A tree with its spans left out.
pub open spec fn shape(t: Tree) -> Tree
    decreases t,
{
    match t {
        Tree::Ident { name, .. } => Tree::Ident { name, start: 0, end: 0 },
        Tree::Call { func, arg, .. } => Tree::Call {
            func: Box::new(shape(*func)),
            arg: Box::new(shape(*arg)),
            start: 0,
            end: 0,
        },
        Tree::Lam { param, body, .. } => Tree::Lam {
            param,
            body: Box::new(shape(*body)),
            start: 0,
            end: 0,
        },
    }
}

pub open spec fn ident_shape(t: TokenView) -> Tree {
    Tree::Ident { name: t.text, start: 0, end: 0 }
}

pub open spec fn call_shape(f: Tree, x: Tree) -> Tree {
    Tree::Call { func: Box::new(f), arg: Box::new(x), start: 0, end: 0 }
}

/// Application is left-associative: `f x y` reads as `(f x) y`, the same
/// shape as with the parentheses written out, and never as `f (x y)`.
pub proof fn lemma_application_left_assoc(
    f: TokenView,
    x: TokenView,
    y: TokenView,
    open_paren: TokenView,
    close_paren: TokenView,
    opener: (nat, nat),
)
    requires
        f.kind == LexToken::Ident,
        x.kind == LexToken::Ident,
        y.kind == LexToken::Ident,
        open_paren.kind == LexToken::ParOpen,
        close_paren.kind == LexToken::ParClose,
    ensures
        chain(seq![f, x, y], 0, false, opener, None) is Ok,
        chain(seq![open_paren, f, x, close_paren, y], 0, false, opener, None) is Ok,
        shape(chain(seq![f, x, y], 0, false, opener, None)->Ok_0.0) == call_shape(
            call_shape(ident_shape(f), ident_shape(x)),
            ident_shape(y),
        ),
        shape(chain(seq![open_paren, f, x, close_paren, y], 0, false, opener, None)->Ok_0.0)
            == call_shape(call_shape(ident_shape(f), ident_shape(x)), ident_shape(y)),
{
    let plain = seq![f, x, y];
    let grouped = seq![open_paren, f, x, close_paren, y];
    let tf = Tree::Ident { name: f.text, start: f.start, end: f.end };
    let tx = Tree::Ident { name: x.text, start: x.start, end: x.end };
    let ty = Tree::Ident { name: y.text, start: y.start, end: y.end };
    let fx = Tree::Call { func: Box::new(tf), arg: Box::new(tx), start: f.start, end: x.end };
    let fxy = Tree::Call { func: Box::new(fx), arg: Box::new(ty), start: f.start, end: y.end };
    assert(plain[0] == f && plain[1] == x && plain[2] == y);
    assert(chain(plain, 3, false, opener, Some(fxy)) == Ok::<(Tree, int), Fault>((fxy, 3)));
    assert(chain(plain, 2, false, opener, Some(fx)) == chain(plain, 3, false, opener, Some(fxy)));
    assert(chain(plain, 1, false, opener, Some(tf)) == chain(plain, 2, false, opener, Some(fx)));
    assert(chain(plain, 0, false, opener, None) == chain(plain, 1, false, opener, Some(tf)));
    assert(grouped[0] == open_paren && grouped[1] == f && grouped[2] == x);
    assert(grouped[3] == close_paren && grouped[4] == y);
    let po = (open_paren.start, open_paren.end);
    assert(chain(grouped, 3, true, po, Some(fx)) == Ok::<(Tree, int), Fault>((fx, 4)));
    assert(chain(grouped, 2, true, po, Some(tf)) == chain(grouped, 3, true, po, Some(fx)));
    assert(chain(grouped, 1, true, po, None) == chain(grouped, 2, true, po, Some(tf)));
    assert(chain(grouped, 5, false, opener, Some(fxy)) == Ok::<(Tree, int), Fault>((fxy, 5)));
    assert(chain(grouped, 4, false, opener, Some(fx)) == chain(grouped, 5, false, opener, Some(fxy)));
    assert(chain(grouped, 0, false, opener, None) == chain(grouped, 4, false, opener, Some(fx)));
    assert(shape(tf) == ident_shape(f));
    assert(shape(tx) == ident_shape(x));
    assert(shape(ty) == ident_shape(y));
    assert(shape(fx) == call_shape(ident_shape(f), ident_shape(x)));
    assert(shape(fxy) == call_shape(call_shape(ident_shape(f), ident_shape(x)), ident_shape(y)));
}

/// A chain that meets only separators before the end of input fails at its
/// opener.
pub proof fn lemma_chain_of_separators(ts: Seq<TokenView>, p: int, opener: (nat, nat))
    requires
        0 <= p <= ts.len(),
        forall|k: int| p <= k < ts.len() ==> (#[trigger] ts[k]).kind == LexToken::Sep,
    ensures
        chain(ts, p, false, opener, None) == Err::<(Tree, int), Fault>(
            fault_at(ErrorKind::UnexpectedEnd, opener.0, opener.1),
        ),
    decreases ts.len() - p,
{
    if p < ts.len() {
        lemma_chain_of_separators(ts, p + 1, opener);
    }
}

/// `let NAME =` followed by nothing but separators fails at end of input,
/// and the error is placed on the `let` keyword.
pub proof fn lemma_let_without_value(l: TokenView, name: TokenView, eq: TokenView, seps: Seq<TokenView>)
    requires
        l.kind == LexToken::Let,
        name.kind == LexToken::Ident,
        eq.kind == LexToken::Eq,
        forall|k: int| 0 <= k < seps.len() ==> (#[trigger] seps[k]).kind == LexToken::Sep,
    ensures
        program(seq![l, name, eq] + seps, 0) == Err::<Seq<crate::parser::Stmt>, Fault>(
            fault_at(ErrorKind::UnexpectedEnd, l.start, l.end),
        ),
{
    let ts = seq![l, name, eq] + seps;
    assert(ts[0] == l && ts[1] == name && ts[2] == eq);
    assert forall|k: int| 3 <= k < ts.len() implies (#[trigger] ts[k]).kind == LexToken::Sep by {
        assert(ts[k] == seps[k - 3]);
    }
    lemma_chain_of_separators(ts, 3, (l.start, l.end));
}

} // verus!
