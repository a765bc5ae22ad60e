use vstd::prelude::*;
use vstd::string::*;
use std::rc::Rc;
use crate::token::{lex, lex_from, tokens_view, LexToken, Span, Token, TokenView};

verus! {

/// A node of the expression tree, with the source it came from.
#[derive(Debug)]
pub struct Action {
    pub path: String,
    pub span: Span,
    pub kind: ActionKind,
}

#[derive(Debug)]
pub enum ActionKind {
    Chunk(Vec<Action>),
    Ident(String),
    Assign { target: String, expr: Box<Action> },
    Call { func: Box<Action>, arg: Box<Action> },
    FuncDef { arg: String, expr: Rc<Action>, captures: Vec<String> },
}

#[derive(Clone, Copy, Debug, PartialEq, Eq, Structural)]
pub enum ErrorKind {
    UnexpectedEnd,
    UnexpectedToken,
    UnknownToken,
    NoToken,
}

/// A syntax error, located in the source.
#[derive(Debug)]
pub struct Error {
    pub path: String,
    pub span: Span,
    pub kind: ErrorKind,
}

/// The set of names a list of names holds.
pub open spec fn name_set(v: Seq<String>) -> Set<Seq<char>> {
    Set::new(|n: Seq<char>| exists|i: int| 0 <= i < v.len() && (#[trigger] v[i])@ == n)
}

/// The identifiers that occur free in an expression.
pub open spec fn free_vars(a: Action) -> Set<Seq<char>>
    decreases a,
{
    match a.kind {
        ActionKind::Ident(n) => set![n@],
        ActionKind::Call { func, arg } => free_vars(*func).union(free_vars(*arg)),
        ActionKind::FuncDef { arg, expr, .. } => free_vars(*expr).remove(arg@),
        ActionKind::Assign { expr, .. } => free_vars(*expr),
        ActionKind::Chunk(_) => Set::empty(),
    }
}

/// An expression tree: identifiers, applications and lambdas only, where each
/// lambda's capture set is exactly the free identifiers of its body other than
/// its parameter.
pub open spec fn is_expr(a: Action) -> bool
    decreases a,
{
    match a.kind {
        ActionKind::Ident(_) => true,
        ActionKind::Call { func, arg } => is_expr(*func) && is_expr(*arg),
        ActionKind::FuncDef { arg, expr, captures } => is_expr(*expr) && name_set(captures@)
            == free_vars(*expr).remove(arg@),
        _ => false,
    }
}

/// Every node of `a` carries the source path `p`.
pub open spec fn paths_are(a: Action, p: Seq<char>) -> bool
    decreases a,
{
    &&& a.path@ == p
    &&& match a.kind {
        ActionKind::Call { func, arg } => paths_are(*func, p) && paths_are(*arg, p),
        ActionKind::FuncDef { expr, .. } => paths_are(*expr, p),
        ActionKind::Assign { expr, .. } => paths_are(*expr, p),
        _ => true,
    }
}

/// A top-level statement: a `let` binding of an expression, or an expression.
pub open spec fn is_statement(a: Action) -> bool {
    match a.kind {
        ActionKind::Assign { expr, .. } => is_expr(*expr),
        _ => is_expr(a),
    }
}

impl Action {
    pub fn kind(&self) -> (r: &ActionKind)
        ensures
            r == self.kind,
    {
        &self.kind
    }

    pub fn path(&self) -> (r: &str)
        ensures
            r@ == self.path@,
    {
        self.path.as_str()
    }

    pub fn span(&self) -> (r: Span)
        ensures
            r == self.span,
    {
        self.span
    }
}

impl ErrorKind {
    /// The message that describes the error.
    pub fn to_string(&self) -> (r: String)
        ensures
            r@ == error_message(*self),
    {
        match self {
            ErrorKind::UnexpectedEnd => String::from_str("Unexpected end of file"),
            ErrorKind::UnexpectedToken => String::from_str("Unexpected token"),
            ErrorKind::UnknownToken => String::from_str("Unknown token"),
            ErrorKind::NoToken => String::from_str("A token expected"),
        }
    }
}

pub open spec fn error_message(k: ErrorKind) -> Seq<char> {
    match k {
        ErrorKind::UnexpectedEnd => "Unexpected end of file"@,
        ErrorKind::UnexpectedToken => "Unexpected token"@,
        ErrorKind::UnknownToken => "Unknown token"@,
        ErrorKind::NoToken => "A token expected"@,
    }
}

/// A copy of a list of names.
pub fn copy_names(v: &Vec<String>) -> (r: Vec<String>)
    ensures
        r@ == v@,
{
    let mut r: Vec<String> = Vec::new();
    let mut i: usize = 0;
    while i < v.len()
        invariant
            i <= v.len(),
            r@ == v@.subrange(0, i as int),
        decreases v.len() - i,
    {
        r.push(v[i].clone());
        i = i + 1;
        proof {
            assert(r@ =~= v@.subrange(0, i as int));
        }
    }
    proof {
        assert(r@ =~= v@);
    }
    r
}

/// Whether `v` holds the name `n`.
pub fn has_name(v: &Vec<String>, n: &String) -> (r: bool)
    ensures
        r == name_set(v@).contains(n@),
{
    let mut i: usize = 0;
    while i < v.len()
        invariant
            i <= v.len(),
            forall|k: int| 0 <= k < i ==> (#[trigger] v@[k])@ != n@,
        decreases v.len() - i,
    {
        if v[i] == *n {
            proof {
                assert(name_set(v@).contains(n@));
            }
            return true;
        }
        i = i + 1;
    }
    false
}

/// Adds to `a` the names of `b` that it lacks.
pub fn add_names(a: &mut Vec<String>, b: &Vec<String>)
    ensures
        name_set(final(a)@) == name_set(old(a)@).union(name_set(b@)),
{
    let ghost a0 = a@;
    let mut i: usize = 0;
    while i < b.len()
        invariant
            i <= b.len(),
            name_set(a@) == name_set(a0).union(name_set(b@.subrange(0, i as int))),
        decreases b.len() - i,
    {
        let ghost before = a@;
        let present = has_name(a, &b[i as usize]);
        if !present {
            a.push(b[i].clone());
        }
        proof {
            let next = b@.subrange(0, i as int + 1);
            assert(next =~= b@.subrange(0, i as int).push(b@[i as int]));
            assert(name_set(a@) =~= name_set(before).insert(b@[i as int]@)) by {
                if !present {
                    assert(a@ =~= before.push(b@[i as int]));
                    assert forall|n: Seq<char>| name_set(a@).contains(n) implies name_set(
                        before,
                    ).insert(b@[i as int]@).contains(n) by {
                        let k = choose|k: int| 0 <= k < a@.len() && (#[trigger] a@[k])@ == n;
                        if k < before.len() {
                            assert(before[k] == a@[k]);
                        }
                    }
                    assert forall|n: Seq<char>| name_set(before).insert(b@[i as int]@).contains(
                        n,
                    ) implies name_set(a@).contains(n) by {
                        if n != b@[i as int]@ {
                            let k = choose|k: int|
                                0 <= k < before.len() && (#[trigger] before[k])@ == n;
                            assert(a@[k] == before[k]);
                        } else {
                            assert(a@[before.len() as int] == b@[i as int]);
                        }
                    }
                }
            }
            assert(name_set(next) =~= name_set(b@.subrange(0, i as int)).insert(b@[i as int]@))
                by {
                assert forall|n: Seq<char>| name_set(next).contains(n) implies name_set(
                    b@.subrange(0, i as int),
                ).insert(b@[i as int]@).contains(n) by {
                    let k = choose|k: int| 0 <= k < next.len() && (#[trigger] next[k])@ == n;
                    if k < i {
                        assert(next[k] == b@.subrange(0, i as int)[k]);
                    }
                }
                assert forall|n: Seq<char>|
                    name_set(b@.subrange(0, i as int)).insert(b@[i as int]@).contains(
                        n,
                    ) implies name_set(next).contains(n) by {
                    if n != b@[i as int]@ {
                        let k = choose|k: int|
                            0 <= k < i && (#[trigger] b@.subrange(0, i as int)[k])@ == n;
                        assert(next[k] == b@.subrange(0, i as int)[k]);
                    } else {
                        assert(next[i as int] == b@[i as int]);
                    }
                }
            }
            assert(name_set(a0).union(name_set(next)) =~= name_set(a0).union(
                name_set(b@.subrange(0, i as int)),
            ).insert(b@[i as int]@));
        }
        i = i + 1;
    }
    proof {
        assert(b@.subrange(0, b@.len() as int) =~= b@);
    }
}

/// The names of `v` other than `n`.
pub fn without_name(v: &Vec<String>, n: &String) -> (r: Vec<String>)
    ensures
        name_set(r@) == name_set(v@).remove(n@),
{
    let mut r: Vec<String> = Vec::new();
    let mut i: usize = 0;
    while i < v.len()
        invariant
            i <= v.len(),
            forall|k: int| 0 <= k < r@.len() ==> (#[trigger] r@[k])@ != n@,
            name_set(r@) == name_set(v@.subrange(0, i as int)).remove(n@),
        decreases v.len() - i,
    {
        let ghost before = r@;
        let ghost prev = v@.subrange(0, i as int);
        let ghost next = v@.subrange(0, i as int + 1);
        if v[i] != *n {
            r.push(v[i].clone());
        }
        proof {
            assert(next =~= prev.push(v@[i as int]));
            assert forall|m: Seq<char>| name_set(r@).contains(m) implies name_set(next).remove(
                n@,
            ).contains(m) by {
                let k = choose|k: int| 0 <= k < r@.len() && (#[trigger] r@[k])@ == m;
                if k < before.len() {
                    assert(r@[k] == before[k]);
                    assert(before[k]@ == m);
                    assert(name_set(before).contains(m));
                    assert(name_set(prev).remove(n@).contains(m));
                    let j = choose|j: int| 0 <= j < prev.len() && (#[trigger] prev[j])@ == m;
                    assert(next[j] == prev[j]);
                } else {
                    assert(next[i as int] == v@[i as int]);
                }
            }
            assert forall|m: Seq<char>| name_set(next).remove(n@).contains(m) implies name_set(
                r@,
            ).contains(m) by {
                let j = choose|j: int| 0 <= j < next.len() && (#[trigger] next[j])@ == m;
                if j < i {
                    assert(next[j] == prev[j]);
                    assert(prev[j]@ == m);
                    assert(name_set(prev).contains(m));
                    assert(name_set(prev).remove(n@).contains(m));
                    assert(name_set(before).contains(m));
                    let k = choose|k: int| 0 <= k < before.len() && (#[trigger] before[k])@ == m;
                    assert(r@[k] == before[k]);
                } else {
                    assert(r@[before.len() as int] == v@[i as int]);
                }
            }
            assert(name_set(r@) =~= name_set(next).remove(n@));
        }
        i = i + 1;
    }
    proof {
        assert(v@.subrange(0, v@.len() as int) =~= v@);
    }
    r
}



/// An expression tree as plain values, spans included.
pub enum Tree {
    Ident { name: Seq<char>, start: nat, end: nat },
    Call { func: Box<Tree>, arg: Box<Tree>, start: nat, end: nat },
    Lam { param: Seq<char>, body: Box<Tree>, start: nat, end: nat },
}

pub open spec fn tree_start(t: Tree) -> nat {
    match t {
        Tree::Ident { start, .. } => start,
        Tree::Call { start, .. } => start,
        Tree::Lam { start, .. } => start,
    }
}

pub open spec fn tree_end(t: Tree) -> nat {
    match t {
        Tree::Ident { end, .. } => end,
        Tree::Call { end, .. } => end,
        Tree::Lam { end, .. } => end,
    }
}

/// The expression tree of an action, as plain values.
pub open spec fn tree(a: Action) -> Tree
    decreases a,
{
    let (s, e) = (a.span.start as nat, a.span.end as nat);
    match a.kind {
        ActionKind::Call { func, arg } => Tree::Call {
            func: Box::new(tree(*func)),
            arg: Box::new(tree(*arg)),
            start: s,
            end: e,
        },
        ActionKind::FuncDef { arg, expr, .. } => Tree::Lam {
            param: arg@,
            body: Box::new(tree(*expr)),
            start: s,
            end: e,
        },
        ActionKind::Ident(n) => Tree::Ident { name: n@, start: s, end: e },
        _ => Tree::Ident { name: Seq::empty(), start: s, end: e },
    }
}

/// A syntax error as plain values.
pub struct Fault {
    pub kind: ErrorKind,
    pub start: nat,
    pub end: nat,
}

pub open spec fn fault(e: Error) -> Fault {
    Fault { kind: e.kind, start: e.span.start as nat, end: e.span.end as nat }
}

pub open spec fn fault_at(kind: ErrorKind, start: nat, end: nat) -> Fault {
    Fault { kind, start, end }
}

/// `t` applied after what has been read so far, if anything.
pub open spec fn join(acc: Option<Tree>, t: Tree) -> Tree {
    match acc {
        None => t,
        Some(f) => Tree::Call {
            func: Box::new(f),
            arg: Box::new(t),
            start: tree_start(f),
            end: tree_end(t),
        },
    }
}

/// The application chain that starts at token `p`, after `acc` has been read:
/// identifiers and parenthesised expressions are applied left to right; a
/// lambda ends the chain; a separator ends a non-empty chain and is skipped
/// before one; `)` ends a chain only inside parentheses. At the end of input
/// an empty chain, or one inside parentheses, fails at `opener`. On success,
/// the tree and the index of the first token not consumed.
pub open spec fn chain(
    ts: Seq<TokenView>,
    p: int,
    nested: bool,
    opener: (nat, nat),
    acc: Option<Tree>,
) -> Result<(Tree, int), Fault>
    decreases ts.len() - p,
{
    if p < 0 || p >= ts.len() {
        match acc {
            Some(t) => if nested {
                Err(fault_at(ErrorKind::UnexpectedEnd, opener.0, opener.1))
            } else {
                Ok((t, p))
            },
            None => Err(fault_at(ErrorKind::UnexpectedEnd, opener.0, opener.1)),
        }
    } else {
        let tok = ts[p];
        match tok.kind {
            LexToken::Ident => chain(
                ts,
                p + 1,
                nested,
                opener,
                Some(join(acc, Tree::Ident { name: tok.text, start: tok.start, end: tok.end })),
            ),
            LexToken::ParOpen => match chain(ts, p + 1, true, (tok.start, tok.end), None) {
                Err(e) => Err(e),
                Ok((t, q)) => if p < q <= ts.len() {
                    chain(ts, q, nested, opener, Some(join(acc, t)))
                } else {
                    Err(fault_at(ErrorKind::UnexpectedEnd, opener.0, opener.1))
                },
            },
            LexToken::ParClose => if !nested {
                Err(fault_at(ErrorKind::UnexpectedToken, tok.start, tok.end))
            } else {
                match acc {
                    None => Err(fault_at(ErrorKind::NoToken, tok.start, tok.end)),
                    Some(t) => Ok((t, p + 1)),
                }
            },
            LexToken::FuncStart => match lambda(ts, p + 1, nested, (tok.start, tok.end)) {
                Err(e) => Err(e),
                Ok((t, q)) => Ok((join(acc, t), q)),
            },
            LexToken::Sep => match acc {
                None => chain(ts, p + 1, nested, opener, None),
                Some(t) => Ok((t, p + 1)),
            },
            LexToken::Error => Err(fault_at(ErrorKind::UnknownToken, tok.start, tok.end)),
            _ => Err(fault_at(ErrorKind::UnexpectedToken, tok.start, tok.end)),
        }
    }
}

/// The lambda whose start token (at `start`) precedes token `p`: a parameter
/// name, a separator, and a body chain. Its errors are placed at `start`.
pub open spec fn lambda(ts: Seq<TokenView>, p: int, nested: bool, start: (nat, nat)) -> Result<
    (Tree, int),
    Fault,
>
    decreases ts.len() - p,
{
    if p < 0 || p >= ts.len() {
        Err(fault_at(ErrorKind::UnexpectedEnd, start.0, start.1))
    } else if ts[p].kind != LexToken::Ident {
        Err(fault_at(ErrorKind::UnexpectedToken, start.0, start.1))
    } else if p + 1 >= ts.len() {
        Err(fault_at(ErrorKind::UnexpectedEnd, start.0, start.1))
    } else if ts[p + 1].kind != LexToken::FuncSep {
        Err(fault_at(ErrorKind::UnexpectedToken, start.0, start.1))
    } else {
        match chain(ts, p + 2, nested, start, None) {
            Err(e) => Err(e),
            Ok((body, q)) => Ok(
                (
                    Tree::Lam { param: ts[p].text, body: Box::new(body), start: start.0, end: tree_end(body) },
                    q,
                ),
            ),
        }
    }
}

pub open spec fn opt_tree(a: Option<Action>) -> Option<Tree> {
    match a {
        Some(x) => Some(tree(x)),
        None => None,
    }
}

/// A whole program: a sequence of statements.
pub open spec fn is_program(a: Action) -> bool {
    match a.kind {
        ActionKind::Chunk(v) => forall|i: int| 0 <= i < v@.len() ==> is_statement(#[trigger] v@[i]),
        _ => false,
    }
}

fn error_at(path: &String, span: Span, kind: ErrorKind) -> (e: Error)
    ensures
        e.path == *path,
        e.span == span,
        e.kind == kind,
{
    Error { path: path.clone(), span, kind }
}

/// A top-level statement as plain values.
pub enum Stmt {
    Let { name: Seq<char>, expr: Tree, start: nat, end: nat },
    Expr(Tree),
}

pub open spec fn stmt_of(a: Action) -> Stmt {
    match a.kind {
        ActionKind::Assign { target, expr } => Stmt::Let {
            name: target@,
            expr: tree(*expr),
            start: a.span.start as nat,
            end: a.span.end as nat,
        },
        _ => Stmt::Expr(tree(a)),
    }
}

pub open spec fn stmts_of(v: Seq<Action>) -> Seq<Stmt> {
    v.map_values(|a: Action| stmt_of(a))
}

/// The statement at token `p`: `let NAME = CHAIN`, an empty statement
/// (`None`) at a separator, or a chain.
pub open spec fn statement(ts: Seq<TokenView>, p: int) -> Result<(Option<Stmt>, int), Fault> {
    let tok = ts[p];
    if tok.kind == LexToken::Let {
        if p + 1 >= ts.len() {
            Err(fault_at(ErrorKind::UnexpectedEnd, tok.start, tok.end))
        } else if ts[p + 1].kind != LexToken::Ident {
            Err(fault_at(ErrorKind::UnexpectedToken, ts[p + 1].start, ts[p + 1].end))
        } else if p + 2 >= ts.len() {
            Err(fault_at(ErrorKind::UnexpectedEnd, tok.start, tok.end))
        } else if ts[p + 2].kind != LexToken::Eq {
            Err(fault_at(ErrorKind::UnexpectedToken, ts[p + 1].start, ts[p + 1].end))
        } else {
            match chain(ts, p + 3, false, (tok.start, tok.end), None) {
                Err(e) => Err(e),
                Ok((t, q)) => Ok(
                    (
                        Some(Stmt::Let { name: ts[p + 1].text, expr: t, start: tok.start, end: tree_end(t) }),
                        q,
                    ),
                ),
            }
        }
    } else if tok.kind == LexToken::Sep {
        Ok((None, p + 1))
    } else {
        match chain(ts, p, false, (tok.start, tok.end), None) {
            Err(e) => Err(e),
            Ok((t, q)) => Ok((Some(Stmt::Expr(t)), q)),
        }
    }
}

/// The statements from token `p` on, or the first error.
pub open spec fn program(ts: Seq<TokenView>, p: int) -> Result<Seq<Stmt>, Fault>
    decreases ts.len() - p,
{
    if p < 0 || p >= ts.len() {
        Ok(Seq::empty())
    } else {
        match statement(ts, p) {
            Err(e) => Err(e),
            Ok((s, q)) => if p < q <= ts.len() {
                match program(ts, q) {
                    Err(e) => Err(e),
                    Ok(rest) => Ok(
                        match s {
                            Some(x) => seq![x] + rest,
                            None => rest,
                        },
                    ),
                }
            } else {
                Ok(Seq::empty())
            },
        }
    }
}

proof fn lemma_tree_span(a: Action)
    ensures
        tree_start(tree(a)) == a.span.start as nat,
        tree_end(tree(a)) == a.span.end as nat,
{
}

/// Parses a lambda whose start token has just been consumed: a parameter name,
/// a separator, and a body. The capture set is the body's minus the parameter.
fn parse_function(start: Span, tokens: &Vec<Token>, pos: usize, path: &String, nested: bool) -> (r:
    Result<(Action, usize), Error>)
    requires
        pos <= tokens.len(),
    ensures
        match r {
            Ok((a, p)) => {
                &&& pos < p <= tokens.len()
                &&& is_expr(a)
                &&& a.kind is FuncDef
                &&& a.path == *path
                &&& paths_are(a, path@)
                &&& match a.kind {
                    ActionKind::FuncDef { arg, expr, captures } => name_set(captures@) == free_vars(
                        *expr,
                    ).remove(arg@),
                    _ => false,
                }
            },
            Err(e) => e.path == *path,
        },
        match lambda(tokens_view(tokens@), pos as int, nested, (start.start as nat, start.end as nat)) {
            Ok((t, q)) => r matches Ok((a, p)) && tree(a) == t && p == q,
            Err(f) => r matches Err(e) && fault(e) == f,
        },
    decreases tokens.len() - pos, 0nat,
{
    let ghost ts = tokens_view(tokens@);
    if pos >= tokens.len() {
        return Err(error_at(path, start, ErrorKind::UnexpectedEnd));
    }
    proof {
        assert(ts[pos as int] == tokens@[pos as int]@);
    }
    if tokens[pos].kind != LexToken::Ident {
        return Err(error_at(path, start, ErrorKind::UnexpectedToken));
    }
    if pos + 1 >= tokens.len() {
        return Err(error_at(path, start, ErrorKind::UnexpectedEnd));
    }
    proof {
        assert(ts[pos + 1] == tokens@[pos + 1]@);
    }
    if tokens[pos + 1].kind != LexToken::FuncSep {
        return Err(error_at(path, start, ErrorKind::UnexpectedToken));
    }
    let arg = tokens[pos].value.clone();
    match parse_expr(tokens, pos + 2, path, nested, start) {
        Err(e) => Err(e),
        Ok((body, caps, p)) => {
            let captures = without_name(&caps, &arg);
            let span = Span { start: start.start, end: body.span.end };
            proof {
                lemma_tree_span(body);
            }
            Ok((Action { path: path.clone(), span, kind: ActionKind::FuncDef { arg, expr: Rc::new(body), captures } }, p))
        },
    }
}

/// Parses a left-associative application chain from `pos`, together with the
/// set of identifiers that occur free in it. `opener` locates the construct
/// that asked for the expression, for the error at end of input.
fn parse_expr(tokens: &Vec<Token>, pos: usize, path: &String, nested: bool, opener: Span) -> (r:
    Result<(Action, Vec<String>, usize), Error>)
    requires
        pos <= tokens.len(),
    ensures
        match r {
            Ok((a, caps, p)) => {
                &&& pos < p <= tokens.len()
                &&& is_expr(a)
                &&& name_set(caps@) == free_vars(a)
                &&& a.path == *path
                &&& paths_are(a, path@)
            },
            Err(e) => e.path == *path,
        },
        match chain(tokens_view(tokens@), pos as int, nested, (opener.start as nat, opener.end as nat), None) {
            Ok((t, q)) => r matches Ok((a, caps, p)) && tree(a) == t && p == q,
            Err(f) => r matches Err(e) && fault(e) == f,
        },
    decreases tokens.len() - pos, 1nat,
{
    let ghost ts = tokens_view(tokens@);
    let ghost op = (opener.start as nat, opener.end as nat);
    let ghost target = chain(ts, pos as int, nested, op, None);
    let mut res: Option<Action> = None;
    let mut caps: Vec<String> = Vec::new();
    let mut p = pos;
    let mut done = false;
    while !done && p < tokens.len()
        invariant
            pos <= p <= tokens.len(),
            ts == tokens_view(tokens@),
            op == (opener.start as nat, opener.end as nat),
            target == chain(ts, pos as int, nested, op, None),
            match res {
                Some(a) => {
                    &&& is_expr(a)
                    &&& a.path == *path
                    &&& paths_are(a, path@)
                    &&& name_set(caps@) == free_vars(a)
                    &&& pos < p
                },
                None => caps@.len() == 0,
            },
            done ==> res is Some,
            done ==> target == Ok::<(Tree, int), Fault>((tree(res.unwrap()), p as int)),
            !done ==> target == chain(ts, p as int, nested, op, opt_tree(res)),
        decreases tokens.len() - p,
    {
        let kind = tokens[p].kind;
        let span = tokens[p].span;
        let tp = p;
        proof {
            assert(ts[tp as int] == tokens@[tp as int]@);
        }
        p = p + 1;
        let mut ends = false;
        let item: Option<(Action, Vec<String>)> = match kind {
            LexToken::Ident => {
                let name = tokens[tp].value.clone();
                let mut c: Vec<String> = Vec::new();
                c.push(tokens[tp].value.clone());
                proof {
                    assert(name_set(c@) =~= set![name@]) by {
                        assert(c@[0]@ == name@);
                    }
                }
                Some((Action { path: path.clone(), span, kind: ActionKind::Ident(name) }, c))
            },
            LexToken::ParOpen => match parse_expr(tokens, p, path, true, span) {
                Err(e) => {
                    proof {
                        let inner = chain(ts, p as int, true, (span.start as nat, span.end as nat), None);
                        assert(inner is Err);
                        assert(chain(ts, tp as int, nested, op, opt_tree(res)) == inner);
                    }
                    return Err(e);
                },
                Ok((a, c, np)) => {
                    p = np;
                    Some((a, c))
                },
            },
            LexToken::ParClose => {
                if !nested {
                    return Err(error_at(path, span, ErrorKind::UnexpectedToken));
                }
                if res.is_none() {
                    return Err(error_at(path, span, ErrorKind::NoToken));
                }
                done = true;
                None
            },
            LexToken::Let | LexToken::Eq | LexToken::FuncSep => {
                return Err(error_at(path, span, ErrorKind::UnexpectedToken));
            },
            LexToken::FuncStart => match parse_function(span, tokens, p, path, nested) {
                Err(e) => {
                    proof {
                        let inner = lambda(ts, p as int, nested, (span.start as nat, span.end as nat));
                        assert(inner is Err);
                        assert(chain(ts, tp as int, nested, op, opt_tree(res)) == inner);
                    }
                    return Err(e);
                },
                Ok((a, np)) => {
                    p = np;
                    ends = true;
                    let c = match &a.kind {
                        ActionKind::FuncDef { captures, .. } => copy_names(captures),
                        _ => Vec::new(),
                    };
                    Some((a, c))
                },
            },
            LexToken::Sep => {
                if res.is_some() {
                    done = true;
                }
                None
            },
            LexToken::Error => {
                return Err(error_at(path, span, ErrorKind::UnknownToken));
            },
        };
        if let Some((a, c)) = item {
            let ghost prev_caps = caps@;
            let ghost prev = opt_tree(res);
            proof {
                lemma_tree_span(a);
            }
            add_names(&mut caps, &c);
            match res {
                Some(func) => {
                    let span = Span { start: func.span.start, end: a.span.end };
                    proof {
                        lemma_tree_span(func);
                    }
                    let call = Action { path: path.clone(), span, kind: ActionKind::Call { func: Box::new(func), arg: Box::new(a) } };
                    proof {
                        assert(free_vars(call) == free_vars(func).union(free_vars(a)));
                        assert(is_expr(func));
                        assert(is_expr(a));
                        assert(is_expr(call));
                        assert(paths_are(func, path@));
                        assert(paths_are(a, path@));
                        assert(paths_are(call, path@));
                        assert(tree(call) == join(prev, tree(a)));
                    }
                    res = Some(call);
                },
                None => {
                    proof {
                        assert(name_set(prev_caps) =~= Set::empty());
                        assert(name_set(caps@) =~= name_set(c@));
                    }
                    res = Some(a);
                },
            }
            if ends {
                done = true;
            }
        }
    }
    match res {
        Some(a) => {
            if !done && nested {
                Err(error_at(path, opener, ErrorKind::UnexpectedEnd))
            } else {
                Ok((a, caps, p))
            }
        },
        None => Err(error_at(path, opener, ErrorKind::UnexpectedEnd)),
    }
}

/// Parses one statement at `pos`: `let NAME = EXPR`, an empty statement
/// (`None`), or an expression.
fn parse_statement(tokens: &Vec<Token>, pos: usize, path: &String) -> (r: Result<(Option<Action>, usize), Error>)
    requires
        pos < tokens.len(),
    ensures
        match r {
            Ok((s, p)) => {
                &&& pos < p <= tokens.len()
                &&& s matches Some(a) ==> is_statement(a) && a.path == *path && paths_are(a, path@)
            },
            Err(e) => e.path == *path,
        },
        match statement(tokens_view(tokens@), pos as int) {
            Ok((s, q)) => r matches Ok((a, p)) && p == q && match (s, a) {
                (Some(x), Some(y)) => stmt_of(y) == x,
                (None, None) => true,
                _ => false,
            },
            Err(f) => r matches Err(e) && fault(e) == f,
        },
{
    let ghost ts = tokens_view(tokens@);
    proof {
        assert(ts[pos as int] == tokens@[pos as int]@);
    }
    let first = tokens[pos].kind;
    if first == LexToken::Let {
        let let_span = tokens[pos].span;
        if pos + 1 >= tokens.len() {
            return Err(error_at(path, let_span, ErrorKind::UnexpectedEnd));
        }
        proof {
            assert(ts[pos + 1] == tokens@[pos + 1]@);
        }
        if tokens[pos + 1].kind != LexToken::Ident {
            return Err(error_at(path, tokens[pos + 1].span, ErrorKind::UnexpectedToken));
        }
        if pos + 2 >= tokens.len() {
            return Err(error_at(path, let_span, ErrorKind::UnexpectedEnd));
        }
        proof {
            assert(ts[pos + 2] == tokens@[pos + 2]@);
        }
        if tokens[pos + 2].kind != LexToken::Eq {
            return Err(error_at(path, tokens[pos + 1].span, ErrorKind::UnexpectedToken));
        }
        match parse_expr(tokens, pos + 3, path, false, let_span) {
            Err(e) => Err(e),
            Ok((val, _c, p)) => {
                let span = Span { start: let_span.start, end: val.span.end };
                let target = tokens[pos + 1].value.clone();
                proof {
                    lemma_tree_span(val);
                }
                Ok((Some(Action { path: path.clone(), span, kind: ActionKind::Assign { target, expr: Box::new(val) } }), p))
            },
        }
    } else if first == LexToken::Sep {
        Ok((None, pos + 1))
    } else {
        match parse_expr(tokens, pos, path, false, tokens[pos].span) {
            Err(e) => Err(e),
            Ok((a, _c, p)) => Ok((Some(a), p)),
        }
    }
}

/// Parses a whole source text into a `Chunk` of statements, spanning the text.
pub fn parse(src: &str, path: &str) -> (r: Result<Action, Error>)
    requires
        src@.len() < usize::MAX / 8,
    ensures
        match r {
            Ok(a) => {
                &&& is_program(a)
                &&& a.span == (Span { start: 0, end: src.len() })
                &&& a.path@ == path@
            },
            Err(e) => e.path@ == path@,
        },
        match program(lex_from(src@, 0), 0) {
            Ok(ss) => r matches Ok(a) && a.kind matches ActionKind::Chunk(v) && stmts_of(v@) == ss
                && forall|i: int| 0 <= i < v@.len() ==> paths_are(#[trigger] v@[i], path@),
            Err(f) => r matches Err(e) && fault(e) == f,
        },
{
    let tokens = lex(src);
    let ghost ts = tokens_view(tokens@);
    let owned_path = String::from_str(path);
    let mut actions: Vec<Action> = Vec::new();
    let mut p: usize = 0;
    while p < tokens.len()
        invariant
            p <= tokens.len(),
            ts == tokens_view(tokens@),
            ts == lex_from(src@, 0),
            owned_path@ == path@,
            forall|i: int| 0 <= i < actions@.len() ==> is_statement(#[trigger] actions@[i]),
            forall|i: int| 0 <= i < actions@.len() ==> paths_are(#[trigger] actions@[i], path@),
            program(ts, 0) == match program(ts, p as int) {
                Ok(rest) => Ok(stmts_of(actions@) + rest),
                Err(e) => Err(e),
            },
        decreases tokens.len() - p,
    {
        let ghost before = actions@;
        match parse_statement(&tokens, p, &owned_path) {
            Err(e) => {
                return Err(e);
            },
            Ok((s, np)) => {
                if let Some(a) = s {
                    actions.push(a);
                    proof {
                        assert(stmts_of(actions@) =~= stmts_of(before) + seq![stmt_of(a)]);
                    }
                }
                proof {
                    match program(ts, np as int) {
                        Ok(rest) => {
                            if s is Some {
                                assert(stmts_of(before) + (seq![stmt_of(s.unwrap())] + rest) =~= stmts_of(actions@) + rest);
                            }
                        },
                        Err(_) => {},
                    }
                }
                p = np;
            },
        }
    }
    proof {
        assert(stmts_of(actions@) + Seq::<Stmt>::empty() =~= stmts_of(actions@));
    }
    let program = Action { path: owned_path, span: Span { start: 0, end: src.len() }, kind: ActionKind::Chunk(actions) };
    proof {
        assert(is_program(program));
    }
    Ok(program)
}

} // verus!
