//! The evaluator.
//!
//! What evaluation computes is defined by [`eval_spec`], a function of the
//! expression, the environment, the state and a budget. [`eval`] computes it
//! with a loop: a form in tail position replaces the expression and the
//! environment of the loop, and no call is nested for it.
//!
//! The budget bounds the length of every chain of evaluations, nested or in
//! tail position, so evaluation always ends: with the result, or with
//! `OutOfFuel`.

use crate::env::{bind_env, bind_params, define, find, find_env, get_env, lemma_find_binds,
    new_env, resolve, set_env, tail_from, State, Store};
use crate::natives::{apply, apply_builtin};
use crate::quasiquote::{quasi, quasiquote};
use crate::text::same_text;
use crate::types::{failure, lemma_view_list, ret_view, sym, views, Env, Failure, Fault, MalErr,
    MalRet, MalVal, Outcome, Value};
use std::rc::Rc;
use vstd::prelude::*;

verus! {

/// The forms that the evaluator handles itself.
#[derive(Clone, Copy, Debug, PartialEq, Eq, Structural)]
pub enum Form {
    Def,
    Let,
    Quote,
    QuasiquoteExpand,
    Quasiquote,
    Do,
    If,
    Fn,
    DefMacro,
    MacroExpand,
}

/// The special form that a list with the given head is, if any.
pub open spec fn form_of(head: Value) -> Option<Form> {
    if head == sym("def!") {
        Some(Form::Def)
    } else if head == sym("let*") {
        Some(Form::Let)
    } else if head == sym("quote") {
        Some(Form::Quote)
    } else if head == sym("quasiquoteexpand") {
        Some(Form::QuasiquoteExpand)
    } else if head == sym("quasiquote") {
        Some(Form::Quasiquote)
    } else if head == sym("do") {
        Some(Form::Do)
    } else if head == sym("if") {
        Some(Form::If)
    } else if head == sym("fn*") {
        Some(Form::Fn)
    } else if head == sym("defmacro!") {
        Some(Form::DefMacro)
    } else if head == sym("macroexpand") {
        Some(Form::MacroExpand)
    } else {
        None
    }
}

/// What one step of evaluation leads to: a result, or an expression in tail
/// position with the environment to evaluate it in.
pub enum Step {
    Done(Outcome),
    Tail(Value, Env),
}

/// What one step of evaluation leads to, as the evaluator holds it.
pub enum Next {
    Done(MalRet),
    Tail(MalVal, Env),
}

impl View for Next {
    type V = Step;

    open spec fn view(&self) -> Step {
        match self {
            Next::Done(r) => Step::Done(ret_view(*r)),
            Next::Tail(ast, env) => Step::Tail(ast@, *env),
        }
    }
}

/// The step that ends evaluation with the failure `fault`.
pub open spec fn fails(fault: Fault) -> Step {
    Step::Done(Err(failure(fault)))
}

/// The macro that `ast` calls and the arguments it hands over, unevaluated:
/// `ast` is a list whose head is a symbol bound, somewhere along the chain of
/// `env`, to a closure that is a macro.
pub open spec fn macro_call(st: State, env: Env, ast: Value) -> Option<(Value, Seq<Value>)> {
    match ast {
        Value::List(l) => if l.len() > 0 && l[0] is Sym {
            match resolve(st, env, l[0]) {
                Ok(f) => if f is Func && f->is_macro {
                    Some((f, l.skip(1)))
                } else {
                    None
                },
                Err(_) => None,
            }
        } else {
            None
        },
        _ => None,
    }
}

/// What evaluating `ast` in `env` returns with the budget `fuel`, and the
/// state after it.
pub open spec fn eval_spec(fuel: nat, ast: Value, env: Env, st: State) -> (Outcome, State)
    decreases fuel, 0nat, 0nat,
{
    if fuel == 0 {
        (Err(failure(Fault::OutOfFuel)), st)
    } else {
        let (step, st1) = step_spec((fuel - 1) as nat, ast, env, st);
        match step {
            Step::Done(r) => (r, st1),
            Step::Tail(next, scope) => eval_spec((fuel - 1) as nat, next, scope, st1),
        }
    }
}

/// What calling the closure `f` with `args` returns: its body, evaluated in a
/// new environment that is chained to the one the closure was made in and
/// binds its parameters to `args`.
pub open spec fn expand_spec(fuel: nat, f: Value, args: Seq<Value>, st: State) -> (Outcome, State)
    decreases fuel, 1nat, 0nat,
{
    match f {
        Value::Func { body, params, env, .. } => match bind_params(*params, args) {
            Ok(vars) => eval_spec(
                fuel,
                *body,
                st.scopes.len() as Env,
                st.with_scope(vars, Some(env)),
            ),
            Err(e) => (Err(e), st),
        },
        _ => (Err(failure(Fault::NotCallable)), st),
    }
}

/// The values of `items[i..to]`, evaluated from left to right, after `acc`.
/// The first failure ends it.
pub open spec fn eval_range(
    fuel: nat,
    items: Seq<Value>,
    i: int,
    to: int,
    acc: Seq<Value>,
    env: Env,
    st: State,
) -> (Result<Seq<Value>, Failure>, State)
    decreases fuel, 1nat, to - i,
{
    if i < 0 || i >= to || i >= items.len() {
        (Ok(acc), st)
    } else {
        let (r, st1) = eval_spec(fuel, items[i], env, st);
        match r {
            Ok(v) => eval_range(fuel, items, i + 1, to, acc.push(v), env, st1),
            Err(e) => (Err(e), st1),
        }
    }
}

/// The state after the bindings `bs[i..]` of a `let*`, taken in pairs of a
/// symbol and an expression, have been made in `env`, each expression
/// evaluated in `env` as the bindings before it left it.
pub open spec fn let_binds(fuel: nat, bs: Seq<Value>, i: int, env: Env, st: State) -> (
    Option<Failure>,
    State,
)
    decreases fuel, 1nat, bs.len() - i,
{
    if i < 0 || i + 1 >= bs.len() {
        (None, st)
    } else if !(bs[i] is Sym) {
        (Some(failure(Fault::InvalidKey)), st)
    } else {
        let (r, st1) = eval_spec(fuel, bs[i + 1], env, st);
        match r {
            Ok(v) => {
                let (r2, st2) = define(st1, env, bs[i], v);
                match r2 {
                    Ok(_) => let_binds(fuel, bs, i + 2, env, st2),
                    Err(e) => (Some(e), st2),
                }
            },
            Err(e) => (Some(e), st1),
        }
    }
}

/// What evaluating `ast` itself, without applying it, returns: for a list the
/// list of its elements' values, for a symbol what it is bound to, for
/// anything else the thing itself.
pub open spec fn eval_ast_spec(fuel: nat, ast: Value, env: Env, st: State) -> (Outcome, State)
    decreases fuel, 2nat, 0nat,
{
    match ast {
        Value::List(l) => {
            let (r, st1) = eval_range(fuel, l, 0, l.len() as int, Seq::empty(), env, st);
            match r {
                Ok(vs) => (Ok(Value::List(vs)), st1),
                Err(e) => (Err(e), st1),
            }
        },
        Value::Sym(_) => (resolve(st, env, ast), st),
        _ => (Ok(ast), st),
    }
}

/// What expanding `ast` returns: `ast` itself if it calls no macro; else what
/// expanding the result of the macro returns.
pub open spec fn macroexpand_spec(fuel: nat, ast: Value, env: Env, st: State) -> (Outcome, State)
    decreases fuel, 2nat, 0nat,
{
    match macro_call(st, env, ast) {
        None => (Ok(ast), st),
        Some((f, args)) => if fuel == 0 {
            (Err(failure(Fault::OutOfFuel)), st)
        } else {
            let (r, st1) = expand_spec((fuel - 1) as nat, f, args, st);
            match r {
                Ok(next) => macroexpand_spec((fuel - 1) as nat, next, env, st1),
                Err(e) => (Err(e), st1),
            }
        },
    }
}

/// `(def! name expr)`: the value of `expr`, bound to `name` in `env`.
pub open spec fn def_form(fuel: nat, l: Seq<Value>, env: Env, st: State) -> (Step, State)
    decreases fuel, 3nat, 0nat,
{
    if l.len() < 3 {
        (fails(Fault::Malformed), st)
    } else {
        let (r, st1) = eval_spec(fuel, l[2], env, st);
        match r {
            Ok(v) => {
                let (r2, st2) = define(st1, env, l[1], v);
                (Step::Done(r2), st2)
            },
            Err(e) => (Step::Done(Err(e)), st1),
        }
    }
}

/// `(let* (name expr ...) body)`: `body`, in tail position, in a new
/// environment chained to `env` in which each `name` is bound to the value of
/// its `expr`; each `expr` sees the bindings before it.
pub open spec fn let_form(fuel: nat, l: Seq<Value>, env: Env, st: State) -> (Step, State)
    decreases fuel, 3nat, 0nat,
{
    if l.len() < 3 {
        (fails(Fault::Malformed), st)
    } else {
        match l[1] {
            Value::List(bs) => if bs.len() % 2 != 0 {
                (fails(Fault::Malformed), st)
            } else {
                let child = st.scopes.len() as Env;
                let (r, st1) = let_binds(fuel, bs, 0, child, st.with_scope(Map::empty(), Some(env)));
                match r {
                    None => (Step::Tail(l[2], child), st1),
                    Some(e) => (Step::Done(Err(e)), st1),
                }
            },
            _ => (fails(Fault::BadBindings), st),
        }
    }
}

/// `(do expr ... last)`: every `expr` evaluated in order for its effect, then
/// `last` in tail position; `(do)` is `nil`.
pub open spec fn do_form(fuel: nat, l: Seq<Value>, env: Env, st: State) -> (Step, State)
    decreases fuel, 3nat, 0nat,
{
    if l.len() <= 1 {
        (Step::Done(Ok(Value::Nil)), st)
    } else {
        let (r, st1) = eval_range(fuel, l, 1, l.len() - 1, Seq::empty(), env, st);
        match r {
            Ok(_) => (Step::Tail(l[l.len() - 1], env), st1),
            Err(e) => (Step::Done(Err(e)), st1),
        }
    }
}

/// Whether a condition with the value `v` selects the first branch: every
/// value does but `nil` and `false`.
pub open spec fn truthy(v: Value) -> bool {
    v != Value::Nil && v != Value::Bool(false)
}

/// `(if cond then else)`: the branch that the value of `cond` selects, in
/// tail position; `nil` where that branch is missing.
pub open spec fn if_form(fuel: nat, l: Seq<Value>, env: Env, st: State) -> (Step, State)
    decreases fuel, 3nat, 0nat,
{
    if l.len() < 2 {
        (fails(Fault::Malformed), st)
    } else {
        let (r, st1) = eval_spec(fuel, l[1], env, st);
        match r {
            Ok(c) => {
                let branch = if truthy(c) {
                    2int
                } else {
                    3int
                };
                if branch < l.len() {
                    (Step::Tail(l[branch], env), st1)
                } else {
                    (Step::Done(Ok(Value::Nil)), st1)
                }
            },
            Err(e) => (Step::Done(Err(e)), st1),
        }
    }
}

/// `(defmacro! name expr)`: the value of `expr`, a closure, turned into a
/// macro and bound to `name` in the environment the closure was made in.
pub open spec fn defmacro_form(fuel: nat, l: Seq<Value>, env: Env, st: State) -> (Step, State)
    decreases fuel, 3nat, 0nat,
{
    if l.len() < 3 {
        (fails(Fault::Malformed), st)
    } else {
        let (r, st1) = eval_spec(fuel, l[2], env, st);
        match r {
            Ok(Value::Func { body, params, env: home, .. }) => {
                let (r2, st2) = define(
                    st1,
                    home,
                    l[1],
                    Value::Func { body, params, env: home, is_macro: true },
                );
                (Step::Done(r2), st2)
            },
            Ok(_) => (fails(Fault::MacroOnNonFunction), st1),
            Err(e) => (Step::Done(Err(e)), st1),
        }
    }
}

/// What calling the value `f` with `args` leads to: for a native its result;
/// for a function its body, in tail position, in a new environment that binds
/// its parameters. Nothing else can be called.
pub open spec fn call(f: Value, args: Seq<Value>, st: State) -> (Step, State) {
    match f {
        Value::Native(b) => {
            let (r, st1) = apply_builtin(b, args, st);
            (Step::Done(r), st1)
        },
        Value::Func { body, params, env, is_macro } => if is_macro {
            (fails(Fault::NotCallable), st)
        } else {
            match bind_params(*params, args) {
                Ok(vars) => (
                    Step::Tail(*body, st.scopes.len() as Env),
                    st.with_scope(vars, Some(env)),
                ),
                Err(e) => (Step::Done(Err(e)), st),
            }
        },
        _ => (fails(Fault::NotCallable), st),
    }
}

/// An application: all the elements of the list, which is not empty, are
/// evaluated from left to right, then the value of the first is called with
/// the values of the rest.
pub open spec fn apply_form(fuel: nat, l: Seq<Value>, env: Env, st: State) -> (Step, State)
    decreases fuel, 3nat, 0nat,
{
    let (r, st1) = eval_range(fuel, l, 0, l.len() as int, Seq::empty(), env, st);
    match r {
        Ok(vs) => call(vs[0], vs.skip(1), st1),
        Err(e) => (Step::Done(Err(e)), st1),
    }
}

/// One step of the evaluation of `ast` in `env`.
///
/// A list that is not empty is, in this order: a macro call, which is
/// replaced by its expansion; a special form; an application. The empty list
/// and everything that is neither list nor symbol is its own value; a symbol
/// is looked up.
pub open spec fn step_spec(fuel: nat, ast: Value, env: Env, st: State) -> (Step, State)
    decreases fuel, 4nat, 0nat,
{
    match ast {
        Value::List(l) => if l.len() == 0 {
            (Step::Done(Ok(ast)), st)
        } else {
            match macro_call(st, env, ast) {
                Some((f, args)) => {
                    let (r, st1) = expand_spec(fuel, f, args, st);
                    match r {
                        Ok(next) => (Step::Tail(next, env), st1),
                        Err(e) => (Step::Done(Err(e)), st1),
                    }
                },
                None => match form_of(l[0]) {
                    Some(Form::Def) => def_form(fuel, l, env, st),
                    Some(Form::Let) => let_form(fuel, l, env, st),
                    Some(Form::Quote) => if l.len() < 2 {
                        (fails(Fault::Malformed), st)
                    } else {
                        (Step::Done(Ok(l[1])), st)
                    },
                    Some(Form::QuasiquoteExpand) => if l.len() < 2 {
                        (fails(Fault::Malformed), st)
                    } else {
                        (Step::Done(Ok(quasi(l[1]))), st)
                    },
                    Some(Form::Quasiquote) => if l.len() < 2 {
                        (fails(Fault::Malformed), st)
                    } else {
                        (Step::Tail(quasi(l[1]), env), st)
                    },
                    Some(Form::Do) => do_form(fuel, l, env, st),
                    Some(Form::If) => if_form(fuel, l, env, st),
                    Some(Form::Fn) => if l.len() < 3 {
                        (fails(Fault::Malformed), st)
                    } else {
                        (
                            Step::Done(
                                Ok(
                                    Value::Func {
                                        body: Box::new(l[2]),
                                        params: Box::new(l[1]),
                                        env,
                                        is_macro: false,
                                    },
                                ),
                            ),
                            st,
                        )
                    },
                    Some(Form::DefMacro) => defmacro_form(fuel, l, env, st),
                    Some(Form::MacroExpand) => if l.len() < 2 {
                        (fails(Fault::Malformed), st)
                    } else {
                        let (r, st1) = macroexpand_spec(fuel, l[1], env, st);
                        (Step::Done(r), st1)
                    },
                    None => apply_form(fuel, l, env, st),
                },
            }
        },
        _ => {
            let (r, st1) = eval_ast_spec(fuel, ast, env, st);
            (Step::Done(r), st1)
        },
    }
}

/// Taking the views of a sequence commutes with dropping its first elements.
proof fn lemma_views_skip(items: Seq<MalVal>, n: int)
    requires
        0 <= n <= items.len(),
    ensures
        views(items.skip(n)) == views(items).skip(n),
{
    assert(views(items.skip(n)) =~= views(items).skip(n));
}

/// Where the elements of a range all evaluate, there is one value for each
/// after those gathered before.
pub proof fn lemma_eval_range_len(
    fuel: nat,
    items: Seq<Value>,
    i: int,
    to: int,
    acc: Seq<Value>,
    env: Env,
    st: State,
)
    requires
        0 <= i <= to <= items.len(),
    ensures
        eval_range(fuel, items, i, to, acc, env, st).0 matches Ok(vs) ==> vs.len() == acc.len() + (
        to - i),
    decreases to - i,
{
    if i < to {
        let (r, st1) = eval_spec(fuel, items[i], env, st);
        match r {
            Ok(v) => lemma_eval_range_len(fuel, items, i + 1, to, acc.push(v), env, st1),
            Err(_) => {},
        }
    }
}

/// The special form that a list with the head `head` is, if any.
fn special_form(head: &MalVal) -> (r: Option<Form>)
    ensures
        r == form_of(head@),
{
    match head {
        MalVal::Sym(name) => {
            let name = name.as_str();
            if same_text(name, "def!") {
                Some(Form::Def)
            } else if same_text(name, "let*") {
                Some(Form::Let)
            } else if same_text(name, "quote") {
                Some(Form::Quote)
            } else if same_text(name, "quasiquoteexpand") {
                Some(Form::QuasiquoteExpand)
            } else if same_text(name, "quasiquote") {
                Some(Form::Quasiquote)
            } else if same_text(name, "do") {
                Some(Form::Do)
            } else if same_text(name, "if") {
                Some(Form::If)
            } else if same_text(name, "fn*") {
                Some(Form::Fn)
            } else if same_text(name, "defmacro!") {
                Some(Form::DefMacro)
            } else if same_text(name, "macroexpand") {
                Some(Form::MacroExpand)
            } else {
                None
            }
        },
        _ => None,
    }
}

/// The macro that `ast` calls, with the arguments it hands over: `ast` is a
/// list whose head is a symbol bound to a macro along the chain of `env`.
pub fn is_macro_call(ast: &MalVal, env: Env, store: &Store) -> (r: Option<(MalVal, Vec<MalVal>)>)
    ensures
        match macro_call(store@, env, ast@) {
            Some((f, args)) => r matches Some((g, a)) && g@ == f && views(a@) == args,
            None => r is None,
        },
{
    match ast {
        MalVal::List(v) => {
            proof {
                lemma_view_list(*v);
            }
            if v.len() == 0 {
                return None;
            }
            match &v[0] {
                MalVal::Sym(name) => match find_env(store, env, name) {
                    Some(home) => {
                        proof {
                            lemma_find_binds(store@, env, name@);
                            assert(find(store@, home, name@) == Some(home));
                        }
                        match get_env(store, home, &v[0]) {
                            Ok(f) => {
                                let is_macro = match &f {
                                    MalVal::MalFunc { is_macro, .. } => *is_macro,
                                    _ => false,
                                };
                                if is_macro {
                                    let args = tail_from(v, 1);
                                    proof {
                                        lemma_views_skip(v@, 1);
                                    }
                                    Some((f, args))
                                } else {
                                    None
                                }
                            },
                            Err(_) => None,
                        }
                    },
                    None => None,
                },
                _ => None,
            }
        },
        _ => None,
    }
}

/// Calls the closure `f` with `args` and evaluates its body to the end.
fn expand(f: &MalVal, args: &Vec<MalVal>, store: &mut Store, fuel: u64) -> (r: MalRet)
    ensures
        (ret_view(r), final(store)@) == expand_spec(fuel as nat, f@, views(args@), old(store)@),
    decreases fuel, 1nat, 0nat,
{
    match f {
        MalVal::MalFunc { body, params, env, .. } => {
            match bind_env(store, *env, params, args) {
                Ok(child) => eval((**body).clone(), child, store, fuel),
                Err(e) => Err(e),
            }
        },
        _ => Err(MalErr::new(Fault::NotCallable)),
    }
}

/// Expands `ast` until it calls no macro, and says whether it expanded at all.
///
/// The form returned calls no macro in the state left behind, and is not
/// evaluated.
pub fn macroexpand(ast: MalVal, env: Env, store: &mut Store, fuel: u64) -> (r: Result<
    (bool, MalVal),
    MalErr,
>)
    ensures
        match macroexpand_spec(fuel as nat, ast@, env, old(store)@) {
            (Ok(v), st) => r matches Ok((expanded, w)) && w@ == v && final(store)@ == st
                && expanded == (macro_call(old(store)@, env, ast@) is Some),
            (Err(e), st) => r matches Err(x) && x@ == e && final(store)@ == st,
        },
        r matches Ok((_, w)) ==> macro_call(final(store)@, env, w@) is None,
    decreases fuel, 2nat, 0nat,
{
    let ghost start = ast@;
    let mut cur = ast;
    let mut left = fuel;
    let mut was_expanded = false;
    loop
        invariant
            left <= fuel,
            start == ast@,
            macroexpand_spec(fuel as nat, start, env, old(store)@) == macroexpand_spec(
                left as nat,
                cur@,
                env,
                store@,
            ),
            was_expanded ==> macro_call(old(store)@, env, start) is Some,
            !was_expanded ==> cur@ == start && store@ == old(store)@,
        decreases left,
    {
        match is_macro_call(&cur, env, store) {
            None => {
                return Ok((was_expanded, cur));
            },
            Some((f, args)) => {
                if left == 0 {
                    return Err(MalErr::new(Fault::OutOfFuel));
                }
                left = left - 1;
                match expand(&f, &args, store, left) {
                    Ok(next) => {
                        cur = next;
                        was_expanded = true;
                    },
                    Err(e) => {
                        return Err(e);
                    },
                }
            },
        }
    }
}

/// Evaluates `items[from..to]` from left to right and gathers the values.
fn eval_each(
    items: &Vec<MalVal>,
    from: usize,
    to: usize,
    env: Env,
    store: &mut Store,
    fuel: u64,
) -> (r: Result<Vec<MalVal>, MalErr>)
    requires
        from <= to <= items.len(),
    ensures
        match eval_range(
            fuel as nat,
            views(items@),
            from as int,
            to as int,
            Seq::empty(),
            env,
            old(store)@,
        ) {
            (Ok(vs), st) => r matches Ok(out) && views(out@) == vs && final(store)@ == st,
            (Err(e), st) => r matches Err(x) && x@ == e && final(store)@ == st,
        },
    decreases fuel, 1nat, to - from,
{
    let mut out: Vec<MalVal> = Vec::new();
    let mut i: usize = from;
    assert(views(out@) =~= Seq::<Value>::empty());
    while i < to
        invariant
            from <= i <= to <= items.len(),
            eval_range(
                fuel as nat,
                views(items@),
                from as int,
                to as int,
                Seq::empty(),
                env,
                old(store)@,
            ) == eval_range(
                fuel as nat,
                views(items@),
                i as int,
                to as int,
                views(out@),
                env,
                store@,
            ),
        decreases to - i,
    {
        let ghost before = views(out@);
        match eval(items[i].clone(), env, store, fuel) {
            Ok(v) => {
                out.push(v);
                assert(views(out@) =~= before.push(v@));
            },
            Err(e) => {
                return Err(e);
            },
        }
        i += 1;
    }
    Ok(out)
}

/// Evaluates `ast` itself, without applying it: for a list its elements, for
/// a symbol what it is bound to, for anything else the thing itself.
pub fn eval_ast(ast: &MalVal, env: Env, store: &mut Store, fuel: u64) -> (r: MalRet)
    ensures
        (ret_view(r), final(store)@) == eval_ast_spec(fuel as nat, ast@, env, old(store)@),
    decreases fuel, 2nat, 0nat,
{
    match ast {
        MalVal::List(list) => {
            proof {
                lemma_view_list(*list);
            }
            match eval_each(list, 0, list.len(), env, store, fuel) {
                Ok(vals) => Ok(MalVal::list(vals)),
                Err(e) => Err(e),
            }
        },
        MalVal::Sym(_) => get_env(store, env, ast),
        _ => Ok(ast.clone()),
    }
}

/// The step that ends evaluation with the failure `fault`.
fn fail(fault: Fault) -> (next: Next)
    ensures
        next@ == fails(fault),
{
    Next::Done(Err(MalErr::new(fault)))
}

/// `(def! name expr)`.
fn eval_def(list: &Vec<MalVal>, env: Env, store: &mut Store, fuel: u64) -> (next: Next)
    ensures
        (next@, final(store)@) == def_form(fuel as nat, views(list@), env, old(store)@),
    decreases fuel, 3nat, 0nat,
{
    if list.len() < 3 {
        return fail(Fault::Malformed);
    }
    match eval(list[2].clone(), env, store, fuel) {
        Ok(v) => Next::Done(set_env(store, env, list[1].clone(), v)),
        Err(e) => Next::Done(Err(e)),
    }
}

/// `(let* (name expr ...) body)`.
fn eval_let(list: &Vec<MalVal>, env: Env, store: &mut Store, fuel: u64) -> (next: Next)
    ensures
        (next@, final(store)@) == let_form(fuel as nat, views(list@), env, old(store)@),
    decreases fuel, 3nat, 0nat,
{
    if list.len() < 3 {
        return fail(Fault::Malformed);
    }
    match &list[1] {
        MalVal::List(binds) => {
            proof {
                lemma_view_list(*binds);
            }
            if binds.len() % 2 != 0 {
                return fail(Fault::Malformed);
            }
            let child = new_env(store, Some(env));
            let ghost bs = views(binds@);
            let mut i: usize = 0;
            while i < binds.len()
                invariant
                    i <= binds.len(),
                    i % 2 == 0,
                    binds.len() % 2 == 0,
                    list.len() >= 3,
                    list@[1]@ == Value::List(bs),
                    bs == views(binds@),
                    child == old(store)@.scopes.len(),
                    let_binds(
                        fuel as nat,
                        bs,
                        0,
                        child,
                        old(store)@.with_scope(Map::empty(), Some(env)),
                    ) == let_binds(fuel as nat, bs, i as int, child, store@),
                decreases binds.len() - i,
            {
                match &binds[i] {
                    MalVal::Sym(_) => {},
                    _ => {
                        return fail(Fault::InvalidKey);
                    },
                }
                match eval(binds[i + 1].clone(), child, store, fuel) {
                    Ok(v) => match set_env(store, child, binds[i].clone(), v) {
                        Ok(_) => {},
                        Err(e) => {
                            return Next::Done(Err(e));
                        },
                    },
                    Err(e) => {
                        return Next::Done(Err(e));
                    },
                }
                i += 2;
            }
            Next::Tail(list[2].clone(), child)
        },
        _ => fail(Fault::BadBindings),
    }
}

/// `(do expr ... last)`.
fn eval_do(list: &Vec<MalVal>, env: Env, store: &mut Store, fuel: u64) -> (next: Next)
    ensures
        (next@, final(store)@) == do_form(fuel as nat, views(list@), env, old(store)@),
    decreases fuel, 3nat, 0nat,
{
    let n = list.len();
    if n <= 1 {
        return Next::Done(Ok(MalVal::Nil));
    }
    match eval_each(list, 1, n - 1, env, store, fuel) {
        Ok(_) => Next::Tail(list[n - 1].clone(), env),
        Err(e) => Next::Done(Err(e)),
    }
}

/// `(if cond then else)`.
fn eval_if(list: &Vec<MalVal>, env: Env, store: &mut Store, fuel: u64) -> (next: Next)
    ensures
        (next@, final(store)@) == if_form(fuel as nat, views(list@), env, old(store)@),
    decreases fuel, 3nat, 0nat,
{
    if list.len() < 2 {
        return fail(Fault::Malformed);
    }
    match eval(list[1].clone(), env, store, fuel) {
        Ok(cond) => {
            let branch: usize = match cond {
                MalVal::Bool(false) | MalVal::Nil => 3,
                _ => 2,
            };
            if branch < list.len() {
                Next::Tail(list[branch].clone(), env)
            } else {
                Next::Done(Ok(MalVal::Nil))
            }
        },
        Err(e) => Next::Done(Err(e)),
    }
}

/// `(defmacro! name expr)`.
fn eval_defmacro(list: &Vec<MalVal>, env: Env, store: &mut Store, fuel: u64) -> (next: Next)
    ensures
        (next@, final(store)@) == defmacro_form(fuel as nat, views(list@), env, old(store)@),
    decreases fuel, 3nat, 0nat,
{
    if list.len() < 3 {
        return fail(Fault::Malformed);
    }
    match eval(list[2].clone(), env, store, fuel) {
        Ok(MalVal::MalFunc { body, params, env: home, .. }) => {
            let made = MalVal::MalFunc { body, params, env: home, is_macro: true };
            Next::Done(set_env(store, home, list[1].clone(), made))
        },
        Ok(_) => fail(Fault::MacroOnNonFunction),
        Err(e) => Next::Done(Err(e)),
    }
}

/// Calls the value `f` with `args`.
fn call_value(f: &MalVal, args: Vec<MalVal>, store: &mut Store) -> (next: Next)
    ensures
        (next@, final(store)@) == call(f@, views(args@), old(store)@),
{
    match f {
        MalVal::RustFunc(b) => Next::Done(apply(*b, args, store)),
        MalVal::MalFunc { body, params, env, is_macro } => {
            if *is_macro {
                fail(Fault::NotCallable)
            } else {
                match bind_env(store, *env, params, &args) {
                    Ok(child) => Next::Tail((**body).clone(), child),
                    Err(e) => Next::Done(Err(e)),
                }
            }
        },
        _ => fail(Fault::NotCallable),
    }
}

/// An application.
fn eval_apply(list: &Vec<MalVal>, env: Env, store: &mut Store, fuel: u64) -> (next: Next)
    requires
        list.len() > 0,
    ensures
        (next@, final(store)@) == apply_form(fuel as nat, views(list@), env, old(store)@),
    decreases fuel, 3nat, 0nat,
{
    proof {
        lemma_eval_range_len(
            fuel as nat,
            views(list@),
            0,
            list.len() as int,
            Seq::empty(),
            env,
            old(store)@,
        );
    }
    match eval_each(list, 0, list.len(), env, store, fuel) {
        Ok(vals) => {
            assert(vals.len() == views(vals@).len());
            let args = tail_from(&vals, 1);
            proof {
                lemma_views_skip(vals@, 1);
            }
            call_value(&vals[0], args, store)
        },
        Err(e) => Next::Done(Err(e)),
    }
}

/// One step of the evaluation of `ast` in `env`.
fn step(ast: &MalVal, env: Env, store: &mut Store, fuel: u64) -> (next: Next)
    ensures
        (next@, final(store)@) == step_spec(fuel as nat, ast@, env, old(store)@),
    decreases fuel, 4nat, 0nat,
{
    match ast {
        MalVal::List(list) => {
            proof {
                lemma_view_list(*list);
            }
            if list.len() == 0 {
                return Next::Done(Ok(ast.clone()));
            }
            match is_macro_call(ast, env, store) {
                Some((f, args)) => {
                    return match expand(&f, &args, store, fuel) {
                        Ok(next) => Next::Tail(next, env),
                        Err(e) => Next::Done(Err(e)),
                    };
                },
                None => {},
            }
            match special_form(&list[0]) {
                Some(Form::Def) => eval_def(list, env, store, fuel),
                Some(Form::Let) => eval_let(list, env, store, fuel),
                Some(Form::Quote) => {
                    if list.len() < 2 {
                        fail(Fault::Malformed)
                    } else {
                        Next::Done(Ok(list[1].clone()))
                    }
                },
                Some(Form::QuasiquoteExpand) => {
                    if list.len() < 2 {
                        fail(Fault::Malformed)
                    } else {
                        Next::Done(Ok(quasiquote(&list[1])))
                    }
                },
                Some(Form::Quasiquote) => {
                    if list.len() < 2 {
                        fail(Fault::Malformed)
                    } else {
                        Next::Tail(quasiquote(&list[1]), env)
                    }
                },
                Some(Form::Do) => eval_do(list, env, store, fuel),
                Some(Form::If) => eval_if(list, env, store, fuel),
                Some(Form::Fn) => {
                    if list.len() < 3 {
                        fail(Fault::Malformed)
                    } else {
                        Next::Done(
                            Ok(
                                MalVal::MalFunc {
                                    body: Rc::new(list[2].clone()),
                                    params: Rc::new(list[1].clone()),
                                    env,
                                    is_macro: false,
                                },
                            ),
                        )
                    }
                },
                Some(Form::DefMacro) => eval_defmacro(list, env, store, fuel),
                Some(Form::MacroExpand) => {
                    if list.len() < 2 {
                        fail(Fault::Malformed)
                    } else {
                        match macroexpand(list[1].clone(), env, store, fuel) {
                            Ok((_, expanded)) => Next::Done(Ok(expanded)),
                            Err(e) => Next::Done(Err(e)),
                        }
                    }
                },
                None => eval_apply(list, env, store, fuel),
            }
        },
        _ => Next::Done(eval_ast(ast, env, store, fuel)),
    }
}

/// Evaluates `ast` in the environment `env`, with the budget `fuel`.
///
/// Forms in tail position (the body of `let*`, the last form of `do`, the
/// chosen branch of `if`, the expansion of `quasiquote` and of a macro call,
/// the body of a function that is called) are evaluated by the same loop:
/// the depth of nested calls does not grow with them.
pub fn eval(ast: MalVal, env: Env, store: &mut Store, fuel: u64) -> (r: MalRet)
    ensures
        (ret_view(r), final(store)@) == eval_spec(fuel as nat, ast@, env, old(store)@),
    decreases fuel, 0nat, 0nat,
{
    let ghost start = ast@;
    let mut cur = ast;
    let mut scope = env;
    let mut left = fuel;
    loop
        invariant
            left <= fuel,
            start == ast@,
            eval_spec(fuel as nat, start, env, old(store)@) == eval_spec(
                left as nat,
                cur@,
                scope,
                store@,
            ),
        decreases left,
    {
        if left == 0 {
            return Err(MalErr::new(Fault::OutOfFuel));
        }
        left = left - 1;
        match step(&cur, scope, store, left) {
            Next::Done(r) => {
                return r;
            },
            Next::Tail(next, inner) => {
                cur = next;
                scope = inner;
            },
        }
    }
}

} // verus!
