//! The budget does not change what evaluation computes.
//!
//! An evaluation that ends for another reason than the budget ends the same
//! way, in the same state, with every larger budget. The budget only decides
//! whether an evaluation is cut short, never what it returns.

use crate::env::State;
use crate::eval::{apply_form, def_form, defmacro_form, do_form, eval_ast_spec, eval_range,
    eval_spec, expand_spec, fails, form_of, if_form, let_binds, let_form, macro_call,
    macroexpand_spec, step_spec, Form, Step};
use crate::types::{failure, Env, Failure, Fault, Value};
use vstd::prelude::*;

verus! {

/// The failure that reports that the budget ran out.
pub open spec fn spent() -> Failure {
    failure(Fault::OutOfFuel)
}

/// Evaluation: what the budget `low` suffices for, every budget `high` above
/// it gives as well.
pub proof fn lemma_eval_budget(low: nat, high: nat, ast: Value, env: Env, st: State)
    requires
        low <= high,
        eval_spec(low, ast, env, st).0 != Err::<Value, Failure>(spent()),
    ensures
        eval_spec(high, ast, env, st) == eval_spec(low, ast, env, st),
    decreases low, 0nat, 0nat,
{
    let (step, st1) = step_spec((low - 1) as nat, ast, env, st);
    lemma_step_budget((low - 1) as nat, (high - 1) as nat, ast, env, st);
    match step {
        Step::Done(_) => {},
        Step::Tail(next, scope) => {
            lemma_eval_budget((low - 1) as nat, (high - 1) as nat, next, scope, st1);
        },
    }
}

/// The call of a closure: what the budget `low` suffices for, every budget
/// above it gives as well.
pub proof fn lemma_expand_budget(low: nat, high: nat, f: Value, args: Seq<Value>, st: State)
    requires
        low <= high,
        expand_spec(low, f, args, st).0 != Err::<Value, Failure>(spent()),
    ensures
        expand_spec(high, f, args, st) == expand_spec(low, f, args, st),
    decreases low, 1nat, 0nat,
{
    match f {
        Value::Func { body, params, env, .. } => match crate::env::bind_params(*params, args) {
            Ok(vars) => {
                lemma_eval_budget(
                    low,
                    high,
                    *body,
                    st.scopes.len() as Env,
                    st.with_scope(vars, Some(env)),
                );
            },
            Err(_) => {},
        },
        _ => {},
    }
}

/// The elements of a range: what the budget `low` suffices for, every budget
/// above it gives as well.
pub proof fn lemma_range_budget(
    low: nat,
    high: nat,
    items: Seq<Value>,
    i: int,
    to: int,
    acc: Seq<Value>,
    env: Env,
    st: State,
)
    requires
        low <= high,
        eval_range(low, items, i, to, acc, env, st).0 != Err::<Seq<Value>, Failure>(spent()),
    ensures
        eval_range(high, items, i, to, acc, env, st) == eval_range(low, items, i, to, acc, env, st),
    decreases low, 1nat, to - i,
{
    if !(i < 0 || i >= to || i >= items.len()) {
        let (r, st1) = eval_spec(low, items[i], env, st);
        lemma_eval_budget(low, high, items[i], env, st);
        match r {
            Ok(v) => {
                lemma_range_budget(low, high, items, i + 1, to, acc.push(v), env, st1);
            },
            Err(_) => {},
        }
    }
}

/// The bindings of a `let*`: what the budget `low` suffices for, every
/// budget above it gives as well.
pub proof fn lemma_let_binds_budget(
    low: nat,
    high: nat,
    bs: Seq<Value>,
    i: int,
    env: Env,
    st: State,
)
    requires
        low <= high,
        let_binds(low, bs, i, env, st).0 != Some(spent()),
    ensures
        let_binds(high, bs, i, env, st) == let_binds(low, bs, i, env, st),
    decreases low, 1nat, bs.len() - i,
{
    if !(i < 0 || i + 1 >= bs.len()) && bs[i] is Sym {
        let (r, st1) = eval_spec(low, bs[i + 1], env, st);
        lemma_eval_budget(low, high, bs[i + 1], env, st);
        match r {
            Ok(v) => {
                let (r2, st2) = crate::env::define(st1, env, bs[i], v);
                match r2 {
                    Ok(_) => {
                        lemma_let_binds_budget(low, high, bs, i + 2, env, st2);
                    },
                    Err(_) => {},
                }
            },
            Err(_) => {},
        }
    }
}

/// The evaluation of a form without applying it: what the budget `low`
/// suffices for, every budget above it gives as well.
pub proof fn lemma_eval_ast_budget(low: nat, high: nat, ast: Value, env: Env, st: State)
    requires
        low <= high,
        eval_ast_spec(low, ast, env, st).0 != Err::<Value, Failure>(spent()),
    ensures
        eval_ast_spec(high, ast, env, st) == eval_ast_spec(low, ast, env, st),
    decreases low, 2nat, 0nat,
{
    match ast {
        Value::List(l) => {
            lemma_range_budget(low, high, l, 0, l.len() as int, Seq::empty(), env, st);
        },
        _ => {},
    }
}

/// Macro expansion: what the budget `low` suffices for, every budget above
/// it gives as well.
pub proof fn lemma_macroexpand_budget(low: nat, high: nat, ast: Value, env: Env, st: State)
    requires
        low <= high,
        macroexpand_spec(low, ast, env, st).0 != Err::<Value, Failure>(spent()),
    ensures
        macroexpand_spec(high, ast, env, st) == macroexpand_spec(low, ast, env, st),
    decreases low, 2nat, 0nat,
{
    match macro_call(st, env, ast) {
        None => {},
        Some((f, args)) => {
            let (r, st1) = expand_spec((low - 1) as nat, f, args, st);
            lemma_expand_budget((low - 1) as nat, (high - 1) as nat, f, args, st);
            match r {
                Ok(next) => {
                    lemma_macroexpand_budget((low - 1) as nat, (high - 1) as nat, next, env, st1);
                },
                Err(_) => {},
            }
        },
    }
}

/// `def!`: what the budget `low` suffices for, every budget above it gives
/// as well.
pub proof fn lemma_def_budget(low: nat, high: nat, l: Seq<Value>, env: Env, st: State)
    requires
        low <= high,
        def_form(low, l, env, st).0 != fails(Fault::OutOfFuel),
    ensures
        def_form(high, l, env, st) == def_form(low, l, env, st),
    decreases low, 3nat, 0nat,
{
    if l.len() >= 3 {
        lemma_eval_budget(low, high, l[2], env, st);
    }
}

/// `let*`: what the budget `low` suffices for, every budget above it gives
/// as well.
pub proof fn lemma_let_budget(low: nat, high: nat, l: Seq<Value>, env: Env, st: State)
    requires
        low <= high,
        let_form(low, l, env, st).0 != fails(Fault::OutOfFuel),
    ensures
        let_form(high, l, env, st) == let_form(low, l, env, st),
    decreases low, 3nat, 0nat,
{
    if l.len() >= 3 {
        match l[1] {
            Value::List(bs) => {
                if bs.len() % 2 == 0 {
                    lemma_let_binds_budget(
                        low,
                        high,
                        bs,
                        0,
                        st.scopes.len() as Env,
                        st.with_scope(Map::empty(), Some(env)),
                    );
                }
            },
            _ => {},
        }
    }
}

/// `do`: what the budget `low` suffices for, every budget above it gives as
/// well.
pub proof fn lemma_do_budget(low: nat, high: nat, l: Seq<Value>, env: Env, st: State)
    requires
        low <= high,
        do_form(low, l, env, st).0 != fails(Fault::OutOfFuel),
    ensures
        do_form(high, l, env, st) == do_form(low, l, env, st),
    decreases low, 3nat, 0nat,
{
    if l.len() > 1 {
        lemma_range_budget(low, high, l, 1, l.len() - 1, Seq::empty(), env, st);
    }
}

/// `if`: what the budget `low` suffices for, every budget above it gives as
/// well.
pub proof fn lemma_if_budget(low: nat, high: nat, l: Seq<Value>, env: Env, st: State)
    requires
        low <= high,
        if_form(low, l, env, st).0 != fails(Fault::OutOfFuel),
    ensures
        if_form(high, l, env, st) == if_form(low, l, env, st),
    decreases low, 3nat, 0nat,
{
    if l.len() >= 2 {
        lemma_eval_budget(low, high, l[1], env, st);
    }
}

/// `defmacro!`: what the budget `low` suffices for, every budget above it
/// gives as well.
pub proof fn lemma_defmacro_budget(low: nat, high: nat, l: Seq<Value>, env: Env, st: State)
    requires
        low <= high,
        defmacro_form(low, l, env, st).0 != fails(Fault::OutOfFuel),
    ensures
        defmacro_form(high, l, env, st) == defmacro_form(low, l, env, st),
    decreases low, 3nat, 0nat,
{
    if l.len() >= 3 {
        lemma_eval_budget(low, high, l[2], env, st);
    }
}

/// An application: what the budget `low` suffices for, every budget above it
/// gives as well.
pub proof fn lemma_apply_budget(low: nat, high: nat, l: Seq<Value>, env: Env, st: State)
    requires
        low <= high,
        apply_form(low, l, env, st).0 != fails(Fault::OutOfFuel),
    ensures
        apply_form(high, l, env, st) == apply_form(low, l, env, st),
    decreases low, 3nat, 0nat,
{
    lemma_range_budget(low, high, l, 0, l.len() as int, Seq::empty(), env, st);
}

/// One step: what the budget `low` suffices for, every budget above it gives
/// as well.
pub proof fn lemma_step_budget(low: nat, high: nat, ast: Value, env: Env, st: State)
    requires
        low <= high,
        step_spec(low, ast, env, st).0 != fails(Fault::OutOfFuel),
    ensures
        step_spec(high, ast, env, st) == step_spec(low, ast, env, st),
    decreases low, 4nat, 0nat,
{
    match ast {
        Value::List(l) => {
            if l.len() > 0 {
                match macro_call(st, env, ast) {
                    Some((f, args)) => {
                        lemma_expand_budget(low, high, f, args, st);
                    },
                    None => match form_of(l[0]) {
                        Some(Form::Def) => lemma_def_budget(low, high, l, env, st),
                        Some(Form::Let) => lemma_let_budget(low, high, l, env, st),
                        Some(Form::Do) => lemma_do_budget(low, high, l, env, st),
                        Some(Form::If) => lemma_if_budget(low, high, l, env, st),
                        Some(Form::DefMacro) => lemma_defmacro_budget(low, high, l, env, st),
                        Some(Form::MacroExpand) => {
                            if l.len() >= 2 {
                                lemma_macroexpand_budget(low, high, l[1], env, st);
                            }
                        },
                        Some(_) => {},
                        None => lemma_apply_budget(low, high, l, env, st),
                    },
                }
            }
        },
        _ => {
            lemma_eval_ast_budget(low, high, ast, env, st);
        },
    }
}

} // verus!
