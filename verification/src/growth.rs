//! Evaluation only ever adds to the state.
//!
//! Whatever is evaluated, no environment is removed or chained to another
//! outer environment, no name is unbound, and no line that was printed is
//! taken back: every handle that named an environment before names the same
//! environment after.

use crate::env::{bind_params, define, State};
use crate::eval::{apply_form, call, def_form, defmacro_form, do_form, eval_ast_spec, eval_range,
    eval_spec, expand_spec, form_of, if_form, let_binds, let_form, macro_call, macroexpand_spec,
    step_spec, Form, Step};
use crate::natives::{apply_builtin, printed_from};
use crate::types::{Builtin, Env, Value};
use vstd::prelude::*;

verus! {

/// Whether `after` holds all that `before` holds: every scope of `before`,
/// with the same outer scope and at least the names it bound, and the lines
/// of `before` as the first lines.
pub open spec fn grows(before: State, after: State) -> bool {
    &&& before.scopes.len() <= after.scopes.len()
    &&& forall|e: int|
        0 <= e < before.scopes.len() ==> (#[trigger] after.scopes[e]).outer
            == before.scopes[e].outer && before.scopes[e].vars.dom().subset_of(
            after.scopes[e].vars.dom(),
        )
    &&& before.out.len() <= after.out.len()
    &&& forall|i: int| 0 <= i < before.out.len() ==> #[trigger] after.out[i] == before.out[i]
}

/// Growth adds up.
pub proof fn lemma_grows_trans(a: State, b: State, c: State)
    requires
        grows(a, b),
        grows(b, c),
    ensures
        grows(a, c),
{
    assert forall|e: int| 0 <= e < a.scopes.len() implies (#[trigger] c.scopes[e]).outer
        == a.scopes[e].outer && a.scopes[e].vars.dom().subset_of(c.scopes[e].vars.dom()) by {
        assert(b.scopes[e].outer == a.scopes[e].outer);
    }
    assert forall|i: int| 0 <= i < a.out.len() implies #[trigger] c.out[i] == a.out[i] by {
        assert(b.out[i] == a.out[i]);
    }
}

/// A new scope adds to the state.
pub proof fn lemma_scope_grows(st: State, vars: Map<Seq<char>, Value>, outer: Option<Env>)
    ensures
        grows(st, st.with_scope(vars, outer)),
{
}

/// A definition adds to the state.
pub proof fn lemma_define_grows(st: State, env: Env, key: Value, val: Value)
    ensures
        grows(st, define(st, env, key, val).1),
{
}

/// Printing adds to the state.
pub proof fn lemma_printing_grows(st: State, args: Seq<Value>, i: int)
    ensures
        grows(st, printed_from(st, args, i)),
    decreases args.len() - i,
{
    if !(i < 0 || i >= args.len()) {
        let st1 = st.with_line(crate::printer::printed(args[i]));
        lemma_printing_grows(st1, args, i + 1);
        lemma_grows_trans(st, st1, printed_from(st1, args, i + 1));
    }
}

/// A native adds to the state.
pub proof fn lemma_native_grows(b: Builtin, args: Seq<Value>, st: State)
    ensures
        grows(st, apply_builtin(b, args, st).1),
{
    lemma_printing_grows(st, args, 0);
}

/// Evaluation adds to the state.
pub proof fn lemma_eval_grows(fuel: nat, ast: Value, env: Env, st: State)
    ensures
        grows(st, eval_spec(fuel, ast, env, st).1),
    decreases fuel, 0nat, 0nat,
{
    if fuel > 0 {
        let (step, st1) = step_spec((fuel - 1) as nat, ast, env, st);
        lemma_step_grows((fuel - 1) as nat, ast, env, st);
        match step {
            Step::Done(_) => {},
            Step::Tail(next, scope) => {
                lemma_eval_grows((fuel - 1) as nat, next, scope, st1);
                lemma_grows_trans(st, st1, eval_spec((fuel - 1) as nat, next, scope, st1).1);
            },
        }
    }
}

/// The call of a closure adds to the state.
pub proof fn lemma_expand_grows(fuel: nat, f: Value, args: Seq<Value>, st: State)
    ensures
        grows(st, expand_spec(fuel, f, args, st).1),
    decreases fuel, 1nat, 0nat,
{
    match f {
        Value::Func { body, params, env, .. } => match bind_params(*params, args) {
            Ok(vars) => {
                let st1 = st.with_scope(vars, Some(env));
                lemma_eval_grows(fuel, *body, st.scopes.len() as Env, st1);
                lemma_grows_trans(st, st1, eval_spec(fuel, *body, st.scopes.len() as Env, st1).1);
            },
            Err(_) => {},
        },
        _ => {},
    }
}

/// The evaluation of a range adds to the state.
pub proof fn lemma_range_grows(
    fuel: nat,
    items: Seq<Value>,
    i: int,
    to: int,
    acc: Seq<Value>,
    env: Env,
    st: State,
)
    ensures
        grows(st, eval_range(fuel, items, i, to, acc, env, st).1),
    decreases fuel, 1nat, to - i,
{
    if !(i < 0 || i >= to || i >= items.len()) {
        let (r, st1) = eval_spec(fuel, items[i], env, st);
        lemma_eval_grows(fuel, items[i], env, st);
        match r {
            Ok(v) => {
                lemma_range_grows(fuel, items, i + 1, to, acc.push(v), env, st1);
                lemma_grows_trans(
                    st,
                    st1,
                    eval_range(fuel, items, i + 1, to, acc.push(v), env, st1).1,
                );
            },
            Err(_) => {},
        }
    }
}

/// The bindings of a `let*` add to the state.
pub proof fn lemma_let_binds_grows(fuel: nat, bs: Seq<Value>, i: int, env: Env, st: State)
    ensures
        grows(st, let_binds(fuel, bs, i, env, st).1),
    decreases fuel, 1nat, bs.len() - i,
{
    if !(i < 0 || i + 1 >= bs.len()) && bs[i] is Sym {
        let (r, st1) = eval_spec(fuel, bs[i + 1], env, st);
        lemma_eval_grows(fuel, bs[i + 1], env, st);
        match r {
            Ok(v) => {
                let (r2, st2) = define(st1, env, bs[i], v);
                lemma_define_grows(st1, env, bs[i], v);
                lemma_grows_trans(st, st1, st2);
                match r2 {
                    Ok(_) => {
                        lemma_let_binds_grows(fuel, bs, i + 2, env, st2);
                        lemma_grows_trans(st, st2, let_binds(fuel, bs, i + 2, env, st2).1);
                    },
                    Err(_) => {},
                }
            },
            Err(_) => {},
        }
    }
}

/// The evaluation of a form without applying it adds to the state.
pub proof fn lemma_eval_ast_grows(fuel: nat, ast: Value, env: Env, st: State)
    ensures
        grows(st, eval_ast_spec(fuel, ast, env, st).1),
    decreases fuel, 2nat, 0nat,
{
    match ast {
        Value::List(l) => {
            lemma_range_grows(fuel, l, 0, l.len() as int, Seq::empty(), env, st);
        },
        _ => {},
    }
}

/// Macro expansion adds to the state.
pub proof fn lemma_macroexpand_grows(fuel: nat, ast: Value, env: Env, st: State)
    ensures
        grows(st, macroexpand_spec(fuel, ast, env, st).1),
    decreases fuel, 2nat, 0nat,
{
    match macro_call(st, env, ast) {
        None => {},
        Some((f, args)) => {
            if fuel > 0 {
                let (r, st1) = expand_spec((fuel - 1) as nat, f, args, st);
                lemma_expand_grows((fuel - 1) as nat, f, args, st);
                match r {
                    Ok(next) => {
                        lemma_macroexpand_grows((fuel - 1) as nat, next, env, st1);
                        lemma_grows_trans(
                            st,
                            st1,
                            macroexpand_spec((fuel - 1) as nat, next, env, st1).1,
                        );
                    },
                    Err(_) => {},
                }
            }
        },
    }
}

/// `def!` adds to the state.
pub proof fn lemma_def_grows(fuel: nat, l: Seq<Value>, env: Env, st: State)
    ensures
        grows(st, def_form(fuel, l, env, st).1),
    decreases fuel, 3nat, 0nat,
{
    if l.len() >= 3 {
        let (r, st1) = eval_spec(fuel, l[2], env, st);
        lemma_eval_grows(fuel, l[2], env, st);
        match r {
            Ok(v) => {
                lemma_define_grows(st1, env, l[1], v);
                lemma_grows_trans(st, st1, define(st1, env, l[1], v).1);
            },
            Err(_) => {},
        }
    }
}

/// `let*` adds to the state.
pub proof fn lemma_let_grows(fuel: nat, l: Seq<Value>, env: Env, st: State)
    ensures
        grows(st, let_form(fuel, l, env, st).1),
    decreases fuel, 3nat, 0nat,
{
    if l.len() >= 3 {
        match l[1] {
            Value::List(bs) => {
                if bs.len() % 2 == 0 {
                    let child = st.scopes.len() as Env;
                    let st1 = st.with_scope(Map::empty(), Some(env));
                    lemma_let_binds_grows(fuel, bs, 0, child, st1);
                    lemma_grows_trans(st, st1, let_binds(fuel, bs, 0, child, st1).1);
                }
            },
            _ => {},
        }
    }
}

/// `do` adds to the state.
pub proof fn lemma_do_grows(fuel: nat, l: Seq<Value>, env: Env, st: State)
    ensures
        grows(st, do_form(fuel, l, env, st).1),
    decreases fuel, 3nat, 0nat,
{
    if l.len() > 1 {
        lemma_range_grows(fuel, l, 1, l.len() - 1, Seq::empty(), env, st);
    }
}

/// `if` adds to the state.
pub proof fn lemma_if_grows(fuel: nat, l: Seq<Value>, env: Env, st: State)
    ensures
        grows(st, if_form(fuel, l, env, st).1),
    decreases fuel, 3nat, 0nat,
{
    if l.len() >= 2 {
        lemma_eval_grows(fuel, l[1], env, st);
    }
}

/// `defmacro!` adds to the state.
pub proof fn lemma_defmacro_grows(fuel: nat, l: Seq<Value>, env: Env, st: State)
    ensures
        grows(st, defmacro_form(fuel, l, env, st).1),
    decreases fuel, 3nat, 0nat,
{
    if l.len() >= 3 {
        let (r, st1) = eval_spec(fuel, l[2], env, st);
        lemma_eval_grows(fuel, l[2], env, st);
        match r {
            Ok(Value::Func { body, params, env: home, .. }) => {
                let made = Value::Func { body, params, env: home, is_macro: true };
                lemma_define_grows(st1, home, l[1], made);
                lemma_grows_trans(st, st1, define(st1, home, l[1], made).1);
            },
            _ => {},
        }
    }
}

/// A call adds to the state.
pub proof fn lemma_call_grows(f: Value, args: Seq<Value>, st: State)
    ensures
        grows(st, call(f, args, st).1),
{
    match f {
        Value::Native(b) => {
            lemma_native_grows(b, args, st);
        },
        _ => {},
    }
}

/// An application adds to the state.
pub proof fn lemma_apply_grows(fuel: nat, l: Seq<Value>, env: Env, st: State)
    ensures
        grows(st, apply_form(fuel, l, env, st).1),
    decreases fuel, 3nat, 0nat,
{
    let (r, st1) = eval_range(fuel, l, 0, l.len() as int, Seq::empty(), env, st);
    lemma_range_grows(fuel, l, 0, l.len() as int, Seq::empty(), env, st);
    match r {
        Ok(vs) => {
            lemma_call_grows(vs[0], vs.skip(1), st1);
            lemma_grows_trans(st, st1, call(vs[0], vs.skip(1), st1).1);
        },
        Err(_) => {},
    }
}

/// One step adds to the state.
pub proof fn lemma_step_grows(fuel: nat, ast: Value, env: Env, st: State)
    ensures
        grows(st, step_spec(fuel, ast, env, st).1),
    decreases fuel, 4nat, 0nat,
{
    match ast {
        Value::List(l) => {
            if l.len() > 0 {
                match macro_call(st, env, ast) {
                    Some((f, args)) => {
                        lemma_expand_grows(fuel, f, args, st);
                    },
                    None => match form_of(l[0]) {
                        Some(Form::Def) => lemma_def_grows(fuel, l, env, st),
                        Some(Form::Let) => lemma_let_grows(fuel, l, env, st),
                        Some(Form::Do) => lemma_do_grows(fuel, l, env, st),
                        Some(Form::If) => lemma_if_grows(fuel, l, env, st),
                        Some(Form::DefMacro) => lemma_defmacro_grows(fuel, l, env, st),
                        Some(Form::MacroExpand) => {
                            if l.len() >= 2 {
                                lemma_macroexpand_grows(fuel, l[1], env, st);
                            }
                        },
                        Some(_) => {},
                        None => lemma_apply_grows(fuel, l, env, st),
                    },
                }
            }
        },
        _ => {
            lemma_eval_ast_grows(fuel, ast, env, st);
        },
    }
}

} // verus!
