//! Handles stay good.
//!
//! A state is sound when every scope is chained to a scope created before it
//! and every closure it holds was made in a scope that exists. Evaluation
//! keeps a sound state sound, returns only values whose closures were made in
//! scopes that exist, and never runs into a handle that names no environment.

use crate::env::{bind_from, bind_params, define, find, lemma_find_binds, resolve, Scope, State};
use crate::eval::{apply_form, call, def_form, defmacro_form, do_form, eval_ast_spec, eval_range,
    eval_spec, expand_spec, form_of, if_form, let_binds, let_form, macro_call, macroexpand_spec,
    step_spec, Form, Step};
use crate::natives::{apply_builtin, catalogue, concat_from, name_of};
use crate::quasiquote::{quasi, quasi_from, tagged};
use crate::reader::{parse_form, parse_list, read_spec, tokens_of};
use crate::repl::{registered, rep_spec};
use crate::types::{failure, Builtin, Env, Failure, Fault, Outcome, Value};
use vstd::prelude::*;

verus! {

/// Whether every closure in `v` was made in one of the first `n` scopes.
pub open spec fn closed(v: Value, n: nat) -> bool
    decreases v,
{
    match v {
        Value::Func { body, params, env, .. } => env < n && closed(*body, n) && closed(*params, n),
        Value::List(l) => forall|i: int| 0 <= i < l.len() ==> closed(#[trigger] l[i], n),
        _ => true,
    }
}

/// Whether every closure in the values `vs` was made in one of the first `n`
/// scopes.
pub open spec fn all_closed(vs: Seq<Value>, n: nat) -> bool {
    forall|i: int| 0 <= i < vs.len() ==> closed(#[trigger] vs[i], n)
}

/// Whether every closure bound in `vars` was made in one of the first `n`
/// scopes.
pub open spec fn vars_closed(vars: Map<Seq<char>, Value>, n: nat) -> bool {
    forall|k: Seq<char>| vars.contains_key(k) ==> closed(#[trigger] vars[k], n)
}

/// Whether the scope at position `e` of `n` is chained to an earlier scope
/// and holds only closures made in scopes that exist.
pub open spec fn scope_sound(s: Scope, e: int, n: nat) -> bool {
    &&& s.outer matches Some(o) ==> o < e
    &&& vars_closed(s.vars, n)
}

/// Whether every scope of the state is sound.
pub open spec fn sound(st: State) -> bool {
    forall|e: int| 0 <= e < st.scopes.len() ==> scope_sound(#[trigger] st.scopes[e], e, st.scopes.len())
}

/// Whether the outcome `r` in the state `after` is what a sound evaluation
/// from the state `before` leaves: a sound state with all scopes of before, a
/// value closed in it, and no stale handle met.
pub open spec fn kept(before: State, r: Outcome, after: State) -> bool {
    &&& sound(after)
    &&& before.scopes.len() <= after.scopes.len()
    &&& r matches Ok(v) ==> closed(v, after.scopes.len())
    &&& r != Err::<Value, Failure>(failure(Fault::StaleEnv))
}

/// Whether the step `s` in the state `after` is what a sound step from the
/// state `before` leaves.
pub open spec fn step_kept(before: State, s: Step, after: State) -> bool {
    match s {
        Step::Done(r) => kept(before, r, after),
        Step::Tail(next, scope) => sound(after) && before.scopes.len() <= after.scopes.len()
            && closed(next, after.scopes.len()) && scope < after.scopes.len(),
    }
}

/// A value closed in some scopes is closed in more.
pub proof fn lemma_closed_mono(v: Value, n: nat, m: nat)
    requires
        closed(v, n),
        n <= m,
    ensures
        closed(v, m),
    decreases v,
{
    match v {
        Value::Func { body, params, .. } => {
            lemma_closed_mono(*body, n, m);
            lemma_closed_mono(*params, n, m);
        },
        Value::List(l) => {
            assert forall|i: int| 0 <= i < l.len() implies closed(#[trigger] l[i], m) by {
                lemma_closed_mono(l[i], n, m);
            }
        },
        _ => {},
    }
}

/// Values closed in some scopes are closed in more.
pub proof fn lemma_all_closed_mono(vs: Seq<Value>, n: nat, m: nat)
    requires
        all_closed(vs, n),
        n <= m,
    ensures
        all_closed(vs, m),
{
    assert forall|i: int| 0 <= i < vs.len() implies closed(#[trigger] vs[i], m) by {
        lemma_closed_mono(vs[i], n, m);
    }
}

/// A sound state with one more scope, chained to a scope that exists and
/// holding closed values, is sound.
pub proof fn lemma_scope_sound(st: State, vars: Map<Seq<char>, Value>, outer: Option<Env>)
    requires
        sound(st),
        vars_closed(vars, st.scopes.len()),
        outer matches Some(o) ==> o < st.scopes.len(),
    ensures
        sound(st.with_scope(vars, outer)),
{
    let st1 = st.with_scope(vars, outer);
    let n = st.scopes.len();
    assert forall|e: int| 0 <= e < st1.scopes.len() implies scope_sound(
        #[trigger] st1.scopes[e],
        e,
        st1.scopes.len(),
    ) by {
        let s = st1.scopes[e];
        if e < n {
            assert(s == st.scopes[e]);
            assert(scope_sound(st.scopes[e], e, n));
        }
        assert forall|k: Seq<char>| s.vars.contains_key(k) implies closed(
            #[trigger] s.vars[k],
            st1.scopes.len(),
        ) by {
            lemma_closed_mono(s.vars[k], n, st1.scopes.len());
        }
    }
}

/// A sound state with one more binding of a closed value is sound.
pub proof fn lemma_binding_sound(st: State, env: Env, name: Seq<char>, val: Value)
    requires
        sound(st),
        env < st.scopes.len(),
        closed(val, st.scopes.len()),
    ensures
        sound(st.with_binding(env, name, val)),
{
    let st1 = st.with_binding(env, name, val);
    assert forall|e: int| 0 <= e < st1.scopes.len() implies scope_sound(
        #[trigger] st1.scopes[e],
        e,
        st1.scopes.len(),
    ) by {
        assert(scope_sound(st.scopes[e], e, st.scopes.len()));
        let s = st1.scopes[e];
        assert forall|k: Seq<char>| s.vars.contains_key(k) implies closed(
            #[trigger] s.vars[k],
            st1.scopes.len(),
        ) by {
            if e == env && k == name {
            } else {
                assert(st.scopes[e].vars.contains_key(k));
                assert(s.vars[k] == st.scopes[e].vars[k]);
            }
        }
    }
}

/// A definition in a scope that exists, of a closed value, keeps the state
/// sound and meets no stale handle.
pub proof fn lemma_define_sound(st: State, env: Env, key: Value, val: Value)
    requires
        sound(st),
        env < st.scopes.len(),
        closed(val, st.scopes.len()),
    ensures
        kept(st, define(st, env, key, val).0, define(st, env, key, val).1),
{
    match key {
        Value::Sym(name) => {
            lemma_binding_sound(st, env, name, val);
        },
        _ => {},
    }
}

/// What a lookup finds in a sound state is closed.
pub proof fn lemma_resolve_closed(st: State, env: Env, key: Value)
    requires
        sound(st),
    ensures
        kept(st, resolve(st, env, key), st),
{
    match key {
        Value::Sym(name) => {
            lemma_find_binds(st, env, name);
            match find(st, env, name) {
                Some(e) => {
                    assert(scope_sound(st.scopes[e as int], e as int, st.scopes.len()));
                },
                None => {},
            }
        },
        _ => {},
    }
}

/// Binding parameters to closed arguments gives closed bindings.
pub proof fn lemma_bind_from_closed(
    ps: Seq<Value>,
    args: Seq<Value>,
    i: int,
    acc: Map<Seq<char>, Value>,
    n: nat,
)
    requires
        0 <= i <= args.len(),
        all_closed(args, n),
        vars_closed(acc, n),
    ensures
        bind_from(ps, args, i, acc) matches Ok(vars) ==> vars_closed(vars, n),
        bind_from(ps, args, i, acc) matches Err(e) ==> e != failure(Fault::StaleEnv),
    decreases ps.len() - i,
{
    if !(i < 0 || i >= ps.len()) {
        if ps[i] == Value::Sym(crate::env::rest_marker()) {
            if i + 1 < ps.len() {
                match ps[i + 1] {
                    Value::Sym(rest) => {
                        let tail = args.skip(i);
                        assert forall|j: int| 0 <= j < tail.len() implies closed(
                            #[trigger] tail[j],
                            n,
                        ) by {
                            assert(tail[j] == args[i + j]);
                        }
                    },
                    _ => {},
                }
            }
        } else if i < args.len() {
            match ps[i] {
                Value::Sym(name) => {
                    lemma_bind_from_closed(ps, args, i + 1, acc.insert(name, args[i]), n);
                },
                _ => {},
            }
        }
    }
}

/// The expansion of a closed template is closed.
pub proof fn lemma_quasi_closed(form: Value, n: nat)
    requires
        closed(form, n),
    ensures
        closed(quasi(form), n),
    decreases form, 0nat,
{
    match form {
        Value::List(l) => {
            if tagged(form, "unquote") {
                assert(closed(l[1], n));
            } else {
                lemma_quasi_from_closed(l, 0, n);
            }
        },
        _ => {},
    }
}

/// The expansion of the elements of a closed template list is closed.
pub proof fn lemma_quasi_from_closed(l: Seq<Value>, i: int, n: nat)
    requires
        all_closed(l, n),
    ensures
        closed(quasi_from(l, i), n),
    decreases l, l.len() - i,
{
    if !(i < 0 || i >= l.len()) {
        lemma_quasi_from_closed(l, i + 1, n);
        assert(closed(l[i], n));
        if tagged(l[i], "splice-unquote") {
            let inner = l[i]->List_0;
            assert(closed(inner[1], n));
            let made = seq![crate::types::sym("concat"), inner[1], quasi_from(l, i + 1)];
            assert forall|j: int| 0 <= j < made.len() implies closed(#[trigger] made[j], n) by {}
        } else {
            lemma_quasi_closed(l[i], n);
            let made = seq![crate::types::sym("cons"), quasi(l[i]), quasi_from(l, i + 1)];
            assert forall|j: int| 0 <= j < made.len() implies closed(#[trigger] made[j], n) by {}
        }
    }
}

/// Joining closed lists gives a closed list.
pub proof fn lemma_concat_closed(args: Seq<Value>, i: int, acc: Seq<Value>, n: nat)
    requires
        all_closed(args, n),
        all_closed(acc, n),
    ensures
        concat_from(args, i, acc) matches Ok(v) ==> closed(v, n),
        concat_from(args, i, acc) matches Err(e) ==> e != failure(Fault::StaleEnv),
    decreases args.len() - i,
{
    if !(i < 0 || i >= args.len()) {
        match args[i] {
            Value::List(l) => {
                assert(closed(args[i], n));
                let more = acc + l;
                assert forall|j: int| 0 <= j < more.len() implies closed(#[trigger] more[j], n) by {
                    if j < acc.len() {
                        assert(more[j] == acc[j]);
                    } else {
                        assert(more[j] == l[j - acc.len()]);
                    }
                }
                lemma_concat_closed(args, i + 1, more, n);
            },
            _ => {},
        }
    }
}

/// A native called with closed arguments in a sound state keeps it sound and
/// returns a closed value.
pub proof fn lemma_native_sound(b: Builtin, args: Seq<Value>, st: State)
    requires
        sound(st),
        all_closed(args, st.scopes.len()),
    ensures
        kept(st, apply_builtin(b, args, st).0, apply_builtin(b, args, st).1),
{
    let n = st.scopes.len();
    let (r, st1) = apply_builtin(b, args, st);
    lemma_printing_keeps_scopes(st, args, 0);
    assert(st1.scopes == st.scopes);
    assert(sound(st1)) by {
        assert forall|e: int| 0 <= e < st1.scopes.len() implies scope_sound(
            #[trigger] st1.scopes[e],
            e,
            st1.scopes.len(),
        ) by {
            assert(scope_sound(st.scopes[e], e, n));
        }
    }
    match b {
        Builtin::Cons => {
            if args.len() >= 2 {
                match args[1] {
                    Value::List(l) => {
                        assert(closed(args[0], n));
                        assert(closed(args[1], n));
                        let made = seq![args[0]] + l;
                        assert forall|j: int| 0 <= j < made.len() implies closed(
                            #[trigger] made[j],
                            n,
                        ) by {
                            if j > 0 {
                                assert(made[j] == l[j - 1]);
                            }
                        }
                    },
                    _ => {},
                }
            }
        },
        Builtin::Concat => {
            lemma_concat_closed(args, 0, Seq::empty(), n);
        },
        _ => {},
    }
}

/// Printing leaves the scopes as they are.
pub proof fn lemma_printing_keeps_scopes(st: State, args: Seq<Value>, i: int)
    ensures
        crate::natives::printed_from(st, args, i).scopes == st.scopes,
    decreases args.len() - i,
{
    if !(i < 0 || i >= args.len()) {
        lemma_printing_keeps_scopes(st.with_line(crate::printer::printed(args[i])), args, i + 1);
    }
}

/// Evaluation of a closed form, from a scope that exists, keeps a sound state
/// sound, returns a closed value and meets no stale handle.
pub proof fn lemma_eval_sound(fuel: nat, ast: Value, env: Env, st: State)
    requires
        sound(st),
        closed(ast, st.scopes.len()),
        env < st.scopes.len(),
    ensures
        kept(st, eval_spec(fuel, ast, env, st).0, eval_spec(fuel, ast, env, st).1),
    decreases fuel, 0nat, 0nat,
{
    if fuel > 0 {
        let (step, st1) = step_spec((fuel - 1) as nat, ast, env, st);
        lemma_step_sound((fuel - 1) as nat, ast, env, st);
        match step {
            Step::Done(_) => {},
            Step::Tail(next, scope) => {
                lemma_eval_sound((fuel - 1) as nat, next, scope, st1);
            },
        }
    }
}

/// The call of a closed closure with closed arguments keeps a sound state
/// sound, returns a closed value and meets no stale handle.
pub proof fn lemma_expand_sound(fuel: nat, f: Value, args: Seq<Value>, st: State)
    requires
        sound(st),
        closed(f, st.scopes.len()),
        all_closed(args, st.scopes.len()),
    ensures
        kept(st, expand_spec(fuel, f, args, st).0, expand_spec(fuel, f, args, st).1),
    decreases fuel, 1nat, 0nat,
{
    let n = st.scopes.len();
    match f {
        Value::Func { body, params, env, .. } => {
            lemma_bind_params_closed(*params, args, n);
            match bind_params(*params, args) {
                Ok(vars) => {
                    let st1 = st.with_scope(vars, Some(env));
                    lemma_scope_sound(st, vars, Some(env));
                    lemma_closed_mono(*body, n, st1.scopes.len());
                    lemma_eval_sound(fuel, *body, n as Env, st1);
                },
                Err(_) => {},
            }
        },
        _ => {},
    }
}

/// Binding a parameter pattern to closed arguments gives closed bindings.
pub proof fn lemma_bind_params_closed(params: Value, args: Seq<Value>, n: nat)
    requires
        all_closed(args, n),
    ensures
        bind_params(params, args) matches Ok(vars) ==> vars_closed(vars, n),
        bind_params(params, args) matches Err(e) ==> e != failure(Fault::StaleEnv),
{
    match params {
        Value::List(ps) => {
            lemma_bind_from_closed(ps, args, 0, Map::empty(), n);
        },
        _ => {},
    }
}

/// The evaluation of a range of closed forms keeps a sound state sound and
/// gathers closed values.
pub proof fn lemma_range_sound(
    fuel: nat,
    items: Seq<Value>,
    i: int,
    to: int,
    acc: Seq<Value>,
    env: Env,
    st: State,
)
    requires
        sound(st),
        all_closed(items, st.scopes.len()),
        all_closed(acc, st.scopes.len()),
        env < st.scopes.len(),
    ensures
        sound(eval_range(fuel, items, i, to, acc, env, st).1),
        st.scopes.len() <= eval_range(fuel, items, i, to, acc, env, st).1.scopes.len(),
        eval_range(fuel, items, i, to, acc, env, st).0 matches Ok(vs) ==> all_closed(
            vs,
            eval_range(fuel, items, i, to, acc, env, st).1.scopes.len(),
        ),
        eval_range(fuel, items, i, to, acc, env, st).0 matches Err(e) ==> e != failure(
            Fault::StaleEnv,
        ),
    decreases fuel, 1nat, to - i,
{
    if !(i < 0 || i >= to || i >= items.len()) {
        let n = st.scopes.len();
        let (r, st1) = eval_spec(fuel, items[i], env, st);
        assert(closed(items[i], n));
        lemma_eval_sound(fuel, items[i], env, st);
        match r {
            Ok(v) => {
                let n1 = st1.scopes.len();
                lemma_all_closed_mono(items, n, n1);
                lemma_all_closed_mono(acc, n, n1);
                let more = acc.push(v);
                assert forall|j: int| 0 <= j < more.len() implies closed(#[trigger] more[j], n1) by {
                    if j < acc.len() {
                        assert(more[j] == acc[j]);
                    }
                }
                lemma_range_sound(fuel, items, i + 1, to, more, env, st1);
            },
            Err(_) => {},
        }
    }
}

/// The bindings of a `let*` with closed forms keep a sound state sound.
pub proof fn lemma_let_binds_sound(fuel: nat, bs: Seq<Value>, i: int, env: Env, st: State)
    requires
        sound(st),
        all_closed(bs, st.scopes.len()),
        env < st.scopes.len(),
    ensures
        sound(let_binds(fuel, bs, i, env, st).1),
        st.scopes.len() <= let_binds(fuel, bs, i, env, st).1.scopes.len(),
        let_binds(fuel, bs, i, env, st).0 != Some(failure(Fault::StaleEnv)),
    decreases fuel, 1nat, bs.len() - i,
{
    if !(i < 0 || i + 1 >= bs.len()) && bs[i] is Sym {
        let n = st.scopes.len();
        let (r, st1) = eval_spec(fuel, bs[i + 1], env, st);
        assert(closed(bs[i + 1], n));
        lemma_eval_sound(fuel, bs[i + 1], env, st);
        match r {
            Ok(v) => {
                let (r2, st2) = define(st1, env, bs[i], v);
                lemma_define_sound(st1, env, bs[i], v);
                match r2 {
                    Ok(_) => {
                        lemma_all_closed_mono(bs, n, st2.scopes.len());
                        lemma_let_binds_sound(fuel, bs, i + 2, env, st2);
                    },
                    Err(_) => {},
                }
            },
            Err(_) => {},
        }
    }
}

/// The evaluation of a closed form without applying it keeps a sound state
/// sound and returns a closed value.
pub proof fn lemma_eval_ast_sound(fuel: nat, ast: Value, env: Env, st: State)
    requires
        sound(st),
        closed(ast, st.scopes.len()),
        env < st.scopes.len(),
    ensures
        kept(st, eval_ast_spec(fuel, ast, env, st).0, eval_ast_spec(fuel, ast, env, st).1),
    decreases fuel, 2nat, 0nat,
{
    match ast {
        Value::List(l) => {
            lemma_range_sound(fuel, l, 0, l.len() as int, Seq::empty(), env, st);
        },
        Value::Sym(_) => {
            lemma_resolve_closed(st, env, ast);
        },
        _ => {},
    }
}

/// What a form calls as a macro, in a sound state, is closed, and so are
/// the arguments of a closed form.
pub proof fn lemma_macro_call_closed(st: State, env: Env, ast: Value)
    requires
        sound(st),
        closed(ast, st.scopes.len()),
    ensures
        macro_call(st, env, ast) matches Some((f, args)) ==> closed(f, st.scopes.len())
            && all_closed(args, st.scopes.len()),
{
    match ast {
        Value::List(l) => {
            if l.len() > 0 && l[0] is Sym {
                lemma_resolve_closed(st, env, l[0]);
                let args = l.skip(1);
                assert forall|j: int| 0 <= j < args.len() implies closed(
                    #[trigger] args[j],
                    st.scopes.len(),
                ) by {
                    assert(args[j] == l[j + 1]);
                }
            }
        },
        _ => {},
    }
}

/// The expansion of a closed form keeps a sound state sound and returns a
/// closed form.
pub proof fn lemma_macroexpand_sound(fuel: nat, ast: Value, env: Env, st: State)
    requires
        sound(st),
        closed(ast, st.scopes.len()),
        env < st.scopes.len(),
    ensures
        kept(st, macroexpand_spec(fuel, ast, env, st).0, macroexpand_spec(fuel, ast, env, st).1),
    decreases fuel, 2nat, 0nat,
{
    lemma_macro_call_closed(st, env, ast);
    match macro_call(st, env, ast) {
        None => {},
        Some((f, args)) => {
            if fuel > 0 {
                let (r, st1) = expand_spec((fuel - 1) as nat, f, args, st);
                lemma_expand_sound((fuel - 1) as nat, f, args, st);
                match r {
                    Ok(next) => {
                        lemma_macroexpand_sound((fuel - 1) as nat, next, env, st1);
                    },
                    Err(_) => {},
                }
            }
        },
    }
}

/// `def!` of closed forms keeps a sound state sound.
pub proof fn lemma_def_sound(fuel: nat, l: Seq<Value>, env: Env, st: State)
    requires
        sound(st),
        all_closed(l, st.scopes.len()),
        env < st.scopes.len(),
    ensures
        step_kept(st, def_form(fuel, l, env, st).0, def_form(fuel, l, env, st).1),
    decreases fuel, 3nat, 0nat,
{
    if l.len() >= 3 {
        let (r, st1) = eval_spec(fuel, l[2], env, st);
        assert(closed(l[2], st.scopes.len()));
        lemma_eval_sound(fuel, l[2], env, st);
        match r {
            Ok(v) => {
                lemma_define_sound(st1, env, l[1], v);
            },
            Err(_) => {},
        }
    }
}

/// `let*` of closed forms keeps a sound state sound.
pub proof fn lemma_let_sound(fuel: nat, l: Seq<Value>, env: Env, st: State)
    requires
        sound(st),
        all_closed(l, st.scopes.len()),
        env < st.scopes.len(),
    ensures
        step_kept(st, let_form(fuel, l, env, st).0, let_form(fuel, l, env, st).1),
    decreases fuel, 3nat, 0nat,
{
    if l.len() >= 3 {
        let n = st.scopes.len();
        match l[1] {
            Value::List(bs) => {
                if bs.len() % 2 == 0 {
                    assert(closed(l[1], n));
                    assert(closed(l[2], n));
                    let child = n as Env;
                    let st1 = st.with_scope(Map::empty(), Some(env));
                    lemma_scope_sound(st, Map::empty(), Some(env));
                    lemma_all_closed_mono(bs, n, st1.scopes.len());
                    lemma_let_binds_sound(fuel, bs, 0, child, st1);
                    let st2 = let_binds(fuel, bs, 0, child, st1).1;
                    lemma_closed_mono(l[2], n, st2.scopes.len());
                }
            },
            _ => {},
        }
    }
}

/// `do` of closed forms keeps a sound state sound.
pub proof fn lemma_do_sound(fuel: nat, l: Seq<Value>, env: Env, st: State)
    requires
        sound(st),
        all_closed(l, st.scopes.len()),
        env < st.scopes.len(),
    ensures
        step_kept(st, do_form(fuel, l, env, st).0, do_form(fuel, l, env, st).1),
    decreases fuel, 3nat, 0nat,
{
    if l.len() > 1 {
        lemma_range_sound(fuel, l, 1, l.len() - 1, Seq::empty(), env, st);
        let st1 = eval_range(fuel, l, 1, l.len() - 1, Seq::empty(), env, st).1;
        let last = l[l.len() - 1];
        assert(closed(last, st.scopes.len()));
        lemma_closed_mono(last, st.scopes.len(), st1.scopes.len());
    }
}

/// `if` of closed forms keeps a sound state sound.
pub proof fn lemma_if_sound(fuel: nat, l: Seq<Value>, env: Env, st: State)
    requires
        sound(st),
        all_closed(l, st.scopes.len()),
        env < st.scopes.len(),
    ensures
        step_kept(st, if_form(fuel, l, env, st).0, if_form(fuel, l, env, st).1),
    decreases fuel, 3nat, 0nat,
{
    if l.len() >= 2 {
        let n = st.scopes.len();
        let (r, st1) = eval_spec(fuel, l[1], env, st);
        assert(closed(l[1], n));
        lemma_eval_sound(fuel, l[1], env, st);
        if l.len() >= 3 {
            assert(closed(l[2], n));
            lemma_closed_mono(l[2], n, st1.scopes.len());
        }
        if l.len() >= 4 {
            assert(closed(l[3], n));
            lemma_closed_mono(l[3], n, st1.scopes.len());
        }
    }
}

/// `defmacro!` of closed forms keeps a sound state sound.
pub proof fn lemma_defmacro_sound(fuel: nat, l: Seq<Value>, env: Env, st: State)
    requires
        sound(st),
        all_closed(l, st.scopes.len()),
        env < st.scopes.len(),
    ensures
        step_kept(st, defmacro_form(fuel, l, env, st).0, defmacro_form(fuel, l, env, st).1),
    decreases fuel, 3nat, 0nat,
{
    if l.len() >= 3 {
        let (r, st1) = eval_spec(fuel, l[2], env, st);
        assert(closed(l[2], st.scopes.len()));
        lemma_eval_sound(fuel, l[2], env, st);
        match r {
            Ok(Value::Func { body, params, env: home, .. }) => {
                let made = Value::Func { body, params, env: home, is_macro: true };
                assert(closed(made, st1.scopes.len()));
                lemma_define_sound(st1, home, l[1], made);
            },
            _ => {},
        }
    }
}

/// The call of a closed value with closed arguments keeps a sound state
/// sound.
pub proof fn lemma_call_sound(f: Value, args: Seq<Value>, st: State)
    requires
        sound(st),
        closed(f, st.scopes.len()),
        all_closed(args, st.scopes.len()),
    ensures
        step_kept(st, call(f, args, st).0, call(f, args, st).1),
{
    let n = st.scopes.len();
    match f {
        Value::Native(b) => {
            lemma_native_sound(b, args, st);
        },
        Value::Func { body, params, env, is_macro } => {
            if !is_macro {
                lemma_bind_params_closed(*params, args, n);
                match bind_params(*params, args) {
                    Ok(vars) => {
                        lemma_scope_sound(st, vars, Some(env));
                        lemma_closed_mono(*body, n, n + 1);
                    },
                    Err(_) => {},
                }
            }
        },
        _ => {},
    }
}

/// An application of closed forms keeps a sound state sound.
pub proof fn lemma_apply_sound(fuel: nat, l: Seq<Value>, env: Env, st: State)
    requires
        sound(st),
        all_closed(l, st.scopes.len()),
        env < st.scopes.len(),
        l.len() > 0,
    ensures
        step_kept(st, apply_form(fuel, l, env, st).0, apply_form(fuel, l, env, st).1),
    decreases fuel, 3nat, 0nat,
{
    let (r, st1) = eval_range(fuel, l, 0, l.len() as int, Seq::empty(), env, st);
    lemma_range_sound(fuel, l, 0, l.len() as int, Seq::empty(), env, st);
    crate::eval::lemma_eval_range_len(fuel, l, 0, l.len() as int, Seq::empty(), env, st);
    match r {
        Ok(vs) => {
            let args = vs.skip(1);
            assert(closed(vs[0], st1.scopes.len()));
            assert forall|j: int| 0 <= j < args.len() implies closed(
                #[trigger] args[j],
                st1.scopes.len(),
            ) by {
                assert(args[j] == vs[j + 1]);
            }
            lemma_call_sound(vs[0], args, st1);
        },
        Err(_) => {},
    }
}

/// One step on a closed form keeps a sound state sound.
pub proof fn lemma_step_sound(fuel: nat, ast: Value, env: Env, st: State)
    requires
        sound(st),
        closed(ast, st.scopes.len()),
        env < st.scopes.len(),
    ensures
        step_kept(st, step_spec(fuel, ast, env, st).0, step_spec(fuel, ast, env, st).1),
    decreases fuel, 4nat, 0nat,
{
    let n = st.scopes.len();
    match ast {
        Value::List(l) => {
            if l.len() > 0 {
                lemma_macro_call_closed(st, env, ast);
                match macro_call(st, env, ast) {
                    Some((f, args)) => {
                        lemma_expand_sound(fuel, f, args, st);
                    },
                    None => match form_of(l[0]) {
                        Some(Form::Def) => lemma_def_sound(fuel, l, env, st),
                        Some(Form::Let) => lemma_let_sound(fuel, l, env, st),
                        Some(Form::Quote) => {
                            if l.len() >= 2 {
                                assert(closed(l[1], n));
                            }
                        },
                        Some(Form::QuasiquoteExpand) => {
                            if l.len() >= 2 {
                                assert(closed(l[1], n));
                                lemma_quasi_closed(l[1], n);
                            }
                        },
                        Some(Form::Quasiquote) => {
                            if l.len() >= 2 {
                                assert(closed(l[1], n));
                                lemma_quasi_closed(l[1], n);
                            }
                        },
                        Some(Form::Do) => lemma_do_sound(fuel, l, env, st),
                        Some(Form::If) => lemma_if_sound(fuel, l, env, st),
                        Some(Form::Fn) => {
                            if l.len() >= 3 {
                                assert(closed(l[1], n));
                                assert(closed(l[2], n));
                            }
                        },
                        Some(Form::DefMacro) => lemma_defmacro_sound(fuel, l, env, st),
                        Some(Form::MacroExpand) => {
                            if l.len() >= 2 {
                                assert(closed(l[1], n));
                                lemma_macroexpand_sound(fuel, l[1], env, st);
                            }
                        },
                        None => lemma_apply_sound(fuel, l, env, st),
                    },
                }
            }
        },
        _ => {
            lemma_eval_ast_sound(fuel, ast, env, st);
        },
    }
}

/// The state with no scope is sound.
pub proof fn lemma_empty_sound()
    ensures
        sound(State::empty()),
{
}

/// What is read from tokens holds no closure: it is closed in every state.
pub proof fn lemma_parse_form_closed(toks: Seq<Seq<char>>, pos: int, n: nat)
    ensures
        parse_form(toks, pos).0 matches Ok(v) ==> closed(v, n),
    decreases toks.len() - pos, 1nat,
{
    if !(pos < 0 || pos >= toks.len()) && toks[pos] == "("@ {
        lemma_parse_list_closed(toks, pos + 1, Seq::empty(), n);
    }
}

/// A list that is read from tokens holds no closure, if the elements read
/// before hold none.
pub proof fn lemma_parse_list_closed(toks: Seq<Seq<char>>, pos: int, acc: Seq<Value>, n: nat)
    requires
        all_closed(acc, n),
    ensures
        parse_list(toks, pos, acc).0 matches Ok(v) ==> closed(v, n),
    decreases toks.len() - pos, 2nat,
{
    if !(pos < 0 || pos >= toks.len()) && toks[pos] != ")"@ {
        let (r, next) = parse_form(toks, pos);
        lemma_parse_form_closed(toks, pos, n);
        match r {
            Ok(v) => {
                if pos < next <= toks.len() {
                    let more = acc.push(v);
                    assert forall|j: int| 0 <= j < more.len() implies closed(
                        #[trigger] more[j],
                        n,
                    ) by {
                        if j < acc.len() {
                            assert(more[j] == acc[j]);
                        }
                    }
                    lemma_parse_list_closed(toks, next, more, n);
                }
            },
            Err(_) => {},
        }
    }
}

/// What is read from a text holds no closure, so it can be evaluated in every
/// sound state.
pub proof fn lemma_read_closed(text: Seq<char>, n: nat)
    ensures
        read_spec(text) matches Ok(v) ==> closed(v, n),
{
    lemma_parse_form_closed(tokens_of(text), 0, n);
}

/// Registering the natives keeps a sound state sound, and adds no scope.
pub proof fn lemma_registered_sound(st: State, env: Env, i: int)
    requires
        sound(st),
        env < st.scopes.len(),
    ensures
        sound(registered(st, env, i)),
        registered(st, env, i).scopes.len() == st.scopes.len(),
    decreases catalogue().len() - i,
{
    if !(i < 0 || i >= catalogue().len()) {
        let native = catalogue()[i];
        let key = Value::Sym(name_of(native));
        lemma_define_sound(st, env, key, Value::Native(native));
        lemma_registered_sound(define(st, env, key, Value::Native(native)).1, env, i + 1);
    }
}

/// The state that holds the global environment and nothing else is sound.
pub proof fn lemma_global_sound()
    ensures
        sound(registered(State::empty().with_scope(Map::empty(), None), 0, 0)),
{
    let made = State::empty().with_scope(Map::empty(), None);
    lemma_scope_sound(State::empty(), Map::empty(), None);
    lemma_registered_sound(made, 0, 0);
}

/// A turn of the loop, from a scope that exists, keeps a sound state sound
/// and never fails for a handle that names no environment.
pub proof fn lemma_turn_sound(line: Seq<char>, env: Env, st: State, fuel: nat)
    requires
        sound(st),
        env < st.scopes.len(),
    ensures
        sound(rep_spec(line, env, st, fuel).1),
        st.scopes.len() <= rep_spec(line, env, st, fuel).1.scopes.len(),
        rep_spec(line, env, st, fuel).0 != Err::<Seq<char>, Failure>(failure(Fault::StaleEnv)),
{
    lemma_read_closed(line, st.scopes.len());
    lemma_read_fault(line);
    match read_spec(line) {
        Ok(ast) => {
            lemma_eval_sound(fuel, ast, env, st);
        },
        Err(_) => {},
    }
}

/// Reading fails only for what the text holds.
pub proof fn lemma_read_fault(text: Seq<char>)
    ensures
        read_spec(text) matches Err(e) ==> e == failure(Fault::NoInput) || e == failure(
            Fault::UnclosedList,
        ) || e == failure(Fault::NumberRange),
{
    if tokens_of(text).len() > 0 {
        lemma_parse_form_fault(tokens_of(text), 0);
    }
}

/// Reading a form from a token that exists fails only for a list that is not
/// closed or a number that is too large.
pub proof fn lemma_parse_form_fault(toks: Seq<Seq<char>>, pos: int)
    requires
        0 <= pos < toks.len(),
    ensures
        parse_form(toks, pos).0 matches Err(e) ==> e == failure(Fault::UnclosedList) || e
            == failure(Fault::NumberRange),
    decreases toks.len() - pos, 1nat,
{
    if toks[pos] == "("@ {
        lemma_parse_list_fault(toks, pos + 1, Seq::empty());
    }
}

/// Reading a list fails only for a list that is not closed or a number that
/// is too large.
pub proof fn lemma_parse_list_fault(toks: Seq<Seq<char>>, pos: int, acc: Seq<Value>)
    requires
        0 <= pos,
    ensures
        parse_list(toks, pos, acc).0 matches Err(e) ==> e == failure(Fault::UnclosedList) || e
            == failure(Fault::NumberRange),
    decreases toks.len() - pos, 2nat,
{
    if pos < toks.len() && toks[pos] != ")"@ {
        let (r, next) = parse_form(toks, pos);
        lemma_parse_form_fault(toks, pos);
        crate::reader::lemma_parse_form_advances(toks, pos);
        match r {
            Ok(v) => {
                lemma_parse_list_fault(toks, next, acc.push(v));
            },
            Err(_) => {},
        }
    }
}

} // verus!
