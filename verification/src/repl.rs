//! One turn of the read-eval-print loop, and the environment it runs in.

use crate::env::{define, new_env, resolve, set_env, State, Store};
use crate::eval::{eval, eval_spec};
use crate::natives::{catalogue, name_of, ns};
use crate::printer::{print, printed};
use crate::reader::{read_spec, read_str};
use crate::types::{Builtin, Env, Failure, MalErr, MalVal, Value};
use vstd::prelude::*;

verus! {

/// The state after the natives `catalogue()[i..]` have been bound to their
/// names in `env`.
pub open spec fn registered(st: State, env: Env, i: int) -> State
    decreases catalogue().len() - i,
{
    if i < 0 || i >= catalogue().len() {
        st
    } else {
        let native = catalogue()[i];
        registered(
            define(st, env, Value::Sym(name_of(native)), Value::Native(native)).1,
            env,
            i + 1,
        )
    }
}

/// What one turn prints, and the state after it: the text of the value of
/// the form read from `line`; the failure, if reading or evaluating fails.
/// Reading changes nothing.
pub open spec fn rep_spec(line: Seq<char>, env: Env, st: State, fuel: nat) -> (
    Result<Seq<char>, Failure>,
    State,
) {
    match read_spec(line) {
        Ok(ast) => {
            let (r, st1) = eval_spec(fuel, ast, env, st);
            match r {
                Ok(v) => (Ok(printed(v)), st1),
                Err(e) => (Err(e), st1),
            }
        },
        Err(e) => (Err(e), st),
    }
}

/// The view of a text or a failure.
pub open spec fn shown(r: Result<String, MalErr>) -> Result<Seq<char>, Failure> {
    match r {
        Ok(text) => Ok(text@),
        Err(e) => Err(e@),
    }
}

/// Creates the global environment: a new environment, chained to none, in
/// which every native is bound to its name.
pub fn global_env(store: &mut Store) -> (env: Env)
    ensures
        env == old(store)@.scopes.len(),
        final(store)@ == registered(old(store)@.with_scope(Map::empty(), None), env, 0),
{
    let env = new_env(store, None);
    let table = ns();
    let ghost made = store@;
    let mut i: usize = 0;
    while i < table.len()
        invariant
            i <= table.len(),
            table@.len() == catalogue().len(),
            forall|j: int|
                0 <= j < table@.len() ==> (#[trigger] table@[j]).1 == catalogue()[j] && table@[j].0@
                    == name_of(catalogue()[j]),
            registered(made, env, 0) == registered(store@, env, i as int),
        decreases table.len() - i,
    {
        let (name, native) = table[i];
        let _ = set_env(store, env, MalVal::symbol(name), MalVal::RustFunc(native));
        i += 1;
    }
    env
}

/// Reads the first form of `line`, evaluates it in `env` with the budget
/// `fuel`, and gives the text of its value.
pub fn rep(line: &str, env: Env, store: &mut Store, fuel: u64) -> (r: Result<String, MalErr>)
    ensures
        (shown(r), final(store)@) == rep_spec(line@, env, old(store)@, fuel as nat),
{
    match read_str(line) {
        Ok(ast) => match eval(ast, env, store, fuel) {
            Ok(value) => Ok(print(&value)),
            Err(e) => Err(e),
        },
        Err(e) => Err(e),
    }
}

/// No two natives have the same name.
pub proof fn lemma_names_differ(a: Builtin, b: Builtin)
    requires
        a != b,
    ensures
        name_of(a) != name_of(b),
{
    reveal_strlit("+");
    reveal_strlit("-");
    reveal_strlit("*");
    reveal_strlit("/");
    reveal_strlit("=");
    reveal_strlit("<");
    reveal_strlit("<=");
    reveal_strlit(">");
    reveal_strlit(">=");
    reveal_strlit("and");
    reveal_strlit("or");
    reveal_strlit("prn");
    reveal_strlit("cons");
    reveal_strlit("concat");
    reveal_strlit("count");
    let x = name_of(a);
    let y = name_of(b);
    if x.len() == y.len() {
        assert(x[0] != y[0] || x[2] != y[2]);
    }
}

/// In the global environment every native is bound to its name.
pub proof fn lemma_natives_bound(st: State, b: Builtin)
    requires
        st.scopes.len() <= usize::MAX,
    ensures
        resolve(
            registered(st.with_scope(Map::empty(), None), st.scopes.len() as Env, 0),
            st.scopes.len() as Env,
            Value::Sym(name_of(b)),
        ) == Ok::<Value, Failure>(Value::Native(b)),
{
    let env = st.scopes.len() as Env;
    let made = st.with_scope(Map::empty(), None);
    lemma_registered(made, env, 0, b);
}

/// Registering leaves the scopes in place, binds every native still to come
/// to its name, and keeps the natives that were bound before.
proof fn lemma_registered(st: State, env: Env, i: int, b: Builtin)
    requires
        0 <= i <= catalogue().len(),
        env < st.scopes.len(),
        (exists|j: int| i <= j < catalogue().len() && catalogue()[j] == b) || (
        st.scopes[env as int].vars.contains_key(name_of(b)) && st.scopes[env as int].vars[name_of(
            b,
        )] == Value::Native(b)),
    ensures
        resolve(registered(st, env, i), env, Value::Sym(name_of(b))) == Ok::<Value, Failure>(
            Value::Native(b),
        ),
    decreases catalogue().len() - i,
{
    if i < catalogue().len() {
        let native = catalogue()[i];
        let st1 = define(st, env, Value::Sym(name_of(native)), Value::Native(native)).1;
        if native != b {
            lemma_names_differ(native, b);
            if !(st.scopes[env as int].vars.contains_key(name_of(b))
                && st.scopes[env as int].vars[name_of(b)] == Value::Native(b)) {
                let j = choose|j: int| i <= j < catalogue().len() && catalogue()[j] == b;
                assert(i + 1 <= j);
            }
        }
        lemma_registered(st1, env, i + 1, b);
    }
}

} // verus!
