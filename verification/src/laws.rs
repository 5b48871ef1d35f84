//! Laws that relate the operations of the interpreter to each other.

use crate::env::{bind_from, bind_params, define, find, lemma_find_binds, resolve,
    rest_marker, State};
use crate::eval::{apply_form, eval_range, eval_spec, expand_spec, form_of, macro_call,
    macroexpand_spec, step_spec, Step};
use crate::quasiquote::{quasi, quasi_from, tagged};
use crate::printer::printed;
use crate::reader::read_spec;
use crate::roundtrip::lemma_read_printed;
use crate::natives::apply_builtin;
use crate::types::{sym, unbound, Builtin, Env, Failure, Value};
use vstd::prelude::*;

verus! {

/// Reading what was printed gives the value back, for `nil`, `true`, `false`
/// and every integer; so printing what was read gives the same text again.
pub proof fn lemma_read_printed_atom(a: Value)
    requires
        a is Nil || a is Bool || a is Num,
    ensures
        read_spec(printed(a)) == Ok::<Value, Failure>(a),
        read_spec(printed(a)) matches Ok(v) && printed(v) == printed(a),
{
    lemma_read_printed(a);
}

/// Whether the walk outward from `env` passes through the scope `e`.
pub open spec fn on_chain(st: State, env: Env, e: Env) -> bool
    decreases env,
{
    if env >= st.scopes.len() {
        false
    } else if e == env {
        true
    } else {
        match st.scopes[env as int].outer {
            Some(o) => o < env && on_chain(st, o, e),
            None => false,
        }
    }
}

/// Looking up a symbol fails, with `Unbound` and the symbol's name, if and
/// only if no scope on the chain binds the name; it never fails otherwise.
pub proof fn lemma_unbound_iff(st: State, env: Env, name: Seq<char>)
    ensures
        resolve(st, env, Value::Sym(name)) is Err <==> forall|e: Env|
            on_chain(st, env, e) ==> !st.scopes[e as int].vars.contains_key(name),
        resolve(st, env, Value::Sym(name)) is Err ==> resolve(st, env, Value::Sym(name)) == Err::<
            Value,
            Failure,
        >(unbound(name)),
    decreases env,
{
    if env < st.scopes.len() {
        if st.scopes[env as int].vars.contains_key(name) {
            assert(on_chain(st, env, env));
        } else {
            match st.scopes[env as int].outer {
                Some(o) => {
                    if o < env {
                        lemma_unbound_iff(st, o, name);
                        if resolve(st, o, Value::Sym(name)) is Err {
                            assert forall|e: Env| on_chain(st, env, e) implies !st.scopes[e as int].vars.contains_key(
                                name,
                            ) by {
                                if e != env {
                                    assert(on_chain(st, o, e));
                                }
                            }
                        } else {
                            let e = choose|e: Env|
                                on_chain(st, o, e) && st.scopes[e as int].vars.contains_key(name);
                            assert(on_chain(st, env, e));
                        }
                    }
                },
                None => {},
            }
        }
    }
}

/// A chain passes only through scopes that exist and were created no later
/// than the one it starts from.
pub proof fn lemma_chain_goes_back(st: State, env: Env, e: Env)
    requires
        on_chain(st, env, e),
    ensures
        e <= env,
        e < st.scopes.len(),
    decreases env,
{
    if e != env {
        lemma_chain_goes_back(st, st.scopes[env as int].outer->0, e);
    }
}

/// A definition is seen from the scope it is made in: there the name is
/// bound to the new value, whatever the scopes around bind it to.
pub proof fn lemma_define_shadows(st: State, env: Env, name: Seq<char>, val: Value)
    requires
        env < st.scopes.len(),
    ensures
        define(st, env, Value::Sym(name), val).0 == Ok::<Value, Failure>(val),
        resolve(define(st, env, Value::Sym(name), val).1, env, Value::Sym(name)) == Ok::<
            Value,
            Failure,
        >(val),
{
}

/// A definition changes nothing for a scope whose chain does not pass through
/// the scope it is made in: every lookup from there gives what it gave
/// before. Such is every scope created before the one that is changed.
pub proof fn lemma_define_is_local(
    st: State,
    env: Env,
    name: Seq<char>,
    val: Value,
    from: Env,
    key: Value,
)
    requires
        env < st.scopes.len(),
        from < env || !on_chain(st, from, env),
    ensures
        resolve(define(st, env, Value::Sym(name), val).1, from, key) == resolve(st, from, key),
    decreases from,
{
    let st2 = define(st, env, Value::Sym(name), val).1;
    if from < env && on_chain(st, from, env) {
        lemma_chain_goes_back(st, from, env);
    }
    match key {
        Value::Sym(k) => {
            lemma_find_unchanged(st, env, name, val, from, k);
            match find(st, from, k) {
                Some(e) => {
                    lemma_find_binds(st, from, k);
                    lemma_find_on_chain(st, from, k);
                    assert(e != env);
                },
                None => {},
            }
        },
        _ => {},
    }
}

/// The scope that `find` names lies on the chain.
proof fn lemma_find_on_chain(st: State, env: Env, name: Seq<char>)
    ensures
        find(st, env, name) matches Some(e) ==> on_chain(st, env, e),
    decreases env,
{
    if env < st.scopes.len() && !st.scopes[env as int].vars.contains_key(name) {
        match st.scopes[env as int].outer {
            Some(o) => {
                if o < env {
                    lemma_find_on_chain(st, o, name);
                }
            },
            None => {},
        }
    }
}

/// A definition in a scope off the chain does not change which scope a
/// lookup finds.
proof fn lemma_find_unchanged(
    st: State,
    env: Env,
    name: Seq<char>,
    val: Value,
    from: Env,
    key: Seq<char>,
)
    requires
        env < st.scopes.len(),
        !on_chain(st, from, env),
    ensures
        find(st.with_binding(env, name, val), from, key) == find(st, from, key),
    decreases from,
{
    if from < st.scopes.len() {
        assert(from != env);
        match st.scopes[from as int].outer {
            Some(o) => {
                if o < from {
                    lemma_find_unchanged(st, env, name, val, o, key);
                }
            },
            None => {},
        }
    }
}

/// Expansion goes on until the form calls no macro: a form that calls none
/// is returned as it is, not evaluated, and the state stays; a form that
/// calls one is replaced by what the macro returns, and that is expanded in
/// turn. So whatever expansion returns calls no macro in the state it leaves.
pub proof fn lemma_macroexpand_fixpoint(fuel: nat, ast: Value, env: Env, st: State)
    ensures
        macro_call(st, env, ast) is None ==> macroexpand_spec(fuel, ast, env, st) == (
            Ok::<Value, Failure>(ast),
            st,
        ),
        macro_call(st, env, ast) matches Some((f, args)) ==> (fuel > 0 ==> (expand_spec(
            (fuel - 1) as nat,
            f,
            args,
            st,
        ) matches (Ok(next), st1) ==> macroexpand_spec(fuel, ast, env, st) == macroexpand_spec(
            (fuel - 1) as nat,
            next,
            env,
            st1,
        ))),
        macroexpand_spec(fuel, ast, env, st).0 matches Ok(v) ==> macro_call(
            macroexpand_spec(fuel, ast, env, st).1,
            env,
            v,
        ) is None,
    decreases fuel,
{
    match macro_call(st, env, ast) {
        None => {},
        Some((f, args)) => {
            if fuel > 0 {
                let (r, st1) = expand_spec((fuel - 1) as nat, f, args, st);
                match r {
                    Ok(next) => {
                        lemma_macroexpand_fixpoint((fuel - 1) as nat, next, env, st1);
                    },
                    Err(_) => {},
                }
            }
        },
    }
}

/// The name of the parameter at position `i` of a pattern of symbols.
pub open spec fn param(ps: Seq<Value>, i: int) -> Seq<char> {
    ps[i]->Sym_0
}

/// Whether `ps` is a pattern of `n` positional parameters, then `&`, then
/// the parameter that takes the rest, all of different names.
pub open spec fn variadic(ps: Seq<Value>, n: int) -> bool {
    &&& 0 <= n
    &&& ps.len() == n + 2
    &&& ps[n] == Value::Sym(rest_marker())
    &&& forall|i: int| 0 <= i < ps.len() ==> (#[trigger] ps[i]) is Sym
    &&& forall|i: int| 0 <= i < n ==> #[trigger] param(ps, i) != rest_marker()
    &&& forall|i: int, j: int|
        0 <= i < j < ps.len() && i != n && j != n ==> #[trigger] param(ps, i) != #[trigger] param(
            ps,
            j,
        )
}

/// A variadic pattern binds each positional parameter to the argument at its
/// position and the last parameter to the list of all arguments that follow,
/// whenever there is an argument for each positional parameter.
pub proof fn lemma_bind_variadic(ps: Seq<Value>, args: Seq<Value>, n: int)
    requires
        variadic(ps, n),
        n <= args.len(),
    ensures
        bind_params(Value::List(ps), args) matches Ok(vars) && (forall|i: int|
            0 <= i < n ==> vars.contains_key(#[trigger] param(ps, i)) && vars[param(ps, i)]
                == args[i]) && vars.contains_key(param(ps, n + 1)) && vars[param(ps, n + 1)]
            == Value::List(args.skip(n)),
{
    lemma_bind_from_variadic(ps, args, n, 0, Map::empty());
}

/// Binding the parameters of a variadic pattern from position `i` on keeps
/// what the parameters before were bound to.
proof fn lemma_bind_from_variadic(
    ps: Seq<Value>,
    args: Seq<Value>,
    n: int,
    i: int,
    acc: Map<Seq<char>, Value>,
)
    requires
        variadic(ps, n),
        n <= args.len(),
        0 <= i <= n,
        forall|j: int|
            0 <= j < i ==> acc.contains_key(#[trigger] param(ps, j)) && acc[param(ps, j)]
                == args[j],
    ensures
        bind_from(ps, args, i, acc) matches Ok(vars) && (forall|j: int|
            0 <= j < n ==> vars.contains_key(#[trigger] param(ps, j)) && vars[param(ps, j)]
                == args[j]) && vars.contains_key(param(ps, n + 1)) && vars[param(ps, n + 1)]
            == Value::List(args.skip(n)),
    decreases n - i,
{
    if i < n {
        assert(ps[i] is Sym);
        assert(param(ps, i) != rest_marker());
        let name = param(ps, i);
        let more = acc.insert(name, args[i]);
        assert forall|j: int| 0 <= j < i + 1 implies more.contains_key(#[trigger] param(ps, j))
            && more[param(ps, j)] == args[j] by {
            if j < i {
                assert(param(ps, j) != param(ps, i));
            }
        }
        lemma_bind_from_variadic(ps, args, n, i + 1, more);
    } else {
        assert(ps[n + 1] is Sym);
        let rest = param(ps, n + 1);
        let vars = acc.insert(rest, Value::List(args.skip(n)));
        assert forall|j: int| 0 <= j < n implies vars.contains_key(#[trigger] param(ps, j))
            && vars[param(ps, j)] == args[j] by {
            assert(param(ps, j) != param(ps, n + 1));
        }
    }
}

/// Whether `t` is built from `nil`, booleans, integers and lists of such.
pub open spec fn constant(t: Value) -> bool
    decreases t,
{
    match t {
        Value::Nil => true,
        Value::Bool(_) => true,
        Value::Num(_) => true,
        Value::List(l) => forall|i: int| 0 <= i < l.len() ==> constant(#[trigger] l[i]),
        _ => false,
    }
}

/// A budget that suffices to evaluate the expansion of the constant template
/// `t`.
pub open spec fn enough(t: Value) -> nat
    decreases t, 0nat,
{
    match t {
        Value::List(l) => enough_from(l, 0),
        _ => 1,
    }
}

/// A budget that suffices to evaluate the expansion of the elements `l[i..]`
/// of a constant template.
pub open spec fn enough_from(l: Seq<Value>, i: int) -> nat
    decreases l, l.len() - i,
{
    if i < 0 || i >= l.len() {
        1
    } else if enough(l[i]) >= enough_from(l, i + 1) {
        1 + enough(l[i])
    } else {
        1 + enough_from(l, i + 1)
    }
}

/// The name `cons` is the name of no special form.
proof fn lemma_cons_is_no_form()
    ensures
        form_of(sym("cons")) is None,
{
    reveal_strlit("cons");
    reveal_strlit("def!");
    reveal_strlit("let*");
    reveal_strlit("quote");
    reveal_strlit("quasiquoteexpand");
    reveal_strlit("quasiquote");
    reveal_strlit("do");
    reveal_strlit("if");
    reveal_strlit("fn*");
    reveal_strlit("defmacro!");
    reveal_strlit("macroexpand");
    let c = "cons"@;
    assert(c.len() == 4 && c[0] == 'c');
    assert("def!"@[0] == 'd');
    assert("let*"@[0] == 'l');
}

/// The expansion of a constant template evaluates to the template, and
/// changes nothing, wherever `cons` names the native that puts an element in
/// front of a list.
pub proof fn lemma_quasi_constant(t: Value, env: Env, st: State, fuel: nat)
    requires
        constant(t),
        resolve(st, env, sym("cons")) == Ok::<Value, Failure>(Value::Native(Builtin::Cons)),
        fuel >= enough(t),
    ensures
        eval_spec(fuel, quasi(t), env, st) == (Ok::<Value, Failure>(t), st),
    decreases t, 0nat,
{
    match t {
        Value::List(l) => {
            if l.len() > 0 {
                assert(constant(l[0]));
            }
            assert(!tagged(t, "unquote"));
            lemma_quasi_from_constant(l, 0, env, st, fuel);
            assert(l.skip(0) =~= l);
        },
        _ => {
            assert(step_spec((fuel - 1) as nat, t, env, st) == (
                Step::Done(Ok::<Value, Failure>(t)),
                st,
            ));
        },
    }
}

/// The expansion of the elements `l[i..]` of a constant template evaluates to
/// the list of these elements.
proof fn lemma_quasi_from_constant(l: Seq<Value>, i: int, env: Env, st: State, fuel: nat)
    requires
        forall|j: int| 0 <= j < l.len() ==> constant(#[trigger] l[j]),
        resolve(st, env, sym("cons")) == Ok::<Value, Failure>(Value::Native(Builtin::Cons)),
        0 <= i <= l.len(),
        fuel >= enough_from(l, i),
    ensures
        eval_spec(fuel, quasi_from(l, i), env, st) == (
            Ok::<Value, Failure>(Value::List(l.skip(i))),
            st,
        ),
    decreases l, l.len() - i,
{
    let form = quasi_from(l, i);
    let f1 = (fuel - 1) as nat;
    if i >= l.len() {
        assert(l.skip(i) =~= Seq::<Value>::empty());
        assert(step_spec(f1, form, env, st) == (Step::Done(Ok::<Value, Failure>(form)), st));
    } else {
        let item = l[i];
        assert(constant(item));
        assert(!tagged(item, "splice-unquote")) by {
            if item is List && item->List_0.len() > 0 {
                assert(constant(item->List_0[0]));
            }
        }
        let q = quasi(item);
        let rest = quasi_from(l, i + 1);
        let items = seq![sym("cons"), q, rest];
        assert(form == Value::List(items));
        lemma_cons_is_no_form();
        let cons = Value::Native(Builtin::Cons);
        assert(enough_from(l, i + 1) >= 1);
        assert(f1 >= 1);
        assert(macro_call(st, env, form) is None);
        assert(eval_spec(f1, sym("cons"), env, st) == (Ok::<Value, Failure>(cons), st)) by {
            assert(step_spec((f1 - 1) as nat, sym("cons"), env, st) == (
                Step::Done(Ok::<Value, Failure>(cons)),
                st,
            ));
        }
        lemma_quasi_constant(item, env, st, f1);
        lemma_quasi_from_constant(l, i + 1, env, st, f1);
        let tail = Value::List(l.skip(i + 1));
        let vs = seq![cons, item, tail];
        assert(eval_range(f1, items, 0, 3, Seq::empty(), env, st) == (
            Ok::<Seq<Value>, Failure>(vs),
            st,
        )) by {
            reveal_with_fuel(eval_range, 4);
            assert(Seq::<Value>::empty().push(cons).push(item).push(tail) =~= vs);
        }
        let args = vs.skip(1);
        assert(args =~= seq![item, tail]);
        assert(seq![item] + l.skip(i + 1) =~= l.skip(i));
        assert(apply_form(f1, items, env, st) == (
            Step::Done(Ok::<Value, Failure>(Value::List(l.skip(i)))),
            st,
        ));
        assert(step_spec(f1, form, env, st) == apply_form(f1, items, env, st));
    }
}

/// Whether `v` is its own value: anything but a symbol and a list that is
/// not empty.
pub open spec fn self_evaluating(v: Value) -> bool {
    !(v is Sym) && !(v matches Value::List(l) && l.len() > 0)
}

/// What is its own value evaluates to itself, and changes nothing.
pub proof fn lemma_eval_self(v: Value, env: Env, st: State, fuel: nat)
    requires
        self_evaluating(v),
        fuel >= 1,
    ensures
        eval_spec(fuel, v, env, st) == (Ok::<Value, Failure>(v), st),
{
    assert(step_spec((fuel - 1) as nat, v, env, st) == (Step::Done(Ok::<Value, Failure>(v)), st));
}

/// A range of forms that are their own values evaluates to these forms.
proof fn lemma_range_self(
    items: Seq<Value>,
    i: int,
    to: int,
    acc: Seq<Value>,
    env: Env,
    st: State,
    fuel: nat,
)
    requires
        0 <= i <= to <= items.len(),
        forall|j: int| i <= j < to ==> self_evaluating(#[trigger] items[j]),
        fuel >= 1,
    ensures
        eval_range(fuel, items, i, to, acc, env, st) == (
            Ok::<Seq<Value>, Failure>(acc + items.subrange(i, to)),
            st,
        ),
    decreases to - i,
{
    if i < to {
        lemma_eval_self(items[i], env, st, fuel);
        lemma_range_self(items, i + 1, to, acc.push(items[i]), env, st, fuel);
        assert(acc.push(items[i]) + items.subrange(i + 1, to) =~= acc + items.subrange(i, to));
    } else {
        assert(acc + items.subrange(i, to) =~= acc);
    }
}

/// The application of a symbol that names a native to arguments that are
/// their own values gives what the native gives for these arguments.
pub proof fn lemma_native_applied(
    name: Seq<char>,
    b: Builtin,
    args: Seq<Value>,
    env: Env,
    st: State,
    fuel: nat,
)
    requires
        resolve(st, env, Value::Sym(name)) == Ok::<Value, Failure>(Value::Native(b)),
        form_of(Value::Sym(name)) is None,
        forall|j: int| 0 <= j < args.len() ==> self_evaluating(#[trigger] args[j]),
        fuel >= 2,
    ensures
        eval_spec(fuel, Value::List(seq![Value::Sym(name)] + args), env, st) == apply_builtin(
            b,
            args,
            st,
        ),
{
    let head = Value::Sym(name);
    let native = Value::Native(b);
    let items = seq![head] + args;
    let form = Value::List(items);
    let f1 = (fuel - 1) as nat;
    let n = items.len() as int;
    assert(macro_call(st, env, form) is None);
    assert(eval_spec(f1, head, env, st) == (Ok::<Value, Failure>(native), st)) by {
        assert(step_spec((f1 - 1) as nat, head, env, st) == (
            Step::Done(Ok::<Value, Failure>(native)),
            st,
        ));
    }
    let first = Seq::<Value>::empty().push(native);
    assert forall|j: int| 1 <= j < n implies self_evaluating(#[trigger] items[j]) by {
        assert(items[j] == args[j - 1]);
    }
    lemma_range_self(items, 1, n, first, env, st, f1);
    let vs = first + items.subrange(1, n);
    assert(eval_range(f1, items, 0, n, Seq::empty(), env, st) == (
        Ok::<Seq<Value>, Failure>(vs),
        st,
    ));
    assert(vs[0] == native);
    assert(vs.skip(1) =~= args);
    assert(step_spec(f1, form, env, st) == apply_form(f1, items, env, st));
}

} // verus!
