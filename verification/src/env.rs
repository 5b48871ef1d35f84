//! Environments: chained scopes that bind symbol names to values.
//!
//! All environments of one interpreter live in a [`Store`] and are named by
//! their position in it ([`Env`]). A scope may name an outer scope, always one
//! created before it, so every chain ends. Scopes are never removed: whoever
//! holds a handle, a closure or a nested scope, finds the scope alive.

use crate::text::same_text;
use crate::types::{failure, lemma_view_list, ret_view, unbound, views, Env, Failure, Fault,
    MalErr, MalRet, MalVal, Outcome, Value};
use fnv::FnvHashMap;
use vstd::prelude::*;

verus! {

/// `fnv::FnvHasher`, the hasher of the tables. Nothing is said of it; it is
/// only named so that the type of the tables can be written.
#[verifier::external_type_specification]
#[verifier::external_body]
pub struct ExFnvHasher(fnv::FnvHasher);

/// `std::hash::BuildHasherDefault`, which the type `fnv::FnvHashMap` names.
/// Nothing is said of it either.
#[verifier::external_type_specification]
#[verifier::external_body]
#[verifier::reject_recursive_types(H)]
pub struct ExBuildHasherDefault<H>(std::hash::BuildHasherDefault<H>);

/// What a table holds: the value bound to each name. Names are texts; two
/// keys with the same characters are one name.
pub uninterp spec fn bindings(table: FnvHashMap<String, MalVal>) -> Map<Seq<char>, MalVal>;

/// A table that binds nothing.
///
/// Trusted. It calls `Default::default` of `fnv::FnvHashMap`, which is the
/// standard `HashMap` with the FNV hasher; a hash map made so is empty.
#[verifier::external_body]
fn table_new() -> (table: FnvHashMap<String, MalVal>)
    ensures
        (bindings(table) == Map::<Seq<char>, MalVal>::empty()),
{
    FnvHashMap::default()
}

/// Binds `name` to `val`, replacing what `name` was bound to.
///
/// Trusted. It calls `insert` of `fnv::FnvHashMap`, the standard `HashMap`'s
/// `insert`: the value is stored under the key, in place of the value of an
/// equal key if there was one, and every other entry stays. The keys are
/// `String`s, equal when their characters are, and the FNV hasher hashes
/// equal keys alike.
#[verifier::external_body]
fn table_insert(table: &mut FnvHashMap<String, MalVal>, name: String, val: MalVal)
    ensures
        bindings(*final(table)) == bindings(*old(table)).insert(name@, val),
{
    table.insert(name, val);
}

/// The value that `name` is bound to, if any.
///
/// Trusted. It calls `get` of `fnv::FnvHashMap`, the standard `HashMap`'s
/// `get`: a reference to the value stored under the key equal to `name`, or
/// `None` where no key is.
#[verifier::external_body]
fn table_get<'a>(table: &'a FnvHashMap<String, MalVal>, name: &str) -> (r: Option<&'a MalVal>)
    ensures
        r == (if bindings(*table).contains_key(name@) {
            Some(&bindings(*table)[name@])
        } else {
            None
        }),
{
    table.get(name)
}

/// One scope, as the store holds it.
pub struct EnvInternal {
    data: FnvHashMap<String, MalVal>,
    outer: Option<Env>,
}

/// All the environments of one interpreter, and the lines its programs have
/// printed and nobody has taken yet.
pub struct Store {
    envs: Vec<EnvInternal>,
    out: Vec<String>,
}

/// One scope as a mathematical value.
pub struct Scope {
    pub vars: Map<Seq<char>, Value>,
    pub outer: Option<Env>,
}

/// The state of an interpreter as a mathematical value: the view of a [`Store`].
pub struct State {
    pub scopes: Seq<Scope>,
    pub out: Seq<Seq<char>>,
}

impl View for EnvInternal {
    type V = Scope;

    closed spec fn view(&self) -> Scope {
        Scope { vars: bindings(self.data).map_values(|v: MalVal| v@), outer: self.outer }
    }
}

impl View for Store {
    type V = State;

    closed spec fn view(&self) -> State {
        State {
            scopes: Seq::new(self.envs@.len(), |i: int| self.envs@[i]@),
            out: Seq::new(self.out@.len(), |i: int| self.out@[i]@),
        }
    }
}

impl State {
    /// The state with no scope and no output.
    pub open spec fn empty() -> State {
        State { scopes: Seq::empty(), out: Seq::empty() }
    }

    /// This state with one more scope, which holds `vars` and is chained to `outer`.
    pub open spec fn with_scope(self, vars: Map<Seq<char>, Value>, outer: Option<Env>) -> State {
        State { scopes: self.scopes.push(Scope { vars, outer }), out: self.out }
    }

    /// This state with `name` bound to `val` in the scope `env`, which exists.
    pub open spec fn with_binding(self, env: Env, name: Seq<char>, val: Value) -> State {
        State {
            scopes: self.scopes.update(
                env as int,
                Scope {
                    vars: self.scopes[env as int].vars.insert(name, val),
                    outer: self.scopes[env as int].outer,
                },
            ),
            out: self.out,
        }
    }

    /// This state with `line` printed after the lines printed so far.
    pub open spec fn with_line(self, line: Seq<char>) -> State {
        State { scopes: self.scopes, out: self.out.push(line) }
    }

    /// This state with nothing printed.
    pub open spec fn without_output(self) -> State {
        State { scopes: self.scopes, out: Seq::empty() }
    }
}

/// The nearest scope that binds `name`, walking outward from `env`.
///
/// A link is followed only to a scope created earlier, so the walk ends.
pub open spec fn find(st: State, env: Env, name: Seq<char>) -> Option<Env>
    decreases env,
{
    if env >= st.scopes.len() {
        None
    } else if st.scopes[env as int].vars.contains_key(name) {
        Some(env)
    } else {
        match st.scopes[env as int].outer {
            Some(o) => if o < env {
                find(st, o, name)
            } else {
                None
            },
            None => None,
        }
    }
}

/// What looking up `key` from scope `env` returns: the value bound in the
/// nearest scope, `Unbound` if no scope of the chain binds it, `InvalidKey` if
/// `key` is no symbol.
pub open spec fn resolve(st: State, env: Env, key: Value) -> Outcome {
    match key {
        Value::Sym(name) => match find(st, env, name) {
            Some(e) => Ok(st.scopes[e as int].vars[name]),
            None => Err(unbound(name)),
        },
        _ => Err(failure(Fault::InvalidKey)),
    }
}

/// What defining `key` as `val` in scope `env` returns, and the state after it:
/// only the scope `env` itself changes.
pub open spec fn define(st: State, env: Env, key: Value, val: Value) -> (Outcome, State) {
    match key {
        Value::Sym(name) => if env < st.scopes.len() {
            (Ok(val), st.with_binding(env, name, val))
        } else {
            (Err(failure(Fault::StaleEnv)), st)
        },
        _ => (Err(failure(Fault::InvalidKey)), st),
    }
}

/// The name of the marker that collects the remaining arguments.
pub open spec fn rest_marker() -> Seq<char> {
    "&"@
}

/// The bindings that the parameters `ps[i..]` get from `args`, added to `acc`.
pub open spec fn bind_from(ps: Seq<Value>, args: Seq<Value>, i: int, acc: Map<Seq<char>, Value>)
    -> Result<Map<Seq<char>, Value>, Failure>
    decreases ps.len() - i,
{
    if i < 0 || i >= ps.len() {
        Ok(acc)
    } else if ps[i] == Value::Sym(rest_marker()) {
        if i + 1 >= ps.len() {
            Err(failure(Fault::Malformed))
        } else {
            match ps[i + 1] {
                Value::Sym(rest) => Ok(acc.insert(rest, Value::List(args.skip(i)))),
                _ => Err(failure(Fault::InvalidKey)),
            }
        }
    } else if i >= args.len() {
        Err(failure(Fault::MissingArgument))
    } else {
        match ps[i] {
            Value::Sym(name) => bind_from(ps, args, i + 1, acc.insert(name, args[i])),
            _ => Err(failure(Fault::InvalidKey)),
        }
    }
}

/// The bindings that the parameter pattern `params` gets from `args`.
///
/// The symbols of the pattern are bound to the arguments position by
/// position; the symbol after `&` is bound to the list of all arguments from
/// that position on, and ends the pattern. Arguments beyond the pattern are
/// ignored.
pub open spec fn bind_params(params: Value, args: Seq<Value>) -> Result<
    Map<Seq<char>, Value>,
    Failure,
> {
    match params {
        Value::List(ps) => bind_from(ps, args, 0, Map::empty()),
        _ => Err(failure(Fault::BadParams)),
    }
}

/// Where `find` succeeds, the scope it names exists and binds the name.
pub proof fn lemma_find_binds(st: State, env: Env, name: Seq<char>)
    ensures
        find(st, env, name) matches Some(e) ==> e <= env && e < st.scopes.len()
            && st.scopes[e as int].vars.contains_key(name),
    decreases env,
{
    if env < st.scopes.len() && !st.scopes[env as int].vars.contains_key(name) {
        match st.scopes[env as int].outer {
            Some(o) => {
                if o < env {
                    lemma_find_binds(st, o, name);
                }
            },
            None => {},
        }
    }
}

impl Store {
    /// A store with no environment and no output.
    pub fn new() -> (store: Store)
        ensures
            store@ == State::empty(),
    {
        let store = Store { envs: Vec::new(), out: Vec::new() };
        assert(store@.scopes =~= Seq::empty());
        assert(store@.out =~= Seq::empty());
        store
    }

    /// The number of environments created so far.
    pub fn len(&self) -> (n: usize)
        ensures
            n == self@.scopes.len(),
    {
        self.envs.len()
    }

    /// Records `line` as printed.
    pub fn emit(&mut self, line: String)
        ensures
            final(self)@ == old(self)@.with_line(line@),
    {
        self.out.push(line);
        assert(self@.scopes =~= old(self)@.scopes);
        assert(self@.out =~= old(self)@.out.push(line@));
    }

    /// Hands out the lines printed since the last call, oldest first.
    pub fn take_output(&mut self) -> (lines: Vec<String>)
        ensures
            final(self)@ == old(self)@.without_output(),
            lines@.len() == old(self)@.out.len(),
            forall|i: int| 0 <= i < lines@.len() ==> lines@[i]@ == old(self)@.out[i],
    {
        let mut lines: Vec<String> = Vec::new();
        std::mem::swap(&mut lines, &mut self.out);
        assert(self@.scopes =~= old(self)@.scopes);
        assert(self@.out =~= Seq::empty());
        lines
    }
}

/// Creates an empty environment chained to `outer` and returns its handle.
pub fn new_env(store: &mut Store, outer: Option<Env>) -> (env: Env)
    ensures
        env == old(store)@.scopes.len(),
        final(store)@ == old(store)@.with_scope(Map::empty(), outer),
{
    let env = store.envs.len();
    store.envs.push(EnvInternal { data: table_new(), outer });
    proof {
        let e = store.envs@[env as int];
        assert(e@.vars =~= Map::empty());
        assert(store@.scopes =~= old(store)@.scopes.push(Scope { vars: Map::empty(), outer }));
        assert(store@.out =~= old(store)@.out);
    }
    env
}

/// Binds `key` to `val` in the environment `env` itself, shadowing outer
/// bindings of the same name and replacing an earlier one in `env`, and
/// returns `val`.
///
/// Fails with `InvalidKey` if `key` is no symbol, and with `StaleEnv` if `env`
/// names no environment; the store is then unchanged.
pub fn set_env(store: &mut Store, env: Env, key: MalVal, val: MalVal) -> (r: MalRet)
    ensures
        (ret_view(r), final(store)@) == define(old(store)@, env, key@, val@),
{
    match key {
        MalVal::Sym(name) => {
            if env < store.envs.len() {
                let ghost before = store.envs@[env as int];
                table_insert(&mut store.envs[env].data, name, val.clone());
                proof {
                    let after = store.envs@[env as int];
                    assert(after@.vars =~= before@.vars.insert(name@, val@));
                    assert(store@.scopes =~= old(store)@.with_binding(env, name@, val@).scopes);
                    assert(store@.out =~= old(store)@.out);
                }
                Ok(val)
            } else {
                Err(MalErr::new(Fault::StaleEnv))
            }
        },
        _ => Err(MalErr::new(Fault::InvalidKey)),
    }
}

/// The nearest environment that binds `key`, walking outward from `env`.
pub fn find_env(store: &Store, env: Env, key: &String) -> (r: Option<Env>)
    ensures
        r == find(store@, env, key@),
{
    let mut cur = env;
    loop
        invariant
            find(store@, env, key@) == find(store@, cur, key@),
        decreases cur,
    {
        if cur >= store.envs.len() {
            return None;
        }
        let scope = &store.envs[cur];
        if table_get(&scope.data, key.as_str()).is_some() {
            return Some(cur);
        }
        match scope.outer {
            Some(o) => {
                if o < cur {
                    cur = o;
                } else {
                    return None;
                }
            },
            None => {
                return None;
            },
        }
    }
}

/// The value bound to `key` in the nearest environment of the chain that
/// starts at `env`.
///
/// Fails with `Unbound`, carrying the name, if and only if no environment of
/// the chain binds it, and with `InvalidKey` if `key` is no symbol.
pub fn get_env(store: &Store, env: Env, key: &MalVal) -> (r: MalRet)
    ensures
        ret_view(r) == resolve(store@, env, key@),
{
    match key {
        MalVal::Sym(name) => {
            match find_env(store, env, name) {
                Some(e) => {
                    proof {
                        lemma_find_binds(store@, env, name@);
                    }
                    match table_get(&store.envs[e].data, name.as_str()) {
                        Some(v) => Ok(v.clone()),
                        None => Err(MalErr::unbound(name.as_str())),
                    }
                },
                None => Err(MalErr::unbound(name.as_str())),
            }
        },
        _ => Err(MalErr::new(Fault::InvalidKey)),
    }
}

/// The elements of `items` from position `from` on, in a vector of their own.
pub(crate) fn tail_from(items: &Vec<MalVal>, from: usize) -> (r: Vec<MalVal>)
    requires
        from <= items.len(),
    ensures
        r@ == items@.skip(from as int),
{
    let mut r: Vec<MalVal> = Vec::new();
    let mut i = from;
    while i < items.len()
        invariant
            from <= i <= items.len(),
            r@ == items@.subrange(from as int, i as int),
        decreases items.len() - i,
    {
        r.push(items[i].clone());
        assert(r@ =~= items@.subrange(from as int, i + 1));
        i += 1;
    }
    assert(r@ =~= items@.skip(from as int));
    r
}

/// Creates an environment chained to `env` that binds the parameter pattern
/// `mbinds` to the arguments `exprs`, and returns its handle.
///
/// Fails, leaving the store unchanged, with `BadParams` if the pattern is no
/// list, `InvalidKey` if an element of it is no symbol, `MissingArgument` if a
/// positional parameter has no argument, and `Malformed` if `&` ends the
/// pattern.
pub fn bind_env(store: &mut Store, env: Env, mbinds: &MalVal, exprs: &Vec<MalVal>) -> (r: Result<
    Env,
    MalErr,
>)
    ensures
        match bind_params(mbinds@, views(exprs@)) {
            Ok(vars) => r matches Ok(child) && child == old(store)@.scopes.len() && final(store)@
                == old(store)@.with_scope(vars, Some(env)),
            Err(f) => r matches Err(e) && e@ == f && final(store)@ == old(store)@,
        },
{
    match mbinds {
        MalVal::List(binds) => {
            proof {
                lemma_view_list(*binds);
            }
            let ghost ps = views(binds@);
            let ghost args = views(exprs@);
            let mut table = table_new();
            let mut i: usize = 0;
            assert(bindings(table).map_values(|v: MalVal| v@) =~= Map::<Seq<char>, Value>::empty());
            while i < binds.len()
                invariant
                    mbinds@ == Value::List(ps),
                    ps == views(binds@),
                    args == views(exprs@),
                    i <= binds.len(),
                    i <= exprs.len() || i == binds.len(),
                    bind_from(ps, args, 0, Map::empty()) == bind_from(
                        ps,
                        args,
                        i as int,
                        bindings(table).map_values(|v: MalVal| v@),
                    ),
                    *store == *old(store),
                decreases binds.len() - i,
            {
                let ghost acc = bindings(table).map_values(|v: MalVal| v@);
                let is_rest = match &binds[i] {
                    MalVal::Sym(s) => same_text(s.as_str(), "&"),
                    _ => false,
                };
                assert(is_rest == (ps[i as int] == Value::Sym(rest_marker())));
                if is_rest {
                    if i + 1 >= binds.len() {
                        return Err(MalErr::new(Fault::Malformed));
                    }
                    match &binds[i + 1] {
                        MalVal::Sym(rest) => {
                            let collected = MalVal::list(tail_from(exprs, i));
                            assert(views(exprs@.skip(i as int)) =~= args.skip(i as int));
                            table_insert(&mut table, rest.clone(), collected);
                            assert(bindings(table).map_values(|v: MalVal| v@) =~= acc.insert(
                                rest@,
                                Value::List(args.skip(i as int)),
                            ));
                            i = binds.len();
                        },
                        _ => {
                            return Err(MalErr::new(Fault::InvalidKey));
                        },
                    }
                } else {
                    if i >= exprs.len() {
                        return Err(MalErr::new(Fault::MissingArgument));
                    }
                    match &binds[i] {
                        MalVal::Sym(name) => {
                            table_insert(&mut table, name.clone(), exprs[i].clone());
                            assert(bindings(table).map_values(|v: MalVal| v@) =~= acc.insert(
                                name@,
                                args[i as int],
                            ));
                            i += 1;
                        },
                        _ => {
                            return Err(MalErr::new(Fault::InvalidKey));
                        },
                    }
                }
            }
            let child = store.envs.len();
            store.envs.push(EnvInternal { data: table, outer: Some(env) });
            proof {
                let vars = bindings(table).map_values(|v: MalVal| v@);
                assert(store.envs@[child as int]@ == Scope { vars, outer: Some(env) });
                assert(store@.scopes =~= old(store)@.scopes.push(Scope { vars, outer: Some(env) }));
                assert(store@.out =~= old(store)@.out);
            }
            Ok(child)
        },
        _ => Err(MalErr::new(Fault::BadParams)),
    }
}

} // verus!
