//! Quasiquote expansion: from a template to the code that rebuilds it.

use crate::text::same_text;
use crate::types::{lemma_view_list, sym, views, MalVal, Value};
use vstd::prelude::*;

verus! {

/// Whether `v` is a list of two elements whose first is the symbol `tag`.
pub open spec fn tagged(v: Value, tag: &str) -> bool {
    v matches Value::List(l) && l.len() == 2 && l[0] == sym(tag)
}

/// The expansion of a template.
///
/// `(unquote x)` expands to `x`. Any other list expands element by element,
/// from the right: an element `(splice-unquote x)` to `(concat x rest)`, any
/// other element `e` to `(cons e' rest)`, where `e'` is the expansion of `e`
/// and `rest` the expansion of what follows; after the last element `rest` is
/// the empty list. Anything that is no list expands to itself.
pub open spec fn quasi(form: Value) -> Value
    decreases form, 0nat,
{
    match form {
        Value::List(l) => if tagged(form, "unquote") {
            l[1]
        } else {
            quasi_from(l, 0)
        },
        _ => form,
    }
}

/// The expansion of the elements `l[i..]` of a template list.
pub open spec fn quasi_from(l: Seq<Value>, i: int) -> Value
    decreases l, l.len() - i,
{
    if i < 0 || i >= l.len() {
        Value::List(Seq::empty())
    } else if tagged(l[i], "splice-unquote") {
        Value::List(seq![sym("concat"), l[i]->List_0[1], quasi_from(l, i + 1)])
    } else {
        Value::List(seq![sym("cons"), quasi(l[i]), quasi_from(l, i + 1)])
    }
}

/// Whether `v` is a list of two elements whose first is the symbol `tag`.
fn is_tagged(v: &MalVal, tag: &str) -> (r: bool)
    ensures
        r == tagged(v@, tag),
{
    match v {
        MalVal::List(l) => {
            proof {
                lemma_view_list(*l);
            }
            if l.len() == 2 {
                match &l[0] {
                    MalVal::Sym(s) => same_text(s.as_str(), tag),
                    _ => false,
                }
            } else {
                false
            }
        },
        _ => false,
    }
}

/// The list of the three given values.
fn triple(a: MalVal, b: MalVal, c: MalVal) -> (r: MalVal)
    ensures
        r@ == Value::List(seq![a@, b@, c@]),
{
    let mut items: Vec<MalVal> = Vec::new();
    items.push(a);
    items.push(b);
    items.push(c);
    assert(views(items@) =~= seq![a@, b@, c@]);
    MalVal::list(items)
}

/// The expansion of the elements of a template list.
pub fn qq_iter(elts: &Vec<MalVal>) -> (r: MalVal)
    ensures
        r@ == quasi_from(views(elts@), 0),
    decreases elts, 1nat,
{
    let mut acc = MalVal::list(Vec::new());
    let mut i: usize = elts.len();
    assert(views(Seq::<MalVal>::empty()) =~= Seq::<Value>::empty());
    while i > 0
        invariant
            i <= elts.len(),
            acc@ == quasi_from(views(elts@), i as int),
        decreases i,
    {
        i -= 1;
        let elt = &elts[i];
        if is_tagged(elt, "splice-unquote") {
            match elt {
                MalVal::List(v) => {
                    proof {
                        lemma_view_list(*v);
                    }
                    acc = triple(MalVal::symbol("concat"), v[1].clone(), acc);
                },
                _ => {},
            }
        } else {
            acc = triple(MalVal::symbol("cons"), quasiquote(elt), acc);
        }
    }
    acc
}

/// The expansion of the template `ast`.
pub fn quasiquote(ast: &MalVal) -> (r: MalVal)
    ensures
        r@ == quasi(ast@),
    decreases ast, 0nat,
{
    match ast {
        MalVal::List(v) => {
            proof {
                lemma_view_list(*v);
            }
            if is_tagged(ast, "unquote") {
                v[1].clone()
            } else {
                assert(decreases_to!(ast => ast->List_0));
                qq_iter(v)
            }
        },
        _ => ast.clone(),
    }
}

} // verus!
