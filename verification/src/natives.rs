//! The functions the host provides: integer arithmetic and comparison, the
//! two connectives, printing, and the three list functions.

use crate::env::{State, Store};
use crate::printer::{print, printed};
use crate::types::{failure, lemma_view_list, ret_view, views, Builtin, Failure, Fault, MalErr,
    MalRet, MalVal, Outcome, Value};
use vstd::prelude::*;

verus! {

/// The natives in the order in which they are registered.
pub open spec fn catalogue() -> Seq<Builtin> {
    seq![
        Builtin::Add,
        Builtin::Sub,
        Builtin::Mul,
        Builtin::Div,
        Builtin::NumEq,
        Builtin::Lt,
        Builtin::Le,
        Builtin::Gt,
        Builtin::Ge,
        Builtin::And,
        Builtin::Or,
        Builtin::Prn,
        Builtin::Cons,
        Builtin::Concat,
        Builtin::Count,
    ]
}

/// The name under which a native is registered.
pub open spec fn name_of(b: Builtin) -> Seq<char> {
    match b {
        Builtin::Add => "+"@,
        Builtin::Sub => "-"@,
        Builtin::Mul => "*"@,
        Builtin::Div => "/"@,
        Builtin::NumEq => "="@,
        Builtin::Lt => "<"@,
        Builtin::Le => "<="@,
        Builtin::Gt => ">"@,
        Builtin::Ge => ">="@,
        Builtin::And => "and"@,
        Builtin::Or => "or"@,
        Builtin::Prn => "prn"@,
        Builtin::Cons => "cons"@,
        Builtin::Concat => "concat"@,
        Builtin::Count => "count"@,
    }
}

/// Whether `n` is a 64-bit signed integer.
pub open spec fn fits(n: int) -> bool {
    i64::MIN <= n <= i64::MAX
}

/// The quotient of `x` by `y`, rounded toward zero; `y` is not zero.
pub open spec fn quotient(x: int, y: int) -> int {
    if (x < 0) == (y < 0) {
        abs(x) / abs(y)
    } else {
        -(abs(x) / abs(y))
    }
}

/// The magnitude of `x`.
pub open spec fn abs(x: int) -> int {
    if x < 0 {
        -x
    } else {
        x
    }
}

/// The number `n` if it fits in 64 bits, `Overflow` otherwise.
pub open spec fn number(n: int) -> Outcome {
    if fits(n) {
        Ok(Value::Num(n as i64))
    } else {
        Err(failure(Fault::Overflow))
    }
}

/// What a native of two arguments returns.
///
/// The arithmetic natives and the comparisons take two integers, the
/// connectives two booleans. Arithmetic fails with `Overflow` where the result
/// leaves the 64-bit range, and division by zero with `DivisionByZero`.
pub open spec fn binary(b: Builtin, args: Seq<Value>) -> Outcome {
    if args.len() != 2 {
        Err(failure(Fault::WrongArgCount))
    } else {
        match (args[0], args[1]) {
            (Value::Num(x), Value::Num(y)) => match b {
                Builtin::Add => number(x + y),
                Builtin::Sub => number(x - y),
                Builtin::Mul => number(x * y),
                Builtin::Div => if y == 0 {
                    Err(failure(Fault::DivisionByZero))
                } else {
                    number(quotient(x as int, y as int))
                },
                Builtin::NumEq => Ok(Value::Bool(x == y)),
                Builtin::Lt => Ok(Value::Bool(x < y)),
                Builtin::Le => Ok(Value::Bool(x <= y)),
                Builtin::Gt => Ok(Value::Bool(x > y)),
                Builtin::Ge => Ok(Value::Bool(x >= y)),
                _ => Err(failure(Fault::BadArgType)),
            },
            (Value::Bool(x), Value::Bool(y)) => match b {
                Builtin::And => Ok(Value::Bool(x && y)),
                Builtin::Or => Ok(Value::Bool(x || y)),
                _ => Err(failure(Fault::BadArgType)),
            },
            _ => Err(failure(Fault::BadArgType)),
        }
    }
}

/// What `cons` returns: the second argument, a list, with the first argument
/// put in front.
pub open spec fn cons_of(args: Seq<Value>) -> Outcome {
    if args.len() < 2 {
        Err(failure(Fault::WrongArgCount))
    } else {
        match args[1] {
            Value::List(l) => Ok(Value::List(seq![args[0]] + l)),
            _ => Err(failure(Fault::NotASequence)),
        }
    }
}

/// The elements of the lists `args[i..]`, in order, after `acc`; it fails at
/// the first argument that is no list.
pub open spec fn concat_from(args: Seq<Value>, i: int, acc: Seq<Value>) -> Outcome
    decreases args.len() - i,
{
    if i < 0 || i >= args.len() {
        Ok(Value::List(acc))
    } else {
        match args[i] {
            Value::List(l) => concat_from(args, i + 1, acc + l),
            _ => Err(failure(Fault::NotASequence)),
        }
    }
}

/// What `concat` returns: one list of the elements of all its arguments.
pub open spec fn concat_of(args: Seq<Value>) -> Outcome {
    concat_from(args, 0, Seq::empty())
}

/// What `count` returns: the length of its first argument, a list.
pub open spec fn count_of(args: Seq<Value>) -> Outcome {
    if args.len() < 1 {
        Err(failure(Fault::WrongArgCount))
    } else {
        match args[0] {
            Value::List(l) => number(l.len() as int),
            _ => Err(failure(Fault::NotASequence)),
        }
    }
}

/// The state after `prn` has printed `args[i..]`, one line each.
pub open spec fn printed_from(st: State, args: Seq<Value>, i: int) -> State
    decreases args.len() - i,
{
    if i < 0 || i >= args.len() {
        st
    } else {
        printed_from(st.with_line(printed(args[i])), args, i + 1)
    }
}

/// What calling the native `b` with `args` returns, and the state after it.
/// Only `prn` changes the state: it prints each argument on a line of its own
/// and returns `nil`.
pub open spec fn apply_builtin(b: Builtin, args: Seq<Value>, st: State) -> (Outcome, State) {
    match b {
        Builtin::Prn => (Ok(Value::Nil), printed_from(st, args, 0)),
        Builtin::Cons => (cons_of(args), st),
        Builtin::Concat => (concat_of(args), st),
        Builtin::Count => (count_of(args), st),
        _ => (binary(b, args), st),
    }
}

impl Builtin {
    /// The name under which this native is registered.
    pub fn name(self) -> (n: &'static str)
        ensures
            n@ == name_of(self),
    {
        match self {
            Builtin::Add => "+",
            Builtin::Sub => "-",
            Builtin::Mul => "*",
            Builtin::Div => "/",
            Builtin::NumEq => "=",
            Builtin::Lt => "<",
            Builtin::Le => "<=",
            Builtin::Gt => ">",
            Builtin::Ge => ">=",
            Builtin::And => "and",
            Builtin::Or => "or",
            Builtin::Prn => "prn",
            Builtin::Cons => "cons",
            Builtin::Concat => "concat",
            Builtin::Count => "count",
        }
    }
}

/// The natives with their names, in the order of the catalogue.
pub fn ns() -> (table: Vec<(&'static str, Builtin)>)
    ensures
        table@.len() == catalogue().len(),
        forall|i: int|
            0 <= i < table@.len() ==> (#[trigger] table@[i]).1 == catalogue()[i] && table@[i].0@
                == name_of(catalogue()[i]),
{
    let mut table: Vec<(&'static str, Builtin)> = Vec::new();
    table.push((Builtin::Add.name(), Builtin::Add));
    table.push((Builtin::Sub.name(), Builtin::Sub));
    table.push((Builtin::Mul.name(), Builtin::Mul));
    table.push((Builtin::Div.name(), Builtin::Div));
    table.push((Builtin::NumEq.name(), Builtin::NumEq));
    table.push((Builtin::Lt.name(), Builtin::Lt));
    table.push((Builtin::Le.name(), Builtin::Le));
    table.push((Builtin::Gt.name(), Builtin::Gt));
    table.push((Builtin::Ge.name(), Builtin::Ge));
    table.push((Builtin::And.name(), Builtin::And));
    table.push((Builtin::Or.name(), Builtin::Or));
    table.push((Builtin::Prn.name(), Builtin::Prn));
    table.push((Builtin::Cons.name(), Builtin::Cons));
    table.push((Builtin::Concat.name(), Builtin::Concat));
    table.push((Builtin::Count.name(), Builtin::Count));
    table
}

/// The number `n` if it fits in 64 bits, `Overflow` otherwise.
fn checked(n: i128) -> (r: MalRet)
    ensures
        ret_view(r) == number(n as int),
{
    if n < i64::MIN as i128 || n > i64::MAX as i128 {
        Err(MalErr::new(Fault::Overflow))
    } else {
        Ok(MalVal::Num(n as i64))
    }
}

/// The quotient of `x` by `y`, rounded toward zero.
fn divide(x: i64, y: i64) -> (q: i128)
    requires
        y != 0,
    ensures
        q == quotient(x as int, y as int),
{
    let wx: i128 = x as i128;
    let wy: i128 = y as i128;
    let ax: u64 = if wx < 0 {
        (-wx) as u64
    } else {
        wx as u64
    };
    let ay: u64 = if wy < 0 {
        (-wy) as u64
    } else {
        wy as u64
    };
    let q: u64 = ax / ay;
    if (x < 0) == (y < 0) {
        q as i128
    } else {
        -(q as i128)
    }
}

/// Calls a native of two arguments.
pub fn binary_op(b: Builtin, args: Vec<MalVal>) -> (r: MalRet)
    ensures
        ret_view(r) == binary(b, views(args@)),
{
    if args.len() != 2 {
        return Err(MalErr::new(Fault::WrongArgCount));
    }
    match (&args[0], &args[1]) {
        (MalVal::Num(x), MalVal::Num(y)) => {
            let x = *x;
            let y = *y;
            match b {
                Builtin::Add => checked(x as i128 + y as i128),
                Builtin::Sub => checked(x as i128 - y as i128),
                Builtin::Mul => {
                    assert(-0x8000_0000_0000_0000 * 0x8000_0000_0000_0000 <= x * y
                        <= 0x8000_0000_0000_0000 * 0x8000_0000_0000_0000) by (nonlinear_arith)
                        requires
                            -0x8000_0000_0000_0000 <= x < 0x8000_0000_0000_0000,
                            -0x8000_0000_0000_0000 <= y < 0x8000_0000_0000_0000,
                    ;
                    checked(x as i128 * y as i128)
                },
                Builtin::Div => {
                    if y == 0 {
                        Err(MalErr::new(Fault::DivisionByZero))
                    } else {
                        checked(divide(x, y))
                    }
                },
                Builtin::NumEq => Ok(MalVal::Bool(x == y)),
                Builtin::Lt => Ok(MalVal::Bool(x < y)),
                Builtin::Le => Ok(MalVal::Bool(x <= y)),
                Builtin::Gt => Ok(MalVal::Bool(x > y)),
                Builtin::Ge => Ok(MalVal::Bool(x >= y)),
                _ => Err(MalErr::new(Fault::BadArgType)),
            }
        },
        (MalVal::Bool(x), MalVal::Bool(y)) => match b {
            Builtin::And => Ok(MalVal::Bool(*x && *y)),
            Builtin::Or => Ok(MalVal::Bool(*x || *y)),
            _ => Err(MalErr::new(Fault::BadArgType)),
        },
        _ => Err(MalErr::new(Fault::BadArgType)),
    }
}

/// Appends clones of the elements of `src` to `dst`.
fn append_all(dst: &mut Vec<MalVal>, src: &Vec<MalVal>)
    ensures
        final(dst)@ == old(dst)@ + src@,
{
    let mut i: usize = 0;
    while i < src.len()
        invariant
            i <= src.len(),
            dst@ == old(dst)@ + src@.take(i as int),
        decreases src.len() - i,
    {
        dst.push(src[i].clone());
        assert(dst@ =~= old(dst)@ + src@.take(i + 1));
        i += 1;
    }
    assert(src@.take(src.len() as int) =~= src@);
}

/// `cons`: the list that starts with the first argument and goes on with the
/// elements of the second, a list. The argument list is not changed.
pub fn cons(args: Vec<MalVal>) -> (r: MalRet)
    ensures
        ret_view(r) == cons_of(views(args@)),
{
    if args.len() < 2 {
        return Err(MalErr::new(Fault::WrongArgCount));
    }
    match &args[1] {
        MalVal::List(v) => {
            let mut items: Vec<MalVal> = Vec::new();
            items.push(args[0].clone());
            append_all(&mut items, v);
            proof {
                lemma_view_list(*v);
                assert(views(items@) =~= seq![args@[0]@] + views(v@));
            }
            Ok(MalVal::list(items))
        },
        _ => Err(MalErr::new(Fault::NotASequence)),
    }
}

/// `concat`: one list of the elements of all the arguments, which are lists.
pub fn concat(args: Vec<MalVal>) -> (r: MalRet)
    ensures
        ret_view(r) == concat_of(views(args@)),
{
    let mut items: Vec<MalVal> = Vec::new();
    let mut i: usize = 0;
    assert(views(items@) =~= Seq::<Value>::empty());
    while i < args.len()
        invariant
            i <= args.len(),
            concat_of(views(args@)) == concat_from(views(args@), i as int, views(items@)),
        decreases args.len() - i,
    {
        match &args[i] {
            MalVal::List(v) => {
                let ghost before = items@;
                append_all(&mut items, v);
                proof {
                    lemma_view_list(*v);
                    assert(views(items@) =~= views(before) + views(v@));
                }
            },
            _ => {
                return Err(MalErr::new(Fault::NotASequence));
            },
        }
        i += 1;
    }
    Ok(MalVal::list(items))
}

/// `count`: the number of elements of the first argument, a list.
pub fn count(args: Vec<MalVal>) -> (r: MalRet)
    ensures
        ret_view(r) == count_of(views(args@)),
{
    if args.len() < 1 {
        return Err(MalErr::new(Fault::WrongArgCount));
    }
    match &args[0] {
        MalVal::List(l) => {
            proof {
                lemma_view_list(*l);
            }
            checked(l.len() as i128)
        },
        _ => Err(MalErr::new(Fault::NotASequence)),
    }
}

/// `prn`: prints each argument on a line of its own and returns `nil`. The
/// lines are kept in the store until somebody takes them.
pub fn prn(args: Vec<MalVal>, store: &mut Store) -> (r: MalRet)
    ensures
        ret_view(r) == Ok::<Value, Failure>(Value::Nil),
        final(store)@ == printed_from(old(store)@, views(args@), 0),
{
    let mut i: usize = 0;
    while i < args.len()
        invariant
            i <= args.len(),
            printed_from(old(store)@, views(args@), 0) == printed_from(
                store@,
                views(args@),
                i as int,
            ),
        decreases args.len() - i,
    {
        store.emit(print(&args[i]));
        i += 1;
    }
    Ok(MalVal::Nil)
}

/// Calls the native `b` with `args`.
pub fn apply(b: Builtin, args: Vec<MalVal>, store: &mut Store) -> (r: MalRet)
    ensures
        (ret_view(r), final(store)@) == apply_builtin(b, views(args@), old(store)@),
{
    match b {
        Builtin::Prn => prn(args, store),
        Builtin::Cons => cons(args),
        Builtin::Concat => concat(args),
        Builtin::Count => count(args),
        _ => binary_op(b, args),
    }
}

} // verus!
