//! The values of the language, the failures an operation can report, and the
//! mathematical models of both that every contract in this crate speaks of.

use std::rc::Rc;
use vstd::prelude::*;

verus! {

/// Handle of an environment: its position in the [`Store`](crate::env::Store) that holds it.
pub type Env = usize;

/// The functions the host provides to programs.
#[derive(Clone, Copy, Debug, PartialEq, Eq, Structural)]
pub enum Builtin {
    Add,
    Sub,
    Mul,
    Div,
    NumEq,
    Lt,
    Le,
    Gt,
    Ge,
    And,
    Or,
    Prn,
    Cons,
    Concat,
    Count,
}

/// A datum of the language, as the interpreter holds it.
///
/// Lists and the parts of a closure are shared, never copied: cloning a value
/// is cheap and never allocates a new backing sequence.
#[derive(Debug)]
pub enum MalVal {
    Nil,
    Bool(bool),
    Num(i64),
    Sym(String),
    RustFunc(Builtin),
    MalFunc { body: Rc<MalVal>, params: Rc<MalVal>, env: Env, is_macro: bool },
    List(Rc<Vec<MalVal>>),
}

/// A datum of the language as a mathematical value: the view of a [`MalVal`].
pub enum Value {
    Nil,
    Bool(bool),
    Num(i64),
    Sym(Seq<char>),
    Native(Builtin),
    Func { body: Box<Value>, params: Box<Value>, env: Env, is_macro: bool },
    List(Seq<Value>),
}

/// The mathematical value that `v` stands for.
pub open spec fn value_of(v: MalVal) -> Value
    decreases v,
{
    match v {
        MalVal::Nil => Value::Nil,
        MalVal::Bool(b) => Value::Bool(b),
        MalVal::Num(n) => Value::Num(n),
        MalVal::Sym(s) => Value::Sym(s@),
        MalVal::RustFunc(f) => Value::Native(f),
        MalVal::MalFunc { body, params, env, is_macro } => Value::Func {
            body: Box::new(value_of(*body)),
            params: Box::new(value_of(*params)),
            env,
            is_macro,
        },
        MalVal::List(l) => Value::List(
            Seq::new(
                l@.len(),
                |i: int|
                    if 0 <= i < l@.len() {
                        value_of(l@[i])
                    } else {
                        Value::Nil
                    },
            ),
        ),
    }
}

impl View for MalVal {
    type V = Value;

    open spec fn view(&self) -> Value {
        value_of(*self)
    }
}

/// The views of a sequence of values, element by element.
pub open spec fn views(items: Seq<MalVal>) -> Seq<Value> {
    Seq::new(items.len(), |i: int| items[i]@)
}

/// The symbol with the given name.
pub open spec fn sym(name: &str) -> Value {
    Value::Sym(name@)
}

/// A list is viewed as the list of its elements' views.
pub proof fn lemma_view_list(l: Rc<Vec<MalVal>>)
    ensures
        MalVal::List(l)@ == Value::List(views(l@)),
{
    let a = MalVal::List(l)@;
    assert(a is List);
    let s = a->List_0;
    assert(s.len() == l@.len());
    assert forall|i: int| 0 <= i < s.len() implies s[i] == views(l@)[i] by {
        assert(s[i] == l@[i]@);
    }
    assert(s =~= views(l@));
}

impl Clone for MalVal {
    /// A clone is the same value; lists and closure parts stay shared.
    fn clone(&self) -> (r: Self)
        ensures
            r == *self,
    {
        match self {
            MalVal::Nil => MalVal::Nil,
            MalVal::Bool(b) => MalVal::Bool(*b),
            MalVal::Num(n) => MalVal::Num(*n),
            MalVal::Sym(s) => MalVal::Sym(s.clone()),
            MalVal::RustFunc(f) => MalVal::RustFunc(*f),
            MalVal::MalFunc { body, params, env, is_macro } => MalVal::MalFunc {
                body: body.clone(),
                params: params.clone(),
                env: *env,
                is_macro: *is_macro,
            },
            MalVal::List(l) => MalVal::List(l.clone()),
        }
    }
}

impl MalVal {
    /// The list holding `items`, in order.
    pub fn list(items: Vec<MalVal>) -> (r: MalVal)
        ensures
            r@ == Value::List(views(items@)),
    {
        let l = Rc::new(items);
        proof {
            lemma_view_list(l);
        }
        MalVal::List(l)
    }

    /// The symbol named `name`.
    pub fn symbol(name: &str) -> (r: MalVal)
        ensures
            r@ == Value::Sym(name@),
    {
        MalVal::Sym(name.to_owned())
    }
}

/// The broad category of a failure.
#[derive(Clone, Copy, Debug, PartialEq, Eq, Structural)]
pub enum ErrKind {
    /// The text is not a readable form.
    ParseError,
    /// A symbol is bound in no scope of the chain searched.
    UnboundSymbol,
    /// A value is of the wrong kind for the place it stands in.
    TypeMismatch,
    /// A call supplies too few or the wrong number of arguments.
    ArityMismatch,
    /// A special form lacks elements it needs.
    MalformedSpecialForm,
    /// Integer arithmetic left the 64-bit range, or divided by zero.
    Arithmetic,
    /// The evaluation budget ran out.
    Exhausted,
}

/// What exactly went wrong.
#[derive(Clone, Copy, Debug, PartialEq, Eq, Structural)]
pub enum Fault {
    /// The text holds no token.
    NoInput,
    /// A list is not closed before the text ends.
    UnclosedList,
    /// An integer literal does not fit in 64 bits.
    NumberRange,
    /// A token was asked for past the end of the tokens.
    Underflow,
    /// The symbol carried by the error is not bound.
    Unbound,
    /// The key of a binding is not a symbol.
    InvalidKey,
    /// A parameter pattern is not a list.
    BadParams,
    /// A positional parameter has no argument.
    MissingArgument,
    /// A special form has too few elements, or `&` ends a parameter pattern.
    Malformed,
    /// The bindings of `let*` are not a list.
    BadBindings,
    /// `defmacro!` was given something that is not a closure.
    MacroOnNonFunction,
    /// The head of an application is neither a native nor a function.
    NotCallable,
    /// A native was called with the wrong number of arguments.
    WrongArgCount,
    /// A native was called with an argument of the wrong type.
    BadArgType,
    /// A native that takes lists was given something else.
    NotASequence,
    /// An arithmetic result does not fit in 64 bits.
    Overflow,
    /// Division by zero.
    DivisionByZero,
    /// An environment handle names no environment of the store.
    StaleEnv,
    /// The evaluation budget ran out.
    OutOfFuel,
}

/// The category a fault belongs to.
pub open spec fn kind_of(fault: Fault) -> ErrKind {
    match fault {
        Fault::NoInput | Fault::UnclosedList | Fault::NumberRange | Fault::Underflow =>
            ErrKind::ParseError,
        Fault::Unbound => ErrKind::UnboundSymbol,
        Fault::InvalidKey
        | Fault::BadParams
        | Fault::BadBindings
        | Fault::MacroOnNonFunction
        | Fault::NotCallable
        | Fault::BadArgType
        | Fault::NotASequence
        | Fault::StaleEnv => ErrKind::TypeMismatch,
        Fault::MissingArgument | Fault::WrongArgCount => ErrKind::ArityMismatch,
        Fault::Malformed => ErrKind::MalformedSpecialForm,
        Fault::Overflow | Fault::DivisionByZero => ErrKind::Arithmetic,
        Fault::OutOfFuel => ErrKind::Exhausted,
    }
}

/// The fixed message of a fault (for `Unbound`, the part after the symbol).
pub open spec fn fault_text(fault: Fault) -> Seq<char> {
    match fault {
        Fault::NoInput => "no input"@,
        Fault::UnclosedList => "expected `)`, got EOF"@,
        Fault::NumberRange => "integer literal out of range"@,
        Fault::Underflow => "underflow"@,
        Fault::Unbound => "` not found"@,
        Fault::InvalidKey => "invalid key type"@,
        Fault::BadParams => "failed to bind"@,
        Fault::MissingArgument => "missing argument"@,
        Fault::Malformed => "malformed special form"@,
        Fault::BadBindings => "invalid arglist in let*"@,
        Fault::MacroOnNonFunction => "set macro on non-func"@,
        Fault::NotCallable => "attempt to call non-function"@,
        Fault::WrongArgCount => "wrong number of args"@,
        Fault::BadArgType => "invalid type of args"@,
        Fault::NotASequence => "non-seq passed to a list function"@,
        Fault::Overflow => "integer overflow"@,
        Fault::DivisionByZero => "division by zero"@,
        Fault::StaleEnv => "no such environment"@,
        Fault::OutOfFuel => "evaluation budget exhausted"@,
    }
}

impl Fault {
    /// The category of this fault.
    pub fn kind(self) -> (k: ErrKind)
        ensures
            k == kind_of(self),
    {
        match self {
            Fault::NoInput | Fault::UnclosedList | Fault::NumberRange | Fault::Underflow =>
                ErrKind::ParseError,
            Fault::Unbound => ErrKind::UnboundSymbol,
            Fault::InvalidKey
            | Fault::BadParams
            | Fault::BadBindings
            | Fault::MacroOnNonFunction
            | Fault::NotCallable
            | Fault::BadArgType
            | Fault::NotASequence
            | Fault::StaleEnv => ErrKind::TypeMismatch,
            Fault::MissingArgument | Fault::WrongArgCount => ErrKind::ArityMismatch,
            Fault::Malformed => ErrKind::MalformedSpecialForm,
            Fault::Overflow | Fault::DivisionByZero => ErrKind::Arithmetic,
            Fault::OutOfFuel => ErrKind::Exhausted,
        }
    }

    /// The fixed message of this fault.
    pub fn text(self) -> (t: &'static str)
        ensures
            t@ == fault_text(self),
    {
        match self {
            Fault::NoInput => "no input",
            Fault::UnclosedList => "expected `)`, got EOF",
            Fault::NumberRange => "integer literal out of range",
            Fault::Underflow => "underflow",
            Fault::Unbound => "` not found",
            Fault::InvalidKey => "invalid key type",
            Fault::BadParams => "failed to bind",
            Fault::MissingArgument => "missing argument",
            Fault::Malformed => "malformed special form",
            Fault::BadBindings => "invalid arglist in let*",
            Fault::MacroOnNonFunction => "set macro on non-func",
            Fault::NotCallable => "attempt to call non-function",
            Fault::WrongArgCount => "wrong number of args",
            Fault::BadArgType => "invalid type of args",
            Fault::NotASequence => "non-seq passed to a list function",
            Fault::Overflow => "integer overflow",
            Fault::DivisionByZero => "division by zero",
            Fault::StaleEnv => "no such environment",
            Fault::OutOfFuel => "evaluation budget exhausted",
        }
    }
}

/// A failure, as the interpreter reports it: what went wrong and, for an
/// unbound symbol, which one (empty otherwise).
#[derive(Debug)]
pub struct MalErr {
    pub fault: Fault,
    pub symbol: String,
}

/// A failure as a mathematical value: the view of a [`MalErr`].
pub struct Failure {
    pub fault: Fault,
    pub symbol: Seq<char>,
}

impl View for MalErr {
    type V = Failure;

    open spec fn view(&self) -> Failure {
        Failure { fault: self.fault, symbol: self.symbol@ }
    }
}

/// The failure with the given fault that concerns no symbol.
pub open spec fn failure(fault: Fault) -> Failure {
    Failure { fault, symbol: Seq::empty() }
}

/// The failure of looking up `name` where nothing binds it.
pub open spec fn unbound(name: Seq<char>) -> Failure {
    Failure { fault: Fault::Unbound, symbol: name }
}

/// The message a failure carries.
pub open spec fn message_of(f: Failure) -> Seq<char> {
    if f.fault == Fault::Unbound {
        "`"@ + f.symbol + fault_text(f.fault)
    } else {
        fault_text(f.fault)
    }
}

impl Clone for MalErr {
    fn clone(&self) -> (r: Self)
        ensures
            r == *self,
    {
        MalErr { fault: self.fault, symbol: self.symbol.clone() }
    }
}

impl MalErr {
    /// The failure with the given fault that concerns no symbol.
    pub fn new(fault: Fault) -> (e: MalErr)
        ensures
            e@ == failure(fault),
    {
        MalErr { fault, symbol: String::new() }
    }

    /// The failure of looking up `name` where nothing binds it.
    pub fn unbound(name: &str) -> (e: MalErr)
        ensures
            e@ == unbound(name@),
    {
        MalErr { fault: Fault::Unbound, symbol: name.to_owned() }
    }

    /// The category of this failure.
    pub fn kind(&self) -> (k: ErrKind)
        ensures
            k == kind_of(self.fault),
    {
        self.fault.kind()
    }

    /// The message of this failure.
    pub fn message(&self) -> (m: String)
        ensures
            m@ == message_of(self@),
    {
        match self.fault {
            Fault::Unbound => {
                let mut m = "`".to_owned();
                m.append(self.symbol.as_str());
                m.append(self.fault.text());
                m
            },
            _ => self.fault.text().to_owned(),
        }
    }
}

/// What an operation of the interpreter returns.
pub type MalRet = Result<MalVal, MalErr>;

/// What an operation returns, as a mathematical value.
pub type Outcome = Result<Value, Failure>;

/// The view of a result: the view of the value or of the failure.
pub open spec fn ret_view(r: MalRet) -> Outcome {
    match r {
        Ok(v) => Ok(v@),
        Err(e) => Err(e@),
    }
}

} // verus!
