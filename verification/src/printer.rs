//! The printer: renders a value as text.

use crate::types::{lemma_view_list, views, MalVal, Value};
use vstd::prelude::*;

verus! {

/// The character of the decimal digit `d`.
pub open spec fn digit(d: int) -> char {
    if d == 0 {
        '0'
    } else if d == 1 {
        '1'
    } else if d == 2 {
        '2'
    } else if d == 3 {
        '3'
    } else if d == 4 {
        '4'
    } else if d == 5 {
        '5'
    } else if d == 6 {
        '6'
    } else if d == 7 {
        '7'
    } else if d == 8 {
        '8'
    } else {
        '9'
    }
}

/// The decimal digits of `n`, most significant first, without leading zeros.
pub open spec fn digits(n: nat) -> Seq<char>
    decreases n,
{
    if n < 10 {
        seq![digit(n as int)]
    } else {
        digits(n / 10).push(digit((n % 10) as int))
    }
}

/// The decimal numeral of `n`: a minus sign if `n` is negative, then the
/// digits of its magnitude.
pub open spec fn decimal(n: int) -> Seq<char> {
    if n < 0 {
        seq!['-'] + digits((-n) as nat)
    } else {
        digits(n as nat)
    }
}

/// The texts `parts`, in order, with one space between neighbours.
pub open spec fn spaced(parts: Seq<Seq<char>>) -> Seq<char>
    decreases parts.len(),
{
    if parts.len() == 0 {
        Seq::empty()
    } else if parts.len() == 1 {
        parts[0]
    } else {
        spaced(parts.drop_last()) + seq![' '] + parts.last()
    }
}

/// The text of a value.
///
/// `nil`, `true` and `false` print as these words, an integer as its decimal
/// numeral, a symbol as its name, and a list as its elements' texts, separated
/// by single spaces, between parentheses. Natives and closures print as fixed
/// placeholders.
pub open spec fn printed(v: Value) -> Seq<char>
    decreases v,
{
    match v {
        Value::Nil => "nil"@,
        Value::Bool(b) => if b {
            "true"@
        } else {
            "false"@
        },
        Value::Num(n) => decimal(n as int),
        Value::Sym(s) => s,
        Value::Native(_) => "<builtin func>"@,
        Value::Func { is_macro, .. } => if is_macro {
            "<macro>"@
        } else {
            "<func>"@
        },
        Value::List(l) => seq!['('] + spaced(printed_each(l)) + seq![')'],
    }
}

/// The texts of the elements of `l`.
pub open spec fn printed_each(l: Seq<Value>) -> Seq<Seq<char>>
    decreases l,
{
    Seq::new(
        l.len(),
        |i: int|
            if 0 <= i < l.len() {
                printed(l[i])
            } else {
                Seq::empty()
            },
    )
}

/// The text of one decimal digit.
fn digit_text(d: u64) -> (t: &'static str)
    requires
        d < 10,
    ensures
        t@ == seq![digit(d as int)],
{
    proof {
        reveal_strlit("0");
        reveal_strlit("1");
        reveal_strlit("2");
        reveal_strlit("3");
        reveal_strlit("4");
        reveal_strlit("5");
        reveal_strlit("6");
        reveal_strlit("7");
        reveal_strlit("8");
        reveal_strlit("9");
    }
    let t = if d == 0 {
        "0"
    } else if d == 1 {
        "1"
    } else if d == 2 {
        "2"
    } else if d == 3 {
        "3"
    } else if d == 4 {
        "4"
    } else if d == 5 {
        "5"
    } else if d == 6 {
        "6"
    } else if d == 7 {
        "7"
    } else if d == 8 {
        "8"
    } else {
        "9"
    };
    assert(t@ =~= seq![digit(d as int)]);
    t
}

/// Appends the decimal digits of `n` to `out`.
fn push_digits(n: u64, out: &mut String)
    ensures
        final(out)@ == old(out)@ + digits(n as nat),
    decreases n,
{
    if n >= 10 {
        push_digits(n / 10, out);
    }
    out.append(digit_text(n % 10));
    assert(out@ =~= old(out)@ + digits(n as nat));
}

/// Appends the decimal numeral of `n` to `out`.
fn push_decimal(n: i64, out: &mut String)
    ensures
        final(out)@ == old(out)@ + decimal(n as int),
{
    if n < 0 {
        proof {
            reveal_strlit("-");
        }
        out.append("-");
        let wide: i128 = n as i128;
        let magnitude: u64 = (-wide) as u64;
        push_digits(magnitude, out);
        assert(out@ =~= old(out)@ + decimal(n as int));
    } else {
        push_digits(n as u64, out);
    }
}

/// Appends the text of `mal` to `out`.
fn push_printed(mal: &MalVal, out: &mut String)
    ensures
        final(out)@ == old(out)@ + printed(mal@),
    decreases mal,
{
    match mal {
        MalVal::Nil => out.append("nil"),
        MalVal::Bool(b) => {
            if *b {
                out.append("true")
            } else {
                out.append("false")
            }
        },
        MalVal::Num(n) => push_decimal(*n, out),
        MalVal::Sym(s) => out.append(s.as_str()),
        MalVal::RustFunc(_) => out.append("<builtin func>"),
        MalVal::MalFunc { is_macro, .. } => {
            if *is_macro {
                out.append("<macro>")
            } else {
                out.append("<func>")
            }
        },
        MalVal::List(l) => {
            proof {
                lemma_view_list(*l);
                reveal_strlit("(");
                reveal_strlit(")");
                reveal_strlit(" ");
            }
            let ghost parts = printed_each(views(l@));
            out.append("(");
            let mut i: usize = 0;
            while i < l.len()
                invariant
                    i <= l.len(),
                    *mal == MalVal::List(*l),
                    parts == printed_each(views(l@)),
                    out@ == old(out)@ + seq!['('] + spaced(parts.take(i as int)),
                decreases l.len() - i,
            {
                let ghost before = out@;
                if i > 0 {
                    out.append(" ");
                }
                let ghost between = out@;
                let item = &l[i];
                assert(decreases_to!(mal => item)) by {
                    assert(decreases_to!(mal => mal->List_0));
                    assert(decreases_to!(*l => l@));
                    assert(decreases_to!(l@ => l@[i as int]));
                }
                push_printed(item, out);
                proof {
                    reveal_strlit(" ");
                    let now = parts.take(i + 1);
                    let item = printed(l@[i as int]@);
                    assert(now.drop_last() =~= parts.take(i as int));
                    assert(now.last() == item);
                    assert(out@ == between + item);
                    if i == 0 {
                        assert(spaced(parts.take(0)) =~= Seq::<char>::empty());
                        assert(spaced(now) == item);
                        assert(between =~= old(out)@ + seq!['(']);
                    } else {
                        assert(spaced(now) == spaced(parts.take(i as int)) + seq![' '] + item);
                        assert(between == before + seq![' ']);
                    }
                    assert(out@ =~= old(out)@ + seq!['('] + spaced(now));
                }
                i += 1;
            }
            out.append(")");
            proof {
                assert(parts.take(l.len() as int) =~= parts);
                assert(out@ =~= old(out)@ + (seq!['('] + spaced(parts) + seq![')']));
            }
        },
    }
}

/// The text of `mal`.
pub fn print(mal: &MalVal) -> (text: String)
    ensures
        text@ == printed(mal@),
{
    let mut text = String::new();
    push_printed(mal, &mut text);
    assert(text@ =~= printed(mal@));
    text
}

} // verus!
