//! Reading what was printed gives the value back.
//!
//! A value is readable when it is built from `nil`, the booleans, integers,
//! plain symbols and lists of such. The text of a readable value is cut into
//! the tokens of the value, and these are read as the value.

use crate::printer::{decimal, digit, digits, printed, printed_each, spaced};
use crate::reader::{all_digits, atom_end, atom_of, digit_of, digits_value, int_value,
    is_atom_char, is_blank, is_digit, is_int_literal, is_special, parse_form, parse_list,
    read_spec, skip_blanks, token_end, tokens_from, tokens_of};
use crate::types::{Failure, Value};
use vstd::prelude::*;

verus! {

/// Whether `t` is the text of one atom: characters of an atom, at least one,
/// of which the first is no token by itself.
pub open spec fn atom_text(t: Seq<char>) -> bool {
    &&& t.len() > 0
    &&& forall|i: int| 0 <= i < t.len() ==> is_atom_char(#[trigger] t[i])
    &&& !is_special(t[0])
}

/// Whether `s` is the name of a symbol that is read as that symbol: the text
/// of an atom that is neither a constant nor an integer literal.
pub open spec fn plain_name(s: Seq<char>) -> bool {
    &&& atom_text(s)
    &&& s != "nil"@
    &&& s != "true"@
    &&& s != "false"@
    &&& !is_int_literal(s)
}

/// Whether `v` is built from `nil`, booleans, integers, plain symbols and
/// lists only.
pub open spec fn readable(v: Value) -> bool
    decreases v,
{
    match v {
        Value::Nil => true,
        Value::Bool(_) => true,
        Value::Num(_) => true,
        Value::Sym(s) => plain_name(s),
        Value::List(l) => forall|i: int| 0 <= i < l.len() ==> readable(#[trigger] l[i]),
        _ => false,
    }
}

/// The tokens of the text of a value.
pub open spec fn tokens_printed(v: Value) -> Seq<Seq<char>>
    decreases v, 0nat,
{
    match v {
        Value::List(l) => seq!["("@] + flat_tokens(l, l.len() as int) + seq![")"@],
        _ => seq![printed(v)],
    }
}

/// The tokens of the texts of the first `k` elements of `l`.
pub open spec fn flat_tokens(l: Seq<Value>, k: int) -> Seq<Seq<char>>
    decreases l, k,
{
    if k <= 0 || k > l.len() {
        Seq::empty()
    } else {
        flat_tokens(l, k - 1) + tokens_printed(l[k - 1])
    }
}

/// The digits of a number are digits, at least one, and stand for the number.
pub proof fn lemma_digits(n: nat)
    ensures
        digits(n).len() >= 1,
        all_digits(digits(n)),
        digits_value(digits(n)) == n,
    decreases n,
{
    if n < 10 {
        let s = digits(n);
        assert(s.drop_last() =~= Seq::<char>::empty());
        assert(digits_value(s.drop_last()) == 0);
        assert(is_digit(digit(n as int)));
        assert(digit_of(digit(n as int)) == n);
    } else {
        lemma_digits(n / 10);
        let d = digit((n % 10) as int);
        let s = digits(n);
        assert(is_digit(d));
        assert(digit_of(d) == n % 10);
        assert(s.drop_last() =~= digits(n / 10));
        assert(s.last() == d);
        assert forall|i: int| 0 <= i < s.len() implies is_digit(#[trigger] s[i]) by {
            if i < s.len() - 1 {
                assert(s[i] == digits(n / 10)[i]);
            }
        }
    }
}

/// The numeral of an integer is an integer literal that stands for it.
pub proof fn lemma_decimal(n: i64)
    ensures
        decimal(n as int).len() > 0,
        is_int_literal(decimal(n as int)),
        int_value(decimal(n as int)) == n,
        forall|i: int|
            0 <= i < decimal(n as int).len() ==> is_atom_char(#[trigger] decimal(n as int)[i]),
        !is_special(decimal(n as int)[0]),
        is_digit(decimal(n as int)[0]) || decimal(n as int)[0] == '-',
{
    let t = decimal(n as int);
    if n < 0 {
        let m = (-n) as nat;
        lemma_digits(m);
        assert(t.skip(1) =~= digits(m));
        assert(t[0] == '-');
        assert forall|i: int| 0 <= i < t.len() implies is_atom_char(#[trigger] t[i]) by {
            if i > 0 {
                assert(t[i] == digits(m)[i - 1]);
                assert(is_digit(digits(m)[i - 1]));
            }
        }
    } else {
        lemma_digits(n as nat);
        assert(is_digit(t[0]));
        assert forall|i: int| 0 <= i < t.len() implies is_atom_char(#[trigger] t[i]) by {
            assert(is_digit(t[i]));
        }
    }
}

/// The text of a readable value that is no list is the text of an atom, and
/// that atom is the value.
pub proof fn lemma_atom_printed(v: Value)
    requires
        readable(v),
        !(v is List),
    ensures
        atom_text(printed(v)),
        atom_of(printed(v)) == Ok::<Value, Failure>(v),
{
    reveal_strlit("nil");
    reveal_strlit("true");
    reveal_strlit("false");
    match v {
        Value::Num(n) => {
            lemma_decimal(n);
            let t = printed(v);
            assert(t[0] != 'n' && t[0] != 't' && t[0] != 'f');
            assert(t != "nil"@ && t != "true"@ && t != "false"@);
            assert(atom_of(t) == Ok::<Value, Failure>(v));
        },
        Value::Sym(s) => {},
        _ => {
            let t = printed(v);
            assert forall|i: int| 0 <= i < t.len() implies is_atom_char(#[trigger] t[i]) by {}
        },
    }
}

/// The text of a list up to and with its `k`-th element: the opening
/// parenthesis and the texts of the first `k` elements, single spaces between.
pub open spec fn opened(l: Seq<Value>, k: int) -> Seq<char>
    decreases k,
{
    if k <= 0 || k > l.len() {
        seq!['(']
    } else if k == 1 {
        seq!['('] + printed(l[0])
    } else {
        opened(l, k - 1) + seq![' '] + printed(l[k - 1])
    }
}

/// The text of a list is the text up to its last element and the closing
/// parenthesis.
pub proof fn lemma_opened(l: Seq<Value>, k: int)
    requires
        0 <= k <= l.len(),
    ensures
        opened(l, k) == seq!['('] + spaced(printed_each(l).take(k)),
        k == l.len() ==> printed(Value::List(l)) == opened(l, k) + seq![')'],
    decreases k,
{
    let parts = printed_each(l);
    if k == 0 {
        assert(parts.take(0) =~= Seq::<Seq<char>>::empty());
        assert(opened(l, k) =~= seq!['('] + spaced(parts.take(k)));
    } else if k == 1 {
        assert(parts.take(1).len() == 1);
        assert(parts.take(1)[0] == printed(l[0]));
    } else {
        lemma_opened(l, k - 1);
        assert(parts.take(k).drop_last() =~= parts.take(k - 1));
        assert(parts.take(k).last() == printed(l[k - 1]));
        assert(opened(l, k) =~= seq!['('] + spaced(parts.take(k)));
    }
    if k == l.len() {
        assert(parts.take(k) =~= parts);
    }
}

/// A run of atom characters that is followed by none is scanned to its end.
proof fn lemma_atom_run(s: Seq<char>, i: int, e: int)
    requires
        0 <= i <= e <= s.len(),
        forall|j: int| i <= j < e ==> is_atom_char(#[trigger] s[j]),
        e < s.len() ==> !is_atom_char(s[e]),
    ensures
        atom_end(s, i) == e,
    decreases e - i,
{
    if i < e {
        assert(is_atom_char(s[i]));
        lemma_atom_run(s, i + 1, e);
    }
}

/// Where the text of an atom stands, followed by no character of an atom, the
/// atom is the next token.
pub proof fn lemma_atom_token(t: Seq<char>, s: Seq<char>, p: int)
    requires
        atom_text(t),
        0 <= p,
        p + t.len() <= s.len(),
        s.subrange(p, p + t.len()) == t,
        p + t.len() < s.len() ==> !is_atom_char(s[p + t.len()]),
    ensures
        tokens_from(s, p) == seq![t] + tokens_from(s, p + t.len()),
{
    let e = p + t.len();
    assert forall|j: int| p <= j < e implies is_atom_char(#[trigger] s[j]) by {
        assert(s[j] == s.subrange(p, e)[j - p]);
        assert(is_atom_char(t[j - p]));
    }
    assert(s[p] == t[0]) by {
        assert(s[p] == s.subrange(p, e)[0]);
    }
    assert(is_atom_char(s[p]));
    assert(skip_blanks(s, p) == p);
    lemma_atom_run(s, p + 1, e);
    assert(token_end(s, p) == e);
}

/// A blank is skipped.
pub proof fn lemma_blank_skipped(s: Seq<char>, i: int)
    requires
        0 <= i < s.len(),
        is_blank(s[i]),
    ensures
        tokens_from(s, i) == tokens_from(s, i + 1),
{
    assert(skip_blanks(s, i) == skip_blanks(s, i + 1));
}

/// A parenthesis is a token.
pub proof fn lemma_paren_token(s: Seq<char>, p: int)
    requires
        0 <= p < s.len(),
        s[p] == '(' || s[p] == ')',
    ensures
        tokens_from(s, p) == seq![seq![s[p]]] + tokens_from(s, p + 1),
{
    assert(skip_blanks(s, p) == p);
    assert(token_end(s, p) == p + 1);
    assert(s.subrange(p, p + 1) =~= seq![s[p]]);
}

/// Where two texts stand one after the other, each of them stands.
proof fn lemma_split(s: Seq<char>, p: int, a: Seq<char>, b: Seq<char>)
    requires
        0 <= p,
        p + a.len() + b.len() <= s.len(),
        s.subrange(p, p + a.len() + b.len()) == a + b,
    ensures
        s.subrange(p, p + a.len()) == a,
        s.subrange(p + a.len(), p + a.len() + b.len()) == b,
{
    let whole = s.subrange(p, p + a.len() + b.len());
    assert forall|i: int| 0 <= i < a.len() implies s.subrange(p, p + a.len())[i] == a[i] by {
        assert(whole[i] == s[p + i]);
        assert((a + b)[i] == a[i]);
    }
    assert(s.subrange(p, p + a.len()) =~= a);
    assert forall|i: int| 0 <= i < b.len() implies s.subrange(
        p + a.len(),
        p + a.len() + b.len(),
    )[i] == b[i] by {
        assert(whole[a.len() + i] == s[p + a.len() + i]);
        assert((a + b)[a.len() + i] == b[i]);
    }
    assert(s.subrange(p + a.len(), p + a.len() + b.len()) =~= b);
}

/// Where the text of a readable value stands, followed by no character of an
/// atom, the tokens of the value are the next tokens.
pub proof fn lemma_tokens_printed(v: Value, s: Seq<char>, p: int)
    requires
        readable(v),
        0 <= p,
        p + printed(v).len() <= s.len(),
        s.subrange(p, p + printed(v).len()) == printed(v),
        p + printed(v).len() < s.len() ==> !is_atom_char(s[p + printed(v).len()]),
    ensures
        tokens_from(s, p) == tokens_printed(v) + tokens_from(s, p + printed(v).len()),
    decreases v, 0nat,
{
    match v {
        Value::List(l) => {
            let n = l.len() as int;
            lemma_opened(l, n);
            let x = opened(l, n);
            let close = seq![')'];
            assert(printed(v) == x + close);
            lemma_split(s, p, x, close);
            let q = p + x.len();
            assert(s[q] == ')') by {
                assert(s.subrange(q, q + 1)[0] == s[q]);
            }
            lemma_tokens_items(l, n, s, p);
            lemma_paren_token(s, q);
            reveal_strlit(")");
            assert(seq![s[q]] =~= ")"@);
            assert(tokens_from(s, p) =~= tokens_printed(v) + tokens_from(s, q + 1));
        },
        _ => {
            lemma_atom_printed(v);
            lemma_atom_token(printed(v), s, p);
        },
    }
}

/// Where the text of a list up to its `k`-th element stands, followed by no
/// character of an atom, the opening parenthesis and the tokens of the first
/// `k` elements are the next tokens.
pub proof fn lemma_tokens_items(l: Seq<Value>, k: int, s: Seq<char>, p: int)
    requires
        forall|i: int| 0 <= i < l.len() ==> readable(#[trigger] l[i]),
        0 <= k <= l.len(),
        0 <= p,
        p + opened(l, k).len() <= s.len(),
        s.subrange(p, p + opened(l, k).len()) == opened(l, k),
        k >= 1 ==> (p + opened(l, k).len() < s.len() ==> !is_atom_char(s[p + opened(l, k).len()])),
    ensures
        tokens_from(s, p) == seq!["("@] + flat_tokens(l, k) + tokens_from(
            s,
            p + opened(l, k).len(),
        ),
    decreases l, k,
{
    reveal_strlit("(");
    if k == 0 {
        assert(s[p] == '(') by {
            assert(s.subrange(p, p + 1)[0] == s[p]);
        }
        lemma_paren_token(s, p);
        assert(seq![s[p]] =~= "("@);
        assert(tokens_from(s, p) =~= seq!["("@] + flat_tokens(l, k) + tokens_from(s, p + 1));
    } else {
        let e = printed(l[k - 1]);
        let y = opened(l, k - 1);
        assert(readable(l[k - 1]));
        if k == 1 {
            assert(opened(l, k) == y + e);
            lemma_split(s, p, y, e);
            lemma_tokens_items(l, 0, s, p);
            lemma_tokens_printed(l[0], s, p + 1);
            assert(flat_tokens(l, 1) =~= tokens_printed(l[0]));
            assert(tokens_from(s, p) =~= seq!["("@] + flat_tokens(l, k) + tokens_from(
                s,
                p + opened(l, k).len(),
            ));
        } else {
            let gap = seq![' '];
            assert(opened(l, k) =~= y + (gap + e));
            lemma_split(s, p, y, gap + e);
            let q = p + y.len();
            lemma_split(s, q, gap, e);
            assert(s[q] == ' ') by {
                assert(s.subrange(q, q + 1)[0] == s[q]);
            }
            lemma_tokens_items(l, k - 1, s, p);
            lemma_blank_skipped(s, q);
            lemma_tokens_printed(l[k - 1], s, q + 1);
            assert(tokens_from(s, p) =~= seq!["("@] + flat_tokens(l, k) + tokens_from(
                s,
                p + opened(l, k).len(),
            ));
        }
    }
}

/// The tokens of a readable value are at least one; the first is `(` for a
/// list, an atom otherwise, and never `)`.
pub proof fn lemma_tokens_shape(v: Value)
    requires
        readable(v),
    ensures
        tokens_printed(v).len() >= 1,
        tokens_printed(v)[0] != ")"@,
        (tokens_printed(v)[0] == "("@) == (v is List),
{
    reveal_strlit("(");
    reveal_strlit(")");
    assert("("@[0] == '(' && ")"@[0] == ')');
    match v {
        Value::List(l) => {
            assert(tokens_printed(v)[0] == "("@);
        },
        _ => {
            lemma_atom_printed(v);
            let t = printed(v);
            assert(is_atom_char(t[0]));
        },
    }
}

/// The tokens of the first elements of a list are the first of the tokens of
/// more elements.
proof fn lemma_flat_prefix(l: Seq<Value>, k: int, m: int)
    requires
        0 <= k <= m <= l.len(),
    ensures
        flat_tokens(l, k).len() <= flat_tokens(l, m).len(),
        flat_tokens(l, m).subrange(0, flat_tokens(l, k).len() as int) == flat_tokens(l, k),
    decreases m - k,
{
    if k < m {
        lemma_flat_prefix(l, k, m - 1);
        let a = flat_tokens(l, m - 1);
        let b = tokens_printed(l[m - 1]);
        assert(flat_tokens(l, m) == a + b);
        assert((a + b).subrange(0, flat_tokens(l, k).len() as int) =~= a.subrange(
            0,
            flat_tokens(l, k).len() as int,
        ));
    } else {
        assert(flat_tokens(l, m).subrange(0, flat_tokens(l, k).len() as int) =~= flat_tokens(l, k));
    }
}

/// Where the tokens of a readable value stand, they are read as the value.
pub proof fn lemma_parse_printed(v: Value, ts: Seq<Seq<char>>, pos: int)
    requires
        readable(v),
        0 <= pos,
        pos + tokens_printed(v).len() <= ts.len(),
        ts.subrange(pos, pos + tokens_printed(v).len()) == tokens_printed(v),
    ensures
        parse_form(ts, pos) == (Ok::<Value, Failure>(v), pos + tokens_printed(v).len()),
    decreases v, 0nat,
{
    lemma_tokens_shape(v);
    let toks = tokens_printed(v);
    assert(ts[pos] == toks[0]) by {
        assert(ts.subrange(pos, pos + toks.len())[0] == ts[pos]);
    }
    match v {
        Value::List(l) => {
            assert(flat_tokens(l, 0) =~= Seq::<Seq<char>>::empty());
            assert(l.take(0) =~= Seq::<Value>::empty());
            lemma_parse_items(l, 0, ts, pos);
        },
        _ => {
            lemma_atom_printed(v);
        },
    }
}

/// Where the tokens of a readable list stand, the list is read from any of
/// its elements on, given the elements before.
pub proof fn lemma_parse_items(l: Seq<Value>, k: int, ts: Seq<Seq<char>>, pos: int)
    requires
        forall|i: int| 0 <= i < l.len() ==> readable(#[trigger] l[i]),
        0 <= k <= l.len(),
        0 <= pos,
        pos + tokens_printed(Value::List(l)).len() <= ts.len(),
        ts.subrange(pos, pos + tokens_printed(Value::List(l)).len()) == tokens_printed(
            Value::List(l),
        ),
    ensures
        parse_list(ts, pos + 1 + flat_tokens(l, k).len(), l.take(k)) == (
            Ok::<Value, Failure>(Value::List(l)),
            pos + tokens_printed(Value::List(l)).len(),
        ),
    decreases l, l.len() - k,
{
    reveal_strlit(")");
    let n = l.len() as int;
    let whole = tokens_printed(Value::List(l));
    let inner = flat_tokens(l, n);
    let q = pos + 1 + flat_tokens(l, k).len();
    lemma_flat_prefix(l, k, n);
    assert(whole.len() == inner.len() + 2);
    if k == n {
        assert(ts[q] == ")"@) by {
            let last = 1 + inner.len() as int;
            assert(ts.subrange(pos, pos + whole.len())[last] == ts[q]);
            assert(whole[last] == ")"@);
        }
        assert(l.take(k) =~= l);
    } else {
        let item = tokens_printed(l[k]);
        assert(readable(l[k]));
        lemma_tokens_shape(l[k]);
        lemma_flat_prefix(l, k + 1, n);
        let upto = flat_tokens(l, k + 1);
        assert(upto == flat_tokens(l, k) + item);
        assert forall|i: int| 0 <= i < item.len() implies ts.subrange(q, q + item.len())[i]
            == item[i] by {
            let j = flat_tokens(l, k).len() + i;
            assert(ts.subrange(pos, pos + whole.len())[1 + j] == ts[q + i]);
            assert(whole[1 + j] == inner[j]);
            assert(inner.subrange(0, upto.len() as int)[j] == inner[j]);
            assert(upto[j] == item[i]);
        }
        assert(ts.subrange(q, q + item.len()) =~= item);
        assert(ts[q] == item[0]) by {
            assert(ts.subrange(q, q + item.len())[0] == ts[q]);
        }
        lemma_parse_printed(l[k], ts, q);
        assert(l.take(k).push(l[k]) =~= l.take(k + 1));
        lemma_parse_items(l, k + 1, ts, pos);
    }
}

/// Reading the text of a readable value gives the value; so printing what
/// was read gives the same text again.
pub proof fn lemma_read_printed(v: Value)
    requires
        readable(v),
    ensures
        read_spec(printed(v)) == Ok::<Value, Failure>(v),
{
    let s = printed(v);
    let toks = tokens_printed(v);
    assert(s.subrange(0, s.len() as int) =~= s);
    lemma_tokens_printed(v, s, 0);
    assert(skip_blanks(s, s.len() as int) == s.len());
    assert(tokens_from(s, s.len() as int) =~= Seq::<Seq<char>>::empty());
    assert(tokens_of(s) =~= toks);
    lemma_tokens_shape(v);
    assert(toks.subrange(0, toks.len() as int) =~= toks);
    lemma_parse_printed(v, toks, 0);
}

} // verus!
