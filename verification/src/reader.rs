//! The reader: from text to tokens, and from tokens to a value.
//!
//! A text is cut into tokens by one scan from left to right. Blanks (white
//! space and commas) between tokens are skipped and comments, from `;` to the
//! end of the line, are dropped. A token is `~@`, one of the characters
//! ``[]{}()'`~^@``, a string that starts with `"`, or a run of characters that
//! are neither blank nor one of ``[]{}('"`,;)``.
//!
//! The tokens are read as one form: `(` opens a list that goes on to the
//! matching `)`; any other token is an atom.

use crate::natives::fits;
use crate::text::same_text;
use crate::types::{failure, ret_view, views, Failure, Fault, MalErr, MalRet, MalVal, Outcome,
    Value};
use vstd::prelude::*;

verus! {

/// White space, as Unicode defines it.
pub open spec fn is_space(c: char) -> bool {
    ('\u{9}' <= c && c <= '\u{d}') || c == ' ' || c == '\u{85}' || c == '\u{a0}' || c == '\u{1680}'
        || ('\u{2000}' <= c && c <= '\u{200a}') || c == '\u{2028}' || c == '\u{2029}' || c
        == '\u{202f}' || c == '\u{205f}' || c == '\u{3000}'
}

/// What separates tokens: white space and commas.
pub open spec fn is_blank(c: char) -> bool {
    is_space(c) || c == ','
}

/// The characters that are a token each.
pub open spec fn is_special(c: char) -> bool {
    c == '[' || c == ']' || c == '{' || c == '}' || c == '(' || c == ')' || c == '\'' || c == '`'
        || c == '~' || c == '^' || c == '@'
}

/// The characters that an atom goes on with.
pub open spec fn is_atom_char(c: char) -> bool {
    !is_space(c) && c != '[' && c != ']' && c != '{' && c != '}' && c != '(' && c != '\'' && c
        != '"' && c != '`' && c != ',' && c != ';' && c != ')'
}

/// The first position from `i` on that holds no blank.
pub open spec fn skip_blanks(s: Seq<char>, i: int) -> int
    decreases s.len() - i,
{
    if 0 <= i < s.len() && is_blank(s[i]) {
        skip_blanks(s, i + 1)
    } else {
        i
    }
}

/// The first position from `i` on that holds no character of an atom.
pub open spec fn atom_end(s: Seq<char>, i: int) -> int
    decreases s.len() - i,
{
    if 0 <= i < s.len() && is_atom_char(s[i]) {
        atom_end(s, i + 1)
    } else {
        i
    }
}

/// The first position from `i` on that holds a line feed, or the end.
pub open spec fn line_end(s: Seq<char>, i: int) -> int
    decreases s.len() - i,
{
    if 0 <= i < s.len() && s[i] != '\n' {
        line_end(s, i + 1)
    } else {
        i
    }
}

/// The position after the string whose inside starts at `i`: after its
/// closing quote, or where it breaks off. A backslash takes the character
/// after it along, unless that is a line feed or the end.
pub open spec fn string_end(s: Seq<char>, i: int) -> int
    decreases s.len() - i,
{
    if i < 0 || i >= s.len() {
        i
    } else if s[i] == '"' {
        i + 1
    } else if s[i] == '\\' {
        if i + 1 < s.len() && s[i + 1] != '\n' {
            string_end(s, i + 2)
        } else {
            i
        }
    } else {
        string_end(s, i + 1)
    }
}

/// The position after the token that starts at `i`, where no blank stands.
pub open spec fn token_end(s: Seq<char>, i: int) -> int {
    if s[i] == '~' && i + 1 < s.len() && s[i + 1] == '@' {
        i + 2
    } else if is_special(s[i]) {
        i + 1
    } else if s[i] == '"' {
        string_end(s, i + 1)
    } else if s[i] == ';' {
        line_end(s, i + 1)
    } else {
        atom_end(s, i + 1)
    }
}

/// The tokens of `s` from position `i` on.
pub open spec fn tokens_from(s: Seq<char>, i: int) -> Seq<Seq<char>>
    decreases s.len() - i,
{
    let j = skip_blanks(s, i);
    if i < 0 || j >= s.len() {
        Seq::empty()
    } else {
        let k = token_end(s, j);
        proof {
            lemma_skip_blanks(s, i);
            lemma_token_end(s, j);
        }
        if s[j] == ';' {
            tokens_from(s, k)
        } else {
            seq![s.subrange(j, k)] + tokens_from(s, k)
        }
    }
}

/// The tokens of a text.
pub open spec fn tokens_of(s: Seq<char>) -> Seq<Seq<char>> {
    tokens_from(s, 0)
}

/// Skipping blanks moves forward, stays inside the text and ends where no blank stands.
pub proof fn lemma_skip_blanks(s: Seq<char>, i: int)
    requires
        0 <= i,
    ensures
        i <= skip_blanks(s, i),
        i <= s.len() ==> skip_blanks(s, i) <= s.len(),
        skip_blanks(s, i) < s.len() ==> !is_blank(s[skip_blanks(s, i)]),
    decreases s.len() - i,
{
    if i < s.len() && is_blank(s[i]) {
        lemma_skip_blanks(s, i + 1);
    }
}

/// An atom ends inside the text, at or after the place the scan starts from.
pub proof fn lemma_atom_end(s: Seq<char>, i: int)
    requires
        0 <= i <= s.len(),
    ensures
        i <= atom_end(s, i) <= s.len(),
    decreases s.len() - i,
{
    if i < s.len() && is_atom_char(s[i]) {
        lemma_atom_end(s, i + 1);
    }
}

/// A comment ends inside the text, at or after the place the scan starts from.
pub proof fn lemma_line_end(s: Seq<char>, i: int)
    requires
        0 <= i <= s.len(),
    ensures
        i <= line_end(s, i) <= s.len(),
    decreases s.len() - i,
{
    if i < s.len() && s[i] != '\n' {
        lemma_line_end(s, i + 1);
    }
}

/// A string ends inside the text, at or after the place the scan starts from.
pub proof fn lemma_string_end(s: Seq<char>, i: int)
    requires
        0 <= i <= s.len(),
    ensures
        i <= string_end(s, i) <= s.len(),
    decreases s.len() - i,
{
    if i < s.len() && s[i] != '"' {
        if s[i] == '\\' {
            if i + 1 < s.len() && s[i + 1] != '\n' {
                lemma_string_end(s, i + 2);
            }
        } else {
            lemma_string_end(s, i + 1);
        }
    }
}

/// A token is not empty and ends inside the text.
pub proof fn lemma_token_end(s: Seq<char>, i: int)
    requires
        0 <= i < s.len(),
    ensures
        i < token_end(s, i) <= s.len(),
{
    lemma_string_end(s, i + 1);
    lemma_line_end(s, i + 1);
    lemma_atom_end(s, i + 1);
}

/// Whether `c` is a decimal digit.
pub open spec fn is_digit(c: char) -> bool {
    '0' <= c && c <= '9'
}

/// Whether all of `s` are decimal digits.
pub open spec fn all_digits(s: Seq<char>) -> bool {
    forall|i: int| 0 <= i < s.len() ==> is_digit(#[trigger] s[i])
}

/// The number that the digit `c` stands for.
pub open spec fn digit_of(c: char) -> nat {
    if is_digit(c) {
        (c as u32 - '0' as u32) as nat
    } else {
        0
    }
}

/// The number that the decimal digits `s` stand for.
pub open spec fn digits_value(s: Seq<char>) -> nat
    decreases s.len(),
{
    if s.len() == 0 {
        0
    } else {
        digits_value(s.drop_last()) * 10 + digit_of(s.last())
    }
}

/// Whether a token is an integer literal: an optional minus sign and then
/// decimal digits, at least one.
pub open spec fn is_int_literal(tok: Seq<char>) -> bool {
    if tok.len() > 0 && tok[0] == '-' {
        tok.len() > 1 && all_digits(tok.skip(1))
    } else {
        tok.len() > 0 && all_digits(tok)
    }
}

/// The integer that an integer literal stands for.
pub open spec fn int_value(tok: Seq<char>) -> int {
    if tok.len() > 0 && tok[0] == '-' {
        -(digits_value(tok.skip(1)) as int)
    } else {
        digits_value(tok) as int
    }
}

/// The value of an atom.
///
/// `nil`, `true` and `false` are the three constants. An integer literal is
/// its number, and fails with `NumberRange` if that does not fit in 64 bits.
/// Every other token is a symbol.
pub open spec fn atom_of(tok: Seq<char>) -> Outcome {
    if tok == "nil"@ {
        Ok(Value::Nil)
    } else if tok == "true"@ {
        Ok(Value::Bool(true))
    } else if tok == "false"@ {
        Ok(Value::Bool(false))
    } else if is_int_literal(tok) {
        if fits(int_value(tok)) {
            Ok(Value::Num(int_value(tok) as i64))
        } else {
            Err(failure(Fault::NumberRange))
        }
    } else {
        Ok(Value::Sym(tok))
    }
}

/// The form that starts at token `pos`, and the position after it.
pub open spec fn parse_form(toks: Seq<Seq<char>>, pos: int) -> (Outcome, int)
    decreases toks.len() - pos, 1nat,
{
    if pos < 0 || pos >= toks.len() {
        (Err(failure(Fault::Underflow)), pos)
    } else if toks[pos] == "("@ {
        parse_list(toks, pos + 1, Seq::empty())
    } else {
        (atom_of(toks[pos]), pos + 1)
    }
}

/// The list whose elements so far are `acc` and whose next element or closing
/// parenthesis stands at token `pos`, and the position after the list.
pub open spec fn parse_list(toks: Seq<Seq<char>>, pos: int, acc: Seq<Value>) -> (Outcome, int)
    decreases toks.len() - pos, 2nat,
{
    if pos < 0 || pos >= toks.len() {
        (Err(failure(Fault::UnclosedList)), pos)
    } else if toks[pos] == ")"@ {
        (Ok(Value::List(acc)), pos + 1)
    } else {
        let (r, next) = parse_form(toks, pos);
        match r {
            Ok(v) => if pos < next <= toks.len() {
                parse_list(toks, next, acc.push(v))
            } else {
                (Err(failure(Fault::Underflow)), next)
            },
            Err(e) => (Err(e), next),
        }
    }
}

/// What reading a text returns: the first form of its tokens. It fails with
/// `NoInput` if there is no token and with `UnclosedList` if a list is not
/// closed.
pub open spec fn read_spec(text: Seq<char>) -> Outcome {
    let toks = tokens_of(text);
    if toks.len() == 0 {
        Err(failure(Fault::NoInput))
    } else {
        parse_form(toks, 0).0
    }
}

/// A form that is read takes at least one token and ends inside the tokens.
pub proof fn lemma_parse_form_advances(toks: Seq<Seq<char>>, pos: int)
    requires
        0 <= pos,
    ensures
        parse_form(toks, pos).0 is Ok ==> pos < parse_form(toks, pos).1 <= toks.len(),
    decreases toks.len() - pos, 1nat,
{
    if pos < toks.len() && toks[pos] == "("@ {
        lemma_parse_list_advances(toks, pos + 1, Seq::empty());
    }
}

/// A list that is read ends after the place it was taken up, inside the tokens.
pub proof fn lemma_parse_list_advances(toks: Seq<Seq<char>>, pos: int, acc: Seq<Value>)
    requires
        0 <= pos,
    ensures
        parse_list(toks, pos, acc).0 is Ok ==> pos < parse_list(toks, pos, acc).1 <= toks.len(),
    decreases toks.len() - pos, 2nat,
{
    if pos < toks.len() && toks[pos] != ")"@ {
        lemma_parse_form_advances(toks, pos);
        let (r, next) = parse_form(toks, pos);
        match r {
            Ok(v) => {
                lemma_parse_list_advances(toks, next, acc.push(v));
            },
            Err(_) => {},
        }
    }
}

/// The texts of a sequence of tokens.
pub open spec fn texts(tokens: Seq<String>) -> Seq<Seq<char>> {
    Seq::new(tokens.len(), |i: int| tokens[i]@)
}

/// The tokens of a text and the place the next one is taken from.
pub struct Reader {
    pub tokens: Vec<String>,
    pub pos: usize,
}

impl Reader {
    /// A reader at the first of `tokens`.
    pub fn new(tokens: Vec<String>) -> (reader: Reader)
        ensures
            reader.tokens == tokens,
            reader.pos == 0,
    {
        Reader { tokens, pos: 0 }
    }

    /// The token at the reader's place, and moves on by one. It fails with
    /// `Underflow`, and stays, if no token is left.
    pub fn next(&mut self) -> (r: Result<String, MalErr>)
        ensures
            final(self).tokens == old(self).tokens,
            old(self).pos < old(self).tokens.len() ==> (r matches Ok(t) && t@ == old(
                self,
            ).tokens@[old(self).pos as int]@ && final(self).pos == old(self).pos + 1),
            old(self).pos >= old(self).tokens.len() ==> (r matches Err(e) && e@ == failure(
                Fault::Underflow,
            ) && final(self).pos == old(self).pos),
    {
        if self.pos < self.tokens.len() {
            let token = self.tokens[self.pos].clone();
            self.pos = self.pos + 1;
            Ok(token)
        } else {
            Err(MalErr::new(Fault::Underflow))
        }
    }

    /// The token at the reader's place. It fails with `Underflow` if no token
    /// is left.
    pub fn peek(&self) -> (r: Result<String, MalErr>)
        ensures
            self.pos < self.tokens.len() ==> (r matches Ok(t) && t@ == self.tokens@[self.pos as int]@),
            self.pos >= self.tokens.len() ==> (r matches Err(e) && e@ == failure(Fault::Underflow)),
    {
        if self.pos < self.tokens.len() {
            Ok(self.tokens[self.pos].clone())
        } else {
            Err(MalErr::new(Fault::Underflow))
        }
    }
}

/// The characters of a text, one by one.
fn chars_of(text: &str) -> (chars: Vec<char>)
    ensures
        chars@ == text@,
{
    let mut chars: Vec<char> = Vec::new();
    for c in it: text.chars()
        invariant
            it.seq() == text@,
            chars.len() == it.index(),
            forall|j: int| 0 <= j < chars.len() ==> chars@[j] == it.seq()[j],
    {
        chars.push(c);
    }
    assert(chars@ =~= text@);
    chars
}

/// Whether `c` is white space.
fn space(c: char) -> (r: bool)
    ensures
        r == is_space(c),
{
    (c >= '\u{9}' && c <= '\u{d}') || c == ' ' || c == '\u{85}' || c == '\u{a0}' || c == '\u{1680}'
        || (c >= '\u{2000}' && c <= '\u{200a}') || c == '\u{2028}' || c == '\u{2029}' || c
        == '\u{202f}' || c == '\u{205f}' || c == '\u{3000}'
}

/// Whether `c` is one of the characters that are a token each.
fn special(c: char) -> (r: bool)
    ensures
        r == is_special(c),
{
    c == '[' || c == ']' || c == '{' || c == '}' || c == '(' || c == ')' || c == '\'' || c == '`'
        || c == '~' || c == '^' || c == '@'
}

/// Whether an atom goes on with `c`.
fn atom_char(c: char) -> (r: bool)
    ensures
        r == is_atom_char(c),
{
    !space(c) && c != '[' && c != ']' && c != '{' && c != '}' && c != '(' && c != '\'' && c != '"'
        && c != '`' && c != ',' && c != ';' && c != ')'
}

/// The position after the token that starts at `i`.
fn scan_token(s: &Vec<char>, i: usize) -> (k: usize)
    requires
        i < s.len(),
    ensures
        k == token_end(s@, i as int),
        i < k <= s.len(),
{
    proof {
        lemma_token_end(s@, i as int);
    }
    let c = s[i];
    if c == '~' && i + 1 < s.len() && s[i + 1] == '@' {
        i + 2
    } else if special(c) {
        i + 1
    } else if c == '"' {
        let mut k = i + 1;
        loop
            invariant
                i < k <= s.len(),
                token_end(s@, i as int) == string_end(s@, k as int),
            decreases s.len() - k,
        {
            proof {
                lemma_string_end(s@, k as int);
            }
            if k >= s.len() {
                return k;
            }
            let d = s[k];
            if d == '"' {
                return k + 1;
            } else if d == '\\' {
                if k + 1 < s.len() && s[k + 1] != '\n' {
                    k = k + 2;
                } else {
                    return k;
                }
            } else {
                k = k + 1;
            }
        }
    } else if c == ';' {
        let mut k = i + 1;
        while k < s.len() && s[k] != '\n'
            invariant
                i < k <= s.len(),
                line_end(s@, i + 1) == line_end(s@, k as int),
            decreases s.len() - k,
        {
            k = k + 1;
        }
        k
    } else {
        let mut k = i + 1;
        while k < s.len() && atom_char(s[k])
            invariant
                i < k <= s.len(),
                atom_end(s@, i + 1) == atom_end(s@, k as int),
            decreases s.len() - k,
        {
            k = k + 1;
        }
        k
    }
}

/// Cuts a text into its tokens.
pub fn tokenize(string: &str) -> (tokens: Vec<String>)
    ensures
        texts(tokens@) == tokens_of(string@),
{
    let chars = chars_of(string);
    let mut tokens: Vec<String> = Vec::new();
    let mut i: usize = 0;
    assert(texts(tokens@) =~= Seq::<Seq<char>>::empty());
    loop
        invariant
            i <= chars.len(),
            chars@ == string@,
            tokens_of(string@) == texts(tokens@) + tokens_from(string@, i as int),
        decreases chars.len() - i,
    {
        let mut j = i;
        while j < chars.len() && (space(chars[j]) || chars[j] == ',')
            invariant
                i <= j <= chars.len(),
                skip_blanks(chars@, i as int) == skip_blanks(chars@, j as int),
            decreases chars.len() - j,
        {
            j = j + 1;
        }
        if j >= chars.len() {
            assert(tokens_from(string@, i as int) =~= Seq::<Seq<char>>::empty());
            assert(texts(tokens@) + tokens_from(string@, i as int) =~= texts(tokens@));
            return tokens;
        }
        let k = scan_token(&chars, j);
        if chars[j] != ';' {
            let ghost before = texts(tokens@);
            let token = string.substring_char(j, k).to_owned();
            tokens.push(token);
            proof {
                assert(texts(tokens@) =~= before + seq![string@.subrange(j as int, k as int)]);
                assert(before + (seq![string@.subrange(j as int, k as int)] + tokens_from(
                    string@,
                    k as int,
                )) =~= texts(tokens@) + tokens_from(string@, k as int));
            }
        }
        i = k;
    }
}

/// The value of the digit `c`.
fn digit_value(c: char) -> (d: u64)
    requires
        is_digit(c),
    ensures
        d == digit_of(c),
        d < 10,
{
    (c as u32 - '0' as u32) as u64
}

/// A prefix of digits stands for no more than the whole.
proof fn lemma_prefix_value(s: Seq<char>, n: int)
    requires
        0 <= n <= s.len(),
    ensures
        digits_value(s.take(n)) <= digits_value(s),
    decreases s.len() - n,
{
    if n < s.len() {
        lemma_prefix_value(s, n + 1);
        assert(s.take(n + 1).drop_last() =~= s.take(n));
    } else {
        assert(s.take(n) =~= s);
    }
}

/// The number that the digits `chars[from..]` stand for, unless it is above
/// `limit`.
fn read_digits(chars: &Vec<char>, from: usize, limit: u64) -> (r: Option<u64>)
    requires
        from <= chars.len(),
        all_digits(chars@.skip(from as int)),
        limit >= 9,
    ensures
        r == (if digits_value(chars@.skip(from as int)) <= limit {
            Some(digits_value(chars@.skip(from as int)) as u64)
        } else {
            None
        }),
{
    let ghost s = chars@.skip(from as int);
    let mut acc: u64 = 0;
    let mut i: usize = from;
    assert(s.take(0) =~= Seq::<char>::empty());
    while i < chars.len()
        invariant
            from <= i <= chars.len(),
            s == chars@.skip(from as int),
            all_digits(s),
            acc == digits_value(s.take(i - from)),
            acc <= limit,
            limit >= 9,
        decreases chars.len() - i,
    {
        let c = chars[i];
        assert(c == s[i - from]);
        let d = digit_value(c);
        proof {
            assert(s.take(i - from + 1).drop_last() =~= s.take(i - from));
            assert(digits_value(s.take(i - from + 1)) == acc * 10 + d);
            lemma_prefix_value(s, i - from + 1);
        }
        if acc > (limit - d) / 10 {
            return None;
        }
        acc = acc * 10 + d;
        i = i + 1;
    }
    assert(s.take(s.len() as int) =~= s);
    Some(acc)
}

/// Whether `chars[from..]` are decimal digits, at least one.
fn digits_only(chars: &Vec<char>, from: usize) -> (r: bool)
    requires
        from <= chars.len(),
    ensures
        r == (from < chars.len() && all_digits(chars@.skip(from as int))),
{
    if from >= chars.len() {
        return false;
    }
    let ghost s = chars@.skip(from as int);
    let mut i: usize = from;
    while i < chars.len()
        invariant
            from <= i <= chars.len(),
            s == chars@.skip(from as int),
            forall|j: int| 0 <= j < i - from ==> is_digit(#[trigger] s[j]),
        decreases chars.len() - i,
    {
        let c = chars[i];
        if !(c >= '0' && c <= '9') {
            assert(!is_digit(s[i - from]));
            return false;
        }
        i = i + 1;
    }
    true
}

/// The value of an atom.
fn atom(token: &str) -> (r: MalRet)
    ensures
        ret_view(r) == atom_of(token@),
{
    if same_text(token, "nil") {
        return Ok(MalVal::Nil);
    }
    if same_text(token, "true") {
        return Ok(MalVal::Bool(true));
    }
    if same_text(token, "false") {
        return Ok(MalVal::Bool(false));
    }
    let chars = chars_of(token);
    let negative = chars.len() > 0 && chars[0] == '-';
    let from: usize = if negative {
        1
    } else {
        0
    };
    assert(chars@.skip(0) =~= chars@);
    if !digits_only(&chars, from) {
        return Ok(MalVal::Sym(token.to_owned()));
    }
    if negative {
        match read_digits(&chars, from, 0x8000_0000_0000_0000) {
            Some(m) => Ok(MalVal::Num((-(m as i128)) as i64)),
            None => Err(MalErr::new(Fault::NumberRange)),
        }
    } else {
        match read_digits(&chars, from, 0x7fff_ffff_ffff_ffff) {
            Some(m) => Ok(MalVal::Num(m as i64)),
            None => Err(MalErr::new(Fault::NumberRange)),
        }
    }
}

/// Reads the atom at the reader's place.
pub fn read_atom(reader: &mut Reader) -> (r: MalRet)
    ensures
        final(reader).tokens == old(reader).tokens,
        old(reader).pos < old(reader).tokens.len() ==> ret_view(r) == atom_of(
            old(reader).tokens@[old(reader).pos as int]@,
        ) && final(reader).pos == old(reader).pos + 1,
        old(reader).pos >= old(reader).tokens.len() ==> ret_view(r) == Err::<Value, Failure>(
            failure(Fault::Underflow),
        ) && final(reader).pos == old(reader).pos,
{
    match reader.next() {
        Ok(token) => atom(token.as_str()),
        Err(e) => Err(e),
    }
}

/// Reads the list whose opening token stands at the reader's place: skips
/// that token, then reads forms up to the closing parenthesis. It fails with
/// `Underflow` if no token is left to skip, and with `UnclosedList` if the
/// tokens end before the list does.
pub fn read_list(reader: &mut Reader) -> (r: MalRet)
    ensures
        final(reader).tokens == old(reader).tokens,
        ret_view(r) == (if old(reader).pos < old(reader).tokens.len() {
            parse_list(texts(old(reader).tokens@), old(reader).pos + 1, Seq::empty()).0
        } else {
            Err(failure(Fault::Underflow))
        }),
        r is Ok ==> final(reader).pos == parse_list(
            texts(old(reader).tokens@),
            old(reader).pos + 1,
            Seq::empty(),
        ).1,
    decreases old(reader).tokens.len() - old(reader).pos, 0nat,
{
    if reader.pos >= reader.tokens.len() {
        return Err(MalErr::new(Fault::Underflow));
    }
    let ghost toks = texts(reader.tokens@);
    let ghost start = reader.pos + 1;
    let mut list: Vec<MalVal> = Vec::new();
    reader.pos = reader.pos + 1;
    assert(views(list@) =~= Seq::<Value>::empty());
    loop
        invariant
            reader.tokens == old(reader).tokens,
            toks == texts(old(reader).tokens@),
            start == old(reader).pos + 1,
            start <= reader.pos <= reader.tokens.len(),
            parse_list(toks, start, Seq::empty()) == parse_list(
                toks,
                reader.pos as int,
                views(list@),
            ),
        decreases reader.tokens.len() - reader.pos,
    {
        if reader.pos >= reader.tokens.len() {
            return Err(MalErr::new(Fault::UnclosedList));
        }
        if same_text(reader.tokens[reader.pos].as_str(), ")") {
            reader.pos = reader.pos + 1;
            return Ok(MalVal::list(list));
        }
        let ghost before = views(list@);
        let ghost at = reader.pos as int;
        proof {
            lemma_parse_form_advances(toks, at);
        }
        match read_form(reader) {
            Ok(v) => {
                list.push(v);
                assert(views(list@) =~= before.push(v@));
            },
            Err(e) => {
                return Err(e);
            },
        }
    }
}

/// Reads the form at the reader's place: a list if it starts with `(`, else
/// an atom.
pub fn read_form(reader: &mut Reader) -> (r: MalRet)
    ensures
        final(reader).tokens == old(reader).tokens,
        ret_view(r) == parse_form(texts(old(reader).tokens@), old(reader).pos as int).0,
        r is Ok ==> final(reader).pos == parse_form(
            texts(old(reader).tokens@),
            old(reader).pos as int,
        ).1,
    decreases old(reader).tokens.len() - old(reader).pos, 1nat,
{
    if reader.pos >= reader.tokens.len() {
        return Err(MalErr::new(Fault::Underflow));
    }
    if same_text(reader.tokens[reader.pos].as_str(), "(") {
        read_list(reader)
    } else {
        read_atom(reader)
    }
}

/// Reads the first form of a text.
///
/// It fails with `NoInput` if the text holds no token, with `UnclosedList` if
/// a list is not closed before the text ends, and with `NumberRange` if an
/// integer literal does not fit in 64 bits.
pub fn read_str(string: &str) -> (r: MalRet)
    ensures
        ret_view(r) == read_spec(string@),
{
    let tokens = tokenize(string);
    if tokens.len() == 0 {
        return Err(MalErr::new(Fault::NoInput));
    }
    let mut reader = Reader::new(tokens);
    read_form(&mut reader)
}

} // verus!
