use mal::printer::print;
use mal::reader::{read_atom, read_form, read_list, read_str, tokenize, Reader};
use mal::types::{ErrKind, Fault, MalVal};

fn cut(text: &str) -> Vec<String> {
    tokenize(text)
}

fn reads_as(text: &str) -> String {
    print(&read_str(text).unwrap())
}

#[test]
fn tokens_of_a_call() {
    assert_eq!(cut("(+ 1 2)"), vec!["(", "+", "1", "2", ")"]);
    assert_eq!(cut("  ( +   1,2 ) , "), vec!["(", "+", "1", "2", ")"]);
    assert_eq!(cut("(a(b)c)"), vec!["(", "a", "(", "b", ")", "c", ")"]);
}

#[test]
fn tokens_of_nothing() {
    assert!(cut("").is_empty());
    assert!(cut("   ,, \t\n").is_empty());
    assert!(cut("; only a comment").is_empty());
    assert!(cut("\u{a0}\u{2003}\u{3000}").is_empty());
}

#[test]
fn tokens_of_punctuation() {
    assert_eq!(cut("'x"), vec!["'", "x"]);
    assert_eq!(cut("`x"), vec!["`", "x"]);
    assert_eq!(cut("~x"), vec!["~", "x"]);
    assert_eq!(cut("~@x"), vec!["~@", "x"]);
    assert_eq!(cut("^x"), vec!["^", "x"]);
    assert_eq!(cut("@x"), vec!["@", "x"]);
    assert_eq!(cut("[a]{b}"), vec!["[", "a", "]", "{", "b", "}"]);
    assert_eq!(cut("a~b"), vec!["a~b"]);
    assert_eq!(cut("a@b^c"), vec!["a@b^c"]);
    assert_eq!(cut("~ @"), vec!["~", "@"]);
}

#[test]
fn tokens_of_strings() {
    assert_eq!(cut("\"abc\""), vec!["\"abc\""]);
    assert_eq!(cut("\"a b\" c"), vec!["\"a b\"", "c"]);
    assert_eq!(cut("\"a\\\"b\""), vec!["\"a\\\"b\""]);
    assert_eq!(cut("\"open"), vec!["\"open"]);
    assert_eq!(cut("\"a;b\""), vec!["\"a;b\""]);
    assert_eq!(cut("\"line\nfeed\""), vec!["\"line\nfeed\""]);
    assert_eq!(cut("\"end\\"), vec!["\"end", "\\"]);
    assert_eq!(cut("\"a\\\nb\""), vec!["\"a", "\\", "b", "\""]);
    assert_eq!(cut("x\"y\""), vec!["x", "\"y\""]);
}

#[test]
fn comments_are_dropped() {
    assert_eq!(cut("1 ; one\n2"), vec!["1", "2"]);
    assert_eq!(cut("(a ;b)\n c)"), vec!["(", "a", "c", ")"]);
    assert_eq!(cut("a;b"), vec!["a"]);
    assert_eq!(cut("; x\r\n y"), vec!["y"]);
}

#[test]
fn tokens_keep_other_characters() {
    assert_eq!(cut("λ→x 日本"), vec!["λ→x", "日本"]);
    assert_eq!(cut("a\u{2003}b"), vec!["a", "b"]);
    assert_eq!(cut("-12 - -a"), vec!["-12", "-", "-a"]);
}

#[test]
fn atoms_are_classified() {
    assert!(matches!(read_str("nil"), Ok(MalVal::Nil)));
    assert!(matches!(read_str("true"), Ok(MalVal::Bool(true))));
    assert!(matches!(read_str("false"), Ok(MalVal::Bool(false))));
    assert!(matches!(read_str("42"), Ok(MalVal::Num(42))));
    assert!(matches!(read_str("-42"), Ok(MalVal::Num(-42))));
    assert!(matches!(read_str("007"), Ok(MalVal::Num(7))));
    assert!(matches!(read_str("-0"), Ok(MalVal::Num(0))));
    assert!(matches!(read_str("9223372036854775807"), Ok(MalVal::Num(i64::MAX))));
    assert!(matches!(read_str("-9223372036854775808"), Ok(MalVal::Num(i64::MIN))));
    for name in ["abc", "-", "+", "1a", "--1", "-1-", "NIL", "True", "1.5", "+5", "١٢"] {
        match read_str(name) {
            Ok(MalVal::Sym(s)) => assert_eq!(s, name),
            other => panic!("{} read as {:?}", name, other),
        }
    }
}

#[test]
fn numbers_out_of_range_fail() {
    for text in [
        "9223372036854775808",
        "-9223372036854775809",
        "18446744073709551616",
        "99999999999999999999999999999999999999",
        "(1 99999999999999999999)",
    ] {
        let err = read_str(text).unwrap_err();
        assert_eq!(err.fault, Fault::NumberRange);
        assert_eq!(err.kind(), ErrKind::ParseError);
    }
}

#[test]
fn lists_nest() {
    assert_eq!(reads_as("(1 (2 (3)) ())"), "(1 (2 (3)) ())");
    assert_eq!(reads_as("( + 1   2 )"), "(+ 1 2)");
    assert_eq!(reads_as("()"), "()");
    match read_str("(a (b c) 4)").unwrap() {
        MalVal::List(items) => {
            assert_eq!(items.len(), 3);
            assert!(matches!(&items[0], MalVal::Sym(s) if s == "a"));
            assert!(matches!(&items[1], MalVal::List(inner) if inner.len() == 2));
            assert!(matches!(&items[2], MalVal::Num(4)));
        },
        other => panic!("read as {:?}", other),
    }
}

#[test]
fn only_the_first_form_is_read() {
    assert_eq!(reads_as("1 2 3"), "1");
    assert_eq!(reads_as("(a) (b)"), "(a)");
    assert_eq!(reads_as(") x"), ")");
}

#[test]
fn empty_text_is_no_input() {
    for text in ["", "   ", "; nothing here", ",,,"] {
        let err = read_str(text).unwrap_err();
        assert_eq!(err.fault, Fault::NoInput);
        assert_eq!(err.kind(), ErrKind::ParseError);
        assert_eq!(err.message(), "no input");
    }
}

#[test]
fn unclosed_lists_fail() {
    for text in ["(", "(1 2", "(1 (2 3)", "((", "(a ; )"] {
        let err = read_str(text).unwrap_err();
        assert_eq!(err.fault, Fault::UnclosedList);
        assert_eq!(err.kind(), ErrKind::ParseError);
        assert_eq!(err.message(), "expected `)`, got EOF");
    }
}

#[test]
fn reader_hands_out_tokens_in_order() {
    let mut reader = Reader::new(cut("a b"));
    assert_eq!(reader.peek().unwrap(), "a");
    assert_eq!(reader.peek().unwrap(), "a");
    assert_eq!(reader.next().unwrap(), "a");
    assert_eq!(reader.next().unwrap(), "b");
    assert_eq!(reader.pos, 2);
    let err = reader.next().unwrap_err();
    assert_eq!(err.fault, Fault::Underflow);
    assert_eq!(err.message(), "underflow");
    assert_eq!(reader.peek().unwrap_err().fault, Fault::Underflow);
    assert_eq!(reader.pos, 2);
}

#[test]
fn forms_are_read_one_after_the_other() {
    let mut reader = Reader::new(cut("(1 2) x (3)"));
    assert_eq!(print(&read_form(&mut reader).unwrap()), "(1 2)");
    assert_eq!(reader.pos, 4);
    assert_eq!(print(&read_atom(&mut reader).unwrap()), "x");
    assert_eq!(reader.pos, 5);
    assert_eq!(print(&read_list(&mut reader).unwrap()), "(3)");
    assert_eq!(reader.pos, 8);
    assert_eq!(read_form(&mut reader).unwrap_err().fault, Fault::Underflow);
    assert_eq!(read_atom(&mut reader).unwrap_err().fault, Fault::Underflow);
    assert_eq!(read_list(&mut reader).unwrap_err().fault, Fault::Underflow);
    assert_eq!(reader.pos, 8);
}

#[test]
fn printing_what_was_read_gives_the_text_again() {
    for text in [
        "nil",
        "true",
        "false",
        "0",
        "7",
        "-7",
        "10",
        "1234567890",
        "9223372036854775807",
        "-9223372036854775808",
    ] {
        assert_eq!(reads_as(text), text);
    }
    for n in [0i64, 1, -1, 9, 10, 99, 100, -100, 4096, i64::MAX, i64::MIN] {
        let text = print(&MalVal::Num(n));
        assert_eq!(text, n.to_string());
        assert!(matches!(read_str(&text), Ok(MalVal::Num(m)) if m == n));
    }
}

#[test]
fn printing_what_was_read_gives_nested_lists_again() {
    for text in [
        "()",
        "(())",
        "(1)",
        "(1 2 3)",
        "(a (b (c)) -7 nil true false)",
        "(def! f (fn* (x & more) (if (<= x 0) more (f (- x 1)))))",
        "((()) () (() ()))",
        "x",
        "a-b*c/d",
        "λ",
    ] {
        assert_eq!(reads_as(text), text);
        assert_eq!(reads_as(&reads_as(text)), text);
    }
    assert_eq!(reads_as("( 1,2 ,, 3 ) ; tail"), "(1 2 3)");
}
