use mal::reader::{read_str, tokenize};
use mal::types::MalVal;
use regex::Regex;

/// The token grammar as one regular expression: the token is its first group.
const TOKEN: &str = r###"[\s,]*(~@|[\[\]{}()'`~^@]|"(?:\\.|[^\\"])*"?|;.*|[^\s\[\]{}('"`,;)]+)"###;

/// The integer literals as a regular expression.
const INTEGER: &str = r"^-?[0-9]+$";

fn by_pattern(pattern: &Regex, text: &str) -> Vec<String> {
    let mut tokens = Vec::new();
    for found in pattern.captures_iter(text) {
        if !found[1].starts_with(';') {
            tokens.push(found[1].to_string());
        }
    }
    tokens
}

const LETTERS: [char; 16] =
    [' ', ',', '(', ')', '[', '~', '@', '"', '\\', ';', '\n', 'a', '1', '-', '\'', '\u{2003}'];

fn spell(mut code: usize, length: usize) -> String {
    let mut text = String::new();
    for _ in 0..length {
        text.push(LETTERS[code % LETTERS.len()]);
        code /= LETTERS.len();
    }
    text
}

#[test]
fn tokens_agree_with_the_pattern_on_short_texts() {
    let pattern = Regex::new(TOKEN).unwrap();
    for length in 0..5 {
        for code in 0..LETTERS.len().pow(length as u32) {
            let text = spell(code, length);
            assert_eq!(tokenize(&text), by_pattern(&pattern, &text), "text {:?}", text);
        }
    }
}

#[test]
fn tokens_agree_with_the_pattern_on_long_texts() {
    let pattern = Regex::new(TOKEN).unwrap();
    let mut seed: u64 = 0x2545_f491_4f6c_dd1d;
    for round in 0..3000 {
        let mut text = String::new();
        for _ in 0..(round % 60) {
            seed = seed.wrapping_mul(6364136223846793005).wrapping_add(1442695040888963407);
            text.push(LETTERS[(seed >> 33) as usize % LETTERS.len()]);
        }
        assert_eq!(tokenize(&text), by_pattern(&pattern, &text), "text {:?}", text);
    }
}

#[test]
fn tokens_agree_with_the_pattern_on_chosen_texts() {
    let pattern = Regex::new(TOKEN).unwrap();
    for text in [
        "(def! f (fn* (a & b) (if (= a 0) b (f (- a 1) b))))",
        "'(1 2 ~x ~@y) `z ^m @a",
        "\"a string\" \"with \\\" quote\" \"open",
        "\"tab\\t\" \"back\\\\\" \"\\",
        "\"a\\\nb\" c",
        "; comment only",
        "1 ; one\r\n2 ; two\n3",
        "{a 1, b 2} [x,y]",
        "\u{85}x\u{a0}y\u{1680}z\u{2000}\u{200a}w\u{2028}\u{2029}\u{202f}\u{205f}\u{3000}v",
        "\u{200b}zero\u{feff}width",
        "\t\u{b}\u{c}\r tabs",
        "日本語 (λ x) 🙂",
        "a~b ~ @ ~@ ~~@ @~ ^^",
        "",
    ] {
        assert_eq!(tokenize(text), by_pattern(&pattern, text), "text {:?}", text);
    }
}

#[test]
fn whitespace_agrees_with_the_pattern() {
    let pattern = Regex::new(TOKEN).unwrap();
    for code in 0..0x11_0000u32 {
        if let Some(c) = char::from_u32(code) {
            if c.is_whitespace() || code < 0x100 || code % 997 == 0 {
                let text = format!("a{}b", c);
                assert_eq!(tokenize(&text), by_pattern(&pattern, &text), "char {:?}", c);
            }
        }
    }
}

#[test]
fn integers_agree_with_the_pattern() {
    let pattern = Regex::new(INTEGER).unwrap();
    let digits = ['0', '1', '9', '-', '+', 'a', '٣', '.'];
    for length in 1..6 {
        for code in 0..digits.len().pow(length as u32) {
            let mut text = String::new();
            let mut rest = code;
            for _ in 0..length {
                text.push(digits[rest % digits.len()]);
                rest /= digits.len();
            }
            let number = matches!(read_str(&text), Ok(MalVal::Num(_)));
            assert_eq!(number, pattern.is_match(&text), "text {:?}", text);
            if number {
                let expected: i64 = text.parse().unwrap();
                assert!(matches!(read_str(&text), Ok(MalVal::Num(n)) if n == expected));
            }
        }
    }
}
