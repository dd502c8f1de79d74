use kaleidrs::lexer::{tokenize, Lex, Ops, Token, Tokens};
use kaleidrs::text::{chars_of, is_single_char_token, same_text, split_whitespace};

/// A token with its number read as a float, to compare against expected values.
#[derive(Debug, PartialEq)]
enum Lexed<'src> {
    Plain(Token<'src>),
    Number(f64),
}

fn lexed(input: &str) -> Vec<Lexed<'_>> {
    let mut tokens = input.lex();
    tokens
        .collect()
        .into_iter()
        .map(|t| match t {
            Token::Number(text) => Lexed::Number(text.parse::<f64>().unwrap()),
            other => Lexed::Plain(other),
        })
        .collect()
}

fn plain(tokens: Vec<Token<'_>>) -> Vec<Lexed<'_>> {
    tokens.into_iter().map(Lexed::Plain).collect()
}

#[test]
fn lexing_nums() {
    let input = " 2.3  4.654345   700   0.23423  ";
    assert_eq!(
        lexed(input),
        vec![
            Lexed::Number(2.3),
            Lexed::Number(4.654345),
            Lexed::Number(700.0),
            Lexed::Number(0.23423),
        ]
    );
}

#[test]
fn lexing_identifiers() {
    let input = " var1   xyz   GLBAL   some_count ";
    assert_eq!(
        lexed(input),
        plain(vec![
            Token::Identifier("var1"),
            Token::Identifier("xyz"),
            Token::Identifier("GLBAL"),
            Token::Identifier("some_count"),
        ])
    );
}

#[test]
fn lexing_operators() {
    let input = " + - * / ";
    assert_eq!(
        lexed(input),
        plain(vec![
            Token::Operator(Ops::Plus),
            Token::Operator(Ops::Minus),
            Token::Operator(Ops::Mult),
            Token::Operator(Ops::Div),
        ])
    );
}

#[test]
fn lexer_lexing_operators() {
    let input = " + - * / % = ";
    assert_eq!(
        lexed(input),
        plain(vec![
            Token::Operator(Ops::Plus),
            Token::Operator(Ops::Minus),
            Token::Operator(Ops::Mult),
            Token::Operator(Ops::Div),
            Token::Operator(Ops::Modulo),
            Token::Operator(Ops::Assign),
        ])
    );
}

#[test]
fn lexing_mixed() {
    let input = " def   extern  1.23  x";
    assert_eq!(
        lexed(input),
        vec![
            Lexed::Plain(Token::FuncDef),
            Lexed::Plain(Token::Extern),
            Lexed::Number(1.23),
            Lexed::Plain(Token::Identifier("x")),
        ]
    );
}

#[test]
fn lexing_calls() {
    let mut input = " func1(2, 5, 10) ";
    assert_eq!(
        lexed(input),
        vec![
            Lexed::Plain(Token::Identifier("func1")),
            Lexed::Plain(Token::OpenParen),
            Lexed::Number(2.0),
            Lexed::Plain(Token::Comma),
            Lexed::Number(5.0),
            Lexed::Plain(Token::Comma),
            Lexed::Number(10.0),
            Lexed::Plain(Token::ClosedParen),
        ]
    );

    input = " func2 () ";
    assert_eq!(
        lexed(input),
        plain(vec![Token::Identifier("func2"), Token::OpenParen, Token::ClosedParen])
    );

    input = " func3 (x + 2) ";
    assert_eq!(
        lexed(input),
        vec![
            Lexed::Plain(Token::Identifier("func3")),
            Lexed::Plain(Token::OpenParen),
            Lexed::Plain(Token::Identifier("x")),
            Lexed::Plain(Token::Operator(Ops::Plus)),
            Lexed::Number(2.0),
            Lexed::Plain(Token::ClosedParen),
        ]
    );
}

#[test]
fn lexing_function_defs() {
    let mut input = " def myCalculation(arg1 arg2) ";
    assert_eq!(
        lexed(input),
        plain(vec![
            Token::FuncDef,
            Token::Identifier("myCalculation"),
            Token::OpenParen,
            Token::Identifier("arg1"),
            Token::Identifier("arg2"),
            Token::ClosedParen,
        ])
    );

    input = " def noParamsCall ( ) ";
    assert_eq!(
        lexed(input),
        plain(vec![
            Token::FuncDef,
            Token::Identifier("noParamsCall"),
            Token::OpenParen,
            Token::ClosedParen,
        ])
    );
}

#[test]
fn tokens_keep_the_text_of_numbers() {
    let mut tokens = "1e3 .5 5. inf NaN 1e 0x10 1.2.3".lex();
    assert_eq!(
        tokens.collect(),
        vec![
            Token::Number("1e3"),
            Token::Number(".5"),
            Token::Number("5."),
            Token::Number("inf"),
            Token::Number("NaN"),
            Token::Unknown("1e"),
            Token::Unknown("0x10"),
            Token::Unknown("1.2.3"),
        ]
    );
}

#[test]
fn chunks_are_cut_at_every_glyph() {
    let mut tokens = "a+b*(c-1);x<y>z!w=v,u|t&s^r:q%p".lex();
    assert_eq!(
        tokens.collect(),
        vec![
            Token::Identifier("a"),
            Token::Operator(Ops::Plus),
            Token::Identifier("b"),
            Token::Operator(Ops::Mult),
            Token::OpenParen,
            Token::Identifier("c"),
            Token::Operator(Ops::Minus),
            Token::Number("1"),
            Token::ClosedParen,
            Token::Semicolon,
            Token::Identifier("x"),
            Token::Operator(Ops::Lt),
            Token::Identifier("y"),
            Token::Operator(Ops::Gt),
            Token::Identifier("z"),
            Token::Operator(Ops::Neq),
            Token::Identifier("w"),
            Token::Operator(Ops::Assign),
            Token::Identifier("v"),
            Token::Comma,
            Token::Identifier("u"),
            Token::Operator(Ops::Pipe),
            Token::Identifier("t"),
            Token::Operator(Ops::Amp),
            Token::Identifier("s"),
            Token::Operator(Ops::Caret),
            Token::Identifier("r"),
            Token::Operator(Ops::Colon),
            Token::Identifier("q"),
            Token::Operator(Ops::Modulo),
            Token::Identifier("p"),
        ]
    );
}

#[test]
fn reserved_words_are_not_names() {
    let mut tokens = "def extern if then else for in var unary binary define".lex();
    assert_eq!(
        tokens.collect(),
        vec![
            Token::FuncDef,
            Token::Extern,
            Token::If,
            Token::Then,
            Token::Else,
            Token::For,
            Token::In,
            Token::Var,
            Token::UnaryOverload,
            Token::BinaryOverload,
            Token::Identifier("define"),
        ]
    );
}

#[test]
fn unknown_pieces_are_kept() {
    assert_eq!(tokenize("@home"), Token::Unknown("@home"));
    assert_eq!(tokenize("_x"), Token::Unknown("_x"));
    assert_eq!(tokenize(""), Token::Unknown(""));
    assert_eq!(tokenize("é"), Token::Identifier("é"));
}

#[test]
fn peek_leaves_the_token_in_place() {
    let mut tokens = " x + 1 ".lex();
    assert_eq!(tokens.peek(), Some(Token::Identifier("x")));
    assert_eq!(tokens.peek(), Some(Token::Identifier("x")));
    assert_eq!(tokens.next(), Some(Token::Identifier("x")));
    assert_eq!(tokens.next(), Some(Token::Operator(Ops::Plus)));
    assert_eq!(tokens.peek(), Some(Token::Number("1")));
    assert_eq!(tokens.next(), Some(Token::Number("1")));
    assert_eq!(tokens.peek(), None);
    assert_eq!(tokens.next(), None);
}

#[test]
fn explicit_tokens_come_back_in_order() {
    let given = vec![Token::Identifier("a"), Token::Comma, Token::Number("2")];
    let mut tokens = Tokens::from_tokens(given.clone());
    assert_eq!(tokens.collect(), given);
}

#[test]
fn empty_chunks_yield_nothing() {
    let mut tokens = Tokens::new(vec!["", "a", "", "+"]);
    assert_eq!(tokens.collect(), vec![Token::Identifier("a"), Token::Operator(Ops::Plus)]);
}

/// Numbers from a fixed seed, each derived from the one before.
struct Numbers(u64);

impl Numbers {
    fn next(&mut self) -> u64 {
        self.0 = self.0.wrapping_mul(6364136223846793005).wrapping_add(1442695040888963407);
        self.0 >> 33
    }

    fn text(&mut self, alphabet: &[char], longest: u64) -> String {
        let len = self.next() % (longest + 1);
        (0..len).map(|_| alphabet[(self.next() % alphabet.len() as u64) as usize]).collect()
    }
}

/// The tokens of `source` as std cuts and reads them: split at white space,
/// cut each chunk at its first glyph, and read a piece that is not a word
/// or a glyph as a float first.
fn by_std(source: &str) -> Vec<Token<'_>> {
    let glyph = |c: char| "+-*/=!<>%&|^:(),;".contains(c);
    let mut tokens = Vec::new();
    for chunk in source.split_whitespace() {
        let mut rest = chunk;
        while !rest.is_empty() {
            let mut piece = rest;
            let mut left = "";
            if rest.len() > 1 {
                if let Some(pos) = rest.find(glyph) {
                    let cut = if pos != 0 { pos } else { 1 };
                    piece = &rest[..cut];
                    left = &rest[cut..];
                }
            }
            rest = left;
            tokens.push(match piece {
                "def" => Token::FuncDef,
                "extern" => Token::Extern,
                "if" => Token::If,
                "then" => Token::Then,
                "else" => Token::Else,
                "for" => Token::For,
                "in" => Token::In,
                "var" => Token::Var,
                "unary" => Token::UnaryOverload,
                "binary" => Token::BinaryOverload,
                "+" => Token::Operator(Ops::Plus),
                "-" => Token::Operator(Ops::Minus),
                "*" => Token::Operator(Ops::Mult),
                "/" => Token::Operator(Ops::Div),
                "=" => Token::Operator(Ops::Assign),
                "!" => Token::Operator(Ops::Neq),
                "<" => Token::Operator(Ops::Lt),
                ">" => Token::Operator(Ops::Gt),
                "%" => Token::Operator(Ops::Modulo),
                "&" => Token::Operator(Ops::Amp),
                "|" => Token::Operator(Ops::Pipe),
                "^" => Token::Operator(Ops::Caret),
                ":" => Token::Operator(Ops::Colon),
                "(" => Token::OpenParen,
                ")" => Token::ClosedParen,
                "," => Token::Comma,
                ";" => Token::Semicolon,
                text => {
                    if text.parse::<f64>().is_ok() {
                        Token::Number(text)
                    } else if text.chars().next().unwrap().is_alphabetic() {
                        Token::Identifier(text)
                    } else {
                        Token::Unknown(text)
                    }
                }
            });
        }
    }
    tokens
}

#[test]
fn the_lexer_cuts_as_std_does() {
    let alphabet: Vec<char> =
        " \t\n\u{a0}\u{2003}\u{85}+-*/=!<>%&|^:(),;.0123456789eEinfdxvarytNI_@é京".chars().collect();
    let mut numbers = Numbers(7);
    for _ in 0..20000 {
        let source = numbers.text(&alphabet, 14);
        assert_eq!(source.lex().collect(), by_std(&source), "{:?}", source);
    }
    for source in [
        "def fib(n) if n < 3 then 1 else fib(n-1)+fib(n-2);",
        "extern putchard(c)\nvar a=1,b in for i=0,i<10,1.5e0 in a=a*b;",
        "binary| 5 (l r) unary!(v) inf nan -inf +1 1e+5 1e-5 .5. 5..",
        "",
        "   ",
    ] {
        assert_eq!(source.lex().collect(), by_std(source), "{:?}", source);
    }
}

#[test]
fn a_text_is_a_number_where_std_reads_a_float() {
    let alphabet: Vec<char> = "+-.0123456789eEinfatyNIFATY ".chars().collect();
    let mut numbers = Numbers(11);
    let mut floats = 0;
    for _ in 0..40000 {
        let text = numbers.text(&alphabet, 7);
        let expected = text.parse::<f64>().is_ok();
        assert_eq!(kaleidrs::text::is_number_text(&text), expected, "{:?}", text);
        if expected {
            floats += 1;
        }
    }
    assert!(floats > 1000);
    for (text, expected) in [
        ("1", true),
        ("1.", true),
        (".1", true),
        (".", false),
        ("", false),
        ("+", false),
        ("-", false),
        ("1e5", true),
        ("1E5", true),
        ("1e+5", true),
        ("1e-5", true),
        ("1e", false),
        ("1e+", false),
        ("e5", false),
        (".e5", false),
        ("1.5e10", true),
        ("+.5e-3", true),
        ("inf", true),
        ("-inf", true),
        ("+Infinity", true),
        ("infinit", false),
        ("nan", true),
        ("-NaN", true),
        ("nan1", false),
        ("0x10", false),
        ("1_000", false),
        (" 1", false),
        ("1 ", false),
        ("١", false),
        ("--1", false),
        ("1.2.3", false),
        ("1e5e5", false),
        ("1e5.5", false),
    ] {
        assert_eq!(kaleidrs::text::is_number_text(text), expected, "{:?}", text);
        assert_eq!(text.parse::<f64>().is_ok(), expected, "{:?}", text);
    }
}

#[test]
fn the_ceiling_is_that_of_the_float_for_short_literals() {
    let alphabet: Vec<char> = "+-.0123456789e".chars().collect();
    let mut numbers = Numbers(13);
    let mut compared = 0;
    for _ in 0..40000 {
        let text = numbers.text(&alphabet, 8);
        if let Ok(float) = text.parse::<f64>() {
            let mantissa = text.split('e').next().unwrap();
            if float == 0.0 && mantissa.chars().any(|c| ('1'..='9').contains(&c)) {
                // too small for a float, which reads it as zero; the ceiling
                // is that of the number as it is written
                let expected = if text.starts_with('-') { 0 } else { 1 };
                assert_eq!(kaleidrs::text::ceiling_of(&text), expected, "{:?}", text);
            } else {
                assert_eq!(kaleidrs::text::ceiling_of(&text), float.ceil() as i32, "{:?}", text);
                compared += 1;
            }
        }
    }
    assert!(compared > 1000);
}

#[test]
fn texts_are_cut_and_compared_by_their_characters() {
    assert_eq!(chars_of("aé京"), vec!['a', 'é', '京']);
    assert!(same_text("京都", "京都"));
    assert!(!same_text("京都", "京"));
    assert!(!same_text("ab", "ba"));
    assert!(same_text("", ""));
    assert_eq!(split_whitespace(" a\tbc\n\u{2003}d  "), vec!["a", "bc", "d"]);
    assert_eq!(split_whitespace(""), Vec::<&str>::new());
    assert_eq!(split_whitespace(" \n "), Vec::<&str>::new());
    for c in "+-*/=!<>%&|^:(),;".chars() {
        assert!(is_single_char_token(c));
    }
    for c in "a1_.@# \t{}[]".chars() {
        assert!(!is_single_char_token(c));
    }
}
