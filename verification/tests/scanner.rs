use lox::text::Fragment;
use lox::token::{Category, Literal, Token};
use lox::tokenizer::Tokenizer;

fn scan(source: &str) -> Vec<Token> {
    Tokenizer::new(source.into()).tokens()
}

fn categories(source: &str) -> Vec<Category> {
    scan(source).iter().map(|token| token.category()).collect()
}

/// The text of a number as a token listing shows it.
fn literal_text(numeral: &str) -> String {
    let x: f64 = numeral.parse().unwrap();
    if x.trunc() == x {
        format!("{:.1}", x)
    } else {
        format!("{}", x)
    }
}

fn render(fragments: &[Fragment]) -> String {
    let mut out = String::new();
    for fragment in fragments {
        match fragment {
            Fragment::Text(text) => out.push_str(text),
            Fragment::Literal(numeral) => out.push_str(&literal_text(numeral)),
            Fragment::Numeral(numeral) => {
                out.push_str(&format!("{}", numeral.parse::<f64>().unwrap()))
            }
            Fragment::Number(bits) => out.push_str(&format!("{}", f64::from_bits(*bits))),
        }
    }
    out
}

fn listing(source: &str) -> Vec<String> {
    scan(source).iter().map(|token| render(&token.to_text())).collect()
}

#[test]
fn tokenizer_test_iterator() {
    let tokenizer = Tokenizer::new("2+3+5/(2+1)".into());
    let mut i = tokenizer.iter();
    println!("{:#?}", i.next());

    println!("{:#?}", i.next());

    println!("{:#?}", i.next());
    let mut iter = tokenizer.iter();
    while let Some(token) = iter.next() {
        println!("{}", render(&token.to_text()));
    }
}

#[test]
fn iterator_yields_tokens_in_order_then_end_then_nothing() {
    let tokenizer = Tokenizer::new("2+3".into());
    let mut i = tokenizer.iter();
    assert_eq!(i.next(), Some(Token::Number("2".into(), 1, 0, "2".into())));
    assert_eq!(i.next(), Some(Token::Plus("+".into(), 1, 1)));
    assert_eq!(i.next(), Some(Token::Number("3".into(), 1, 2, "3".into())));
    assert_eq!(i.next(), Some(Token::EndOfFile));
    assert_eq!(i.next(), None);
    assert_eq!(i.next(), None);
}

#[test]
fn iterators_of_one_tokenizer_are_independent() {
    let tokenizer = Tokenizer::new("a b".into());
    let mut first = tokenizer.iter();
    let mut second = tokenizer.iter();
    assert_eq!(first.next(), second.next());
    assert_eq!(first.next(), Some(Token::Identifier("b".into(), 1, 2, "b".into())));
    assert_eq!(second.next(), Some(Token::Identifier("b".into(), 1, 2, "b".into())));
}

#[test]
fn empty_source_is_end_of_input() {
    assert_eq!(scan(""), vec![Token::EndOfFile]);
    assert_eq!(scan("  \t\r\n "), vec![Token::EndOfFile]);
    assert_eq!(listing(""), vec!["EOF  null".to_string()]);
}

#[test]
fn exactly_one_end_of_input_and_it_is_last() {
    for source in ["", "1", "(a+b)*c // x", "\"open", "@ # $", "var a = 1;\nprint a;"] {
        let tokens = scan(source);
        let ends = tokens.iter().filter(|t| **t == Token::EndOfFile).count();
        assert_eq!(ends, 1, "{source}");
        assert_eq!(tokens.last(), Some(&Token::EndOfFile), "{source}");
    }
}

#[test]
fn single_character_tokens() {
    assert_eq!(
        categories("(){}*.,+-;/:"),
        vec![
            Category::LeftParen,
            Category::RightParen,
            Category::LeftBrace,
            Category::RightBrace,
            Category::Star,
            Category::Dot,
            Category::Comma,
            Category::Plus,
            Category::Minus,
            Category::Semicolon,
            Category::Slash,
            Category::Colon,
            Category::EndOfFile,
        ]
    );
}

#[test]
fn two_character_operators_are_taken_greedily() {
    assert_eq!(
        scan("= == ! != < <= > >="),
        vec![
            Token::Equal("=".into(), 1, 0),
            Token::EqualEqual("==".into(), 1, 2),
            Token::Bang("!".into(), 1, 5),
            Token::BangEqual("!=".into(), 1, 7),
            Token::Less("<".into(), 1, 10),
            Token::LessEqual("<=".into(), 1, 12),
            Token::Greater(">".into(), 1, 15),
            Token::GreaterEqual(">=".into(), 1, 17),
            Token::EndOfFile,
        ]
    );
    assert_eq!(
        categories("==="),
        vec![Category::EqualEqual, Category::Equal, Category::EndOfFile]
    );
    assert_eq!(
        categories("!==<=="),
        vec![
            Category::BangEqual,
            Category::Equal,
            Category::LessEqual,
            Category::Equal,
            Category::EndOfFile
        ]
    );
    assert_eq!(categories("="), vec![Category::Equal, Category::EndOfFile]);
}

#[test]
fn comments_run_to_the_end_of_the_line() {
    assert_eq!(
        scan("1 // two three\n4"),
        vec![
            Token::Number("1".into(), 1, 0, "1".into()),
            Token::Number("4".into(), 2, 0, "4".into()),
            Token::EndOfFile,
        ]
    );
    assert_eq!(scan("// only a comment"), vec![Token::EndOfFile]);
    assert_eq!(scan("//"), vec![Token::EndOfFile]);
    assert_eq!(
        scan("/ /"),
        vec![Token::Slash("/".into(), 1, 0), Token::Slash("/".into(), 1, 2), Token::EndOfFile]
    );
}

#[test]
fn strings_carry_their_contents_without_the_quotes() {
    assert_eq!(
        scan("\"Hello World\""),
        vec![
            Token::String("\"Hello World\"".into(), 1, 0, "Hello World".into()),
            Token::EndOfFile
        ]
    );
    assert_eq!(
        scan("\"\""),
        vec![Token::String("\"\"".into(), 1, 0, "".into()), Token::EndOfFile]
    );
    assert_eq!(
        scan("\"a\"\"b\""),
        vec![
            Token::String("\"a\"".into(), 1, 0, "a".into()),
            Token::String("\"b\"".into(), 1, 3, "b".into()),
            Token::EndOfFile
        ]
    );
}

#[test]
fn strings_may_span_lines_and_hold_any_character() {
    assert_eq!(
        scan("\"a\nb\" x"),
        vec![
            Token::String("\"a\nb\"".into(), 1, 0, "a\nb".into()),
            Token::Identifier("x".into(), 2, 3, "x".into()),
            Token::EndOfFile
        ]
    );
    assert_eq!(
        scan("\"é ☃ // no comment\""),
        vec![
            Token::String("\"é ☃ // no comment\"".into(), 1, 0, "é ☃ // no comment".into()),
            Token::EndOfFile
        ]
    );
}

#[test]
fn unterminated_string_is_an_error_token_naming_the_line() {
    assert_eq!(
        scan("\"abc"),
        vec![Token::Error("[line 1] Error: Unterminated string.".into()), Token::EndOfFile]
    );
    assert_eq!(
        scan("1;\n\n  \"abc\nmore"),
        vec![
            Token::Number("1".into(), 1, 0, "1".into()),
            Token::Semicolon(";".into(), 1, 1),
            Token::Error("[line 3] Error: Unterminated string.".into()),
            Token::EndOfFile
        ]
    );
    assert_eq!(
        scan("\""),
        vec![Token::Error("[line 1] Error: Unterminated string.".into()), Token::EndOfFile]
    );
}

#[test]
fn scanning_goes_on_behind_an_error() {
    assert_eq!(
        scan("1 @ 2 \"x\" # \"y"),
        vec![
            Token::Number("1".into(), 1, 0, "1".into()),
            Token::Error("[line 1] Error: Unexpected character: @".into()),
            Token::Number("2".into(), 1, 4, "2".into()),
            Token::String("\"x\"".into(), 1, 6, "x".into()),
            Token::Error("[line 1] Error: Unexpected character: #".into()),
            Token::Error("[line 1] Error: Unterminated string.".into()),
            Token::EndOfFile,
        ]
    );
}

#[test]
fn unexpected_characters_name_their_line() {
    assert_eq!(
        scan("\n\n\n\n\n\n\n\n\n\n\n$"),
        vec![Token::Error("[line 12] Error: Unexpected character: $".into()), Token::EndOfFile]
    );
    assert_eq!(
        scan("[^`é"),
        vec![
            Token::Error("[line 1] Error: Unexpected character: [".into()),
            Token::Error("[line 1] Error: Unexpected character: ^".into()),
            Token::Error("[line 1] Error: Unexpected character: `".into()),
            Token::Error("[line 1] Error: Unexpected character: é".into()),
            Token::EndOfFile
        ]
    );
}

#[test]
fn numbers_take_a_fraction_only_with_digits_behind_the_dot() {
    assert_eq!(
        scan("12.50"),
        vec![Token::Number("12.50".into(), 1, 0, "12.50".into()), Token::EndOfFile]
    );
    assert_eq!(
        scan("1."),
        vec![
            Token::Number("1".into(), 1, 0, "1".into()),
            Token::Dot(".".into(), 1, 1),
            Token::EndOfFile
        ]
    );
    assert_eq!(
        scan(".5"),
        vec![
            Token::Dot(".".into(), 1, 0),
            Token::Number("5".into(), 1, 1, "5".into()),
            Token::EndOfFile
        ]
    );
    assert_eq!(
        scan("1.2.3"),
        vec![
            Token::Number("1.2".into(), 1, 0, "1.2".into()),
            Token::Dot(".".into(), 1, 3),
            Token::Number("3".into(), 1, 4, "3".into()),
            Token::EndOfFile
        ]
    );
    assert_eq!(
        scan("1..2"),
        vec![
            Token::Number("1".into(), 1, 0, "1".into()),
            Token::Dot(".".into(), 1, 1),
            Token::Dot(".".into(), 1, 2),
            Token::Number("2".into(), 1, 3, "2".into()),
            Token::EndOfFile
        ]
    );
    assert_eq!(
        categories("7abc"),
        vec![Category::Number, Category::Identifier, Category::EndOfFile]
    );
}

#[test]
fn every_keyword_has_its_category() {
    assert_eq!(
        categories(
            "and class else false for fun if nil or print return super this true var while"
        ),
        vec![
            Category::And,
            Category::Class,
            Category::Else,
            Category::False,
            Category::For,
            Category::Fun,
            Category::If,
            Category::Nil,
            Category::Or,
            Category::Print,
            Category::Return,
            Category::Super,
            Category::This,
            Category::True,
            Category::Var,
            Category::While,
            Category::EndOfFile,
        ]
    );
    assert_eq!(scan("while"), vec![Token::While("while".into(), 1, 0), Token::EndOfFile]);
}

#[test]
fn keywords_are_matched_by_case_and_as_whole_words() {
    assert_eq!(
        scan("And"),
        vec![Token::Identifier("And".into(), 1, 0, "And".into()), Token::EndOfFile]
    );
    assert_eq!(
        categories("NIL nil_ _nil nile ifx or1 _ a_1 order"),
        vec![
            Category::Identifier,
            Category::Identifier,
            Category::Identifier,
            Category::Identifier,
            Category::Identifier,
            Category::Identifier,
            Category::Identifier,
            Category::Identifier,
            Category::Identifier,
            Category::EndOfFile,
        ]
    );
}

#[test]
fn words_go_on_over_letters_and_numbers_of_any_script() {
    assert_eq!(
        scan("café straße x٣ a_é1"),
        vec![
            Token::Identifier("café".into(), 1, 0, "café".into()),
            Token::Identifier("straße".into(), 1, 5, "straße".into()),
            Token::Identifier("x٣".into(), 1, 12, "x٣".into()),
            Token::Identifier("a_é1".into(), 1, 15, "a_é1".into()),
            Token::EndOfFile,
        ]
    );
    // a word starts with an ASCII letter or an underscore only
    assert_eq!(
        scan("éa"),
        vec![
            Token::Error("[line 1] Error: Unexpected character: é".into()),
            Token::Identifier("a".into(), 1, 1, "a".into()),
            Token::EndOfFile,
        ]
    );
    // what is neither letter nor number ends a word
    assert_eq!(
        scan("a☃b a-b"),
        vec![
            Token::Identifier("a".into(), 1, 0, "a".into()),
            Token::Error("[line 1] Error: Unexpected character: ☃".into()),
            Token::Identifier("b".into(), 1, 2, "b".into()),
            Token::Identifier("a".into(), 1, 4, "a".into()),
            Token::Minus("-".into(), 1, 5),
            Token::Identifier("b".into(), 1, 6, "b".into()),
            Token::EndOfFile,
        ]
    );
    // a keyword that goes on is a name
    assert_eq!(
        scan("nilé"),
        vec![Token::Identifier("nilé".into(), 1, 0, "nilé".into()), Token::EndOfFile]
    );
}

#[test]
fn lines_and_columns_follow_the_characters() {
    assert_eq!(
        scan("a\n  b\tc\r\nde f"),
        vec![
            Token::Identifier("a".into(), 1, 0, "a".into()),
            Token::Identifier("b".into(), 2, 2, "b".into()),
            Token::Identifier("c".into(), 2, 4, "c".into()),
            Token::Identifier("de".into(), 3, 0, "de".into()),
            Token::Identifier("f".into(), 3, 3, "f".into()),
            Token::EndOfFile,
        ]
    );
}

#[test]
fn token_listing_lines() {
    assert_eq!(
        listing("(){};,+-*!===<=>=!=<>/."),
        vec![
            "LEFT_PAREN ( null",
            "RIGHT_PAREN ) null",
            "LEFT_BRACE { null",
            "RIGHT_BRACE } null",
            "SEMICOLON ; null",
            "COMMA , null",
            "PLUS + null",
            "MINUS - null",
            "STAR * null",
            "BANG_EQUAL != null",
            "EQUAL_EQUAL == null",
            "LESS_EQUAL <= null",
            "GREATER_EQUAL >= null",
            "BANG_EQUAL != null",
            "LESS < null",
            "GREATER > null",
            "SLASH / null",
            "DOT . null",
            "EOF  null",
        ]
    );
    assert_eq!(
        listing("var x = \"hi there\"; print nil : y"),
        vec![
            "VAR var null",
            "IDENTIFIER x null",
            "EQUAL = null",
            "STRING \"hi there\" hi there",
            "SEMICOLON ; null",
            "PRINT print null",
            "NIL nil null",
            "COLON : null",
            "IDENTIFIER y null",
            "EOF  null",
        ]
    );
    assert_eq!(
        listing("and class else false for fun if or return super this true while"),
        vec![
            "AND and null",
            "CLASS class null",
            "ELSE else null",
            "FALSE false null",
            "FOR for null",
            "FUN fun null",
            "IF if null",
            "OR or null",
            "RETURN return null",
            "SUPER super null",
            "THIS this null",
            "TRUE true null",
            "WHILE while null",
            "EOF  null",
        ]
    );
}

#[test]
fn numbers_are_listed_with_a_decimal_place_when_whole() {
    assert_eq!(
        listing("42 12.50 0.25 1234.1234 007 200.00"),
        vec![
            "NUMBER 42 42.0",
            "NUMBER 12.50 12.5",
            "NUMBER 0.25 0.25",
            "NUMBER 1234.1234 1234.1234",
            "NUMBER 007 7.0",
            "NUMBER 200.00 200.0",
            "EOF  null",
        ]
    );
}

#[test]
fn error_tokens_are_listed_by_their_message() {
    assert_eq!(
        listing("%"),
        vec!["[line 1] Error: Unexpected character: %", "EOF  null"]
    );
}

#[test]
fn token_parts() {
    let tokens = scan("x = 1.5 \"s\" ?");
    assert_eq!(tokens[0].lexeme(), "x");
    assert_eq!(tokens[0].payload(), "x");
    assert_eq!(tokens[0].position(), (1, 0));
    assert_eq!(tokens[0].literal(), Literal::Null);
    assert_eq!(tokens[1].lexeme(), "=");
    assert_eq!(tokens[1].payload(), "");
    assert_eq!(tokens[1].literal(), Literal::Null);
    assert_eq!(tokens[2].category(), Category::Number);
    assert_eq!(tokens[2].literal(), Literal::Number("1.5".into()));
    assert_eq!(tokens[3].lexeme(), "\"s\"");
    assert_eq!(tokens[3].literal(), Literal::String("s".into()));
    assert_eq!(tokens[3].position(), (1, 8));
    assert_eq!(tokens[4].category(), Category::Error);
    assert_eq!(tokens[4].lexeme(), "");
    assert_eq!(tokens[4].position(), (0, 0));
    assert_eq!(tokens[4].payload(), "[line 1] Error: Unexpected character: ?");
    assert_eq!(tokens[5].category(), Category::EndOfFile);
    assert_eq!(tokens[5].position(), (0, 0));
}

#[test]
fn token_new_keeps_what_the_category_carries() {
    assert_eq!(
        Token::new(Category::Plus, "+".into(), 3, 4, "dropped".into()),
        Token::Plus("+".into(), 3, 4)
    );
    assert_eq!(
        Token::new(Category::Number, "1.0".into(), 3, 4, "1.0".into()),
        Token::Number("1.0".into(), 3, 4, "1.0".into())
    );
    assert_eq!(
        Token::new(Category::Error, "dropped".into(), 3, 4, "message".into()),
        Token::Error("message".into())
    );
    assert_eq!(
        Token::new(Category::EndOfFile, "dropped".into(), 3, 4, "dropped".into()),
        Token::EndOfFile
    );
    assert_eq!(
        Token::new(Category::While, "while".into(), 1, 0, "".into()),
        Token::While("while".into(), 1, 0)
    );
}

#[test]
fn literal_text_forms() {
    assert_eq!(Literal::Null.text(), Fragment::Text("NULL".into()));
    assert_eq!(Literal::Number("1.50".into()).text(), Fragment::Numeral("1.50".into()));
    assert_eq!(render(&[Literal::Number("1.50".into()).text()]), "1.5");
    assert_eq!(render(&[Literal::Number("2".into()).text()]), "2");
    assert_eq!(render(&[Literal::Null.text()]), "NULL");
    assert_eq!(Literal::String("abc".into()).text(), Fragment::Text("abc".into()));
}

#[test]
fn category_names() {
    assert_eq!(Category::LeftParen.name(), "LEFT_PAREN");
    assert_eq!(Category::GreaterEqual.name(), "GREATER_EQUAL");
    assert_eq!(Category::Identifier.name(), "IDENTIFIER");
    assert_eq!(Category::EndOfFile.name(), "EOF");
}
