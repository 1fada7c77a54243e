use lox::grammar::Expected;
use lox::parser::{Expression, Operator, ParseError, Parser, Statement};
use lox::text::Fragment;
use lox::token::Category;
use lox::tokenizer::Tokenizer;

/// The text of a number as a syntax tree shows it.
fn literal_text(numeral: &str) -> String {
    let x: f64 = numeral.parse().unwrap();
    if x.trunc() == x {
        format!("{:.1}", x)
    } else {
        format!("{}", x)
    }
}

fn render(fragments: &[Fragment]) -> String {
    let mut out = String::new();
    for fragment in fragments {
        match fragment {
            Fragment::Text(text) => out.push_str(text),
            Fragment::Literal(numeral) => out.push_str(&literal_text(numeral)),
            Fragment::Numeral(numeral) => {
                out.push_str(&format!("{}", numeral.parse::<f64>().unwrap()))
            }
            Fragment::Number(bits) => out.push_str(&format!("{}", f64::from_bits(*bits))),
        }
    }
    out
}

fn parse(source: &str) -> Result<Expression, ParseError> {
    let tokenizer = Tokenizer::new(source.into());
    let mut iter = tokenizer.iter();
    let mut parser = Parser::new(&mut iter);
    parser.parse()
}

fn parse_program(source: &str) -> Result<Statement, ParseError> {
    let tokenizer = Tokenizer::new(source.into());
    let mut iter = tokenizer.iter();
    let mut parser = Parser::new(&mut iter);
    parser.parse_program()
}

fn pprint(source: &str) -> String {
    render(&parse(source).unwrap().pprint())
}

fn number(numeral: &str) -> Box<Expression> {
    Box::new(Expression::Number(numeral.into()))
}

#[test]
fn parser_test_iterator() {
    let tokenizer = Tokenizer::new("1 / 2 * 3 / 5   ".into());
    let mut iter = tokenizer.iter();
    let mut parser = Parser::new(&mut iter);

    let p = parser.parse().unwrap();
    assert_eq!(
        p,
        Expression::Binary(
            Box::new(Expression::Binary(
                Box::new(Expression::Binary(
                    Box::new(Expression::Number("1".into())),
                    Operator::Divide,
                    Box::new(Expression::Number("2".into()))
                )),
                Operator::Multiply,
                Box::new(Expression::Number("3".into()))
            )),
            Operator::Divide,
            Box::new(Expression::Number("5".into()))
        )
    );
    println!("{:?}", p);
}

#[test]
fn test_term() {
    let tokenizer = Tokenizer::new("1 + 2 / 3".into());
    let mut iter = tokenizer.iter();
    let mut parser = Parser::new(&mut iter);

    let p = parser.parse().unwrap();

    println!("{:?}", p);
    assert_eq!(
        p,
        Expression::Binary(
            Box::new(Expression::Number("1".into())),
            Operator::Add,
            Box::new(Expression::Binary(
                Box::new(Expression::Number("2".into())),
                Operator::Divide,
                Box::new(Expression::Number("3".into()))
            ))
        )
    )
}

#[test]
fn test_unary() {
    let tokenizer = Tokenizer::new("-1 + 2 / -3".into());
    let mut iter = tokenizer.iter();
    let mut parser = Parser::new(&mut iter);

    let p = parser.parse().unwrap();

    println!("{:?}", p);
    assert_eq!(
        p,
        Expression::Binary(
            Box::new(Expression::Unary(
                Operator::Subtract,
                Box::new(Expression::Number("1".into()))
            )),
            Operator::Add,
            Box::new(Expression::Binary(
                Box::new(Expression::Number("2".into())),
                Operator::Divide,
                Box::new(Expression::Unary(
                    Operator::Subtract,
                    Box::new(Expression::Number("3".into()))
                ))
            ))
        )
    )
}

#[test]
fn test_boolean() {
    let tokenizer = Tokenizer::new("(4+2)*3 == 18".into());
    let mut iter = tokenizer.iter();
    let mut parser = Parser::new(&mut iter);

    let p = parser.parse().unwrap();

    println!("{:?}", p);
    println!("{}", render(&p.pprint()));
}

#[test]
fn test_boolean_2() {
    let tokenizer = Tokenizer::new("!true and true".into());
    let mut iter = tokenizer.iter();
    let mut parser = Parser::new(&mut iter);

    let p = parser.parse().unwrap();

    println!("{:?}", p);
    println!("{}", render(&p.pprint()));
}

#[test]
fn grouping_shows_in_the_printed_tree() {
    assert_eq!(pprint("(4+2)*3 == 18"), "(== (* (group (+ 4.0 2.0)) 3.0) 18.0)");
    assert_eq!(pprint("4+2*3 == 18"), "(== (+ 4.0 (* 2.0 3.0)) 18.0)");
    assert_eq!(
        parse("(4+2)*3 == 18").unwrap(),
        Expression::Binary(
            Box::new(Expression::Binary(
                Box::new(Expression::Group(Box::new(Expression::Binary(
                    number("4"),
                    Operator::Add,
                    number("2")
                )))),
                Operator::Multiply,
                number("3")
            )),
            Operator::EqualEqual,
            number("18")
        )
    );
}

#[test]
fn printed_tree_forms() {
    assert_eq!(pprint("1 + 2"), "(+ 1.0 2.0)");
    assert_eq!(pprint("!true and true"), "(&& (! true) true)");
    assert_eq!(pprint("a or b"), "(|| a b)");
    assert_eq!(pprint("nil"), "nil");
    assert_eq!(pprint("false"), "false");
    assert_eq!(pprint("\"hello\""), "hello");
    assert_eq!(pprint("(\"foo\")"), "(group foo)");
    assert_eq!(pprint("-(-1.50)"), "(- (group (- 1.5)))");
    assert_eq!(pprint("!!nil"), "(! (! nil))");
    assert_eq!(pprint("12.34"), "12.34");
    assert_eq!(pprint("52 - 94 / 2"), "(- 52.0 (/ 94.0 2.0))");
    assert_eq!(pprint("1 < 2 <= 3 > 4 >= 5"), "(>= (> (<= (< 1.0 2.0) 3.0) 4.0) 5.0)");
    assert_eq!(pprint("1 != 2 == 3"), "(== (!= 1.0 2.0) 3.0)");
}

#[test]
fn printing_does_not_depend_on_layout() {
    let plain = pprint("(4+2)*3==18");
    assert_eq!(pprint("  ( 4 +\n2 )\t* 3\r\n ==   18  "), plain);
    assert_eq!(pprint("(4+2)// sum\n*3==18 // done"), plain);
    assert_eq!(pprint("(4.0+2.00)*3.000==18."), plain);
    assert_eq!(
        parse("1   +\n\n 2").unwrap(),
        parse("1+2").unwrap()
    );
}

#[test]
fn printed_tree_is_given_in_pieces() {
    assert_eq!(
        parse("-1.50").unwrap().pprint(),
        vec![
            Fragment::Text("(- ".into()),
            Fragment::Literal("1.50".into()),
            Fragment::Text(")".into())
        ]
    );
}

#[test]
fn binary_levels_nest_by_precedence() {
    assert_eq!(
        pprint("1 or 2 and 3 == 4 < 5 + 6 * -7"),
        "(|| 1.0 (&& 2.0 (== 3.0 (< 4.0 (+ 5.0 (* 6.0 (- 7.0)))))))"
    );
    assert_eq!(
        pprint("-7 * 6 + 5 < 4 == 3 and 2 or 1"),
        "(|| (&& (== (< (+ (* (- 7.0) 6.0) 5.0) 4.0) 3.0) 2.0) 1.0)"
    );
}

#[test]
fn binary_levels_associate_to_the_left() {
    assert_eq!(pprint("1 - 2 - 3"), "(- (- 1.0 2.0) 3.0)");
    assert_eq!(pprint("1 - 2 + 3"), "(+ (- 1.0 2.0) 3.0)");
    assert_eq!(pprint("a and b and c"), "(&& (&& a b) c)");
    assert_eq!(pprint("a or b or c"), "(|| (|| a b) c)");
    assert_eq!(pprint("8 / 4 / 2"), "(/ (/ 8.0 4.0) 2.0)");
}

#[test]
fn parse_stops_behind_the_expression() {
    let tokenizer = Tokenizer::new("1 + 2 3 )".into());
    let mut iter = tokenizer.iter();
    let mut parser = Parser::new(&mut iter);
    assert_eq!(render(&parser.parse().unwrap().pprint()), "(+ 1.0 2.0)");
    assert_eq!(render(&parser.parse().unwrap().pprint()), "3.0");
    assert_eq!(
        parser.parse(),
        Err(ParseError {
            expected: Expected::Expression,
            found: Category::RightParen,
            line: 1,
            column: 8
        })
    );
}

#[test]
fn a_missing_right_parenthesis_is_an_error() {
    // the failure is reported at the parenthesis that is not closed
    assert_eq!(
        parse("(1 + 2"),
        Err(ParseError {
            expected: Expected::RightParen,
            found: Category::EndOfFile,
            line: 1,
            column: 0
        })
    );
    assert_eq!(
        parse("(1 + 2 ;"),
        Err(ParseError {
            expected: Expected::RightParen,
            found: Category::Semicolon,
            line: 1,
            column: 0
        })
    );
    assert_eq!(
        parse("1 *\n  ((2)\n + (3 4"),
        Err(ParseError {
            expected: Expected::RightParen,
            found: Category::Number,
            line: 3,
            column: 3
        })
    );
    assert_eq!(
        parse("1 *\n  ((2)\n + (3)"),
        Err(ParseError {
            expected: Expected::RightParen,
            found: Category::EndOfFile,
            line: 2,
            column: 2
        })
    );
}

#[test]
fn a_token_that_starts_no_expression_is_an_error() {
    assert_eq!(
        parse("1 +\n  * 2"),
        Err(ParseError {
            expected: Expected::Expression,
            found: Category::Star,
            line: 2,
            column: 2
        })
    );
    assert_eq!(
        parse(""),
        Err(ParseError {
            expected: Expected::Expression,
            found: Category::EndOfFile,
            line: 0,
            column: 0
        })
    );
    assert_eq!(
        parse("()"),
        Err(ParseError {
            expected: Expected::Expression,
            found: Category::RightParen,
            line: 1,
            column: 1
        })
    );
    assert_eq!(
        parse("1 + @"),
        Err(ParseError {
            expected: Expected::Expression,
            found: Category::Error,
            line: 0,
            column: 0
        })
    );
    assert_eq!(
        parse("var"),
        Err(ParseError {
            expected: Expected::Expression,
            found: Category::Var,
            line: 1,
            column: 0
        })
    );
}

#[test]
fn error_messages_at_the_end_of_input() {
    let tokenizer = Tokenizer::new("".into());
    let mut iter = tokenizer.iter();
    let mut parser = Parser::new(&mut iter);
    assert_eq!(parser.operator().unwrap_err().message(), "Expected operator, got EOF");
    assert_eq!(parser.operator().unwrap_err().message(), "Expected operator, got EOF");
    assert_eq!(parse("").unwrap_err().message(), "Unexpected EOF.");
    assert_eq!(parse("1 +").unwrap_err().message(), "Unexpected EOF.");
    assert_eq!(parse("-").unwrap_err().message(), "Unexpected EOF.");
    assert_eq!(parse("(").unwrap_err().message(), "Unexpected EOF.");
    assert_eq!(parse_program("print").unwrap_err().message(), "Unexpected EOF.");
    assert_eq!(
        parse_program("print 1").unwrap_err().message(),
        "Expected ; after expression."
    );
    assert_eq!(parse_program("1 + 2").unwrap_err().message(), "Expected ; after expression.");
    assert_eq!(
        parse_program("var a = 1").unwrap_err().message(),
        "Expected ; after expression."
    );
    assert_eq!(
        parse_program("var").unwrap_err().message(),
        "Expected variable name, got EOF"
    );
    assert_eq!(parse_program("var a").unwrap_err().message(), "Expected '=', got EOF");
}

#[test]
fn error_messages_for_an_open_group() {
    assert_eq!(parse("(1 + 2").unwrap_err().message(), "Expected ')' at line:1 col:0");
    assert_eq!(parse("(1 + 2 ;").unwrap_err().message(), "Expected ')' at line:1 col:0");
    assert_eq!(
        parse("1 *\n  ((2)\n + (3 4").unwrap_err().message(),
        "Expected ')' at line:3 col:3"
    );
}

#[test]
fn error_messages_at_a_token() {
    assert_eq!(parse("\n\n *").unwrap_err().message(), "Unexpected");
    assert_eq!(parse("()").unwrap_err().message(), "Unexpected");
    assert_eq!(parse("1 + @").unwrap_err().message(), "Unexpected");
    assert_eq!(
        parse_program("print 1\nprint 2;").unwrap_err().message(),
        "Expected ';' actual PRINT at line:2 col:0"
    );
    assert_eq!(
        parse_program("var 1 = 2;").unwrap_err().message(),
        "Expected variable name actual NUMBER at line:1 col:4"
    );
    assert_eq!(
        parse_program("var a 2;").unwrap_err().message(),
        "Expected '=' actual NUMBER at line:1 col:6"
    );
    // an error token carries no position
    assert_eq!(
        parse_program("1 @").unwrap_err().message(),
        "Expected ';' actual ERROR"
    );
    let tokenizer = Tokenizer::new("  1".into());
    let mut iter = tokenizer.iter();
    let mut parser = Parser::new(&mut iter);
    assert_eq!(
        parser.operator().unwrap_err().message(),
        "Expected operator actual NUMBER at line:1 col:2"
    );
}

#[test]
fn what_was_looked_for_in_words() {
    assert_eq!(Expected::Expression.words(), "expression");
    assert_eq!(Expected::RightParen.words(), "')'");
    assert_eq!(Expected::Semicolon.words(), "';'");
    assert_eq!(Expected::Identifier.words(), "variable name");
    assert_eq!(Expected::Equal.words(), "'='");
    assert_eq!(Expected::Operator.words(), "operator");
}

#[test]
fn programs_are_sequences_of_statements() {
    assert_eq!(parse_program("").unwrap(), Statement::Program(vec![]));
    assert_eq!(
        parse_program("print 1; 2 + 3; print \"x\";").unwrap(),
        Statement::Program(vec![
            Statement::Print(number("1")),
            Statement::ExprStmt(Box::new(Expression::Binary(
                number("2"),
                Operator::Add,
                number("3")
            ))),
            Statement::Print(Box::new(Expression::String("x".into()))),
        ])
    );
}

#[test]
fn declarations_and_assignments_bind_a_name() {
    assert_eq!(
        parse_program("var a= 1;a=a+1;").unwrap(),
        Statement::Program(vec![
            Statement::Declaration("a".into(), number("1")),
            Statement::Declaration(
                "a".into(),
                Box::new(Expression::Binary(
                    Box::new(Expression::Identifier("a".into())),
                    Operator::Add,
                    number("1")
                ))
            ),
        ])
    );
    assert_eq!(
        parse_program("a == 1;").unwrap(),
        Statement::Program(vec![Statement::ExprStmt(Box::new(Expression::Binary(
            Box::new(Expression::Identifier("a".into())),
            Operator::EqualEqual,
            number("1")
        )))])
    );
}

#[test]
fn a_missing_semicolon_is_an_error() {
    assert_eq!(
        parse_program("print 1\nprint 2;"),
        Err(ParseError {
            expected: Expected::Semicolon,
            found: Category::Print,
            line: 2,
            column: 0
        })
    );
    assert_eq!(
        parse_program("1 + 2"),
        Err(ParseError {
            expected: Expected::Semicolon,
            found: Category::EndOfFile,
            line: 0,
            column: 0
        })
    );
    assert_eq!(
        parse_program("a = 1 b"),
        Err(ParseError {
            expected: Expected::Semicolon,
            found: Category::Identifier,
            line: 1,
            column: 6
        })
    );
    assert_eq!(
        parse_program("a + 1 = 2;"),
        Err(ParseError {
            expected: Expected::Semicolon,
            found: Category::Equal,
            line: 1,
            column: 6
        })
    );
}

#[test]
fn the_first_failure_ends_the_parse() {
    assert_eq!(
        parse_program("print 1; print ; print )"),
        Err(ParseError {
            expected: Expected::Expression,
            found: Category::Semicolon,
            line: 1,
            column: 15
        })
    );
}

#[test]
fn operator_takes_the_next_token() {
    let tokenizer = Tokenizer::new("* + - / == != < <= > >= ! and or 1".into());
    let mut iter = tokenizer.iter();
    let mut parser = Parser::new(&mut iter);
    let expected = [
        Operator::Multiply,
        Operator::Add,
        Operator::Subtract,
        Operator::Divide,
        Operator::EqualEqual,
        Operator::BangEqual,
        Operator::Less,
        Operator::LessEqual,
        Operator::Greater,
        Operator::GreaterEqual,
        Operator::Bang,
        Operator::And,
        Operator::Or,
    ];
    for op in expected {
        assert_eq!(parser.operator(), Ok(op));
    }
    let stuck = Err(ParseError {
        expected: Expected::Operator,
        found: Category::Number,
        line: 1,
        column: 33,
    });
    assert_eq!(parser.operator(), stuck);
    assert_eq!(parser.operator(), stuck);
    assert_eq!(parser.parse(), Ok(Expression::Number("1".into())));
    assert_eq!(
        parser.operator(),
        Err(ParseError {
            expected: Expected::Operator,
            found: Category::EndOfFile,
            line: 0,
            column: 0
        })
    );
}

#[test]
fn a_parser_takes_what_the_scanner_has_left() {
    let tokenizer = Tokenizer::new("1 2 3".into());
    let mut iter = tokenizer.iter();
    iter.next();
    let mut parser = Parser::new(&mut iter);
    assert_eq!(iter.next(), None);
    assert_eq!(parser.parse(), Ok(Expression::Number("2".into())));
    let mut empty = Parser::new(&mut iter);
    assert_eq!(
        empty.parse(),
        Err(ParseError {
            expected: Expected::Expression,
            found: Category::EndOfFile,
            line: 0,
            column: 0
        })
    );
    assert_eq!(empty.parse_program(), Ok(Statement::Program(vec![])));
}

#[test]
fn operator_signs() {
    assert_eq!(Operator::Add.sign(), "+");
    assert_eq!(Operator::And.sign(), "&&");
    assert_eq!(Operator::Or.sign(), "||");
    assert_eq!(Operator::Power.sign(), "^");
    assert_eq!(
        render(&Expression::Binary(number("2"), Operator::Power, number("0.5")).pprint()),
        "(^ 2.0 0.5)"
    );
}
