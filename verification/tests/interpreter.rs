use lox::interpreter::{
    Arithmetic, EvalError, Kind, Reduction, Request, RuntimeValue,
};
use lox::machine::Action;
use lox::number;
use lox::parser::{Expression, Operator, Parser, Statement};
use lox::text::Fragment;
use lox::tokenizer::Tokenizer;
use lox::variables::Variables;

/// Answers the evaluator's questions about numbers with the machine's
/// doubles.
fn kernel(request: Request) -> u64 {
    match request {
        Request::Decode(numeral) => numeral.parse::<f64>().unwrap().to_bits(),
        Request::Compute(op, left, right) => {
            let x = f64::from_bits(left);
            let y = f64::from_bits(right);
            let z = match op {
                Arithmetic::Add => x + y,
                Arithmetic::Subtract => x - y,
                Arithmetic::Multiply => x * y,
                Arithmetic::Divide => x / y,
            };
            z.to_bits()
        }
    }
}

fn num(x: f64) -> RuntimeValue {
    RuntimeValue::Number(x.to_bits())
}

fn text(s: &str) -> RuntimeValue {
    RuntimeValue::String(s.into())
}

fn parse(source: &str) -> Expression {
    let tokenizer = Tokenizer::new(source.into());
    let mut iter = tokenizer.iter();
    let mut parser = Parser::new(&mut iter);
    parser.parse().unwrap()
}

fn parse_program(source: &str) -> Statement {
    let tokenizer = Tokenizer::new(source.into());
    let mut iter = tokenizer.iter();
    let mut parser = Parser::new(&mut iter);
    parser.parse_program().unwrap()
}

fn evaluate(source: &str) -> Result<RuntimeValue, EvalError> {
    let mut variables = Variables::new();
    parse(source).eval().run(&mut variables, &kernel).1
}

/// The lines that a program prints, and how it ends.
fn run(source: &str) -> (Vec<String>, Result<RuntimeValue, EvalError>) {
    let mut variables = Variables::new();
    let (printed, end) = parse_program(source).eval().run(&mut variables, &kernel);
    (printed.iter().map(show).collect(), end)
}

fn show(value: &RuntimeValue) -> String {
    match value.text() {
        Fragment::Text(text) => text,
        Fragment::Literal(numeral) => numeral,
        Fragment::Numeral(numeral) => numeral,
        Fragment::Number(bits) => format!("{}", f64::from_bits(bits)),
    }
}

/// Applies an operator to two values, computing where it asks to.
fn settle(reduced: Result<Reduction, EvalError>) -> Result<RuntimeValue, EvalError> {
    match reduced {
        Ok(Reduction::Value(value)) => Ok(value),
        Ok(Reduction::Ask(request)) => Ok(RuntimeValue::Number(kernel(request))),
        Err(error) => Err(error),
    }
}

#[test]
fn test_add() {
    let tokenizer = Tokenizer::new("1+2+3+4".into());
    let mut iter = tokenizer.iter();
    let mut parser = Parser::new(&mut iter);
    let mut varialbes = Variables::new();
    let p = parser.parse().unwrap().eval().run(&mut varialbes, &kernel).1.unwrap();

    println!("{:?}", p);
    assert_eq!(p, RuntimeValue::Number(10.0f64.to_bits()));
}

#[test]
fn test_add_strings() {
    let tokenizer = Tokenizer::new("\"Hello \" + \"World\"".into());
    let mut iter = tokenizer.iter();
    let mut parser = Parser::new(&mut iter);
    let mut varialbes = Variables::new();
    let p = parser.parse().unwrap().eval().run(&mut varialbes, &kernel).1.unwrap();

    println!("{:?}", p);
    assert_eq!(p, RuntimeValue::String("Hello World".into()));
}

#[test]
fn test_bool_logic() {
    let tokenizer = Tokenizer::new("4 < 7 and 7 < 9 and 2 < 5".into());
    let mut iter = tokenizer.iter();
    let mut parser = Parser::new(&mut iter);
    let mut varialbes = Variables::new();
    let p = parser.parse().unwrap().eval().run(&mut varialbes, &kernel).1.unwrap();

    println!("{:?}", p);
    assert_eq!(p, RuntimeValue::Boolean(true));
}

#[test]
fn test_bool_nil() {
    let tokenizer = Tokenizer::new("nil".into());
    let mut iter = tokenizer.iter();
    let mut parser = Parser::new(&mut iter);
    let mut varialbes = Variables::new();
    let p = parser.parse().unwrap().eval().run(&mut varialbes, &kernel).1.unwrap();

    println!("{:?}", p);
    assert_eq!(p, RuntimeValue::Nil);
}

#[test]
fn test_bool_nil_asd() {
    let tokenizer = Tokenizer::new("nil".into());
    let mut iter = tokenizer.iter();
    let mut parser = Parser::new(&mut iter);
    let mut varialbes = Variables::new();
    let p = parser.parse().unwrap().eval().run(&mut varialbes, &kernel).1.unwrap();

    println!("{:?}", p);
    assert_eq!(p, RuntimeValue::Nil);
}

#[test]
fn test_long_math_expr() {
    let tokenizer = Tokenizer::new("((2+5)/3 * (1+2+7)/2) / 0.25 * (1/2 + 2/3 + 4/5) + ((3/4 + 4/5) * 10) / 2 + 0.0723 + 0.60002222222222".into());
    let mut iter = tokenizer.iter();
    let mut parser = Parser::new(&mut iter);
    let mut varialbes = Variables::new();
    let p = parser.parse().unwrap().eval().run(&mut varialbes, &kernel).1.unwrap();

    println!("{:?}", p);
    assert_eq!(p, RuntimeValue::Number(100.2001f64.to_bits()));
}

#[test]
fn test_overflow() {
    let mut varialbes = Variables::new();
    let tokenizer = Tokenizer::new("(46 + 85 - 94) > (54 - 46) * 2;".into());
    let mut iter = tokenizer.iter();
    let mut parser = Parser::new(&mut iter);

    let p = parser.parse_program().unwrap().eval().run(&mut varialbes, &kernel).1.unwrap();

    println!("{:?}", p);
}

#[test]
fn test_var_decl() {
    let tokenizer = Tokenizer::new("var a= 1;a=a+1;".into());
    let mut iter = tokenizer.iter();
    let mut parser = Parser::new(&mut iter);
    println!("{:?}", parser.parse_program().unwrap());
}

#[test]
fn redeclaring_a_name_leaves_the_last_value() {
    let program = parse_program("var a= 1;a=a+1;");
    let mut variables = Variables::new();
    let (printed, end) = program.eval().run(&mut variables, &kernel);
    assert_eq!(printed, vec![]);
    assert_eq!(end, Ok(RuntimeValue::Nil));
    assert_eq!(variables.get(&"a".to_string()), Some(&num(2.0)));
    assert_eq!(variables.get(&"b".to_string()), None);
}

#[test]
fn arithmetic_follows_precedence() {
    assert_eq!(evaluate("1+2+3+4"), Ok(num(10.0)));
    assert_eq!(evaluate("1 + 2 * 3"), Ok(num(7.0)));
    assert_eq!(evaluate("(1 + 2) * 3"), Ok(num(9.0)));
    assert_eq!(evaluate("10 - 4 - 3"), Ok(num(3.0)));
    assert_eq!(evaluate("8 / 4 / 2"), Ok(num(1.0)));
    assert_eq!(evaluate("1 / 3"), Ok(num(1.0 / 3.0)));
    assert_eq!(evaluate("0.1 + 0.2"), Ok(num(0.1 + 0.2)));
    assert_eq!(evaluate("-2 * -3"), Ok(num(6.0)));
    assert_eq!(evaluate("- 2 - - 3"), Ok(num(1.0)));
    assert_eq!(evaluate("(46 + 85 - 94) > (54 - 46) * 2"), Ok(RuntimeValue::Boolean(true)));
}

#[test]
fn division_by_zero_is_no_failure() {
    assert_eq!(evaluate("1 / 0"), Ok(num(f64::INFINITY)));
    assert_eq!(evaluate("-1 / 0"), Ok(num(f64::NEG_INFINITY)));
    match evaluate("0 / 0") {
        Ok(RuntimeValue::Number(bits)) => assert!(f64::from_bits(bits).is_nan()),
        other => panic!("{:?}", other),
    }
    assert_eq!(evaluate("0 / 0 == 0 / 0"), Ok(RuntimeValue::Boolean(false)));
    assert_eq!(evaluate("0 / 0 != 0 / 0"), Ok(RuntimeValue::Boolean(true)));
    assert_eq!(evaluate("0 / 0 < 1"), Ok(RuntimeValue::Boolean(false)));
    assert_eq!(evaluate("0 / 0 >= 1"), Ok(RuntimeValue::Boolean(false)));
    assert_eq!(evaluate("1 / 0 > 1"), Ok(RuntimeValue::Boolean(true)));
}

#[test]
fn strings_are_joined_from_the_left() {
    assert_eq!(evaluate("\"Hello \" + \"World\""), Ok(text("Hello World")));
    assert_eq!(evaluate("\"a\" + \"b\" + \"c\""), Ok(text("abc")));
    assert_eq!(evaluate("\"a\" + (\"b\" + \"c\")"), Ok(text("abc")));
    assert_eq!(evaluate("\"\" + \"\""), Ok(text("")));
}

#[test]
fn adding_a_string_and_a_number_fails() {
    assert_eq!(
        evaluate("\"a\" + 1"),
        Err(EvalError::Operands(Operator::Add, Kind::String, Kind::Number))
    );
    assert_eq!(
        evaluate("1 + \"a\""),
        Err(EvalError::Operands(Operator::Add, Kind::Number, Kind::String))
    );
    assert_eq!(
        evaluate("true + 1"),
        Err(EvalError::Operands(Operator::Add, Kind::Boolean, Kind::Number))
    );
    assert_eq!(
        evaluate("\"a\" * \"b\""),
        Err(EvalError::Operands(Operator::Multiply, Kind::String, Kind::String))
    );
    assert_eq!(
        evaluate("true / false"),
        Err(EvalError::Operands(Operator::Divide, Kind::Boolean, Kind::Boolean))
    );
    assert_eq!(
        evaluate("1 - true"),
        Err(EvalError::Operands(Operator::Subtract, Kind::Number, Kind::Boolean))
    );
}

#[test]
fn arithmetic_with_nil() {
    assert_eq!(evaluate("nil + 1"), Ok(RuntimeValue::Boolean(false)));
    assert_eq!(evaluate("\"a\" + nil"), Ok(RuntimeValue::Boolean(false)));
    assert_eq!(evaluate("nil + nil"), Ok(RuntimeValue::Boolean(false)));
    assert_eq!(evaluate("nil * 2"), Ok(RuntimeValue::Nil));
    assert_eq!(evaluate("2 - nil"), Ok(RuntimeValue::Nil));
    assert_eq!(evaluate("true / nil"), Ok(RuntimeValue::Nil));
    assert_eq!(evaluate("nil - \"a\""), Ok(RuntimeValue::Nil));
}

#[test]
fn comparison_chains_with_and() {
    assert_eq!(evaluate("4 < 7 and 7 < 9 and 2 < 5"), Ok(RuntimeValue::Boolean(true)));
    assert_eq!(evaluate("4 < 7 and 9 < 7 and 2 < 5"), Ok(RuntimeValue::Boolean(false)));
    assert_eq!(evaluate("1 <= 1 and 1 >= 1"), Ok(RuntimeValue::Boolean(true)));
    assert_eq!(evaluate("1 < 1"), Ok(RuntimeValue::Boolean(false)));
    assert_eq!(evaluate("2 > 1"), Ok(RuntimeValue::Boolean(true)));
    assert_eq!(evaluate("-1 < 0 - 0"), Ok(RuntimeValue::Boolean(true)));
}

#[test]
fn and_evaluates_both_operands() {
    assert_eq!(evaluate("false and missing"), Err(EvalError::Undefined("missing".into())));
    assert_eq!(
        evaluate("false and -true"),
        Err(EvalError::NotNegatable(Kind::Boolean))
    );
    assert_eq!(
        evaluate("missing and -true"),
        Err(EvalError::Undefined("missing".into()))
    );
}

#[test]
fn the_truth_table_of_and() {
    assert_eq!(evaluate("1 and 2"), Ok(RuntimeValue::Boolean(true)));
    assert_eq!(evaluate("1 and 0"), Ok(RuntimeValue::Boolean(false)));
    assert_eq!(evaluate("-1 and 1"), Ok(RuntimeValue::Boolean(false)));
    assert_eq!(evaluate("1 and true"), Ok(RuntimeValue::Boolean(true)));
    assert_eq!(evaluate("0 and true"), Ok(RuntimeValue::Boolean(false)));
    assert_eq!(evaluate("true and 0.5"), Ok(RuntimeValue::Boolean(true)));
    assert_eq!(evaluate("true and false"), Ok(RuntimeValue::Boolean(false)));
    assert_eq!(evaluate("true and true"), Ok(RuntimeValue::Boolean(true)));
    assert_eq!(evaluate("\"a\" and \"b\""), Ok(text("ab")));
    assert_eq!(evaluate("nil and true"), Ok(RuntimeValue::Boolean(false)));
    assert_eq!(evaluate("true and nil"), Ok(RuntimeValue::Boolean(false)));
    assert_eq!(evaluate("nil and nil"), Ok(RuntimeValue::Boolean(false)));
    assert_eq!(evaluate("\"a\" and nil"), Ok(RuntimeValue::Boolean(false)));
    assert_eq!(evaluate("nil and 1"), Ok(RuntimeValue::Boolean(false)));
    assert_eq!(evaluate("1 and \"a\""), Ok(RuntimeValue::Boolean(false)));
    assert_eq!(evaluate("\"a\" and true"), Ok(RuntimeValue::Boolean(false)));
    assert_eq!(evaluate("true and \"a\""), Ok(RuntimeValue::Boolean(false)));
    assert_eq!(evaluate("\"a\" and 1"), Ok(RuntimeValue::Boolean(false)));
}

#[test]
fn or_stops_at_a_true_left_operand() {
    assert_eq!(evaluate("true or missing"), Ok(RuntimeValue::Boolean(true)));
    assert_eq!(evaluate("1 or -true"), Ok(RuntimeValue::Boolean(true)));
    assert_eq!(evaluate("false or missing"), Err(EvalError::Undefined("missing".into())));
    assert_eq!(evaluate("false or true"), Ok(RuntimeValue::Boolean(true)));
    assert_eq!(evaluate("false or false"), Ok(RuntimeValue::Boolean(false)));
    assert_eq!(evaluate("0 or 2"), Ok(RuntimeValue::Boolean(true)));
    assert_eq!(evaluate("nil or \"a\""), Ok(RuntimeValue::Boolean(false)));
    assert_eq!(evaluate("\"a\" or 1 < 2"), Ok(RuntimeValue::Boolean(true)));
    assert_eq!(evaluate("false or false or 3"), Ok(RuntimeValue::Boolean(true)));
    assert_eq!(evaluate("false and true or true"), Ok(RuntimeValue::Boolean(true)));
}

#[test]
fn relations_take_numbers_only() {
    assert_eq!(evaluate("1 < \"a\""), Err(EvalError::NotNumbers));
    assert_eq!(evaluate("true <= false"), Err(EvalError::NotNumbers));
    assert_eq!(evaluate("nil > 1"), Err(EvalError::NotNumbers));
    assert_eq!(evaluate("\"a\" >= \"b\""), Err(EvalError::NotNumbers));
    assert_eq!(EvalError::NotNumbers.message(), "Operands must be numbers.");
}

#[test]
fn equality_never_fails() {
    assert_eq!(evaluate("1 == 1"), Ok(RuntimeValue::Boolean(true)));
    assert_eq!(evaluate("1 == 1.0"), Ok(RuntimeValue::Boolean(true)));
    assert_eq!(evaluate("0 == -0"), Ok(RuntimeValue::Boolean(true)));
    assert_eq!(evaluate("1 != 2"), Ok(RuntimeValue::Boolean(true)));
    assert_eq!(evaluate("1 == \"1\""), Ok(RuntimeValue::Boolean(false)));
    assert_eq!(evaluate("1 != \"1\""), Ok(RuntimeValue::Boolean(true)));
    assert_eq!(evaluate("\"a\" == \"a\""), Ok(RuntimeValue::Boolean(true)));
    assert_eq!(evaluate("\"a\" == \"b\""), Ok(RuntimeValue::Boolean(false)));
    assert_eq!(evaluate("nil == nil"), Ok(RuntimeValue::Boolean(true)));
    assert_eq!(evaluate("nil == false"), Ok(RuntimeValue::Boolean(false)));
    assert_eq!(evaluate("true == true"), Ok(RuntimeValue::Boolean(true)));
    assert_eq!(evaluate("true != false"), Ok(RuntimeValue::Boolean(true)));
    assert_eq!(evaluate("true == 1"), Ok(RuntimeValue::Boolean(false)));
}

#[test]
fn unary_minus() {
    assert_eq!(evaluate("-3"), Ok(num(-3.0)));
    assert_eq!(evaluate("--3"), Ok(num(3.0)));
    assert_eq!(evaluate("-0"), Ok(num(-0.0)));
    assert_eq!(evaluate("-nil"), Ok(RuntimeValue::Boolean(false)));
    assert_eq!(evaluate("-true"), Err(EvalError::NotNegatable(Kind::Boolean)));
    assert_eq!(evaluate("-\"a\""), Err(EvalError::NotNegatable(Kind::String)));
    match evaluate("-0") {
        Ok(RuntimeValue::Number(bits)) => assert_eq!(bits, (-0.0f64).to_bits()),
        other => panic!("{:?}", other),
    }
}

#[test]
fn unary_bang() {
    assert_eq!(evaluate("!true"), Ok(RuntimeValue::Boolean(false)));
    assert_eq!(evaluate("!false"), Ok(RuntimeValue::Boolean(true)));
    assert_eq!(evaluate("!1"), Ok(RuntimeValue::Boolean(false)));
    assert_eq!(evaluate("!0"), Ok(RuntimeValue::Boolean(true)));
    assert_eq!(evaluate("!-1"), Ok(RuntimeValue::Boolean(true)));
    assert_eq!(evaluate("!\"a\""), Ok(RuntimeValue::Boolean(false)));
    assert_eq!(evaluate("!nil"), Ok(RuntimeValue::Boolean(true)));
    assert_eq!(evaluate("!!nil"), Ok(RuntimeValue::Boolean(false)));
}

#[test]
fn nil_evaluates_to_nil_and_prints_as_nil() {
    assert_eq!(evaluate("nil"), Ok(RuntimeValue::Nil));
    assert_eq!(evaluate("(nil)"), Ok(RuntimeValue::Nil));
    assert_eq!(RuntimeValue::Nil.text(), Fragment::Text("nil".into()));
    assert_eq!(run("print nil;"), (vec!["nil".to_string()], Ok(RuntimeValue::Nil)));
}

#[test]
fn values_print_in_their_natural_form() {
    assert_eq!(
        run("print 1 + 2; print 2.5; print \"a b\"; print 1 < 2; print !true; print 10 / 4;").0,
        vec!["3", "2.5", "a b", "true", "false", "2.5"]
    );
    assert_eq!(num(7.0).text(), Fragment::Number(7.0f64.to_bits()));
    assert_eq!(text("x").text(), Fragment::Text("x".into()));
    assert_eq!(RuntimeValue::Boolean(true).text(), Fragment::Text("true".into()));
    assert_eq!(RuntimeValue::Boolean(false).text(), Fragment::Text("false".into()));
}

#[test]
fn an_undefined_variable_fails() {
    assert_eq!(evaluate("a"), Err(EvalError::Undefined("a".into())));
    assert_eq!(
        EvalError::Undefined("a".into()).message(),
        "Undefined variable 'a'"
    );
    assert_eq!(
        run("var a = 1; print a; print b; print a;"),
        (vec!["1".to_string()], Err(EvalError::Undefined("b".into())))
    );
}

#[test]
fn statements_run_in_order_over_one_store() {
    assert_eq!(
        run("var a = 2; var b = a * 3; a = a + b; print a; print b; a; print a == 8;"),
        (
            vec!["8".to_string(), "6".to_string(), "true".to_string()],
            Ok(RuntimeValue::Nil)
        )
    );
    let mut variables = Variables::new();
    variables.insert("x".into(), num(4.0));
    let program = parse_program("var y = x / 8; x = \"s\";");
    assert_eq!(program.eval().run(&mut variables, &kernel), (vec![], Ok(RuntimeValue::Nil)));
    assert_eq!(variables.get(&"y".to_string()), Some(&num(0.5)));
    assert_eq!(variables.get(&"x".to_string()), Some(&text("s")));
}

#[test]
fn a_failure_ends_the_run_and_keeps_earlier_bindings() {
    let program = parse_program("var a = 1; print a; var b = -\"x\"; var c = 3; print c;");
    let mut variables = Variables::new();
    let (printed, end) = program.eval().run(&mut variables, &kernel);
    assert_eq!(printed, vec![num(1.0)]);
    assert_eq!(end, Err(EvalError::NotNegatable(Kind::String)));
    assert_eq!(variables.get(&"a".to_string()), Some(&num(1.0)));
    assert_eq!(variables.get(&"b".to_string()), None);
    assert_eq!(variables.get(&"c".to_string()), None);
}

#[test]
fn programs_may_nest() {
    let inner = Statement::Program(vec![
        Statement::Declaration("a".into(), Box::new(Expression::Boolean(true))),
        Statement::Print(Box::new(Expression::Identifier("a".into()))),
    ]);
    let outer = Statement::Program(vec![
        Statement::Print(Box::new(Expression::Nil)),
        inner,
        Statement::Program(vec![]),
        Statement::Print(Box::new(Expression::Unary(
            Operator::Bang,
            Box::new(Expression::Identifier("a".into())),
        ))),
    ]);
    let mut variables = Variables::new();
    let (printed, end) = outer.eval().run(&mut variables, &kernel);
    assert_eq!(
        printed,
        vec![RuntimeValue::Nil, RuntimeValue::Boolean(true), RuntimeValue::Boolean(false)]
    );
    assert_eq!(end, Ok(RuntimeValue::Nil));
}

#[test]
fn operators_without_a_meaning_fail() {
    let power = Expression::Binary(
        Box::new(Expression::Nil),
        Operator::Power,
        Box::new(Expression::Nil),
    );
    let mut variables = Variables::new();
    assert_eq!(
        power.eval().run(&mut variables, &kernel).1,
        Err(EvalError::Unsupported(Operator::Power))
    );
    let bang = Expression::Binary(
        Box::new(Expression::Nil),
        Operator::Bang,
        Box::new(Expression::Nil),
    );
    assert_eq!(
        bang.eval().run(&mut variables, &kernel).1,
        Err(EvalError::Unsupported(Operator::Bang))
    );
    let plus = Expression::Unary(Operator::Add, Box::new(Expression::Nil));
    assert_eq!(
        plus.eval().run(&mut variables, &kernel).1,
        Err(EvalError::Unsupported(Operator::Add))
    );
    let left_first = Expression::Binary(
        Box::new(Expression::Identifier("x".into())),
        Operator::Power,
        Box::new(Expression::Nil),
    );
    assert_eq!(
        left_first.eval().run(&mut variables, &kernel).1,
        Err(EvalError::Undefined("x".into()))
    );
}

#[test]
fn the_machine_asks_in_the_order_of_evaluation() {
    let e = parse("1 + 2 * 3");
    let mut variables = Variables::new();
    let mut run = e.eval();
    let mut asked = Vec::new();
    let end = loop {
        match run.step(&mut variables) {
            Action::Ask(request) => {
                asked.push(request.clone());
                // a request that is not answered is put again
                match run.step(&mut variables) {
                    Action::Ask(again) => assert_eq!(again, request),
                    other => panic!("{:?}", other),
                }
                assert!(run.supply(kernel(request)));
                assert!(!run.supply(0));
            }
            Action::Print(value) => panic!("{:?}", value),
            Action::Done(value) => break Ok(value),
            Action::Failed(error) => break Err(error),
        }
    };
    assert_eq!(end, Ok(num(7.0)));
    assert_eq!(
        asked,
        vec![
            Request::Decode("1".into()),
            Request::Decode("2".into()),
            Request::Decode("3".into()),
            Request::Compute(Arithmetic::Multiply, 2.0f64.to_bits(), 3.0f64.to_bits()),
            Request::Compute(Arithmetic::Add, 1.0f64.to_bits(), 6.0f64.to_bits()),
        ]
    );
    // a run that has ended stays ended
    match run.step(&mut variables) {
        Action::Done(value) => assert_eq!(value, RuntimeValue::Nil),
        other => panic!("{:?}", other),
    }
    assert!(!run.supply(1));
}

#[test]
fn the_machine_takes_whatever_it_is_answered() {
    let e = parse("1 + 2");
    let mut variables = Variables::new();
    let always_five = |_request: Request| 5.0f64.to_bits();
    assert_eq!(e.eval().run(&mut variables, &always_five).1, Ok(num(5.0)));
    let e = parse("1 < 2");
    let backwards = |request: Request| match request {
        Request::Decode(numeral) => (-numeral.parse::<f64>().unwrap()).to_bits(),
        Request::Compute(_, _, _) => 0,
    };
    assert_eq!(e.eval().run(&mut variables, &backwards).1, Ok(RuntimeValue::Boolean(false)));
}

#[test]
fn the_machine_hands_out_prints_as_they_come() {
    let program = parse_program("print \"a\"; print missing; print \"b\";");
    let mut variables = Variables::new();
    let mut run = program.eval();
    match run.step(&mut variables) {
        Action::Print(value) => assert_eq!(value, text("a")),
        other => panic!("{:?}", other),
    }
    match run.step(&mut variables) {
        Action::Failed(error) => assert_eq!(error, EvalError::Undefined("missing".into())),
        other => panic!("{:?}", other),
    }
    match run.step(&mut variables) {
        Action::Done(value) => assert_eq!(value, RuntimeValue::Nil),
        other => panic!("{:?}", other),
    }
}

#[test]
fn value_operations() {
    assert_eq!(settle(num(2.0).add(num(3.0))), Ok(num(5.0)));
    assert_eq!(settle(num(2.0).subtract(num(3.0))), Ok(num(-1.0)));
    assert_eq!(settle(num(2.0).multiply(num(3.0))), Ok(num(6.0)));
    assert_eq!(settle(num(3.0).divide(num(2.0))), Ok(num(1.5)));
    assert_eq!(settle(text("a").add(text("b"))), Ok(text("ab")));
    assert_eq!(settle(RuntimeValue::Nil.add(num(1.0))), Ok(RuntimeValue::Boolean(false)));
    assert_eq!(settle(num(1.0).multiply(RuntimeValue::Nil)), Ok(RuntimeValue::Nil));
    assert_eq!(settle(RuntimeValue::Nil.divide(text("a"))), Ok(RuntimeValue::Nil));
    assert_eq!(settle(RuntimeValue::Nil.subtract(RuntimeValue::Nil)), Ok(RuntimeValue::Nil));
    assert_eq!(
        settle(text("a").subtract(text("b"))),
        Err(EvalError::Operands(Operator::Subtract, Kind::String, Kind::String))
    );
    assert_eq!(
        settle(RuntimeValue::Boolean(true).multiply(num(1.0))),
        Err(EvalError::Operands(Operator::Multiply, Kind::Boolean, Kind::Number))
    );
    assert_eq!(num(1.0).less_than(num(2.0)), Ok(RuntimeValue::Boolean(true)));
    assert_eq!(num(2.0).less_than_equal(num(2.0)), Ok(RuntimeValue::Boolean(true)));
    assert_eq!(num(1.0).greater(num(2.0)), Ok(RuntimeValue::Boolean(false)));
    assert_eq!(num(2.0).greater_equal(num(3.0)), Ok(RuntimeValue::Boolean(false)));
    assert_eq!(num(1.0).less_than(text("a")), Err(EvalError::NotNumbers));
    assert_eq!(RuntimeValue::Nil.greater(RuntimeValue::Nil), Err(EvalError::NotNumbers));
    assert_eq!(num(1.0).and(RuntimeValue::Boolean(true)), Ok(RuntimeValue::Boolean(true)));
    assert_eq!(text("a").and(text("b")), Ok(text("ab")));
    assert_eq!(num(1.5).negate(), Ok(num(-1.5)));
    assert_eq!(RuntimeValue::Nil.negate(), Ok(RuntimeValue::Boolean(false)));
    assert_eq!(num(1.5).not_and(), Ok(RuntimeValue::Boolean(false)));
    assert_eq!(text("").not_and(), Ok(RuntimeValue::Boolean(false)));
    assert_eq!(RuntimeValue::Nil.not_and(), Ok(RuntimeValue::Boolean(true)));
}

#[test]
fn an_operator_on_two_numbers_asks_for_the_computation() {
    assert_eq!(
        num(2.0).add(num(3.0)).unwrap(),
        Reduction::Ask(Request::Compute(Arithmetic::Add, 2.0f64.to_bits(), 3.0f64.to_bits()))
    );
    assert_eq!(
        num(2.0).divide(num(0.0)).unwrap(),
        Reduction::Ask(Request::Compute(Arithmetic::Divide, 2.0f64.to_bits(), 0))
    );
    assert_eq!(
        text("a").add(text("b")).unwrap(),
        Reduction::Value(text("ab"))
    );
}

#[test]
fn values_know_their_kind_and_truth() {
    assert_eq!(num(1.0).kind(), Kind::Number);
    assert_eq!(text("a").kind(), Kind::String);
    assert_eq!(RuntimeValue::Boolean(true).kind(), Kind::Boolean);
    assert_eq!(RuntimeValue::Nil.kind(), Kind::Nil);
    assert!(num(0.001).truthy());
    assert!(num(f64::INFINITY).truthy());
    assert!(!num(0.0).truthy());
    assert!(!num(-0.0).truthy());
    assert!(!num(-5.0).truthy());
    assert!(!num(f64::NAN).truthy());
    assert!(RuntimeValue::Boolean(true).truthy());
    assert!(!RuntimeValue::Boolean(false).truthy());
    assert!(!text("true").truthy());
    assert!(!RuntimeValue::Nil.truthy());
    assert_eq!(text("abc").copy(), text("abc"));
    assert_eq!(num(2.5).copy(), num(2.5));
}

#[test]
fn value_equality_is_that_of_doubles_for_numbers() {
    assert_eq!(num(0.0), num(-0.0));
    assert_ne!(num(f64::NAN), num(f64::NAN));
    assert_ne!(num(1.0), num(2.0));
    assert_ne!(num(1.0), text("1"));
    assert_ne!(RuntimeValue::Nil, RuntimeValue::Boolean(false));
    assert_eq!(RuntimeValue::Nil, RuntimeValue::Nil);
}

#[test]
fn numbers_compare_as_doubles_do() {
    let samples = [
        0.0,
        -0.0,
        1.0,
        -1.0,
        0.5,
        -0.5,
        2.5,
        1e300,
        -1e300,
        5e-324,
        -5e-324,
        f64::MIN_POSITIVE,
        f64::MAX,
        f64::MIN,
        f64::INFINITY,
        f64::NEG_INFINITY,
        f64::NAN,
        -f64::NAN,
        f64::from_bits(0x7FF0_0000_0000_0001),
        f64::from_bits(0xFFFF_FFFF_FFFF_FFFF),
    ];
    for x in samples {
        let a = x.to_bits();
        assert_eq!(number::positive(a), x > 0.0, "{x}");
        assert_eq!(number::negate(a), (-x).to_bits(), "{x}");
        for y in samples {
            let b = y.to_bits();
            assert_eq!(number::less(a, b), x < y, "{x} < {y}");
            assert_eq!(number::less_equal(a, b), x <= y, "{x} <= {y}");
            assert_eq!(number::greater(a, b), x > y, "{x} > {y}");
            assert_eq!(number::greater_equal(a, b), x >= y, "{x} >= {y}");
            assert_eq!(number::equal(a, b), x == y, "{x} == {y}");
        }
    }
}

#[test]
fn variables_hold_the_last_binding_of_a_name() {
    let mut variables = Variables::new();
    assert_eq!(variables.get(&"a".to_string()), None);
    variables.insert("a".into(), num(1.0));
    variables.insert("b".into(), text("x"));
    assert_eq!(variables.get(&"a".to_string()), Some(&num(1.0)));
    assert_eq!(variables.get(&"b".to_string()), Some(&text("x")));
    variables.insert("a".into(), RuntimeValue::Nil);
    assert_eq!(variables.get(&"a".to_string()), Some(&RuntimeValue::Nil));
    assert_eq!(variables.get(&"b".to_string()), Some(&text("x")));
    assert_eq!(variables.get(&"".to_string()), None);
    assert_eq!(variables.get(&"A".to_string()), None);
}

#[test]
fn error_messages_name_the_kinds() {
    assert_eq!(
        EvalError::Operands(Operator::Add, Kind::String, Kind::Number).message(),
        "Cannot apply + to String and Number."
    );
    assert_eq!(
        EvalError::NotNegatable(Kind::Boolean).message(),
        "Can not take the negative of a boolean."
    );
    assert_eq!(
        EvalError::NotNegatable(Kind::String).message(),
        "Operand must be a number."
    );
    assert_eq!(
        EvalError::Unsupported(Operator::Power).message(),
        "Operator ^ is not supported here."
    );
    assert_eq!(Kind::Nil.name(), "Nil");
}
