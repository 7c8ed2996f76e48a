use rlox::interpreter::{is_equal, Interpreter, RuntimeError, Value};
use rlox::lox::{error, report, run, LoxError};
use rlox::number::Number;
use rlox::parser::{parse_tokens, ParseErrorKind, Parser, ParserErr};
use rlox::scanner::{ScanErr, ScanErrorKind, Scanner};
use rlox::token::{Token, TokenType};
use rlox::printer::AstPrinter;
use rlox::tree::{AstVisitor, Binary, Expr, Grouping, Literal, Unary, Walkable};

fn chars(s: &str) -> Vec<char> {
    s.chars().collect()
}

fn scan(s: &str) -> Result<Vec<Token>, ScanErr> {
    Scanner { source: String::from(s) }.scan_tokens()
}

fn as_f64(n: &Number) -> f64 {
    if n.denominator() == 0 {
        match n.numerator() {
            0 => f64::NAN,
            x if x > 0 => f64::INFINITY,
            _ => f64::NEG_INFINITY,
        }
    } else {
        n.numerator() as f64 / n.denominator() as f64
    }
}

fn number_of(v: &Value) -> f64 {
    match v {
        Value::Number(n) => as_f64(n),
        _ => panic!("not a number"),
    }
}

fn eval_str(s: &str) -> Result<Value, LoxError> {
    run(&String::from(s))
}

fn kinds(tokens: &[Token]) -> Vec<String> {
    tokens.iter().map(|t| format!("{:?}", t.token_type)).collect()
}

fn token(token_type: TokenType, lexeme: &str) -> Token {
    Token { token_type, lexeme: Some(chars(lexeme)), line: 1 }
}

#[test]
fn unterminated_string_fails_on_line_one() {
    let e = scan("\"abc").err().unwrap();
    assert_eq!(e, ScanErr { line: 1, kind: ScanErrorKind::UnterminatedString });
}

#[test]
fn terminated_string_scans_to_one_token() {
    let ts = scan("\"abc\"").ok().unwrap();
    assert_eq!(ts.len(), 2);
    assert!(matches!(ts[0].token_type, TokenType::StringLiteral));
    assert_eq!(ts[0].lexeme, Some(chars("\"abc\"")));
    assert!(matches!(ts[1].token_type, TokenType::Eof));
    assert_eq!(ts[1].lexeme, None);
    let tree = parse_tokens(&ts).ok().unwrap();
    match *tree {
        Expr::Literal(Literal::String(ref s)) => assert_eq!(s, &chars("abc")),
        _ => panic!("expected a string literal"),
    }
}

#[test]
fn number_with_fraction() {
    let ts = scan("12.5").ok().unwrap();
    assert_eq!(ts.len(), 2);
    match ts[0].token_type {
        TokenType::Number(n) => {
            assert_eq!(as_f64(&n), 12.5);
            assert_eq!((n.numerator(), n.denominator()), (25, 2));
        }
        _ => panic!("expected a number"),
    }
}

#[test]
fn whole_number() {
    let ts = scan("12").ok().unwrap();
    assert_eq!(ts.len(), 2);
    match ts[0].token_type {
        TokenType::Number(n) => {
            assert_eq!(as_f64(&n), 12.0);
            assert_eq!((n.numerator(), n.denominator()), (12, 1));
        }
        _ => panic!("expected a number"),
    }
}

#[test]
fn long_number_literals_scan() {
    let ts = scan("99999999999999999999").ok().unwrap();
    match ts[0].token_type {
        TokenType::Number(n) => assert_eq!((n.numerator(), n.denominator()), (1, 0)),
        _ => panic!("expected a number"),
    }
    let src = format!("0.{}1", "0".repeat(18));
    let ts = scan(&src).ok().unwrap();
    assert_eq!(ts.len(), 2);
    assert!(matches!(ts[0].token_type, TokenType::Number(_)));
    let ts = scan("1.50000000000000000000000").ok().unwrap();
    match ts[0].token_type {
        TokenType::Number(n) => assert_eq!(as_f64(&n), 1.5),
        _ => panic!("expected a number"),
    }
    assert!(scan("9223372036854775807").is_ok());
}

#[test]
fn subtraction_is_left_associative() {
    assert_eq!(number_of(&eval_str("1 - 2 - 3").ok().unwrap()), -4.0);
}

#[test]
fn multiplication_binds_tighter_than_addition() {
    assert_eq!(number_of(&eval_str("2 + 3 * 4").ok().unwrap()), 14.0);
    assert_eq!(number_of(&eval_str("(2 + 3) * 4").ok().unwrap()), 20.0);
}

#[test]
fn equality_across_kinds_is_false() {
    assert!(matches!(eval_str("1 == \"1\""), Ok(Value::Boolean(false))));
    assert!(matches!(eval_str("1 != \"1\""), Ok(Value::Boolean(true))));
    assert!(matches!(eval_str("nil == false"), Ok(Value::Boolean(false))));
    assert!(matches!(eval_str("nil == nil"), Ok(Value::Boolean(true))));
}

#[test]
fn comparison_with_string_is_type_mismatch() {
    assert!(matches!(eval_str("1 < \"a\""), Err(LoxError::Runtime(RuntimeError::TypeMismatch))));
    assert!(matches!(eval_str("-\"a\""), Err(LoxError::Runtime(RuntimeError::TypeMismatch))));
    assert!(matches!(eval_str("1 + \"a\""), Err(LoxError::Runtime(RuntimeError::TypeMismatch))));
}

#[test]
fn unterminated_grouping_is_parse_error_at_end() {
    let ts = scan("(1 + 2").ok().unwrap();
    let last_line = ts[ts.len() - 1].line;
    match parse_tokens(&ts) {
        Err(ParserErr { line, location, kind }) => {
            assert_eq!(line, last_line);
            assert_eq!(location, None);
            assert_eq!(kind, ParseErrorKind::ExpectRightParen);
        }
        Ok(_) => panic!("expected a parse error"),
    }
}

#[test]
fn unary_chains() {
    assert!(matches!(eval_str("!!true"), Ok(Value::Boolean(true))));
    assert_eq!(number_of(&eval_str("- -5").ok().unwrap()), 5.0);
    assert!(matches!(eval_str("!!!nil"), Ok(Value::Boolean(true))));
}

#[test]
fn rescanning_lexemes_keeps_categories() {
    let src = "(a1 >= 12.5) != !\"x y\" and _b<=3. or nil// c\n+ -7/ 2*true";
    let first = scan(src).ok().unwrap();
    let joined: Vec<String> = first
        .iter()
        .filter_map(|t| t.lexeme.as_ref().map(|l| l.iter().collect::<String>()))
        .collect();
    let second = scan(&joined.join(" ")).ok().unwrap();
    assert_eq!(kinds(&first), kinds(&second));
}

#[test]
fn truthiness_of_zero_and_empty_string() {
    assert!(matches!(eval_str("!0"), Ok(Value::Boolean(false))));
    assert!(matches!(eval_str("!\"\""), Ok(Value::Boolean(false))));
    assert!(matches!(eval_str("!false"), Ok(Value::Boolean(true))));
}

#[test]
fn arithmetic_and_comparisons() {
    assert_eq!(number_of(&eval_str("7 / 2").ok().unwrap()), 3.5);
    assert_eq!(number_of(&eval_str("0.1 + 0.2").ok().unwrap()), 0.3);
    assert!(matches!(eval_str("0.1 + 0.2 == 0.3"), Ok(Value::Boolean(true))));
    assert!(matches!(eval_str("3 > 2"), Ok(Value::Boolean(true))));
    assert!(matches!(eval_str("2 >= 2"), Ok(Value::Boolean(true))));
    assert!(matches!(eval_str("2 < 2"), Ok(Value::Boolean(false))));
    assert!(matches!(eval_str("2 <= 1.5"), Ok(Value::Boolean(false))));
}

#[test]
fn string_concatenation_joins_left_and_right() {
    match eval_str("\"ab\" + \"cd\"").ok().unwrap() {
        Value::String(s) => assert_eq!(s, chars("abcd")),
        _ => panic!("expected a string"),
    }
}

#[test]
fn division_by_zero_gives_infinity_or_nan() {
    let v = eval_str("1 / 0").ok().unwrap();
    assert_eq!(number_of(&v), f64::INFINITY);
    let v = eval_str("-1 / 0").ok().unwrap();
    assert_eq!(number_of(&v), f64::NEG_INFINITY);
    let v = eval_str("0 / 0").ok().unwrap();
    assert!(number_of(&v).is_nan());
    assert!(matches!(eval_str("0 / 0 == 0 / 0"), Ok(Value::Boolean(false))));
    assert!(matches!(eval_str("1 / 0 > 9223372036854775807"), Ok(Value::Boolean(true))));
}

#[test]
fn overflowing_result_becomes_infinite() {
    let v = eval_str("9223372036854775807 * 9223372036854775807").ok().unwrap();
    assert_eq!(number_of(&v), f64::INFINITY);
    let v = eval_str("9223372036854775807 + 1").ok().unwrap();
    assert_eq!(number_of(&v), f64::INFINITY);
    let v = eval_str("1 / 3 / 9223372036854775807").ok().unwrap();
    assert_eq!(number_of(&v), 0.0);
}

#[test]
fn identifier_is_undefined_variable() {
    assert!(matches!(eval_str("answer"), Err(LoxError::Runtime(RuntimeError::UndefinedVariable))));
}

#[test]
fn unexpected_character_reports_its_line() {
    let e = scan("1\n// note\n@").err().unwrap();
    assert_eq!(e, ScanErr { line: 3, kind: ScanErrorKind::UnexpectedCharacter('@') });
}

#[test]
fn missing_operand_is_parse_error_at_token() {
    match eval_str("1 + )") {
        Err(LoxError::Parse(ParserErr { line, location, kind })) => {
            assert_eq!(line, 1);
            assert_eq!(location, Some(chars(")")));
            assert_eq!(kind, ParseErrorKind::ExpectExpression);
        }
        _ => panic!("expected a parse error"),
    }
}

#[test]
fn scanner_lines_and_keywords() {
    let ts = scan("and\nclass // c\nwhile \"a\nb\" x").ok().unwrap();
    let lines: Vec<usize> = ts.iter().map(|t| t.line).collect();
    assert_eq!(lines, vec![1, 2, 3, 3, 4, 4]);
    assert_eq!(kinds(&ts), vec!["And", "Class", "While", "StringLiteral", "Identifier", "Eof"]);
}

#[test]
fn two_character_operators() {
    let ts = scan("! != = == < <= > >= /").ok().unwrap();
    assert_eq!(
        kinds(&ts),
        vec!["Bang", "BangEqual", "Equal", "EqualEqual", "Less", "LessEqual", "Greater", "GreaterEqual", "Slash", "Eof"]
    );
}

#[test]
fn parser_moves_past_expression() {
    let ts = scan("1 2").ok().unwrap();
    let mut p = Parser::new(ts);
    assert!(p.parse().is_ok());
    assert!(p.parse().is_ok());
}

#[test]
fn tree_built_by_hand_evaluates() {
    let left = Box::new(Expr::Unary(Unary::new(
        token(TokenType::Minus, "-"),
        Box::new(Expr::Literal(Literal::Number(Number::from_integer(123)))),
    )));
    let right = Box::new(Expr::Grouping(Grouping::new(Box::new(Expr::Literal(Literal::Number(
        Number::new(4567, 100).unwrap(),
    ))))));
    let tree = Expr::Binary(Binary::new(left, token(TokenType::Star, "*"), right));
    let v = Interpreter.process(&tree).ok().unwrap();
    match v {
        Value::Number(n) => assert_eq!((n.numerator(), n.denominator()), (-561741, 100)),
        _ => panic!("expected a number"),
    }
}

#[test]
fn number_constructor_reduces() {
    let n = Number::new(6, -4).unwrap();
    assert_eq!((n.numerator(), n.denominator()), (-3, 2));
    assert!(Number::new(1, 0).is_none());
    assert!(Number::new(i64::MIN, 1).is_none());
}

#[test]
fn value_equality() {
    assert!(is_equal(&Value::Number(Number::new(1, 2).unwrap()), &Value::Number(Number::new(2, 4).unwrap())));
    assert!(!is_equal(&Value::String(chars("a")), &Value::String(chars("b"))));
    assert!(is_equal(&Value::Boolean(true), &Value::Boolean(true)));
}

#[test]
fn diagnostics_hold_their_parts() {
    let r = error(3, chars("Unexpected character."));
    assert_eq!((r.line, r.location.len(), r.message), (3, 0, chars("Unexpected character.")));
    let r = report(2, chars(" at end"), chars("Expect expression."));
    assert_eq!(r.location, chars(" at end"));
}

fn tree_of(s: &str) -> Box<Expr> {
    parse_tokens(&scan(s).ok().unwrap()).ok().unwrap()
}

#[test]
fn printer_renders_prefix_form() {
    let tree = tree_of("-123 * (45.67)");
    let text: String = AstPrinter.process(&tree).into_iter().collect();
    assert_eq!(text, "(* (- 123) (group 45.67))");
    let tree = tree_of("!nil == \"s\" or x");
    let text: String = AstPrinter.process(&tree).into_iter().collect();
    assert_eq!(text, "(== (! nil) s)");
}

#[test]
fn visitors_dispatch_by_variant() {
    let tree = tree_of("1 + 2 * 3");
    let mut printer = AstPrinter;
    let text: String = tree.accept(&mut printer, None).into_iter().collect();
    assert_eq!(text, "(+ 1 (* 2 3))");
    let mut interpreter = Interpreter;
    let v = tree.accept(&mut interpreter, None).ok().unwrap();
    assert_eq!(number_of(&v), 7.0);
    let v = AstVisitor::process(&mut interpreter, &tree_of("false"), None).ok().unwrap();
    assert!(matches!(v, Value::Boolean(false)));
}

#[test]
fn printer_number_forms() {
    let text: String = AstPrinter.process(&tree_of("0.5 + 1 / 3 - 2.250")).into_iter().collect();
    assert_eq!(text, "(- (+ 0.5 (/ 1 3)) 2.25)");
    let n = Number::new(-1, 3).unwrap();
    let text: String = AstPrinter.process(&Expr::Literal(Literal::Number(n))).into_iter().collect();
    assert_eq!(text, "-1/3");
    let n = Number::new(-7, 8).unwrap();
    let text: String = AstPrinter.process(&Expr::Literal(Literal::Number(n))).into_iter().collect();
    assert_eq!(text, "-0.875");
}

#[test]
fn parse_error_at_token_without_lexeme() {
    let ts = vec![
        Token { token_type: TokenType::Plus, lexeme: None, line: 1 },
        Token { token_type: TokenType::Eof, lexeme: None, line: 1 },
    ];
    match parse_tokens(&ts) {
        Err(e) => assert_eq!(e.location, Some(vec!['_'])),
        Ok(_) => panic!("expected a parse error"),
    }
}

#[test]
fn precedence_shapes_the_tree() {
    let text: String = AstPrinter.process(&tree_of("2 + 3 * 4")).into_iter().collect();
    assert_eq!(text, "(+ 2 (* 3 4))");
    let text: String = AstPrinter.process(&tree_of("1 - 2 - 3")).into_iter().collect();
    assert_eq!(text, "(- (- 1 2) 3)");
    let text: String = AstPrinter.process(&tree_of("- -5")).into_iter().collect();
    assert_eq!(text, "(- (- 5))");
}
