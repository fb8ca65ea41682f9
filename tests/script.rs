use tinyscript::ast::{Expr, Stmt, Value};
use tinyscript::interpreter::{apply_op, decimal_string, render_value, Interpreter, Outcome};
use tinyscript::lexer::{tokenize, Token};
use tinyscript::parser::Parser;

fn parse(src: &str) -> Vec<Stmt> {
    let (tokens, texts) = tokenize(src);
    let mut parser = Parser::new(tokens, texts);
    parser.parse()
}

fn run(src: &str) -> Vec<String> {
    let stmts = parse(src);
    let mut interp = Interpreter::new();
    let outcome = interp.run(&stmts);
    assert!(matches!(outcome, Outcome::Finished));
    interp.take_output()
}

#[test]
fn literal_evaluates_to_itself() {
    assert_eq!(run("say 42"), vec!["42"]);
    assert_eq!(run("say 0"), vec!["0"]);
    assert_eq!(run("say 9223372036854775807"), vec!["9223372036854775807"]);
}

#[test]
fn literal_too_large_is_zero() {
    assert_eq!(run("say 9223372036854775808"), vec!["0"]);
}

#[test]
fn division_truncates_toward_zero() {
    assert_eq!(apply_op("/", 7, 2), 3);
    assert_eq!(apply_op("/", -7, 2), -3);
    assert_eq!(apply_op("/", 7, -2), -3);
    assert_eq!(apply_op("/", -7, -2), 3);
    assert_eq!(apply_op("%", 7, 2), 1);
    assert_eq!(apply_op("%", -7, 2), -1);
    assert_eq!(apply_op("%", 7, -2), 1);
    assert_eq!(apply_op("%", -7, -2), -1);
}

#[test]
fn division_by_zero_is_zero() {
    assert_eq!(apply_op("/", 5, 0), 0);
    assert_eq!(apply_op("%", 5, 0), 0);
    assert_eq!(run("say 5 / 0"), vec!["0"]);
    assert_eq!(run("say 5 % 0"), vec!["0"]);
}

#[test]
fn division_overflow_wraps() {
    assert_eq!(apply_op("/", i64::MIN, -1), i64::MIN);
    assert_eq!(apply_op("%", i64::MIN, -1), 0);
}

#[test]
fn arithmetic_operators() {
    assert_eq!(apply_op("+", 2, 3), 5);
    assert_eq!(apply_op("-", 2, 3), -1);
    assert_eq!(apply_op("*", -4, 3), -12);
    assert_eq!(apply_op("^", 2, 3), 0);
    assert_eq!(apply_op("+", i64::MAX, 1), i64::MIN);
}

#[test]
fn precedence_and_left_associativity() {
    assert_eq!(run("say 2 * 3 + 4"), vec!["10"]);
    assert_eq!(run("say 2 + 3 * 4"), vec!["14"]);
    assert_eq!(run("say 10 - 3 - 2"), vec!["5"]);
    assert_eq!(run("say 100 / 10 / 5"), vec!["2"]);
    assert_eq!(run("say (1 + 2) * 3"), vec!["9"]);
    assert_eq!(run("say (1 + 2"), vec!["3"]);
}

#[test]
fn repeat_zero_times_runs_nothing() {
    assert_eq!(run("repeat 0 times say \"x\""), Vec::<String>::new());
}

#[test]
fn repeat_negative_times_runs_nothing() {
    assert_eq!(run("repeat (-1) times say \"x\""), Vec::<String>::new());
    assert_eq!(run("repeat 0 - 1 times say \"x\""), Vec::<String>::new());
    assert_eq!(run("repeat \"three\" times say \"x\""), Vec::<String>::new());
}

#[test]
fn repeat_runs_count_times() {
    assert_eq!(run("repeat 3 times do say \"x\""), vec!["x", "x", "x"]);
    assert_eq!(run("make n be 0 repeat 4 times change n to n + 2 say n"), vec!["2", "4", "6", "8"]);
}

#[test]
fn change_after_make() {
    assert_eq!(run("make x be 5 change x to (x + 1) say x"), vec!["6"]);
}

#[test]
fn change_creates_missing_variable() {
    assert_eq!(run("change y to 7 say y"), vec!["7"]);
}

#[test]
fn unset_variable_is_zero() {
    assert_eq!(run("say nothing_here"), vec!["0"]);
}

#[test]
fn say_joins_without_separator() {
    assert_eq!(run("say \"a\" \"b\""), vec!["ab"]);
    assert_eq!(run("say \"n=\" 3 + 4"), vec!["n=7"]);
}

#[test]
fn procedure_runs_once_per_call() {
    assert_eq!(run("make greet do say \"hi\" greet"), vec!["hi"]);
    assert_eq!(run("make greet do say \"hi\" greet greet"), vec!["hi", "hi"]);
}

#[test]
fn procedure_not_run_when_defined() {
    assert_eq!(run("make greet do say \"hi\""), Vec::<String>::new());
}

#[test]
fn undefined_procedure_is_no_op() {
    assert_eq!(run("nobody"), Vec::<String>::new());
    assert_eq!(run("nobody say \"after\""), vec!["after"]);
}

#[test]
fn name_can_be_variable_and_procedure() {
    assert_eq!(run("make both be 3 do say \"called\" both say both"), vec!["called", "3"]);
}

#[test]
fn if_zero_skips_body() {
    assert_eq!(run("if 0 do say \"x\""), Vec::<String>::new());
}

#[test]
fn if_one_runs_body() {
    assert_eq!(run("if 1 do say \"x\""), vec!["x"]);
}

#[test]
fn if_text_is_false() {
    assert_eq!(run("if \"yes\" do say \"x\""), Vec::<String>::new());
}

#[test]
fn text_in_arithmetic_is_zero() {
    assert_eq!(run("say \"a\" + 1"), vec!["0"]);
}

#[test]
fn forever_records_key_each_pass() {
    let stmts = parse("say \"start\" forever do if key-pressed \"a\" do say \"A\"");
    let mut interp = Interpreter::new();
    let body = match interp.run(&stmts) {
        Outcome::Looping(body) => body,
        _ => panic!("expected a forever loop"),
    };
    assert_eq!(interp.take_output(), vec!["start"]);
    assert!(matches!(interp.step_forever(body, Some("a".to_string())), Outcome::Finished));
    assert_eq!(interp.take_output(), vec!["A"]);
    assert!(matches!(interp.step_forever(body, Some("b".to_string())), Outcome::Finished));
    assert_eq!(interp.take_output(), Vec::<String>::new());
    assert!(matches!(interp.step_forever(body, None), Outcome::Finished));
    assert_eq!(interp.take_output(), Vec::<String>::new());
    assert!(matches!(interp.step_forever(body, Some("a".to_string())), Outcome::Finished));
    assert_eq!(interp.take_output(), vec!["A"]);
}

#[test]
fn key_pressed_any_gives_key_text() {
    let stmts = parse("forever do say key-pressed \"any\"");
    let mut interp = Interpreter::new();
    let body = match interp.run(&stmts) {
        Outcome::Looping(body) => body,
        _ => panic!("expected a forever loop"),
    };
    interp.step_forever(body, Some("q".to_string()));
    interp.step_forever(body, None);
    interp.step_forever(body, Some("enter".to_string()));
    assert_eq!(interp.take_output(), vec!["q", "", "enter"]);
}

#[test]
fn key_pressed_outside_loop_sees_no_key() {
    assert_eq!(run("say key-pressed \"a\""), vec!["0"]);
    assert_eq!(run("say key-pressed \"any\""), vec![""]);
}

#[test]
fn statements_after_forever_do_not_run() {
    let stmts = parse("forever do say \"x\" nobody say \"after\"");
    let mut interp = Interpreter::new();
    assert!(matches!(interp.run(&stmts), Outcome::Looping(_)));
    assert_eq!(interp.take_output(), Vec::<String>::new());
}

#[test]
fn unrecognized_token_between_statements_is_skipped() {
    assert_eq!(run("say \"one\" ) say \"two\""), vec!["one", "two"]);
    assert_eq!(run("say \"one\" @ say \"two\""), vec!["one", "two"]);
    assert_eq!(parse("make a be 1 times change a to 2").len(), 2);
}

#[test]
fn fresh_runs_agree() {
    let src = "make x be 2 change x to x * x * x say x say \"done\"";
    let first = run(src);
    let second = run(src);
    assert_eq!(first, vec!["8", "done"]);
    assert_eq!(first, second);
}

#[test]
fn deep_calls_stop_the_run() {
    let stmts = vec![
        Stmt::Make("f".to_string(), None, vec![Stmt::ExprStmt(Expr::FuncCall("f".to_string()))]),
        Stmt::ExprStmt(Expr::FuncCall("f".to_string())),
    ];
    let mut interp = Interpreter::new();
    assert!(matches!(interp.run(&stmts), Outcome::TooDeep));
}

#[test]
fn lexer_classifies_tokens() {
    let (tokens, texts) = tokenize("make x be 12 # note\nsay \"hi there\" + key-pressed \"a\" $ (maker)");
    assert_eq!(
        tokens,
        vec![
            Token::Make,
            Token::Identifier,
            Token::Be,
            Token::Number,
            Token::Say,
            Token::Text,
            Token::Plus,
            Token::KeyPressed,
            Token::Text,
            Token::LParen,
            Token::Identifier,
            Token::RParen,
        ]
    );
    assert_eq!(texts[1], "x");
    assert_eq!(texts[3], "12");
    assert_eq!(texts[5], "\"hi there\"");
    assert_eq!(texts[10], "maker");
}

#[test]
fn lexer_keywords_and_unterminated_text() {
    let (tokens, _) = tokenize("change to repeat times if do forever * / % -");
    assert_eq!(
        tokens,
        vec![
            Token::Change,
            Token::To,
            Token::Repeat,
            Token::Times,
            Token::If,
            Token::Do,
            Token::Forever,
            Token::Star,
            Token::Slash,
            Token::Percent,
            Token::Minus,
        ]
    );
    let (tokens, texts) = tokenize("\"open");
    assert_eq!(tokens, vec![Token::Identifier]);
    assert_eq!(texts, vec!["open"]);
    let (tokens, _) = tokenize("");
    assert!(tokens.is_empty());
}

#[test]
fn parser_builds_expected_tree() {
    let stmts = parse("make x be 1 + 2");
    assert_eq!(stmts.len(), 1);
    match &stmts[0] {
        Stmt::Make(name, Some(Expr::BinaryOp(l, op, r)), body) => {
            assert_eq!(name, "x");
            assert_eq!(op, "+");
            assert!(matches!(**l, Expr::Value(Value::Number(1))));
            assert!(matches!(**r, Expr::Value(Value::Number(2))));
            assert!(body.is_empty());
        }
        _ => panic!("unexpected statement"),
    }
}

#[test]
fn block_ends_at_bare_identifier() {
    let stmts = parse("if 1 do say \"a\" say \"b\" greet say \"c\"");
    assert_eq!(stmts.len(), 3);
    match &stmts[0] {
        Stmt::If(_, body) => assert_eq!(body.len(), 2),
        _ => panic!("unexpected statement"),
    }
}

#[test]
fn numbers_render_in_decimal() {
    assert_eq!(decimal_string(0), "0");
    assert_eq!(decimal_string(-45), "-45");
    assert_eq!(decimal_string(1234567890), "1234567890");
    assert_eq!(decimal_string(i64::MIN), "-9223372036854775808");
    assert_eq!(render_value(&Value::Text("t".to_string())), "t");
    assert_eq!(run("say 0 - 45"), vec!["-45"]);
}

#[test]
fn parser_strips_quotes_from_slices() {
    let mut parser = Parser::new(vec![Token::KeyPressed, Token::Text], vec!["", "\"a\""]);
    let stmts = parser.parse();
    assert_eq!(stmts.len(), 1);
    match &stmts[0] {
        Stmt::ExprStmt(Expr::KeyPressed(k)) => assert_eq!(k, "a"),
        _ => panic!("unexpected statement"),
    }
    let mut parser = Parser::new(vec![Token::Say, Token::Text, Token::Text], vec!["", "\"a\"", "\"b\""]);
    let stmts = parser.parse();
    match &stmts[0] {
        Stmt::Say(es) => {
            assert_eq!(es.len(), 2);
            assert!(matches!(&es[0], Expr::Value(Value::Text(t)) if t == "a"));
            assert!(matches!(&es[1], Expr::Value(Value::Text(t)) if t == "b"));
        }
        _ => panic!("unexpected statement"),
    }
}

#[test]
fn change_needs_to() {
    assert_eq!(run("make x be 1 change x 5 say x"), vec!["1"]);
}

#[test]
fn repeat_needs_times() {
    assert_eq!(run("repeat 2 say \"x\""), vec!["x"]);
}

#[test]
fn leading_minus_negates() {
    assert_eq!(run("say -5"), vec!["-5"]);
    assert_eq!(run("say 3 * -2"), vec!["-6"]);
}

#[test]
fn eval_of_literals_and_division() {
    let interp = Interpreter::new();
    assert!(matches!(interp.eval(&Expr::Value(Value::Number(-17))), Value::Number(-17)));
    let div = |a: i64, op: &str, b: i64| {
        interp.eval(&Expr::BinaryOp(
            Box::new(Expr::Value(Value::Number(a))),
            op.to_string(),
            Box::new(Expr::Value(Value::Number(b))),
        ))
    };
    assert!(matches!(div(-7, "/", 2), Value::Number(-3)));
    assert!(matches!(div(-7, "%", 2), Value::Number(-1)));
    assert!(matches!(div(7, "/", 0), Value::Number(0)));
    assert!(matches!(div(7, "%", 0), Value::Number(0)));
    assert!(matches!(div(i64::MIN, "%", -1), Value::Number(0)));
}
