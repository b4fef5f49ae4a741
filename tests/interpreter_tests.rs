use owolang::interpreter::{run, Line, RunError};
use owolang::number::{make_ratio, number_text, Number};
use owolang::parser::{expect_brace, expect_parenthesis, expect_token_type, parse, ParseError};
use owolang::style::{owoify, owoify_with, render_line};
use owolang::tokenizer::tokenize;

fn run_source(source: &str) -> (Vec<String>, Result<(), RunError>) {
    let tokens = tokenize(source).unwrap();
    let ast = parse(&tokens).unwrap();
    let mut out: Vec<Line> = Vec::new();
    let r = run(&ast, &mut out);
    let lines = out
        .iter()
        .map(|l| match l {
            Line::Plain(s) => s.clone(),
            Line::Styled(s) => s.clone(),
        })
        .collect();
    (lines, r)
}

fn parse_source(source: &str) -> Result<usize, ParseError> {
    let tokens = tokenize(source).unwrap();
    parse(&tokens).map(|ast| ast.len())
}

#[test]
fn multiplication_binds_tighter_than_addition() {
    let (lines, r) = run_source("meow(2 + 3 * 4)");
    assert_eq!(r, Ok(()));
    assert_eq!(lines, vec!["14"]);
}

#[test]
fn operators_group_left_to_right() {
    let (lines, r) = run_source("meow(10 - 4 - 3) meow(8 / 2 / 2) meow((2 + 3) * 4)");
    assert_eq!(r, Ok(()));
    assert_eq!(lines, vec!["3", "2", "20"]);
}

#[test]
fn division_gives_fractions() {
    let (lines, r) = run_source("meow(7 / 2) meow(1 / 3) meow(0.1 + 0.2) meow(2 - 5)");
    assert_eq!(r, Ok(()));
    assert_eq!(lines, vec!["3.5", "0.3333333333333333", "0.3", "-3"]);
}

#[test]
fn division_by_zero_does_not_fail() {
    let (lines, r) = run_source("meow(1 / 0) meow(0 - 1 / 0) meow(0 / 0)");
    assert_eq!(r, Ok(()));
    assert_eq!(lines, vec!["inf", "-inf", "NaN"]);
}

#[test]
fn strings_concatenate_left_to_right() {
    let (lines, r) = run_source("meow(\"a\" + \"b\" + \"c\")");
    assert_eq!(r, Ok(()));
    assert_eq!(lines, vec!["abc"]);
}

#[test]
fn strings_and_numbers_concatenate() {
    let (lines, r) = run_source("meow(\"n=\" + 1.5) meow(2 + \"x\")");
    assert_eq!(r, Ok(()));
    assert_eq!(lines, vec!["n=1.5", "2x"]);
}

#[test]
fn booleans_print_and_count_as_numbers() {
    let (lines, r) = run_source("meow(twue) meow(fawse) meow(twue + twue) meow(twue * 5)");
    assert_eq!(r, Ok(()));
    assert_eq!(lines, vec!["twue", "fawse", "2", "5"]);
}

#[test]
fn function_with_two_parameters_adds() {
    let (lines, r) = run_source("sparkle add(a, b) { bb a + b } meow(add(3, 4))");
    assert_eq!(r, Ok(()));
    assert_eq!(lines, vec!["7"]);
}

#[test]
fn calling_with_too_few_arguments_is_an_arity_error() {
    let (_, r) = run_source("sparkle add(a, b) { bb a + b } meow(add(3))");
    assert_eq!(
        r,
        Err(RunError::ArityMismatch { name: "add".to_string(), expected: 2, given: 1 })
    );
}

#[test]
fn calling_with_too_many_arguments_is_an_arity_error() {
    let (_, r) = run_source("sparkle add(a, b) { bb a + b } meow(add(3, 4, 5))");
    assert_eq!(
        r,
        Err(RunError::ArityMismatch { name: "add".to_string(), expected: 2, given: 3 })
    );
}

#[test]
fn function_without_return_yields_the_sentinel() {
    let (lines, r) = run_source("sparkle f() { meow(\"hi\") } meow(f())");
    assert_eq!(r, Ok(()));
    assert_eq!(lines, vec!["hi", "No return value"]);
}

#[test]
fn body_stops_at_the_first_return() {
    let (lines, r) = run_source("sparkle f() { meow(1) bb 2 meow(3) } meow(f())");
    assert_eq!(r, Ok(()));
    assert_eq!(lines, vec!["1", "2"]);
}

#[test]
fn undeclared_variable_is_an_error() {
    let (lines, r) = run_source("meow(1) meow(x)");
    assert_eq!(lines, vec!["1"]);
    assert_eq!(r, Err(RunError::UndefinedVariable("x".to_string())));
}

#[test]
fn variable_holds_its_last_value() {
    let (lines, r) = run_source("nyan x = 1 nyan x = x + 4 meow(x)");
    assert_eq!(r, Ok(()));
    assert_eq!(lines, vec!["5"]);
}

#[test]
fn function_body_cannot_see_caller_variables() {
    let (_, r) = run_source("nyan y = 1 sparkle f() { bb y } meow(f())");
    assert_eq!(r, Err(RunError::UndefinedVariable("y".to_string())));
}

#[test]
fn function_body_can_call_global_functions() {
    let (lines, r) = run_source(
        "sparkle double(n) { bb n * 2 } sparkle quad(n) { bb double(double(n)) } meow(quad(3))",
    );
    assert_eq!(r, Ok(()));
    assert_eq!(lines, vec!["12"]);
}

#[test]
fn later_declaration_wins() {
    let (lines, r) = run_source("meow(f()) sparkle f() { bb 1 } sparkle f() { bb 2 }");
    assert_eq!(r, Ok(()));
    assert_eq!(lines, vec!["2"]);
}

#[test]
fn undefined_function_is_an_error() {
    let (_, r) = run_source("g(1)");
    assert_eq!(r, Err(RunError::UndefinedFunction("g".to_string())));
}

#[test]
fn type_query_names_the_three_kinds() {
    let (lines, r) = run_source(
        "meow(kindOf(1)) meow(kindOf(42.5)) meow(kindOf(\"s\")) meow(kindOf(\"\")) meow(kindOf(twue)) meow(kindOf(fawse))",
    );
    assert_eq!(r, Ok(()));
    assert_eq!(lines, vec!["number", "number", "string", "string", "boolean", "boolean"]);
}

#[test]
fn subtracting_from_a_string_is_unsupported() {
    let (_, r) = run_source("meow(\"a\" - 1)");
    assert_eq!(r, Err(RunError::UnsupportedOperands("-".to_string())));
}

#[test]
fn adding_a_boolean_to_a_string_is_unsupported() {
    let (_, r) = run_source("meow(\"a\" + twue)");
    assert_eq!(r, Err(RunError::UnsupportedOperands("+".to_string())));
}

#[test]
fn endless_recursion_is_stopped() {
    let (_, r) = run_source("sparkle f() { bb f() } f()");
    assert_eq!(r, Err(RunError::CallDepthExceeded));
}

#[test]
fn styled_print_marks_only_strings() {
    let tokens = tokenize("owo(\"really\") owo(3)").unwrap();
    let ast = parse(&tokens).unwrap();
    let mut out: Vec<Line> = Vec::new();
    assert_eq!(run(&ast, &mut out), Ok(()));
    assert_eq!(out, vec![Line::Styled("really".to_string()), Line::Plain("3".to_string())]);
    assert_eq!(render_line(&out[1]), "3");
    let styled = render_line(&out[0]);
    assert!(styled == "weawwy" || styled == "weawwy owo");
}

#[test]
fn style_transform_replaces_letters() {
    assert_eq!(owoify_with("Hello World", false), "Hewwo Wowwd");
    assert_eq!(owoify_with("LR lr", true), "WW ww owo");
    let s = owoify("rl");
    assert!(s == "ww" || s == "ww owo");
}

#[test]
fn number_text_is_decimal() {
    assert_eq!(number_text(Number::Ratio { num: -5, den: 2 }).iter().collect::<String>(), "-2.5");
    assert_eq!(number_text(Number::Ratio { num: 12, den: 4 }).iter().collect::<String>(), "3");
    assert_eq!(number_text(Number::NaN).iter().collect::<String>(), "NaN");
}

#[test]
fn parse_errors_are_reported() {
    assert_eq!(parse_source("meow(1"), Err(ParseError::ExpectedParenthesis(')')));
    assert_eq!(parse_source("meow 1"), Err(ParseError::ExpectedParenthesis('(')));
    assert_eq!(parse_source("sparkle f(nyan) { }"), Err(ParseError::KeywordParameter));
    assert_eq!(parse_source("meow(1.2.3)"), Err(ParseError::MalformedNumber));
    assert_eq!(parse_source("nyan x 3"), Err(ParseError::ExpectedTokenType(owolang::tokens::TokenType::Equal)));
    assert_eq!(parse_source("sparkle 3() { }"), Err(ParseError::ExpectedFunctionName));
    assert_eq!(parse_source("sparkle f() { meow(1)"), Err(ParseError::ExpectedBrace('}')));
    assert_eq!(parse_source("+"), Err(ParseError::UnexpectedToken(owolang::tokens::TokenType::Operator)));
    assert_eq!(parse_source("sparkle f(a, b) { bb a } f(1, 2) meow(3)"), Ok(3));
}

#[test]
fn long_decimal_chains_stay_exact() {
    let sum = vec!["0.1"; 40].join(" + ");
    let (lines, r) = run_source(&format!("meow({}) meow(0.5 * 4) meow(2.50)", sum));
    assert_eq!(r, Ok(()));
    assert_eq!(lines, vec!["4", "2", "2.5"]);
}

#[test]
fn fractions_are_kept_in_lowest_terms() {
    assert_eq!(make_ratio(6, 4), Number::Ratio { num: 3, den: 2 });
    assert_eq!(make_ratio(-10, 5), Number::Ratio { num: -2, den: 1 });
    assert_eq!(make_ratio(0, 7), Number::Ratio { num: 0, den: 1 });
}

#[test]
fn missing_tokens_name_what_was_expected() {
    assert_eq!(parse_source("meow"), Err(ParseError::ExpectedParenthesis('(')));
    assert_eq!(parse_source("meow("), Err(ParseError::ExpectedExpression));
    assert_eq!(parse_source("f(1, 2"), Err(ParseError::ExpectedParenthesis(')')));
    assert_eq!(parse_source("sparkle f(a"), Err(ParseError::ExpectedParenthesis(')')));
    assert_eq!(parse_source("sparkle f()"), Err(ParseError::ExpectedBrace('{')));
    assert_eq!(parse_source("sparkle"), Err(ParseError::ExpectedFunctionName));
    assert_eq!(parse_source("nyan"), Err(ParseError::ExpectedVariableName));
    assert_eq!(
        parse_source("nyan x"),
        Err(ParseError::ExpectedTokenType(owolang::tokens::TokenType::Equal))
    );
}

#[test]
fn expectations_at_the_end_of_input_name_the_token() {
    let tokens = tokenize("(").unwrap();
    let mut current: usize = 1;
    assert_eq!(expect_parenthesis(&tokens, &mut current, ')'), Err(ParseError::ExpectedParenthesis(')')));
    assert_eq!(expect_brace(&tokens, &mut current, '}'), Err(ParseError::ExpectedBrace('}')));
    assert_eq!(
        expect_token_type(&tokens, &mut current, owolang::tokens::TokenType::Equal),
        Err(ParseError::ExpectedTokenType(owolang::tokens::TokenType::Equal))
    );
    assert_eq!(current, 1);
    let mut start: usize = 0;
    assert_eq!(expect_parenthesis(&tokens, &mut start, '('), Ok(()));
    assert_eq!(start, 1);
}

#[test]
fn long_literals_are_read() {
    let (lines, r) = run_source(
        "meow(0.00000000000000001) meow(1234567890123456789012345678901234567890) meow(0.1234567890123456789012345)",
    );
    assert_eq!(r, Ok(()));
    assert_eq!(lines[0], "0.00000000000000001");
    assert_eq!(lines[1], "inf");
    assert!(lines[2].starts_with("0.123456789012345"));
    assert_eq!(parse_source("meow(1..2)"), Err(ParseError::MalformedNumber));
}

#[test]
fn arithmetic_on_numbers_never_fails() {
    let big = "1267650600228229401496703205376";
    let (lines, r) = run_source(&format!("meow({} * {}) meow(0 - {} * {})", big, big, big, big));
    assert_eq!(r, Ok(()));
    assert_eq!(lines, vec!["inf", "-inf"]);
    let thirds = vec!["3"; 80].join(" / ");
    let (lines, r) = run_source(&format!("meow(1 / {}) meow(0.000001 * 0.000001 * 0.000001 * 0.000001 * 0.000001 * 0.000001 * 0.000001)", thirds));
    assert_eq!(r, Ok(()));
    assert_eq!(lines.len(), 2);
}

#[test]
fn whitespace_of_every_kind_is_skipped() {
    let tokens = tokenize("meow(\u{a0}1\u{2003}+\u{3000}2)\r\n").unwrap();
    assert_eq!(tokens.len(), 6);
}

#[test]
fn coarse_results_stay_close() {
    let (lines, r) = run_source(
        "meow(2 / 3 * 0.0000000001 / 7 / 11 / 13 / 17 / 19 / 23 / 29 / 31 / 37 / 41 / 43 / 47 * 3)",
    );
    assert_eq!(r, Ok(()));
    assert_eq!(lines, vec!["0.000000000000000000000000009757846316362419"]);
}

#[test]
fn values_below_the_smallest_fraction_become_zero() {
    let thirds = vec!["3"; 90].join(" / ");
    let (lines, r) = run_source(&format!("meow(1 / {})", thirds));
    assert_eq!(r, Ok(()));
    assert_eq!(lines, vec!["0"]);
}
