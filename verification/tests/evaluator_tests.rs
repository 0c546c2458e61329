use minilang::evaluator::{Evaluator, RunResult, RuntimeError};
use minilang::scanner::LexError;
use minilang::scanner::Token;
use minilang::scanner::TokenKind;
use minilang::parser::Parser;
use minilang::scanner::Scanner;

fn run(text: &str) -> RunResult {
    let scanner = Scanner::new(text).unwrap();
    let mut parser = Parser::new(scanner);
    let ast = parser.parse().unwrap();
    let mut evaluator = Evaluator::new();
    evaluator.apply(ast)
}

#[test]
fn print_round_trip() {
    // A program whose main only prints "X" writes exactly X, without the
    // quotes, and nothing else.
    let r = run(r#"fn main() { print("X"); }"#);
    assert_eq!(r.output, vec!["X".to_string()]);
    assert_eq!(r.error, None);
}

#[test]
fn multiplication_binds_tighter() {
    let r = run("fn main() { print(1 + 2 * 3); }");
    assert_eq!(r.output, vec!["7".to_string()]);
    assert_eq!(r.error, None);
}

#[test]
fn parentheses_group_first() {
    let r = run("fn main() { print((1 + 2) * 3); }");
    assert_eq!(r.output, vec!["9".to_string()]);
    assert_eq!(r.error, None);
}

#[test]
fn while_loop_counts() {
    let r = run("fn main() { i = 0; while(i < 3) { print(i); i = i + 1; } }");
    assert_eq!(
        r.output,
        vec!["0".to_string(), "1".to_string(), "2".to_string()]
    );
    assert_eq!(r.error, None);
}

#[test]
fn undefined_function_aborts() {
    let r = run("fn main() { foo(); }");
    assert_eq!(r.output, Vec::<String>::new());
    assert_eq!(r.error, Some(RuntimeError::UndefinedFunction));
}

#[test]
fn division_by_zero_aborts() {
    // Output already written stays; the erroneous statement writes nothing.
    let r = run(r#"fn main() { print("a"); print(5 / 0); }"#);
    assert_eq!(r.output, vec!["a".to_string()]);
    assert_eq!(r.error, Some(RuntimeError::DivisionByZero));
}

#[test]
fn modulo_by_zero_aborts() {
    let r = run("fn main() { print(5 % 0); }");
    assert_eq!(r.error, Some(RuntimeError::DivisionByZero));
}

#[test]
fn undefined_variable_aborts() {
    let r = run("fn main() { print(x); }");
    assert_eq!(r.error, Some(RuntimeError::UndefinedVariable));
}

#[test]
fn arity_mismatch_aborts() {
    let r = run("fn f(a) { print(a); } fn main() { f(); }");
    assert_eq!(r.error, Some(RuntimeError::ArityMismatch));
}

#[test]
fn print_takes_one_argument() {
    let r = run("fn main() { print(1, 2); }");
    assert_eq!(r.error, Some(RuntimeError::ArityMismatch));
}

#[test]
fn type_mismatch_aborts() {
    let r = run(r#"fn main() { print(1 + "a"); }"#);
    assert_eq!(r.error, Some(RuntimeError::TypeMismatch));
}

#[test]
fn comparing_string_to_int_aborts() {
    let r = run(r#"fn main() { if("a" == 1) { print(1); } }"#);
    assert_eq!(r.error, Some(RuntimeError::TypeMismatch));
}

#[test]
fn break_outside_loop_aborts() {
    let r = run("fn main() { break; }");
    assert_eq!(r.error, Some(RuntimeError::LoopControlError));
}

#[test]
fn missing_main_aborts() {
    let r = run("fn helper() { print(1); }");
    assert_eq!(r.output, Vec::<String>::new());
    assert_eq!(r.error, Some(RuntimeError::EntryPointMissing));
}

#[test]
fn unbounded_recursion_aborts() {
    let r = run("fn main() { main(); }");
    assert_eq!(r.error, Some(RuntimeError::StackOverflow));
}

#[test]
fn return_passes_a_value() {
    let r = run("fn f(a, b) { return a + b; } fn main() { print(f(40, 2)); }");
    assert_eq!(r.output, vec!["42".to_string()]);
    assert_eq!(r.error, None);
}

#[test]
fn return_without_value_yields_unit() {
    let r = run("fn f() { return; } fn main() { print(f()); }");
    assert_eq!(r.output, vec!["()".to_string()]);
    assert_eq!(r.error, None);
}

#[test]
fn negative_numbers_print_with_sign() {
    let r = run("fn main() { print(0 - 5); }");
    assert_eq!(r.output, vec!["-5".to_string()]);
    assert_eq!(r.error, None);
}

#[test]
fn booleans_print_their_names() {
    let r = run("fn main() { print(true); print(1 < 2); print(2 < 1); }");
    assert_eq!(
        r.output,
        vec!["true".to_string(), "true".to_string(), "false".to_string()]
    );
    assert_eq!(r.error, None);
}

#[test]
fn string_equality_is_structural() {
    let r = run(r#"fn main() { print("ab" == "ab"); print("ab" != "cd"); }"#);
    assert_eq!(r.output, vec!["true".to_string(), "true".to_string()]);
    assert_eq!(r.error, None);
}

#[test]
fn break_leaves_only_the_nearest_loop() {
    let r = run(
        "fn main() { i = 0; while(true) { if(i >= 2) { break; } print(i); i = i + 1; } print(9); }",
    );
    assert_eq!(
        r.output,
        vec!["0".to_string(), "1".to_string(), "9".to_string()]
    );
    assert_eq!(r.error, None);
}

#[test]
fn later_definition_wins() {
    let r = run("fn f() { print(1); } fn f() { print(2); } fn main() { f(); }");
    assert_eq!(r.output, vec!["2".to_string()]);
    assert_eq!(r.error, None);
}

#[test]
fn assignment_is_frame_local() {
    // A callee's assignments never touch the caller's variables.
    let r = run("fn f(x) { x = 99; } fn main() { x = 1; f(x); print(x); }");
    assert_eq!(r.output, vec!["1".to_string()]);
    assert_eq!(r.error, None);
}

#[test]
fn fizz_buzz_runs() {
    let r = run(
        r#"
        fn main() {
            i = 1;
            while(i <= 15) {
                if(i % 15 == 0) {
                    print("FizzBuzz");
                } else if(i % 3 == 0) {
                    print("Fizz");
                } else if(i % 5 == 0) {
                    print("Buzz");
                } else {
                    print(i);
                }
                i = i + 1;
            }
        }
    "#,
    );
    assert_eq!(r.error, None);
    assert_eq!(
        r.output,
        vec![
            "1", "2", "Fizz", "4", "Buzz", "Fizz", "7", "8", "Fizz", "Buzz", "11", "Fizz", "13",
            "14", "FizzBuzz"
        ]
        .into_iter()
        .map(|s| s.to_string())
        .collect::<Vec<String>>()
    );
}

#[test]
fn unterminated_string_is_a_lex_error() {
    let r = Scanner::new(r#"fn main() { print("oops); }"#);
    assert!(matches!(r, Err(LexError::UnterminatedString)));
}

#[test]
fn tokenizing_concatenation_matches_tokenizing_parts() {
    // Tokenizing two texts separately and joining the streams matches
    // tokenizing their concatenation, when the first does not end
    // mid-lexeme.
    fn tokens(text: &str) -> Vec<Token> {
        let mut sc = Scanner::new(text).unwrap();
        let mut v = Vec::new();
        let first = sc.peek();
        if first.kind == TokenKind::Eof {
            return v;
        }
        v.push(first);
        while sc.is_not_end() {
            v.push(sc.next());
        }
        v
    }
    let a = "fn main() { ";
    let b = r#"print("X"); }"#;
    let joined = format!("{}{}", a, b);
    let mut separate = tokens(a);
    separate.extend(tokens(b));
    assert_eq!(tokens(&joined), separate);
}
