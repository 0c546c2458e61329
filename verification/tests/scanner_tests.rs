use minilang::scanner::{Scanner, Token, TokenKind};

#[test]
fn scanner_hello_world() {
    let text = r#"
        fn main() {
            print("Hello World");
        }
    "#;
    let mut scanner = Scanner::new(text).unwrap();

    assert!(scanner.is_not_end());

    assert_eq!(
        scanner.peek(),
        Token {kind: TokenKind::FuncDef, value: "fn".to_string()},
    );

    assert_eq!(
        scanner.next(),
        Token {kind: TokenKind::Ident, value: "main".to_string()},
    );

    assert_eq!(
        scanner.next(),
        Token {kind: TokenKind::ParenthesOpen, value: "(".to_string()},
    );

    assert_eq!(
        scanner.next(),
        Token {kind: TokenKind::ParenthesClose, value: ")".to_string()},
    );

    assert_eq!(
        scanner.next(),
        Token {kind: TokenKind::Begin, value: "{".to_string()},
    );

    assert_eq!(
        scanner.next(),
        Token {kind: TokenKind::Ident, value: "print".to_string()},
    );

    assert_eq!(
        scanner.next(),
        Token {kind: TokenKind::ParenthesOpen, value: "(".to_string()},
    );

    assert_eq!(
        scanner.next(),
        Token {kind: TokenKind::String, value: "\"Hello World\"".to_string()},
    );

    assert_eq!(
        scanner.next(),
        Token {kind: TokenKind::ParenthesClose, value: ")".to_string()},
    );
    
    assert_eq!(
        scanner.next(),
        Token {kind: TokenKind::Semicolon, value: ";".to_string()},
    );

    assert!(scanner.is_not_end());

    assert_eq!(
        scanner.next(),
        Token {kind: TokenKind::End, value: "}".to_string()},
    );

    assert!(!scanner.is_not_end());
}

#[test]
fn scanner_fizz_buzz() {
    let text = r#"
        fn main() {
            fizzbuzz(1, 100)
        }

        fn fizzbuzz(start, end) {
            i = start;
            while(true){
                if (i < end) {
                break;
                }
                if(i % 15 == 0){
                    print("FizzBuzz");
                }else if(i % 3 == 0){
                    print("Fizz");
                }else if(i % 5 == 0){
                    print("Buzz");
                }else {
                    print(i);
                }
                i = i + 1;
            }
        }
    "#;

    let mut scanner = Scanner::new(text).unwrap();

    assert!(scanner.is_not_end());

    assert_eq!(
        scanner.peek(),
        Token {kind: TokenKind::FuncDef, value: "fn".to_string()},
    );

    assert_eq!(
        scanner.next(),
        Token {kind: TokenKind::Ident, value: "main".to_string()},
    );

    assert_eq!(
        scanner.next(),
        Token {kind: TokenKind::ParenthesOpen, value: "(".to_string()},
    );

    assert_eq!(
        scanner.next(),
        Token {kind: TokenKind::ParenthesClose, value: ")".to_string()},
    );

    assert_eq!(
        scanner.next(),
        Token {kind: TokenKind::Begin, value: "{".to_string()},
    );

    assert_eq!(
        scanner.next(),
        Token {kind: TokenKind::Ident, value: "fizzbuzz".to_string()},
    );

    assert_eq!(
        scanner.next(),
        Token {kind: TokenKind::ParenthesOpen, value: "(".to_string()},
    );

    assert_eq!(
        scanner.next(),
        Token {kind: TokenKind::Int, value: "1".to_string()},
    );

    assert_eq!(
        scanner.next(),
        Token {kind: TokenKind::Comma, value: ",".to_string()},
    );

    assert_eq!(
        scanner.next(),
        Token {kind: TokenKind::Int, value: "100".to_string()},
    );

    assert_eq!(
        scanner.next(),
        Token {kind: TokenKind::ParenthesClose, value: ")".to_string()},
    );

    assert_eq!(
        scanner.next(),
        Token {kind: TokenKind::End, value: "}".to_string()},
    );

    assert_eq!(
        scanner.next(),
        Token {kind: TokenKind::FuncDef, value: "fn".to_string()},
    );

    assert_eq!(
        scanner.next(),
        Token {kind: TokenKind::Ident, value: "fizzbuzz".to_string()},
    );

    assert_eq!(
        scanner.next(),
        Token {kind: TokenKind::ParenthesOpen, value: "(".to_string()},
    );

    assert_eq!(
        scanner.next(),
        Token {kind: TokenKind::Ident, value: "start".to_string()},
    );

    assert_eq!(
        scanner.next(),
        Token {kind: TokenKind::Comma, value: ",".to_string()},
    );

    assert_eq!(
        scanner.next(),
        Token {kind: TokenKind::Ident, value: "end".to_string()},
    );

    assert_eq!(
        scanner.next(),
        Token {kind: TokenKind::ParenthesClose, value: ")".to_string()},
    );

    assert_eq!(
        scanner.next(),
        Token {kind: TokenKind::Begin, value: "{".to_string()},
    );

    assert_eq!(
        scanner.next(),
        Token {kind: TokenKind::Ident, value: "i".to_string()},
    );

    assert_eq!(
        scanner.next(),
        Token {kind: TokenKind::Assign, value: "=".to_string()},
    );

    assert_eq!(
        scanner.next(),
        Token {kind: TokenKind::Ident, value: "start".to_string()},
    );

    assert_eq!(
        scanner.next(),
        Token {kind: TokenKind::Semicolon, value: ";".to_string()},
    );

    assert_eq!(
        scanner.next(),
        Token {kind: TokenKind::While, value: "while".to_string()},
    );

    assert_eq!(
        scanner.next(),
        Token {kind: TokenKind::ParenthesOpen, value: "(".to_string()},
    );

    assert_eq!(
        scanner.next(),
        Token {kind: TokenKind::Bool, value: "true".to_string()},
    );

    assert_eq!(
        scanner.next(),
        Token {kind: TokenKind::ParenthesClose, value: ")".to_string()},
    );

    assert_eq!(
        scanner.next(),
        Token {kind: TokenKind::Begin, value: "{".to_string()},
    );

    assert_eq!(
        scanner.next(),
        Token {kind: TokenKind::If, value: "if".to_string()},
    );

    assert_eq!(
        scanner.next(),
        Token {kind: TokenKind::ParenthesOpen, value: "(".to_string()},
    );

    assert_eq!(
        scanner.next(),
        Token {kind: TokenKind::Ident, value: "i".to_string()},
    );

    assert_eq!(
        scanner.next(),
        Token {kind: TokenKind::OpRel, value: "<".to_string()},
    );

    assert_eq!(
        scanner.next(),
        Token {kind: TokenKind::Ident, value: "end".to_string()},
    );

    assert_eq!(
        scanner.next(),
        Token {kind: TokenKind::ParenthesClose, value: ")".to_string()},
    );

    assert_eq!(
        scanner.next(),
        Token {kind: TokenKind::Begin, value: "{".to_string()},
    );

    assert_eq!(
        scanner.next(),
        Token {kind: TokenKind::Break, value: "break".to_string()},
    );

    assert_eq!(
        scanner.next(),
        Token {kind: TokenKind::Semicolon, value: ";".to_string()},
    );

    assert_eq!(
        scanner.next(),
        Token {kind: TokenKind::End, value: "}".to_string()},
    );

    assert_eq!(
        scanner.next(),
        Token {kind: TokenKind::If, value: "if".to_string()},
    );

    assert_eq!(
        scanner.next(),
        Token {kind: TokenKind::ParenthesOpen, value: "(".to_string()},
    );

    assert_eq!(
        scanner.next(),
        Token {kind: TokenKind::Ident, value: "i".to_string()},
    );

    assert_eq!(
        scanner.next(),
        Token {kind: TokenKind::OpMul, value: "%".to_string()},
    );

    assert_eq!(
        scanner.next(),
        Token {kind: TokenKind::Int, value: "15".to_string()},
    );

    assert_eq!(
        scanner.next(),
        Token {kind: TokenKind::OpRel, value: "==".to_string()},
    );

    assert_eq!(
        scanner.next(),
        Token {kind: TokenKind::Int, value: "0".to_string()},
    );

    assert_eq!(
        scanner.next(),
        Token {kind: TokenKind::ParenthesClose, value: ")".to_string()},
    );

    assert_eq!(
        scanner.next(),
        Token {kind: TokenKind::Begin, value: "{".to_string()},
    );

    assert_eq!(
        scanner.next(),
        Token {kind: TokenKind::Ident, value: "print".to_string()},
    );

    assert_eq!(
        scanner.next(),
        Token {kind: TokenKind::ParenthesOpen, value: "(".to_string()},
    );

    assert_eq!(
        scanner.next(),
        Token {kind: TokenKind::String, value: "\"FizzBuzz\"".to_string()},
    );

    assert_eq!(
        scanner.next(),
        Token {kind: TokenKind::ParenthesClose, value: ")".to_string()},
    );

    assert_eq!(
        scanner.next(),
        Token {kind: TokenKind::Semicolon, value: ";".to_string()},
    );

    assert_eq!(
        scanner.next(),
        Token {kind: TokenKind::End, value: "}".to_string()},
    );

    assert_eq!(
        scanner.next(),
        Token {kind: TokenKind::Else, value: "else".to_string()},
    );

    assert_eq!(
        scanner.next(),
        Token {kind: TokenKind::If, value: "if".to_string()},
    );

    assert_eq!(
        scanner.next(),
        Token {kind: TokenKind::ParenthesOpen, value: "(".to_string()},
    );

    assert_eq!(
        scanner.next(),
        Token {kind: TokenKind::Ident, value: "i".to_string()},
    );

    assert_eq!(
        scanner.next(),
        Token {kind: TokenKind::OpMul, value: "%".to_string()},
    );

    assert_eq!(
        scanner.next(),
        Token {kind: TokenKind::Int, value: "3".to_string()},
    );

    assert_eq!(
        scanner.next(),
        Token {kind: TokenKind::OpRel, value: "==".to_string()},
    );

    assert_eq!(
        scanner.next(),
        Token {kind: TokenKind::Int, value: "0".to_string()},
    );

    assert_eq!(
        scanner.next(),
        Token {kind: TokenKind::ParenthesClose, value: ")".to_string()},
    );

    assert_eq!(
        scanner.next(),
        Token {kind: TokenKind::Begin, value: "{".to_string()},
    );

    assert_eq!(
        scanner.next(),
        Token {kind: TokenKind::Ident, value: "print".to_string()},
    );

    assert_eq!(
        scanner.next(),
        Token {kind: TokenKind::ParenthesOpen, value: "(".to_string()},
    );

    assert_eq!(
        scanner.next(),
        Token {kind: TokenKind::String, value: "\"Fizz\"".to_string()},
    );

    assert_eq!(
        scanner.next(),
        Token {kind: TokenKind::ParenthesClose, value: ")".to_string()},
    );

    assert_eq!(
        scanner.next(),
        Token {kind: TokenKind::Semicolon, value: ";".to_string()},
    );

    assert_eq!(
        scanner.next(),
        Token {kind: TokenKind::End, value: "}".to_string()},
    );

    assert_eq!(
        scanner.next(),
        Token {kind: TokenKind::Else, value: "else".to_string()},
    );

    assert_eq!(
        scanner.next(),
        Token {kind: TokenKind::If, value: "if".to_string()},
    );

    assert_eq!(
        scanner.next(),
        Token {kind: TokenKind::ParenthesOpen, value: "(".to_string()},
    );

    assert_eq!(
        scanner.next(),
        Token {kind: TokenKind::Ident, value: "i".to_string()},
    );

    assert_eq!(
        scanner.next(),
        Token {kind: TokenKind::OpMul, value: "%".to_string()},
    );

    assert_eq!(
        scanner.next(),
        Token {kind: TokenKind::Int, value: "5".to_string()},
    );

    assert_eq!(
        scanner.next(),
        Token {kind: TokenKind::OpRel, value: "==".to_string()},
    );

    assert_eq!(
        scanner.next(),
        Token {kind: TokenKind::Int, value: "0".to_string()},
    );

    assert_eq!(
        scanner.next(),
        Token {kind: TokenKind::ParenthesClose, value: ")".to_string()},
    );

    assert_eq!(
        scanner.next(),
        Token {kind: TokenKind::Begin, value: "{".to_string()},
    );

    assert_eq!(
        scanner.next(),
        Token {kind: TokenKind::Ident, value: "print".to_string()},
    );

    assert_eq!(
        scanner.next(),
        Token {kind: TokenKind::ParenthesOpen, value: "(".to_string()},
    );

    assert_eq!(
        scanner.next(),
        Token {kind: TokenKind::String, value: "\"Buzz\"".to_string()},
    );

    assert_eq!(
        scanner.next(),
        Token {kind: TokenKind::ParenthesClose, value: ")".to_string()},
    );

    assert_eq!(
        scanner.next(),
        Token {kind: TokenKind::Semicolon, value: ";".to_string()},
    );

    assert_eq!(
        scanner.next(),
        Token {kind: TokenKind::End, value: "}".to_string()},
    );

    assert_eq!(
        scanner.next(),
        Token {kind: TokenKind::Else, value: "else".to_string()},
    );

    assert_eq!(
        scanner.next(),
        Token {kind: TokenKind::Begin, value: "{".to_string()},
    );

    assert_eq!(
        scanner.next(),
        Token {kind: TokenKind::Ident, value: "print".to_string()},
    );

    assert_eq!(
        scanner.next(),
        Token {kind: TokenKind::ParenthesOpen, value: "(".to_string()},
    );

    assert_eq!(
        scanner.next(),
        Token {kind: TokenKind::Ident, value: "i".to_string()},
    );

    assert_eq!(
        scanner.next(),
        Token {kind: TokenKind::ParenthesClose, value: ")".to_string()},
    );

    assert_eq!(
        scanner.next(),
        Token {kind: TokenKind::Semicolon, value: ";".to_string()},
    );

    assert_eq!(
        scanner.next(),
        Token {kind: TokenKind::End, value: "}".to_string()},
    );

    assert_eq!(
        scanner.next(),
        Token {kind: TokenKind::Ident, value: "i".to_string()},
    );

    assert_eq!(
        scanner.next(),
        Token {kind: TokenKind::Assign, value: "=".to_string()},
    );

    assert_eq!(
        scanner.next(),
        Token {kind: TokenKind::Ident, value: "i".to_string()},
    );

    assert_eq!(
        scanner.next(),
        Token {kind: TokenKind::OpAdd, value: "+".to_string()},
    );

    assert_eq!(
        scanner.next(),
        Token {kind: TokenKind::Int, value: "1".to_string()},
    );

    assert_eq!(
        scanner.next(),
        Token {kind: TokenKind::Semicolon, value: ";".to_string()},
    );

    assert_eq!(
        scanner.next(),
        Token {kind: TokenKind::End, value: "}".to_string()},
    );

    assert_eq!(
        scanner.next(),
        Token {kind: TokenKind::End, value: "}".to_string()},
    );
}
