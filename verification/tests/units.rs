// Direct tests of the library's pieces: the tokenizer, the parser, the
// primitive dispatcher and the data-model methods.

use curry::encoding::{Evaluation, Exception, ExceptionType, ListEval, TokenValue};

#[test]
fn tokenize_classifies_words() {
    let tokens = curry::tokenizer::tokenize("true false 12 -3 2.5 name").expect("tokenize fault");
    assert!(matches!(tokens[0].value, TokenValue::True));
    assert!(matches!(tokens[1].value, TokenValue::False));
    assert!(matches!(tokens[2].value, TokenValue::Integer(12)));
    assert!(matches!(tokens[3].value, TokenValue::Integer(-3)));
    assert!(matches!(tokens[4].value, TokenValue::Float(b) if b == (2.5f64).to_bits()));
    assert!(matches!(tokens[5].value, TokenValue::ID(ref s) if s == "name"));
    assert!(matches!(tokens[6].value, TokenValue::EOF));
    assert_eq!(tokens.len(), 7);
}

#[test]
fn tokenize_reserved_characters_end_tokens() {
    let tokens = curry::tokenizer::tokenize("f[1];").expect("tokenize fault");
    assert!(matches!(tokens[0].value, TokenValue::ID(ref s) if s == "f"));
    assert!(matches!(tokens[1].value, TokenValue::OpenBracket));
    assert!(matches!(tokens[2].value, TokenValue::Integer(1)));
    assert!(matches!(tokens[3].value, TokenValue::CloseBracket));
    assert!(matches!(tokens[4].value, TokenValue::Semicolon));
}

#[test]
fn tokenize_string_literals_take_everything_to_the_quote() {
    let tokens = curry::tokenizer::tokenize("\"a b:;[]#\"").expect("tokenize fault");
    assert!(matches!(tokens[0].value, TokenValue::Text(ref s) if s == "a b:;[]#"));
}

#[test]
fn tokenize_unterminated_string_is_a_fault() {
    let fault = curry::tokenizer::tokenize("\"abc").expect_err("should fail");
    assert_eq!(fault.msg, "unterminated string in source: abc");
}

#[test]
fn tokenize_tracks_line_numbers() {
    let tokens = curry::tokenizer::tokenize("1;\nname;\n").expect("tokenize fault");
    assert_eq!(tokens[0].lnum, 1);
    assert_eq!(tokens[0].line, "1;");
    assert_eq!(tokens[2].lnum, 2);
    assert_eq!(tokens[2].line, "name;");
}

#[test]
fn build_line_key_maps_positions_to_lines() {
    let chars: Vec<char> = "ab\ncd".chars().collect();
    let key = curry::tokenizer::build_line_key(&chars);
    assert_eq!(curry::tokenizer::get_lnum(0, &key), 1);
    assert_eq!(curry::tokenizer::get_lnum(4, &key), 2);
    assert_eq!(curry::tokenizer::get_line(0, &key), "ab");
    assert_eq!(curry::tokenizer::get_line(4, &key), "cd");
}

#[test]
fn parse_rejects_missing_semicolon() {
    let tokens = curry::tokenizer::tokenize("1 2").expect("tokenize fault");
    let fault = curry::parser::parse(&tokens).expect_err("should fail");
    assert_eq!(fault.msg, "semicolon expected after expression");
}

#[test]
fn parse_rejects_unterminated_list() {
    let tokens = curry::tokenizer::tokenize("[1;").expect("tokenize fault");
    let fault = curry::parser::parse(&tokens).expect_err("should fail");
    assert_eq!(fault.msg, "expression or close bracket expected");
}

#[test]
fn parse_error_builds_the_diagnostic() {
    let f = curry::parser::parse_error(String::from("boom"), 3, &String::from("x y"));
    assert_eq!(f.msg, "boom");
    assert_eq!(f.lnum, 3);
    assert_eq!(f.line, "x y");
}

#[test]
fn dispatcher_returns_exception_argument_unchanged() {
    let exc = Evaluation::Exception(Exception::new(
        &ExceptionType::Error,
        &Evaluation::Text(String::from("boom")),
    ));
    let param = ListEval { items: vec![exc, Evaluation::Integer(1)] };
    let mut out: Vec<String> = Vec::new();
    let r = curry::primitives::system_functions(String::from("+"), param, &mut out);
    match r {
        Evaluation::Exception(e) => {
            assert!(matches!(e.flavor, ExceptionType::Error));
            assert!(matches!(*e.payload, Evaluation::Text(ref s) if s == "boom"));
            assert!(e.stack.is_empty());
        },
        _ => panic!("the exception must poison the call"),
    }
    assert!(out.is_empty());
}

#[test]
fn dispatcher_concatenates_strings() {
    let param = ListEval {
        items: vec![
            Evaluation::Text(String::from("ab")),
            Evaluation::Text(String::from("cd")),
        ],
    };
    let mut out: Vec<String> = Vec::new();
    let r = curry::primitives::system_functions(String::from("+"), param, &mut out);
    assert!(matches!(r, Evaluation::Text(ref s) if s == "abcd"));
}

#[test]
fn expect_args_reports_arity() {
    let param = ListEval { items: vec![Evaluation::Integer(1)] };
    let id = String::from("?");
    let r = curry::primitives::expect_args(3, &param, &id).expect("must mismatch");
    match r {
        Evaluation::Exception(e) => {
            assert!(matches!(e.flavor, ExceptionType::ArgError));
            assert!(matches!(
                *e.payload,
                Evaluation::Text(ref s) if s == "expected argument list of length 3 but got 1"
            ));
            assert_eq!(e.stack, vec![String::from("?")]);
        },
        _ => panic!("expected an exception"),
    }
    assert!(curry::primitives::expect_args(1, &param, &id).is_none());
}

#[test]
fn val_equal_follows_structure() {
    let a = Evaluation::List(ListEval {
        items: vec![Evaluation::Integer(1), Evaluation::Text(String::from("x"))],
    });
    let b = Evaluation::List(ListEval {
        items: vec![Evaluation::Integer(1), Evaluation::Text(String::from("x"))],
    });
    let c = Evaluation::List(ListEval { items: vec![Evaluation::Integer(1)] });
    assert!(curry::primitives::val_equal_exec(&a, &b));
    assert!(!curry::primitives::val_equal_exec(&a, &c));
}

#[test]
fn exceptions_equal_nothing() {
    let e1 = Evaluation::Exception(Exception::new(&ExceptionType::Error, &Evaluation::True));
    let e2 = Evaluation::Exception(Exception::new(&ExceptionType::Error, &Evaluation::True));
    assert!(!curry::primitives::val_equal_exec(&e1, &e2));
}

#[test]
fn exception_to_list_exposes_flavor_payload_and_stack() {
    let mut e = Exception::new(&ExceptionType::TypeMismatch, &Evaluation::Integer(9));
    e.stack.push(String::from("+"));
    e.stack.push(String::from("f"));
    let l = e.to_list();
    let v = Evaluation::List(l);
    assert_eq!(v.render().as_str(), "[\"type mismatch\" 9 [\"+\" \"f\"]]");
}

#[test]
fn flavor_names_match_the_display_forms() {
    assert_eq!(ExceptionType::Return.name(), "return");
    assert_eq!(ExceptionType::Error.name(), "error");
    assert_eq!(ExceptionType::ArgError.name(), "parameter length");
    assert_eq!(ExceptionType::ParseError.name(), "parse error");
    assert_eq!(ExceptionType::TypeError.name(), "type error");
    assert_eq!(ExceptionType::TypeMismatch.name(), "type mismatch");
    assert_eq!(ExceptionType::DivByZero.name(), "division by zero");
    assert_eq!(ExceptionType::RuntimeError.name(), "runtime error");
    assert_eq!(ExceptionType::UndefError.name(), "undefined function");
    assert_eq!(ExceptionType::RedefError.name(), "redefinition error");
}

#[test]
fn clones_are_deep_and_faithful() {
    let tokens = curry::tokenizer::tokenize("f: [1 \"x\"];;").expect("tokenize fault");
    let block = curry::parser::parse(&tokens).expect("parse fault");
    let copy = block.clone();
    assert_eq!(block.expressions.len(), copy.expressions.len());
    let e1 = ExceptionType::DivByZero.clone();
    assert!(matches!(e1, ExceptionType::DivByZero));
}

#[test]
fn numbers_render_in_decimal() {
    assert_eq!(curry::numbers::u64_string(0), "0");
    assert_eq!(curry::numbers::u64_string(90210), "90210");
    assert_eq!(curry::numbers::i64_string(-1), "-1");
    assert_eq!(curry::numbers::i64_string(i64::MIN), "-9223372036854775808");
    assert_eq!(curry::numbers::i64_string(i64::MAX), "9223372036854775807");
}

#[test]
fn numbers_parse_like_the_host() {
    assert_eq!(curry::numbers::parse_int_exec(&String::from("42")), Some(42));
    assert_eq!(curry::numbers::parse_int_exec(&String::from("+42")), Some(42));
    assert_eq!(curry::numbers::parse_int_exec(&String::from("-42")), Some(-42));
    assert_eq!(
        curry::numbers::parse_int_exec(&String::from("-9223372036854775808")),
        Some(i64::MIN)
    );
    assert_eq!(curry::numbers::parse_int_exec(&String::from("9223372036854775808")), None);
    assert_eq!(curry::numbers::parse_int_exec(&String::from("")), None);
    assert_eq!(curry::numbers::parse_int_exec(&String::from("-")), None);
    assert_eq!(curry::numbers::parse_int_exec(&String::from("4x2")), None);
    assert_eq!(curry::numbers::parse_int_exec(&String::from("42")), "42".parse::<i64>().ok());
}

#[test]
fn render_quotes_strings_and_elides_functions() {
    let v = Evaluation::Text(String::from("hi"));
    assert_eq!(v.render().as_str(), "\"hi\"");
    let tokens = curry::tokenizer::tokenize("f: 1;;").expect("tokenize fault");
    let block = curry::parser::parse(&tokens).expect("parse fault");
    let (r, _) = curry::evaluator::evaluate(&block, 10);
    // A definition evaluates to the function value it binds.
    assert_eq!(r.expect("out of fuel").render().as_str(), ":<...>");
}
