// End-to-end tests of the language semantics: source text through the
// tokenizer, the parser and the evaluator.
//
// Syntax notes: every expression in a block is followed by a semicolon, and
// a block ends at the first token that starts no expression — so a
// definition's body is closed by an extra semicolon (`f: 1;;`) or by the
// closing bracket of an enclosing list.

use curry::encoding::{Evaluation, ExceptionType};

fn run(src: &str) -> (Option<Evaluation>, Vec<String>) {
    let tokens = curry::tokenizer::tokenize(src).expect("tokenize fault");
    let block = curry::parser::parse(&tokens).expect("parse fault");
    curry::evaluator::evaluate(&block, 100000)
}

fn run_val(src: &str) -> Evaluation {
    run(src).0.expect("out of fuel")
}

fn flavor_of(v: &Evaluation) -> Option<&ExceptionType> {
    match v {
        Evaluation::Exception(e) => Some(&e.flavor),
        _ => None,
    }
}

#[test]
fn empty_program_is_false() {
    assert!(matches!(run_val(""), Evaluation::False));
}

#[test]
fn last_expression_wins() {
    assert!(matches!(run_val("1; 2; 3;"), Evaluation::Integer(3)));
}

#[test]
fn scoping_inner_binding_dies_with_block() {
    let v = run_val("f: g: 1;;; f[]; g[];");
    assert!(matches!(flavor_of(&v), Some(ExceptionType::UndefError)));
}

#[test]
fn scoping_inner_binding_usable_inside() {
    assert!(matches!(run_val("f: g: 1;; g[];; f[];"), Evaluation::Integer(1)));
}

#[test]
fn redefinition_in_same_frame_fails() {
    let v = run_val("f: 1;; f: 2;;");
    assert!(matches!(flavor_of(&v), Some(ExceptionType::RedefError)));
}

#[test]
fn shadowing_in_child_frame_is_allowed() {
    assert!(matches!(
        run_val("f: 1;; g: f: 2;; f[];; g[];"),
        Evaluation::Integer(2)
    ));
}

#[test]
fn underscore_addresses_own_arguments() {
    let v = run_val("f: _[];; f[1 2];");
    assert_eq!(v.render().as_str(), "[1 2]");
}

#[test]
fn double_underscore_addresses_caller_arguments() {
    let v = run_val("g: __[];; f: g[9];; f[1 2];");
    assert_eq!(v.render().as_str(), "[1 2]");
}

#[test]
fn underscore_beyond_available_frames_fails() {
    let v = run_val("__[];");
    assert!(matches!(flavor_of(&v), Some(ExceptionType::TypeError)));
}

#[test]
fn underscore_at_top_level_is_empty() {
    assert_eq!(run_val("_[];").render().as_str(), "[]");
}

#[test]
fn early_return_skips_rest_of_block() {
    assert!(matches!(run_val("f: ~[1]; 2;; f[];"), Evaluation::Integer(1)));
}

#[test]
fn early_return_at_top_level() {
    assert!(matches!(run_val("~[5];"), Evaluation::Integer(5)));
}

#[test]
fn promotion_int_plus_float_gives_float() {
    let v = run_val("+[1 2.0];");
    assert!(matches!(v, Evaluation::Float(b) if b == (3.0f64).to_bits()));
}

#[test]
fn promotion_int_plus_int_stays_int() {
    assert!(matches!(run_val("+[1 2];"), Evaluation::Integer(3)));
}

#[test]
fn car_of_empty_list_is_runtime_error() {
    let v = run_val("car[[]];");
    assert!(matches!(flavor_of(&v), Some(ExceptionType::RuntimeError)));
}

#[test]
fn car_takes_first_item() {
    assert!(matches!(run_val("car[[7 8]];"), Evaluation::Integer(7)));
}

#[test]
fn cdr_of_singleton_is_empty() {
    assert_eq!(run_val("cdr[[1]];").render().as_str(), "[]");
}

#[test]
fn cdr_of_empty_is_empty_not_an_error() {
    assert_eq!(run_val("cdr[[]];").render().as_str(), "[]");
}

#[test]
fn equality_of_equal_lists() {
    assert!(matches!(run_val("=[[1 2] [1 2]];"), Evaluation::True));
}

#[test]
fn equality_of_unequal_lists() {
    assert!(matches!(run_val("=[[1 2] [1 3]];"), Evaluation::False));
}

#[test]
fn equality_across_variants_is_false_not_an_error() {
    assert!(matches!(run_val("=[1 \"1\"];"), Evaluation::False));
}

#[test]
fn equality_of_floats_by_value() {
    assert!(matches!(run_val("=[1.5 1.5];"), Evaluation::True));
    assert!(matches!(run_val("=[1.5 2.5];"), Evaluation::False));
}

#[test]
fn determinism_same_program_same_outcome() {
    let src = "f: +[_[] _[]];; >>[\"once\"]; f[3];";
    let (v1, out1) = run(src);
    let (v2, out2) = run(src);
    let r1 = v1.expect("out of fuel").render();
    let r2 = v2.expect("out of fuel").render();
    assert_eq!(r1.as_str(), r2.as_str());
    assert_eq!(out1, out2);
}

#[test]
fn comma_applies_function_to_literal_list() {
    let v = run_val("mk: h: car[_[]];;; ,[mk[] [4 5]];");
    assert!(matches!(v, Evaluation::Integer(4)));
}

#[test]
fn comma_requires_function_first() {
    let v = run_val(",[1 [2]];");
    assert!(matches!(flavor_of(&v), Some(ExceptionType::TypeError)));
}

#[test]
fn comma_requires_literal_list_second() {
    let v = run_val("mk: h: 1;;; ,[mk[] 2];");
    assert!(matches!(flavor_of(&v), Some(ExceptionType::TypeError)));
}

#[test]
fn comma_requires_two_arguments() {
    let v = run_val(",[];");
    assert!(matches!(flavor_of(&v), Some(ExceptionType::ArgError)));
}

#[test]
fn comma_propagates_exception_first_argument() {
    let v = run_val(",[raise[\"e\"] [1]];");
    assert!(matches!(flavor_of(&v), Some(ExceptionType::Error)));
}

#[test]
fn catch_turns_exception_into_list() {
    let v = run_val("catch[raise[\"x\"]];");
    assert_eq!(v.render().as_str(), "[\"error\" \"x\" []]");
}

#[test]
fn catch_wraps_plain_value_with_ok() {
    assert_eq!(run_val("catch[5];").render().as_str(), "[\"ok\" 5]");
}

#[test]
fn catch_shows_the_propagation_trace() {
    // The exception gathers the failing identifier, then each frame it
    // unwinds through.
    let v = run_val("f: nope[];; catch[f[]];");
    assert_eq!(
        v.render().as_str(),
        "[\"undefined function\" \"function is not defined in scope\" [\"nope\" \"f\"]]"
    );
}

#[test]
fn conditional_picks_by_boolean() {
    assert!(matches!(run_val("?[true 1 2];"), Evaluation::Integer(1)));
    assert!(matches!(run_val("?[false 1 2];"), Evaluation::Integer(2)));
}

#[test]
fn conditional_propagates_exception_condition() {
    let v = run_val("?[raise[\"b\"] 1 2];");
    assert!(matches!(flavor_of(&v), Some(ExceptionType::Error)));
}

#[test]
fn conditional_rejects_non_boolean() {
    let v = run_val("?[1 2 3];");
    assert!(matches!(flavor_of(&v), Some(ExceptionType::TypeError)));
}

#[test]
fn undefined_function_fails() {
    let v = run_val("nope[];");
    assert!(matches!(flavor_of(&v), Some(ExceptionType::UndefError)));
}

#[test]
fn arity_mismatch_names_the_counts() {
    let v = run_val("+[1];");
    match v {
        Evaluation::Exception(e) => {
            assert!(matches!(e.flavor, ExceptionType::ArgError));
            match *e.payload {
                Evaluation::Text(ref s) => {
                    assert_eq!(s, "expected argument list of length 2 but got 1")
                },
                _ => panic!("payload should be the message"),
            }
        },
        _ => panic!("expected an exception"),
    }
}

#[test]
fn type_mismatch_on_mixed_plus() {
    let v = run_val("+[1 \"x\"];");
    assert!(matches!(flavor_of(&v), Some(ExceptionType::TypeMismatch)));
}

#[test]
fn division_by_zero_is_guarded() {
    let v = run_val("/[1 0];");
    assert!(matches!(flavor_of(&v), Some(ExceptionType::DivByZero)));
    let v = run_val("%[1 0];");
    assert!(matches!(flavor_of(&v), Some(ExceptionType::DivByZero)));
}

#[test]
fn integer_arithmetic() {
    assert!(matches!(run_val("-[10 4];"), Evaluation::Integer(6)));
    assert!(matches!(run_val("*[6 7];"), Evaluation::Integer(42)));
    assert!(matches!(run_val("/[7 2];"), Evaluation::Integer(3)));
    assert!(matches!(run_val("/[-7 2];"), Evaluation::Integer(-3)));
    assert!(matches!(run_val("%[7 3];"), Evaluation::Integer(1)));
    assert!(matches!(run_val("%[-7 3];"), Evaluation::Integer(-1)));
}

#[test]
fn modulo_rejects_floats() {
    let v = run_val("%[7.0 3];");
    assert!(matches!(flavor_of(&v), Some(ExceptionType::TypeError)));
}

#[test]
fn string_and_list_concatenation() {
    assert_eq!(run_val("+[\"ab\" \"cd\"];").render().as_str(), "\"abcd\"");
    assert_eq!(run_val("+[[1 2] [3]];").render().as_str(), "[1 2 3]");
}

#[test]
fn boolean_operations() {
    assert!(matches!(run_val("![true];"), Evaluation::False));
    assert!(matches!(run_val("&[true false];"), Evaluation::False));
    assert!(matches!(run_val("&[true true];"), Evaluation::True));
    assert!(matches!(run_val("|[false true];"), Evaluation::True));
    assert!(matches!(run_val("|[false false];"), Evaluation::False));
}

#[test]
fn comparisons_with_promotion() {
    assert!(matches!(run_val(">[2 1];"), Evaluation::True));
    assert!(matches!(run_val("<[2 1];"), Evaluation::False));
    assert!(matches!(run_val(">[1.5 1];"), Evaluation::True));
    assert!(matches!(run_val("<[1 1.5];"), Evaluation::True));
}

#[test]
fn int_primitive_truncates_and_parses() {
    assert!(matches!(run_val("int[3.9];"), Evaluation::Integer(3)));
    assert!(matches!(run_val("int[\"42\"];"), Evaluation::Integer(42)));
    assert!(matches!(run_val("int[\"-42\"];"), Evaluation::Integer(-42)));
    let v = run_val("int[\"abc\"];");
    assert!(matches!(flavor_of(&v), Some(ExceptionType::ParseError)));
    let v = run_val("int[1];");
    assert!(matches!(flavor_of(&v), Some(ExceptionType::TypeError)));
}

#[test]
fn float_primitive_widens_and_parses() {
    let v = run_val("float[2];");
    assert!(matches!(v, Evaluation::Float(b) if b == (2.0f64).to_bits()));
    let v = run_val("float[\"2.5\"];");
    assert!(matches!(v, Evaluation::Float(b) if b == (2.5f64).to_bits()));
    let v = run_val("float[\"\"];");
    assert!(matches!(flavor_of(&v), Some(ExceptionType::ParseError)));
}

#[test]
fn float_arithmetic_matches_hardware() {
    let v = run_val("*[1.5 2.0];");
    assert!(matches!(v, Evaluation::Float(b) if b == (3.0f64).to_bits()));
    let v = run_val("/[1.0 0.0];");
    assert!(matches!(v, Evaluation::Float(b) if b == f64::INFINITY.to_bits()));
    let v = run_val("-[0.5 0.25];");
    assert!(matches!(v, Evaluation::Float(b) if b == (0.25f64).to_bits()));
}

#[test]
fn strlen_counts_characters() {
    assert!(matches!(run_val("strlen[\"abc\"];"), Evaluation::Integer(3)));
    assert!(matches!(run_val("strlen[\"\"];"), Evaluation::Integer(0)));
}

#[test]
fn substr_by_character_index_with_clamping() {
    assert_eq!(run_val("substr[\"hello\" 1 3];").render().as_str(), "\"ell\"");
    assert_eq!(run_val("substr[\"hello\" 1 99];").render().as_str(), "\"ello\"");
    assert_eq!(run_val("substr[\"hello\" 9 1];").render().as_str(), "\"\"");
    assert_eq!(run_val("substr[\"hello\" -1 2];").render().as_str(), "\"\"");
    assert_eq!(run_val("substr[\"hello\" 1 -3];").render().as_str(), "\"ello\"");
}

#[test]
fn print_collects_output_lines_in_order() {
    let (v, out) = run(">>[\"one\"]; >>[\"two\"];");
    assert!(matches!(v.expect("out of fuel"), Evaluation::False));
    assert_eq!(out.len(), 2);
    assert_eq!(out[0], "one");
    assert_eq!(out[1], "two");
}

#[test]
fn print_rejects_non_string() {
    let v = run_val(">>[1];");
    assert!(matches!(flavor_of(&v), Some(ExceptionType::TypeError)));
}

#[test]
fn string_primitive_renders_display_form() {
    assert_eq!(run_val("string[5];").render().as_str(), "\"5\"");
    assert_eq!(run_val("string[-5];").render().as_str(), "\"-5\"");
    assert_eq!(run_val("string[true];").render().as_str(), "\"true\"");
    assert_eq!(run_val("string[[1 2]];").render().as_str(), "\"[1 2]\"");
}

#[test]
fn exception_in_list_literal_is_stored_as_data() {
    // A list literal keeps an exception as an item; only calls and block
    // expressions propagate it.
    let v = run_val("car[[raise[\"e\"] 1]];");
    assert!(matches!(flavor_of(&v), Some(ExceptionType::Error)));
}

#[test]
fn recursion_terminates_with_early_return() {
    let v = run_val("count: ?[>[car[_[]] 0] 0 ~[0]]; count[-[car[_[]] 1]];; count[3];");
    assert!(matches!(v, Evaluation::Integer(0)));
}

#[test]
fn runaway_recursion_exhausts_fuel_not_the_host() {
    let tokens = curry::tokenizer::tokenize("f: f[];; f[];").expect("tokenize fault");
    let block = curry::parser::parse(&tokens).expect("parse fault");
    let (v, _) = curry::evaluator::evaluate(&block, 100);
    assert!(v.is_none());
}

#[test]
fn wrapping_addition_at_the_boundary() {
    assert!(matches!(
        run_val("+[9223372036854775807 1];"),
        Evaluation::Integer(i64::MIN)
    ));
}

#[test]
fn anonymous_redefinition_in_same_frame_fails() {
    // Anonymous definitions bind the empty identifier, so two in one frame
    // collide.
    let v = run_val(": 1;; : 2;;");
    assert!(matches!(flavor_of(&v), Some(ExceptionType::RedefError)));
}

#[test]
fn string_primitive_renders_floats() {
    assert_eq!(run_val("string[2.5];").render().as_str(), "\"2.5\"");
}

#[test]
fn conditional_is_exempt_from_poisoning() {
    // Both branches are pre-evaluated, so a discarded branch may hold an
    // exception without poisoning the call.
    let v = run_val("?[true 1 nope[]];");
    assert!(matches!(v, Evaluation::Integer(1)));
}

#[test]
fn catch_still_checks_its_arity() {
    let v = run_val("catch[1 2];");
    assert!(matches!(flavor_of(&v), Some(ExceptionType::ArgError)));
}

#[test]
fn poisoning_returns_the_first_exception() {
    let v = run_val("=[raise[\"a\"] raise[\"b\"]];");
    match v {
        Evaluation::Exception(e) => {
            assert!(matches!(*e.payload, Evaluation::Text(ref s) if s == "a"));
        },
        _ => panic!("expected the first exception back"),
    }
}

#[test]
fn comments_and_whitespace_are_skipped() {
    assert!(matches!(
        run_val("# a comment\n  +[1 2]; # trailing\n"),
        Evaluation::Integer(3)
    ));
}

#[test]
fn arguments_evaluate_in_the_callers_frame() {
    // The argument list is evaluated before the callee's frame exists, so an
    // underscore there addresses the caller's own arguments.
    let v = run_val("g: _[];; f: g[car[_[]]];; f[7];");
    assert_eq!(v.render().as_str(), "[7]");
}
