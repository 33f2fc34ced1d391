use yafika::ast::{Expression, Node, Op};
use yafika::environment::{Environment, Scopes};
use yafika::evaluator::eval;
use yafika::interpreter::{interpret, InterpretError};
use yafika::lexer::LexError;
use yafika::object::{EvalError, Object, Operand, ValueType};
use yafika::parser::ParseError;
use yafika::render::int_to_string;

fn run(source: &str) -> String {
    match interpret(source.to_string()) {
        Ok(v) => v.inspect(),
        Err(InterpretError::Eval(e)) => e.message(),
        Err(InterpretError::Parse(e)) => format!("{:?}", e),
    }
}

fn check(cases: &[(&str, &str)]) {
    for (input, expected) in cases {
        assert_eq!(run(input), *expected, "input: {}", input);
    }
}

#[test]
fn evaluate_string_concatenation() {
    check(&[("\"hello\" + \" \" + \"world\"", "hello world")]);
}

#[test]
fn evaluate_function_application() {
    check(&[
        ("let identity = fn(x) {x} identity(1)", "1"),
        ("let identity = fn(x) {return x} identity(2)", "2"),
        ("let double = fn(x) { x * 2 } double(5)", "10"),
        ("let add = fn(x, y) { x + y } add(5, 10)", "15"),
        ("let add = fn(x, y) { x + y } add(5 + 5, add(5, 5))", "20"),
        ("fn(x) {x}(5)", "5"),
    ]);
}

#[test]
fn evaluate_function() {
    check(&[(" fn(x) {x + 2}", "fn(x) { x+2 }")]);
}

#[test]
fn evaluate_let() {
    check(&[
        ("let a = 5 a", "5"),
        ("let a = 5 * 5 a", "25"),
        ("let a = 5 let b = a b", "5"),
        ("let a = 5 let b = a let c = a + b + 5 c", "15"),
    ]);
}

#[test]
fn error_handling() {
    check(&[
        ("5 + True", "type mismatch: INT + BOOLEAN"),
        ("5 + True; 5;", "type mismatch: INT + BOOLEAN"),
        ("-True", "unknown operator: -true"),
        ("True + False", "unknown operator: true + false"),
        ("5 True + False 5", "unknown operator: true + false"),
        ("\"hello\" - \" \" - \"world\"", "unknown operator: STRING - STRING"),
        ("if (10 > 5) { True + False }", "unknown operator: true + false"),
        ("foobar", "identifier not found: foobar"),
    ]);
}

#[test]
fn evaluate_return() {
    check(&[
        ("return 1;", "1"),
        (
            "if (10 > 1) {
                    if (10 > 1) {
                        return 10
                    }
                    return 1
                }",
            "10",
        ),
    ]);
    // `:` is no symbol of the language, so these texts do not scan.
    for input in ["return 2; 9:", "return 1 * 3; 9:", "9 return 1 * 4; 9:"] {
        assert!(matches!(
            interpret(input.to_string()),
            Err(InterpretError::Parse(ParseError::Lex(LexError::UnexpectedCharacter(':'))))
        ));
    }
    check(&[("return 2; 9", "2"), ("return 1 * 3; 9", "3"), ("9 return 1 * 4; 9", "4")]);
}

#[test]
fn evaluate_ifelse() {
    check(&[
        ("if ( True ) { 1 }", "1"),
        ("if ( False ) { 2 }", "null"),
        ("if (1) { 3 }", "3"),
        ("if (1 < 2) { 4 }", "4"),
        ("if (1 > 2) { 5 }", "null"),
        ("if (1 > 2) { 6 } else { 7 }", "7"),
        ("if (1 < 2) { 8 } else { 9 }", "8"),
    ]);
}

#[test]
fn evaluate_prefix() {
    check(&[
        ("!True ", "false"),
        ("!False ", "true"),
        ("!5 ", "false"),
        ("!!True ", "true"),
        ("!!False ", "false"),
        ("!!5 ", "true"),
    ]);
}

#[test]
fn evaluate_boolean() {
    check(&[
        ("True ", "true"),
        ("False ", "false"),
        ("1 < 2", "true"),
        ("1 > 2", "false"),
        ("1 < 1", "false"),
        ("1 > 1", "false"),
        ("1 == 1", "true"),
        ("1 != 1", "false"),
        ("1 == 2", "false"),
        ("1 != 2", "true"),
        ("True == True", "true"),
        ("False == False", "true"),
        ("True == False", "false"),
        ("True != False", "true"),
        ("False != True", "true"),
        ("(1 < 2) == True", "true"),
        ("(1 < 2) == False", "false"),
        ("(1 > 2) == True", "false"),
        ("(1 > 2) == False", "true"),
    ]);
}

#[test]
fn evaluate_int() {
    check(&[
        ("5 ", "5"),
        ("231.00", "231"),
        ("-5 ", "-5"),
        ("-231.00", "-231"),
        ("5 + 5 + 5 + 5 - 10", "10"),
        ("2 * 2 * 2 * 2 * 2", "32"),
        ("20 + 2 * -10", "0"),
        ("50 / 2 * 2 + 10", "60"),
        ("3 * (3 * 3) + 10", "37"),
        ("(5 + 10 * 2 + 15 / 3) * 2 + -10", "50"),
        ("-50 + 100 + -50", "0"),
    ]);
}

#[test]
fn double_negation_gives_truthiness() {
    check(&[
        ("!!0", "true"),
        ("!!\"\"", "true"),
        ("!!(if (False) { 1 })", "false"),
        ("!!fn(x) { x }", "true"),
    ]);
}

#[test]
fn closures_capture_defining_scope() {
    check(&[
        ("let x = 1 let f = fn() { x } let g = fn(x) { f() } g(5)", "1"),
        ("let adder = fn(a) { fn(b) { a + b } } let addtwo = adder(2) addtwo(40)", "42"),
    ]);
}

#[test]
fn return_stops_at_call_boundary() {
    check(&[(
        "let f = fn() { if (True) { if (True) { return 1 } return 2 } return 3 } f() + 10",
        "11",
    )]);
}

#[test]
fn zero_is_truthy() {
    check(&[("if (0) { 1 } else { 2 }", "1")]);
}

#[test]
fn division_rounds_toward_zero() {
    check(&[("7 / 2", "3"), ("-7 / 2", "-3"), ("7 / -2", "-3"), ("-7 / -2", "3")]);
}

#[test]
fn arithmetic_errors() {
    check(&[
        ("1 / 0", "division by zero"),
        ("9223372036854775807 + 1", "integer overflow"),
        ("-9223372036854775807 - 2", "integer overflow"),
        ("3037000500 * 3037000500", "integer overflow"),
    ]);
}

#[test]
fn call_errors() {
    check(&[
        ("let f = fn(x) { x } f(1, 2)", "wrong number of arguments. got=2, want=1"),
        ("5(1)", "not a function: INT"),
        ("let f = fn(x) { f(x) } f(1)", "call depth exceeded"),
    ]);
}

#[test]
fn recursion_within_depth_works() {
    check(&[(
        "let fib = fn(n) { if (n < 2) { return n } fib(n - 1) + fib(n - 2) } fib(15)",
        "610",
    )]);
}

#[test]
fn same_source_same_result() {
    let src = "let a = 2 let f = fn(x) { x * a } f(21)";
    assert_eq!(run(src), run(src));
    assert_eq!(run(src), "42");
}

#[test]
fn string_values_and_nil() {
    check(&[("'abc'", "abc"), ("let s = \"a\" s + s", "aa"), ("let x = 1", "null")]);
}

#[test]
fn eval_on_nodes() {
    let mut scopes = Scopes::new();
    let e = Expression::InfixExpression {
        left: Box::new(Expression::Number(2)),
        op: Op::Multiply,
        right: Box::new(Expression::Number(21)),
    };
    let v = eval(&Node::Expression(e), 0, &mut scopes).unwrap();
    assert_eq!(v.inspect(), "42");
}

#[test]
fn environments_look_outward() {
    let mut scopes = Scopes::new();
    scopes.define(0, "a".to_string(), Object::Integer(1));
    let inner = scopes.push(Environment::new_enclosed_environment(0));
    scopes.define(inner, "b".to_string(), Object::Integer(2));
    assert_eq!(scopes.lookup(inner, &"a".to_string()).unwrap().inspect(), "1");
    assert_eq!(scopes.lookup(inner, &"b".to_string()).unwrap().inspect(), "2");
    assert!(scopes.lookup(0, &"b".to_string()).is_none());
}

#[test]
fn environment_get_and_set() {
    let mut env = Environment::new();
    assert!(env.get(&"a".to_string()).is_none());
    env.set("a".to_string(), Object::Integer(1));
    env.set("a".to_string(), Object::Boolean(true));
    assert_eq!(env.get(&"a".to_string()).unwrap().inspect(), "true");
}

#[test]
fn type_names() {
    assert_eq!(Object::Integer(1).type_info(), "INT");
    assert_eq!(Object::String("s".to_string()).type_info(), "STRING");
    assert_eq!(Object::Boolean(true).type_info(), "BOOLEAN");
    assert_eq!(Object::Nil.type_info(), "NIL");
    assert_eq!(Object::Return(Box::new(Object::Integer(1))).type_info(), "INT");
}

#[test]
fn error_values() {
    assert_eq!(
        interpret("5 + True".to_string()),
        Err(InterpretError::Eval(EvalError::TypeMismatch(ValueType::Integer, Op::Add, ValueType::Boolean)))
    );
    assert_eq!(
        interpret("\"a\" - \"b\"".to_string()),
        Err(InterpretError::Eval(EvalError::UnknownInfixOperator(
            Operand::Type(ValueType::String),
            Op::Subtract,
            Operand::Type(ValueType::String)
        )))
    );
}

#[test]
fn integer_text() {
    assert_eq!(int_to_string(0), "0");
    assert_eq!(int_to_string(-120), "-120");
    assert_eq!(int_to_string(i64::MIN), "-9223372036854775808");
}
