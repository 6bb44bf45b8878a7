use std::rc::Rc;

use lua::{
    apply_binary_op, binary_plan, decimal_text, token_debug, value_debug, BinaryPlan, Chunk, Env,
    Function, NativeImpl, OpCode, RuntimeError, TokenStream, Value,
};

fn name(s: &str) -> String {
    s.to_string()
}

#[test]
fn a_declared_name_can_be_read() {
    let mut env = Env::new();
    assert!(env.declare(name("x"), Value::Bool(true), true).is_ok());
    assert_eq!(env.get(&name("x")), Some(Value::Bool(true)));
    assert_eq!(env.get(&name("y")), None);
}

#[test]
fn declaring_twice_in_one_scope_fails() {
    let mut env = Env::new();
    env.declare(name("x"), Value::Nil, true).unwrap();
    match env.declare(name("x"), Value::Bool(false), true) {
        Err(RuntimeError::AlreadyDeclared(n)) => assert_eq!(n, "x"),
        other => panic!("unexpected: {:?}", other),
    }
    assert_eq!(env.get(&name("x")), Some(Value::Nil));
}

#[test]
fn an_inner_scope_sees_and_hides_the_outer_one() {
    let mut outer = Env::new();
    outer.declare(name("x"), Value::String(name("outer")), true).unwrap();
    outer.declare(name("y"), Value::Bool(true), true).unwrap();
    let mut inner = Env::with_parent(outer);
    inner.declare(name("x"), Value::String(name("inner")), true).unwrap();
    assert_eq!(inner.get(&name("x")), Some(Value::String(name("inner"))));
    assert_eq!(inner.get(&name("y")), Some(Value::Bool(true)));
}

#[test]
fn assign_changes_the_innermost_binding() {
    let mut outer = Env::new();
    outer.declare(name("x"), Value::Nil, true).unwrap();
    let mut inner = Env::with_parent(outer);
    assert!(inner.assign(name("x"), Value::Bool(false)).is_ok());
    assert_eq!(inner.get(&name("x")), Some(Value::Bool(false)));
}

#[test]
fn assigning_an_undeclared_name_fails() {
    let mut env = Env::with_parent(Env::new());
    match env.assign(name("z"), Value::Nil) {
        Err(RuntimeError::UndefinedVariable(n)) => assert_eq!(n, "z"),
        other => panic!("unexpected: {:?}", other),
    }
}

#[test]
fn assigning_a_constant_fails() {
    let mut env = Env::new();
    env.declare(name("k"), Value::Bool(true), false).unwrap();
    match env.assign(name("k"), Value::Nil) {
        Err(RuntimeError::AssignToConst(n)) => assert_eq!(n, "k"),
        other => panic!("unexpected: {:?}", other),
    }
    assert_eq!(env.get(&name("k")), Some(Value::Bool(true)));
}

#[test]
fn a_native_function_is_a_constant_binding() {
    let mut env = Env::new();
    assert!(env.native_fn("print", 0).is_ok());
    assert_eq!(env.get(&name("print")), Some(Value::NativeFuncion(0)));
    assert!(matches!(env.assign(name("print"), Value::Nil), Err(RuntimeError::AssignToConst(_))));
    assert!(env.native_fn("print", 1).is_err());
}

#[test]
fn concatenation_joins_the_texts() {
    match apply_binary_op(Value::String(name("a")), &TokenStream::DotDot, Value::Bool(true)) {
        Ok(Value::String(s)) => assert_eq!(s, "atrue"),
        other => panic!("unexpected: {:?}", other),
    }
    match apply_binary_op(Value::Nil, &TokenStream::DotDot, Value::String(name("!"))) {
        Ok(Value::String(s)) => assert_eq!(s, "nil!"),
        other => panic!("unexpected: {:?}", other),
    }
}

#[test]
fn an_operator_on_other_values_is_invalid() {
    match apply_binary_op(Value::Bool(true), &TokenStream::Plus, Value::Nil) {
        Err(RuntimeError::InvalidOperation(m)) => {
            assert_eq!(m, "não e possivel aplicar Plus entre Bool(true) e Nil")
        }
        other => panic!("unexpected: {:?}", other),
    }
}

#[test]
fn the_plan_of_each_operator() {
    let one = Value::Number(name("1"));
    let two = Value::Number(name("2"));
    for op in [
        TokenStream::Plus,
        TokenStream::Minus,
        TokenStream::Asterisk,
        TokenStream::Slash,
        TokenStream::Caret,
        TokenStream::Greater,
        TokenStream::Less,
        TokenStream::EqualEqual,
        TokenStream::NotEqual,
    ] {
        assert_eq!(binary_plan(&one, &op, &two), BinaryPlan::Numeric);
    }
    assert_eq!(binary_plan(&one, &TokenStream::DotDot, &two), BinaryPlan::Concat);
    assert_eq!(binary_plan(&one, &TokenStream::Percent, &two), BinaryPlan::Invalid);
    assert_eq!(binary_plan(&one, &TokenStream::Plus, &Value::Nil), BinaryPlan::Invalid);
}

#[test]
fn the_debug_text_of_values_and_tokens_is_the_derived_one() {
    let mut chunk = Chunk::new();
    chunk.add_constant(Value::String("a\"b".to_string()));
    chunk.add_constant(Value::Nil);
    chunk.write(OpCode::LoadConst(12));
    chunk.write(OpCode::Return);
    let f = Function { name: "f".to_string(), arity: 3, chunk };
    for v in [
        Value::Bool(false),
        Value::String("x\ny".to_string()),
        Value::Nil,
        Value::NativeFuncion(7),
        Value::Table(1234),
        Value::Function(Rc::new(f)),
        Value::Function(Rc::new(Function { name: "g".to_string(), arity: 0, chunk: Chunk::new() })),
    ] {
        assert_eq!(value_debug(&v), format!("{:?}", v));
    }
    for t in [
        TokenStream::Plus,
        TokenStream::DotDotDot,
        TokenStream::Identifier("id".to_string()),
        TokenStream::Bool(true),
        TokenStream::String("s".to_string()),
        TokenStream::EOF,
    ] {
        assert_eq!(token_debug(&t), format!("{:?}", t));
    }
    assert_eq!(decimal_text(0), "0");
    assert_eq!(decimal_text(9), "9");
    assert_eq!(decimal_text(10), "10");
    assert_eq!(decimal_text(18446744073709551615), "18446744073709551615");
}

#[test]
fn an_invalid_operation_on_a_function_names_it() {
    let f = Value::Function(Rc::new(Function {
        name: "f".to_string(),
        arity: 0,
        chunk: lua::Chunk::new(),
    }));
    match apply_binary_op(f, &TokenStream::Minus, Value::String(name("s"))) {
        Err(RuntimeError::InvalidOperation(m)) => assert_eq!(
            m,
            "não e possivel aplicar Minus entre Function(Function { name: \"f\", arity: 0, chunk: Chunk { code: [], constants: [] } }) e String(\"s\")"
        ),
        other => panic!("unexpected: {:?}", other),
    }
}
