use std::rc::Rc;

use lua::{
    compile_program, Action, CallFrame, Chunk, Function, Lexer, OpCode, Parser, VMResult, Value,
    PRINT, VM,
};

fn number(s: &str) -> f64 {
    s.parse().unwrap()
}

fn text(v: &Value) -> String {
    match v {
        Value::Number(s) => format!("{}", number(s)),
        other => other.to_string(),
    }
}

/// Runs the machine to its end, doing the host's part; gives how it ended and what
/// `print` wrote.
fn run(mut vm: VM) -> (VMResult, Vec<String>) {
    let mut out = Vec::new();
    loop {
        assert!(vm.can_step(), "the machine cannot step");
        match vm.step() {
            Action::Continue => {}
            Action::Finished => return (VMResult::Success, out),
            Action::Failed(m) => return (VMResult::RuntimeError(m), out),
            Action::Arithmetic(op, a, b) => {
                let (x, y) = (number(&a), number(&b));
                let r = match op {
                    OpCode::Add => x + y,
                    OpCode::Subtract => x - y,
                    OpCode::Multiply => x * y,
                    OpCode::Divide => x / y,
                    other => panic!("not arithmetic: {:?}", other),
                };
                vm.resume(Value::Number(format!("{}", r)));
            }
            Action::Compare(a, b) => {
                let eq = match (&a, &b) {
                    (Value::Number(x), Value::Number(y)) => number(x) == number(y),
                    _ => a == b,
                };
                vm.resume(Value::Bool(eq));
            }
            Action::CallNative(h, args) => {
                assert_eq!(h, PRINT);
                out.push(args.iter().map(text).collect::<Vec<_>>().join(""));
                vm.resume(Value::Nil);
            }
        }
    }
}

fn run_source(src: &str) -> (VMResult, Vec<String>) {
    let program = Parser::new(Lexer::new(src)).parse_program().unwrap();
    let main = compile_program(&program).unwrap();
    run(VM::new(Rc::new(main)))
}

#[test]
fn prints_a_sum() {
    assert_eq!(run_source("x = 1 + 2 print(x) return"), (VMResult::Success, vec!["3".to_string()]));
}

#[test]
fn arithmetic_follows_precedence() {
    assert_eq!(
        run_source("print(2 + 3 * 4 - 10 / 4) return"),
        (VMResult::Success, vec!["11.5".to_string()])
    );
}

#[test]
fn calls_a_function_with_its_arguments_in_slots() {
    assert_eq!(
        run_source("function add(a, b) return a + b end print(add(1, 2)) return"),
        (VMResult::Success, vec!["3".to_string()])
    );
}

#[test]
fn a_function_without_return_gives_nil() {
    assert_eq!(
        run_source("function f() end print(f()) return"),
        (VMResult::Success, vec!["nil".to_string()])
    );
}

#[test]
fn if_chooses_a_branch_by_truthiness() {
    assert_eq!(
        run_source("if 1 == 1 then print(\"yes\") else print(\"no\") end return"),
        (VMResult::Success, vec!["yes".to_string()])
    );
    assert_eq!(
        run_source("if false then print(\"yes\") else print(\"no\") end return"),
        (VMResult::Success, vec!["no".to_string()])
    );
}

#[test]
fn equality_of_values_the_machine_decides() {
    assert_eq!(
        run_source("print(\"a\" == \"a\", true == false, print == print, 1 == \"1\") return"),
        (VMResult::Success, vec!["truefalsetruefalse".to_string()])
    );
}

#[test]
fn equality_of_numbers_is_of_their_values() {
    assert_eq!(
        run_source("print(1.0 == 1, 0.1 + 0.2 == 0.3) return"),
        (VMResult::Success, vec!["truefalse".to_string()])
    );
}

#[test]
fn a_loop_runs_until_break() {
    assert_eq!(
        run_source("n = 0 while true do n = n + 1 if n == 3 then break end end print(n) return"),
        (VMResult::Success, vec!["3".to_string()])
    );
}

#[test]
fn a_returned_value_ends_the_run() {
    assert_eq!(run_source("return 5 print(1)"), (VMResult::Success, vec![]));
}

#[test]
fn arithmetic_on_a_string_fails() {
    assert_eq!(
        run_source("x = \"a\" + 1 return"),
        (VMResult::RuntimeError("Os operadores devem ser numeros"), vec![])
    );
}

#[test]
fn an_undefined_global_fails() {
    assert_eq!(
        run_source("print(y) return"),
        (VMResult::RuntimeError("Variavel global não definida"), vec![])
    );
}

#[test]
fn calling_a_number_fails() {
    assert_eq!(
        run_source("x = 1 x() return"),
        (VMResult::RuntimeError("Tentativa de chamar algo que não e função"), vec![])
    );
}

#[test]
fn a_wrong_number_of_arguments_fails() {
    assert_eq!(
        run_source("function f(a) return a end f(1, 2) return"),
        (VMResult::RuntimeError("Numero de argumentos incompativel"), vec![])
    );
}

#[test]
fn the_end_of_main_without_a_value_cannot_step() {
    let program = Parser::new(Lexer::new("x = 1")).parse_program().unwrap();
    let mut vm = VM::new(Rc::new(compile_program(&program).unwrap()));
    assert!(vm.can_step());
    assert!(matches!(vm.step(), Action::Continue));
    assert!(matches!(vm.step(), Action::Continue));
    assert!(!vm.can_step());
}

#[test]
fn a_new_machine_knows_print() {
    let mut chunk = Chunk::new();
    let name = chunk.add_constant(Value::String("print".to_string()));
    chunk.write(OpCode::LoadGlobal(name));
    chunk.write(OpCode::Return);
    let f = Function { name: "main".to_string(), arity: 0, chunk };
    let mut vm = VM::new(Rc::new(f));
    assert!(matches!(vm.step(), Action::Continue));
    assert!(matches!(vm.step(), Action::Finished));
}

#[test]
fn the_table_opcodes_cannot_step() {
    let mut chunk = Chunk::new();
    chunk.write(OpCode::NewTable(0));
    let f = Function { name: "main".to_string(), arity: 0, chunk };
    let vm = VM::new(Rc::new(f));
    assert!(!vm.can_step());
}

#[test]
fn a_call_frame_clones_to_the_same_function() {
    let f = Rc::new(Function { name: "f".to_string(), arity: 0, chunk: Chunk::new() });
    let frame = CallFrame { function: f.clone(), ip: 3, base_slot: 1 };
    let copy = frame.clone();
    assert!(Rc::ptr_eq(&copy.function, &f));
    assert_eq!((copy.ip, copy.base_slot), (3, 1));
}

#[test]
fn values_are_truthy_except_nil_and_false() {
    assert!(!Value::Nil.is_truthy());
    assert!(!Value::Bool(false).is_truthy());
    assert!(Value::Bool(true).is_truthy());
    assert!(Value::Number("0".to_string()).is_truthy());
    assert!(Value::String(String::new()).is_truthy());
}

#[test]
fn the_text_of_values() {
    assert_eq!(Value::Bool(true).to_string(), "true");
    assert_eq!(Value::Nil.to_string(), "nil");
    assert_eq!(Value::String("s".to_string()).to_string(), "s");
    assert_eq!(Value::NativeFuncion(PRINT).to_string(), "");
}

#[test]
fn a_call_adds_a_frame_and_its_return_removes_it() {
    let program = Parser::new(Lexer::new("function f() return 1 end f() return")).parse_program().unwrap();
    let mut vm = VM::new(Rc::new(compile_program(&program).unwrap()));
    let mut depths = vec![vm.frames().len()];
    loop {
        match vm.step() {
            Action::Continue => depths.push(vm.frames().len()),
            Action::Finished => break,
            other => panic!("unexpected: {:?}", other),
        }
    }
    assert_eq!(vm.frames().len(), 0);
    assert_eq!(depths, vec![1, 1, 1, 1, 2, 2, 1, 1, 1]);
}

#[test]
fn set_global_binds_the_value_it_pops() {
    let mut chunk = Chunk::new();
    let one = chunk.add_constant(Value::Bool(true));
    let name = chunk.add_constant(Value::String("print".to_string()));
    chunk.write(OpCode::LoadConst(one));
    chunk.write(OpCode::SetGlobal(name));
    chunk.write(OpCode::LoadGlobal(name));
    chunk.write(OpCode::Return);
    let f = Function { name: "main".to_string(), arity: 0, chunk };
    let mut vm = VM::new(Rc::new(f));
    for _ in 0..3 {
        assert!(matches!(vm.step(), Action::Continue));
    }
    assert!(matches!(vm.step(), Action::Finished));
}

#[test]
fn a_global_name_must_be_a_string() {
    let mut chunk = Chunk::new();
    let k = chunk.add_constant(Value::Bool(true));
    chunk.write(OpCode::LoadGlobal(k));
    let f = Function { name: "main".to_string(), arity: 0, chunk };
    assert_eq!(
        run(VM::new(Rc::new(f))),
        (VMResult::RuntimeError("O identificador da variavel deve ser string"), vec![])
    );

    let mut chunk = Chunk::new();
    let k = chunk.add_constant(Value::Nil);
    chunk.write(OpCode::SetGlobal(k));
    let f = Function { name: "main".to_string(), arity: 0, chunk };
    assert_eq!(
        run(VM::new(Rc::new(f))),
        (VMResult::RuntimeError("O identificador da variavel deve ser string"), vec![])
    );
}

#[test]
fn comparing_two_functions_is_left_to_the_host() {
    let program = Parser::new(Lexer::new("function f() end g = f print(f == g) return"))
        .parse_program()
        .unwrap();
    assert_eq!(
        run(VM::new(Rc::new(compile_program(&program).unwrap()))),
        (VMResult::Success, vec!["true".to_string()])
    );
}

#[test]
fn two_tables_are_equal_when_they_are_the_same_table() {
    assert_eq!(lua::decide_equality(&Value::Table(1), &Value::Table(1)), Some(true));
    assert_eq!(lua::decide_equality(&Value::Table(1), &Value::Table(2)), Some(false));
    assert_eq!(lua::decide_equality(&Value::Number("1".to_string()), &Value::Number("1.0".to_string())), None);
}
