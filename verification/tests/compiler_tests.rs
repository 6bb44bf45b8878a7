use lua::{
    compile_main, compile_program, stmts_supported, Chunk, Compiler, Expr, Lexer, OpCode, Parser,
    Statement, TokenStream, Value,
};

fn program(src: &str) -> Vec<Statement> {
    Parser::new(Lexer::new(src)).parse_program().unwrap().stmts
}

fn compiled(src: &str) -> Chunk {
    let stmts = program(src);
    assert!(stmts_supported(&stmts, false, usize::MAX));
    let mut c = Compiler::new();
    c.compile_stmt(&stmts);
    c.chunk
}

fn s(x: &str) -> Value {
    Value::String(x.to_string())
}

fn n(x: &str) -> Value {
    Value::Number(x.to_string())
}

#[test]
fn chunk_adds_constants_and_patches_jumps() {
    let mut chunk = Chunk::new();
    assert_eq!(chunk.add_constant(Value::Nil), 0);
    assert_eq!(chunk.add_constant(Value::Bool(true)), 1);
    chunk.write(OpCode::Pop);
    let j = chunk.write_jump(OpCode::JumpIfFalse(0));
    assert_eq!(j, 1);
    chunk.write(OpCode::Pop);
    chunk.write(OpCode::Pop);
    chunk.patch_jump(j);
    assert_eq!(chunk.code, vec![OpCode::Pop, OpCode::JumpIfFalse(4), OpCode::Pop, OpCode::Pop]);
    let k = chunk.write_jump(OpCode::Jump(0));
    chunk.patch_jump(k);
    assert_eq!(chunk.code[4], OpCode::Jump(5));
}

#[test]
fn a_cloned_chunk_is_equal() {
    let chunk = compiled("x = 1");
    assert_eq!(chunk.clone(), chunk);
}

#[test]
fn compiles_a_global_assignment() {
    let chunk = compiled("x = 1 + 2");
    assert_eq!(
        chunk.code,
        vec![OpCode::LoadConst(0), OpCode::LoadConst(1), OpCode::Add, OpCode::SetGlobal(2)]
    );
    assert_eq!(chunk.constants, vec![n("1"), n("2"), s("x")]);
}

#[test]
fn each_operator_has_its_opcode() {
    for (src, op) in [
        ("x = 1 - 2", OpCode::Subtract),
        ("x = 1 * 2", OpCode::Multiply),
        ("x = 1 / 2", OpCode::Divide),
        ("x = 1 == 2", OpCode::Eq),
    ] {
        assert_eq!(compiled(src).code[2], op);
    }
}

#[test]
fn a_local_is_set_and_loaded_by_slot() {
    let chunk = compiled("local a = 1 a = a");
    assert_eq!(
        chunk.code,
        vec![OpCode::LoadConst(0), OpCode::SetLocal(0), OpCode::LoadLocal(0), OpCode::SetLocal(0)]
    );
}

#[test]
fn an_unknown_name_is_a_global() {
    let chunk = compiled("print(y)");
    assert_eq!(
        chunk.code,
        vec![OpCode::LoadGlobal(0), OpCode::LoadGlobal(1), OpCode::Call(1), OpCode::Pop]
    );
    assert_eq!(chunk.constants, vec![s("print"), s("y")]);
}

#[test]
fn if_else_jumps_over_the_other_branch() {
    let chunk = compiled("if true then x = 1 else x = 2 end");
    assert_eq!(
        chunk.code,
        vec![
            OpCode::LoadConst(0),
            OpCode::JumpIfFalse(5),
            OpCode::LoadConst(1),
            OpCode::SetGlobal(2),
            OpCode::Jump(7),
            OpCode::LoadConst(3),
            OpCode::SetGlobal(4),
        ]
    );
}

#[test]
fn if_without_else_jumps_to_its_end() {
    let chunk = compiled("if true then x = 1 end");
    assert_eq!(
        chunk.code,
        vec![OpCode::LoadConst(0), OpCode::JumpIfFalse(4), OpCode::LoadConst(1), OpCode::SetGlobal(2)]
    );
}

#[test]
fn a_local_in_a_branch_is_popped_at_its_end() {
    let chunk = compiled("if true then local y = 1 end");
    assert_eq!(
        chunk.code,
        vec![
            OpCode::LoadConst(0),
            OpCode::JumpIfFalse(5),
            OpCode::LoadConst(1),
            OpCode::SetLocal(0),
            OpCode::Pop,
        ]
    );
}

#[test]
fn while_jumps_back_and_break_jumps_out() {
    let chunk = compiled("while true do break end");
    assert_eq!(
        chunk.code,
        vec![OpCode::LoadConst(0), OpCode::JumpIfFalse(4), OpCode::Jump(4), OpCode::Jump(0)]
    );
}

#[test]
fn a_function_definition_becomes_a_constant_and_a_global() {
    let chunk = compiled("function id(a) return a end");
    assert_eq!(chunk.code, vec![OpCode::LoadConst(0), OpCode::SetGlobal(1)]);
    match &chunk.constants[0] {
        Value::Function(f) => {
            assert_eq!(f.name, "id");
            assert_eq!(f.arity, 1);
            assert_eq!(
                f.chunk.code,
                vec![OpCode::LoadLocal(0), OpCode::Return, OpCode::LoadConst(0), OpCode::Return]
            );
            assert_eq!(f.chunk.constants, vec![Value::Nil]);
        }
        other => panic!("not a function: {:?}", other),
    }
    assert_eq!(chunk.constants[1], s("id"));
}

#[test]
fn an_anonymous_function_is_named_so() {
    let chunk = compiled("f = function() end");
    match &chunk.constants[0] {
        Value::Function(f) => {
            assert_eq!(f.name, "<anonymous>");
            assert_eq!(f.arity, 0);
        }
        other => panic!("not a function: {:?}", other),
    }
}

#[test]
fn a_return_without_value_returns_nil() {
    let chunk = compiled("return");
    assert_eq!(chunk.code, vec![OpCode::LoadConst(0), OpCode::Return]);
    assert_eq!(chunk.constants, vec![Value::Nil]);
}

#[test]
fn a_table_constructor_sets_each_field() {
    let chunk = compiled("t = { 1, k = 2 }");
    assert_eq!(
        chunk.code,
        vec![
            OpCode::NewTable(2),
            OpCode::LoadConst(0),
            OpCode::SetTable(0),
            OpCode::LoadConst(1),
            OpCode::LoadConst(2),
            OpCode::SetTable(0),
            OpCode::SetGlobal(3),
        ]
    );
}

#[test]
fn a_method_call_passes_the_target_first() {
    let chunk = compiled("o:m(1)");
    assert_eq!(
        chunk.code,
        vec![
            OpCode::LoadGlobal(0),
            OpCode::Dup,
            OpCode::LoadConst(1),
            OpCode::GetTable(0),
            OpCode::Swap,
            OpCode::LoadConst(2),
            OpCode::Call(2),
            OpCode::Pop,
        ]
    );
}

#[test]
fn unsupported_programs_are_refused() {
    assert!(compile_program(&Parser::new(Lexer::new("x = 1 < 2")).parse_program().unwrap()).is_none());
    assert!(compile_program(&Parser::new(Lexer::new("break")).parse_program().unwrap()).is_none());
    assert!(compile_program(&Parser::new(Lexer::new("x = nil")).parse_program().unwrap()).is_none());
    assert!(compile_program(&Parser::new(Lexer::new("(1)()")).parse_program().unwrap()).is_some());
}

#[test]
fn the_main_function_ends_with_return() {
    let f = compile_main(&program("x = 1"));
    assert_eq!(f.name, "main");
    assert_eq!(f.arity, 0);
    assert_eq!(f.chunk.code, vec![OpCode::LoadConst(0), OpCode::SetGlobal(1), OpCode::Return]);
}

#[test]
fn compile_expr_emits_one_expression() {
    let mut c = Compiler::new();
    c.compile_expr(&Expr::BinaryOp {
        left: Box::new(Expr::Bool(true)),
        operator: TokenStream::EqualEqual,
        right: Box::new(Expr::String("a".to_string())),
    });
    assert_eq!(c.chunk.code, vec![OpCode::LoadConst(0), OpCode::LoadConst(1), OpCode::Eq]);
    assert_eq!(c.chunk.constants, vec![Value::Bool(true), s("a")]);
}

#[test]
fn begin_scope_makes_new_locals_deeper() {
    let mut c = Compiler::new();
    c.begin_scope();
    c.compile_stmt(&program("local a = 1"));
    assert_eq!(c.chunk.code, vec![OpCode::LoadConst(0), OpCode::SetLocal(0)]);
}

#[test]
fn compiling_two_runs_in_turn_is_compiling_them_joined() {
    let mut c = Compiler::new();
    c.compile_stmt(&program("x = 1 if true then y = 2 end"));
    c.compile_stmt(&program("while true do break end z = x"));
    assert_eq!(c.chunk, compiled("x = 1 if true then y = 2 end while true do break end z = x"));
}

#[test]
fn every_jump_lands_inside_the_code() {
    let f = compile_main(&program(
        "n = 0 while true do n = n + 1 if n == 3 then break else x = n end end \
         if n == 1 then y = 1 end return",
    ));
    let len = f.chunk.code.len();
    let mut jumps = 0;
    for (j, op) in f.chunk.code.iter().enumerate() {
        match op {
            OpCode::Jump(t) => {
                jumps += 1;
                assert!(*t <= len);
            }
            OpCode::JumpIfFalse(t) => {
                jumps += 1;
                assert!(j < *t && *t <= len);
            }
            _ => {}
        }
    }
    assert_eq!(jumps, 6);
}

#[test]
fn locals_of_a_branch_end_with_it() {
    let chunk = compiled("if true then local y = 1 end z = y");
    assert_eq!(
        chunk.code,
        vec![
            OpCode::LoadConst(0),
            OpCode::JumpIfFalse(5),
            OpCode::LoadConst(1),
            OpCode::SetLocal(0),
            OpCode::Pop,
            OpCode::LoadGlobal(2),
            OpCode::SetGlobal(3),
        ]
    );
}

#[test]
fn an_expression_refers_only_to_constants_and_locals_that_exist() {
    let mut c = Compiler::new();
    c.compile_stmt(&program("local a = 1"));
    let before = c.chunk.code.len();
    let consts_before = c.chunk.constants.clone();
    c.compile_expr(&Expr::Call {
        target: Box::new(Expr::Identifier("f".to_string())),
        args: vec![Expr::Identifier("a".to_string()), Expr::Number("2".to_string())],
    });
    assert_eq!(&c.chunk.constants[..consts_before.len()], &consts_before[..]);
    for op in &c.chunk.code[before..] {
        match op {
            OpCode::LoadConst(k) | OpCode::LoadGlobal(k) => assert!(*k < c.chunk.constants.len()),
            OpCode::LoadLocal(i) => assert!(*i < 1),
            OpCode::Jump(_) | OpCode::JumpIfFalse(_) => panic!("a jump in an expression"),
            _ => {}
        }
    }
}

#[test]
fn compiling_outside_loops_keeps_what_was_there() {
    let mut c = Compiler::new();
    c.compile_stmt(&program("x = 1 if x == 1 then y = 2 end"));
    let code = c.chunk.code.clone();
    let constants = c.chunk.constants.clone();
    c.compile_stmt(&program("while true do if y == 2 then break end end z = 3"));
    assert_eq!(&c.chunk.code[..code.len()], &code[..]);
    assert_eq!(&c.chunk.constants[..constants.len()], &constants[..]);
    let len = c.chunk.code.len();
    for (j, op) in c.chunk.code.iter().enumerate().skip(code.len()) {
        match op {
            OpCode::Jump(t) => assert!(*t <= len),
            OpCode::JumpIfFalse(t) => assert!(j < *t && *t <= len),
            _ => {}
        }
    }
}
