//! A small Lua front end and stack virtual machine: a lexer, a precedence-climbing
//! parser, a bytecode compiler, nested scopes and a bytecode interpreter, with their
//! behaviour stated and proved with Verus.
//!
//! Numbers are carried as the decimal numerals of their binary64 values; the arithmetic
//! and the comparison of numbers are left to the host of the interpreter.

mod text;
mod token;
mod lexer;
mod reserved;
mod ast;
mod parser_spec;
mod parser;
mod parser_laws;
mod values;
mod debug_text;
mod compiler_spec;
mod compiler;
mod compiler_laws;
mod expr_laws;
mod jump_laws;
mod supported;
mod names;
mod scope;
mod vm;
mod bytecode;

pub use text::{
    alphabetic, alphanumeric, numeric, unicode_alphabetic, unicode_numeric, unicode_white_space,
};
pub use token::{Lexeme, TokenStream};
pub use reserved::{
    ascii_lower, ascii_lower_char, law_keyword_round_trip, law_keyword_spelling, reserved_token,
};
pub use lexer::{
    law_lex_ends_with_eof, law_lex_error_has_no_eof, law_scan_at_end, law_scan_invalid_char, law_scan_only_space, Lexer,
    LexerError,
};
pub use ast::{
    apply_binary_op, binary_plan, BinaryPlan, Expr, RuntimeError, SExpr, SField, SStmt, Statement,
    TableField,
};
pub use parser_spec::ParserErrors;
pub use parser::{Parser, Program};
pub use parser_laws::{
    closes_return, continues_primary, law_bare_return, law_block_of_bare_return, law_return_value,
    law_power_before_unary, law_unary_before_binary, name_expr,
};
pub use values::{Function, Value};
pub use debug_text::{
    any_number, contains_number, decimal_text, invalid_operation_message, opcode_debug, ops_debug,
    token_debug, value_debug, values_debug,
};
pub use compiler_spec::{CState, SFunction, SValue};
pub use compiler::{compile_main, Chunk, Compiler, Local, OpCode};
pub use compiler_laws::{
    law_compile_stmts_append, law_function_jumps_in_code, law_identifier_reads_global,
    law_identifier_reads_latest, law_if_keeps_locals, law_local_shadows, law_resolve_most_recent,
    law_main_jumps_in_code, law_stmts_keep_locals,
};
pub use expr_laws::law_expr_appends_in_range;
pub use jump_laws::{law_main_conds_forward, law_stmts_jumps, law_stmts_outside_loops};
pub use supported::{
    compile_program, expr_supported, exprs_supported, fields_supported, operator_supported,
    stmt_supported, stmts_supported,
};
pub use scope::{
    law_declare_keeps_others, law_lookup_after_declare, law_lookup_after_rebind, Binding, Env,
    NativeImpl,
};
pub use vm::{
    decide_equality, law_equality_decided, law_step_eq, law_step_frames, law_step_globals, Action,
    CallFrame, SAction, VMResult, VmModel, PRINT, VM,
};
pub use bytecode::{pack_bytecode, unpack_bytecode, BytecodeError};
