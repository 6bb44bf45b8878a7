//! What the compiler emits, as spec functions over the model of the syntax tree.
use vstd::prelude::*;

use crate::ast::{SExpr, SField, SStmt};
use crate::compiler::OpCode;
use crate::token::TokenStream;

verus! {

/// The model of a runtime value; a function is its name, arity, code and constants.
pub enum SValue {
    Bool(bool),
    Number(Seq<char>),
    Str(Seq<char>),
    Function(SFunction),
    Nil,
    Native(u64),
    Table(u64),
}

pub struct SFunction {
    pub name: Seq<char>,
    pub arity: nat,
    pub code: Seq<OpCode>,
    pub consts: Seq<SValue>,
}

/// The state of a compiler: the code and constants emitted so far, the local variables
/// with their scope depth, the current scope depth, and for each enclosing loop the
/// positions of the jumps that leave it.
pub struct CState {
    pub code: Seq<OpCode>,
    pub consts: Seq<SValue>,
    pub locals: Seq<(Seq<char>, nat)>,
    pub depth: nat,
    pub loops: Seq<Seq<nat>>,
}

pub open spec fn emit(st: CState, op: OpCode) -> CState {
    CState { code: st.code.push(op), ..st }
}

/// Adds a constant and loads it.
pub open spec fn load_const(st: CState, v: SValue) -> CState {
    CState {
        code: st.code.push(OpCode::LoadConst(st.consts.len() as usize)),
        consts: st.consts.push(v),
        ..st
    }
}

/// The most recent local variable of that name.
pub open spec fn resolve(locals: Seq<(Seq<char>, nat)>, name: Seq<char>) -> Option<nat>
    decreases locals.len(),
{
    if locals.len() == 0 {
        None
    } else if locals.last().0 == name {
        Some((locals.len() - 1) as nat)
    } else {
        resolve(locals.drop_last(), name)
    }
}

pub open spec fn begin(st: CState) -> CState {
    CState { depth: st.depth + 1, ..st }
}

/// Leaves a scope: pops (and emits a `Pop` for) each trailing local of the current depth.
pub open spec fn close_scope(st: CState) -> CState
    decreases st.locals.len(),
{
    if st.locals.len() > 0 && st.locals.last().1 == st.depth {
        close_scope(CState { code: st.code.push(OpCode::Pop), locals: st.locals.drop_last(), ..st })
    } else {
        CState { depth: (st.depth - 1) as nat, ..st }
    }
}

/// Points the jump at `off` to the end of the code.
pub open spec fn patch(st: CState, off: int) -> CState {
    if 0 <= off < st.code.len() {
        match st.code[off] {
            OpCode::JumpIfFalse(_) => CState {
                code: st.code.update(off, OpCode::JumpIfFalse(st.code.len() as usize)),
                ..st
            },
            OpCode::Jump(_) => CState {
                code: st.code.update(off, OpCode::Jump(st.code.len() as usize)),
                ..st
            },
            _ => st,
        }
    } else {
        st
    }
}

/// Points each of the jumps at `offs` to the end of the code, in order.
pub open spec fn patch_all(st: CState, offs: Seq<nat>) -> CState
    decreases offs.len(),
{
    if offs.len() == 0 {
        st
    } else {
        patch(patch_all(st, offs.drop_last()), offs.last() as int)
    }
}

/// The opcode for a binary operator the compiler supports.
pub open spec fn binary_opcode(t: TokenStream) -> Option<OpCode> {
    match t {
        TokenStream::Plus => Some(OpCode::Add),
        TokenStream::Minus => Some(OpCode::Subtract),
        TokenStream::Asterisk => Some(OpCode::Multiply),
        TokenStream::Slash => Some(OpCode::Divide),
        TokenStream::EqualEqual => Some(OpCode::Eq),
        _ => None,
    }
}

/// A fresh compiler whose locals are the parameters of a function.
pub open spec fn fresh_for(params: Seq<Seq<char>>) -> CState {
    CState {
        code: Seq::empty(),
        consts: Seq::empty(),
        locals: params.map_values(|p: Seq<char>| (p, 0nat)),
        depth: 0,
        loops: Seq::empty(),
    }
}

/// The function that compiling `body` with `params` gives: the body's code followed by
/// a return of `nil`.
pub open spec fn function_value(name: Seq<char>, params: Seq<Seq<char>>, body: Seq<SStmt>) -> SValue
    decreases body, 1nat,
{
    let st = compile_stmts(fresh_for(params), body);
    let fin = emit(load_const(st, SValue::Nil), OpCode::Return);
    SValue::Function(
        SFunction { name, arity: params.len(), code: fin.code, consts: fin.consts },
    )
}

pub open spec fn compile_expr(st: CState, e: SExpr) -> CState
    decreases e, 1nat,
{
    match e {
        SExpr::Number(n) => load_const(st, SValue::Number(n)),
        SExpr::Str(s) => load_const(st, SValue::Str(s)),
        SExpr::Bool(b) => load_const(st, SValue::Bool(b)),
        SExpr::BinaryOp(l, op, r) => {
            let s2 = compile_expr(compile_expr(st, *l), *r);
            match binary_opcode(op) {
                Some(code) => emit(s2, code),
                None => s2,
            }
        },
        SExpr::UnaryOp(_, a) => compile_expr(st, *a),
        SExpr::Identifier(id) => match resolve(st.locals, id) {
            Some(i) => emit(st, OpCode::LoadLocal(i as usize)),
            None => CState {
                code: st.code.push(OpCode::LoadGlobal(st.consts.len() as usize)),
                consts: st.consts.push(SValue::Str(id)),
                ..st
            },
        },
        SExpr::Call(target, args) => emit(
            compile_exprs(compile_expr(st, *target), args),
            OpCode::Call(args.len() as usize),
        ),
        SExpr::Index(target, key) => emit(
            compile_expr(compile_expr(st, *target), *key),
            OpCode::GetTable(0),
        ),
        SExpr::Table(fields) => compile_fields(
            emit(st, OpCode::NewTable(fields.len() as usize)),
            fields,
        ),
        SExpr::MethodCall(target, method, args) => {
            let s1 = emit(compile_expr(st, *target), OpCode::Dup);
            let s2 = emit(emit(load_const(s1, SValue::Str(method)), OpCode::GetTable(0)), OpCode::Swap);
            emit(compile_exprs(s2, args), OpCode::Call((args.len() + 1) as usize))
        },
        SExpr::Function(params, body) => load_const(
            st,
            function_value("<anonymous>"@, params, body),
        ),
        _ => st,
    }
}

pub open spec fn compile_exprs(st: CState, es: Seq<SExpr>) -> CState
    decreases es, 0nat,
{
    if es.len() == 0 {
        st
    } else {
        compile_expr(compile_exprs(st, es.drop_last()), es.last())
    }
}

pub open spec fn compile_field(st: CState, f: SField) -> CState
    decreases f, 1nat,
{
    match f {
        SField::Dynamic(k, v) => emit(compile_expr(compile_expr(st, k), v), OpCode::SetTable(0)),
        SField::Named(k, v) => emit(
            compile_expr(load_const(st, SValue::Str(k)), v),
            OpCode::SetTable(0),
        ),
        SField::List(x) => emit(compile_expr(st, x), OpCode::SetTable(0)),
    }
}

pub open spec fn compile_fields(st: CState, fs: Seq<SField>) -> CState
    decreases fs, 0nat,
{
    if fs.len() == 0 {
        st
    } else {
        compile_field(compile_fields(st, fs.drop_last()), fs.last())
    }
}

pub open spec fn compile_stmts(st: CState, ss: Seq<SStmt>) -> CState
    decreases ss, 0nat,
{
    if ss.len() == 0 {
        st
    } else {
        compile_stmt(compile_stmts(st, ss.drop_last()), ss.last())
    }
}

pub open spec fn compile_stmt(st: CState, s: SStmt) -> CState
    decreases s, 1nat,
{
    match s {
        SStmt::Return(e) => emit(
            match e {
                Some(x) => compile_expr(st, x),
                None => load_const(st, SValue::Nil),
            },
            OpCode::Return,
        ),
        SStmt::Expression(e) => emit(compile_expr(st, e), OpCode::Pop),
        SStmt::LocalVar(name, value) => {
            let s1 = compile_expr(st, value);
            let idx = s1.locals.len();
            emit(
                CState { locals: s1.locals.push((name, s1.depth)), ..s1 },
                OpCode::SetLocal(idx as usize),
            )
        },
        SStmt::Assign(left, right) => match left {
            SExpr::Identifier(name) => {
                let s1 = compile_expr(st, right);
                match resolve(s1.locals, name) {
                    Some(i) => emit(s1, OpCode::SetLocal(i as usize)),
                    None => CState {
                        code: s1.code.push(OpCode::SetGlobal(s1.consts.len() as usize)),
                        consts: s1.consts.push(SValue::Str(name)),
                        ..s1
                    },
                }
            },
            SExpr::Index(target, key) => emit(
                compile_expr(compile_expr(compile_expr(st, *target), *key), right),
                OpCode::SetTable(0),
            ),
            _ => st,
        },
        SStmt::FunctionDef(name, params, body) => {
            let s1 = load_const(st, function_value(name, params, body));
            CState {
                code: s1.code.push(OpCode::SetGlobal(s1.consts.len() as usize)),
                consts: s1.consts.push(SValue::Str(name)),
                ..s1
            }
        },
        SStmt::If(c, t, e) => {
            let s1 = compile_expr(st, c);
            let j1 = s1.code.len() as int;
            let s3 = close_scope(compile_stmts(begin(emit(s1, OpCode::JumpIfFalse(0))), t));
            if e.len() > 0 {
                let j2 = s3.code.len() as int;
                let s4 = patch(emit(s3, OpCode::Jump(0)), j1);
                let s5 = close_scope(compile_stmts(begin(s4), e));
                patch(s5, j2)
            } else {
                patch(s3, j1)
            }
        },
        SStmt::While(c, body) => {
            let start = st.code.len();
            let s1 = compile_expr(CState { loops: st.loops.push(Seq::empty()), ..st }, c);
            let exit = s1.code.len() as int;
            let s2 = compile_stmts(emit(s1, OpCode::JumpIfFalse(0)), body);
            let s3 = patch(emit(s2, OpCode::Jump(start as usize)), exit);
            patch_all(CState { loops: s3.loops.drop_last(), ..s3 }, s3.loops.last())
        },
        SStmt::Break => {
            let j = st.code.len();
            CState {
                code: st.code.push(OpCode::Jump(0)),
                loops: st.loops.update(st.loops.len() - 1, st.loops.last().push(j)),
                ..st
            }
        },
        _ => st,
    }
}

// ---------------------------------------------------------------------------
// Which programs the compiler takes without panicking.
// ---------------------------------------------------------------------------

/// Whether the compiler takes `e`: every operator and form in it is one it compiles,
/// and the statements of each function in it compile outside any loop.
pub open spec fn expr_ok(e: SExpr) -> bool
    decreases e, 1nat,
{
    match e {
        SExpr::Number(_) | SExpr::Str(_) | SExpr::Bool(_) | SExpr::Identifier(_) => true,
        SExpr::BinaryOp(l, op, r) => binary_opcode(op) is Some && expr_ok(*l) && expr_ok(*r),
        SExpr::UnaryOp(_, a) => expr_ok(*a),
        SExpr::Call(target, args) => expr_ok(*target) && exprs_ok(args),
        SExpr::Index(target, key) => expr_ok(*target) && expr_ok(*key),
        SExpr::Table(fields) => fields_ok(fields),
        SExpr::MethodCall(target, _, args) => expr_ok(*target) && exprs_ok(args) && args.len()
            < usize::MAX,
        SExpr::Function(params, body) => stmts_ok(body, false, usize::MAX as nat),
        _ => false,
    }
}

pub open spec fn exprs_ok(es: Seq<SExpr>) -> bool
    decreases es, 0nat,
{
    es.len() == 0 || (exprs_ok(es.drop_last()) && expr_ok(es.last()))
}

pub open spec fn field_ok(f: SField) -> bool
    decreases f, 1nat,
{
    match f {
        SField::Dynamic(k, v) => expr_ok(k) && expr_ok(v),
        SField::Named(_, v) => expr_ok(v),
        SField::List(x) => expr_ok(x),
    }
}

pub open spec fn fields_ok(fs: Seq<SField>) -> bool
    decreases fs, 0nat,
{
    fs.len() == 0 || (fields_ok(fs.drop_last()) && field_ok(fs.last()))
}

/// Whether the compiler takes the statements `ss`, inside a loop or not, with `room`
/// scope levels left before the scope depth would overflow.
pub open spec fn stmts_ok(ss: Seq<SStmt>, in_loop: bool, room: nat) -> bool
    decreases ss, 0nat,
{
    ss.len() == 0 || (stmts_ok(ss.drop_last(), in_loop, room) && stmt_ok(ss.last(), in_loop, room))
}

pub open spec fn stmt_ok(s: SStmt, in_loop: bool, room: nat) -> bool
    decreases s, 1nat,
{
    match s {
        SStmt::Return(e) => match e {
            Some(x) => expr_ok(x),
            None => true,
        },
        SStmt::Expression(e) => expr_ok(e),
        SStmt::LocalVar(_, v) => expr_ok(v),
        SStmt::Assign(left, right) => match left {
            SExpr::Identifier(_) => expr_ok(right),
            SExpr::Index(target, key) => expr_ok(*target) && expr_ok(*key) && expr_ok(right),
            _ => false,
        },
        SStmt::FunctionDef(_, _, body) => stmts_ok(body, false, usize::MAX as nat),
        SStmt::If(c, t, e) => expr_ok(c) && room > 0 && stmts_ok(t, in_loop, (room - 1) as nat)
            && stmts_ok(e, in_loop, (room - 1) as nat),
        SStmt::While(c, body) => expr_ok(c) && stmts_ok(body, true, room),
        SStmt::Break => in_loop,
        _ => false,
    }
}

} // verus!
