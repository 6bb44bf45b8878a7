//! The jumps of compiled statements: every conditional jump goes forward, and the
//! conditional jumps that were there before stay as they were.
use vstd::prelude::*;

use crate::ast::{SExpr, SField, SStmt};
use crate::compiler::{
    empty_state, extends, jump_kind, jumps_ok, lemma_close_scope, lemma_extends_trans,
    lemma_jumps_kept, lemma_patch, lemma_patch_all, main_function, OpCode,
};
use crate::compiler_spec::{
    begin, close_scope, compile_expr, compile_exprs, compile_field, compile_fields, compile_stmt,
    compile_stmts, emit, function_value, load_const, patch, patch_all, stmt_ok, stmts_ok, CState,
    SValue,
};

verus! {

/// `b` is `a` with more code and constants appended, none of the code a jump, and the
/// same loops.
pub open spec fn plain(a: CState, b: CState) -> bool {
    &&& a.code.len() <= b.code.len()
    &&& b.code.subrange(0, a.code.len() as int) == a.code
    &&& forall|j: int| a.code.len() <= j < b.code.len() ==> jump_kind(#[trigger] b.code[j]) == 0
    &&& b.loops == a.loops
    &&& a.consts.len() <= b.consts.len()
    &&& b.consts.subrange(0, a.consts.len() as int) == a.consts
}

/// The conditional jumps among the first `n` opcodes of `a` are in `b` as they were.
pub open spec fn conds_kept(a: Seq<OpCode>, b: Seq<OpCode>, n: int) -> bool {
    &&& n <= a.len()
    &&& n <= b.len()
    &&& forall|j: int| 0 <= j < n && a[j] is JumpIfFalse ==> #[trigger] b[j] == a[j]
}

/// Every conditional jump at a position in `[lo, hi)` goes forward.
pub open spec fn conds_forward(code: Seq<OpCode>, lo: int, hi: int) -> bool {
    forall|j: int|
        lo <= j < hi && 0 <= j < code.len() ==> (#[trigger] code[j] matches OpCode::JumpIfFalse(t)
            ==> j < t)
}

proof fn lemma_plain_refl(a: CState)
    ensures
        plain(a, a),
{
    assert(a.code.subrange(0, a.code.len() as int) =~= a.code);
    assert(a.consts.subrange(0, a.consts.len() as int) =~= a.consts);
}

proof fn lemma_plain_trans(a: CState, b: CState, c: CState)
    requires
        plain(a, b),
        plain(b, c),
    ensures
        plain(a, c),
{
    assert(c.code.subrange(0, a.code.len() as int) =~= a.code) by {
        assert forall|j: int| 0 <= j < a.code.len() implies c.code[j] == a.code[j] by {
            assert(c.code.subrange(0, b.code.len() as int)[j] == c.code[j]);
            assert(b.code.subrange(0, a.code.len() as int)[j] == b.code[j]);
        }
    }
    assert forall|j: int| a.code.len() <= j < c.code.len() implies jump_kind(#[trigger] c.code[j])
        == 0 by {
        if j < b.code.len() {
            assert(c.code.subrange(0, b.code.len() as int)[j] == c.code[j]);
        }
    }
    assert(c.consts.subrange(0, a.consts.len() as int) =~= a.consts) by {
        assert forall|j: int| 0 <= j < a.consts.len() implies c.consts[j] == a.consts[j] by {
            assert(c.consts.subrange(0, b.consts.len() as int)[j] == c.consts[j]);
            assert(b.consts.subrange(0, a.consts.len() as int)[j] == b.consts[j]);
        }
    }
}

proof fn lemma_plain_push(a: CState, b: CState, op: OpCode)
    requires
        jump_kind(op) == 0,
        b.code == a.code.push(op),
        b.loops == a.loops,
        b.consts == a.consts || b.consts == a.consts.push(b.consts.last()),
    ensures
        plain(a, b),
{
    assert(b.code.subrange(0, a.code.len() as int) =~= a.code);
    assert(b.consts.subrange(0, a.consts.len() as int) =~= a.consts);
}

/// What a plain extension keeps.
proof fn lemma_plain_facts(a: CState, b: CState)
    requires
        plain(a, b),
    ensures
        extends(a, b),
        conds_kept(a.code, b.code, a.code.len() as int),
        conds_forward(b.code, a.code.len() as int, b.code.len() as int),
        jumps_ok(a) ==> jumps_ok(b),
{
    assert forall|j: int| 0 <= j < a.code.len() implies b.code[j] == a.code[j] by {
        assert(b.code.subrange(0, a.code.len() as int)[j] == b.code[j]);
    }
    if jumps_ok(a) {
        lemma_jumps_kept(a, b);
    }
}

proof fn lemma_expr_plain(st: CState, e: SExpr)
    ensures
        plain(st, compile_expr(st, e)),
    decreases e, 1nat,
{
    match e {
        SExpr::Number(n) => lemma_plain_push(st, compile_expr(st, e), OpCode::LoadConst(st.consts.len() as usize)),
        SExpr::Str(s) => lemma_plain_push(st, compile_expr(st, e), OpCode::LoadConst(st.consts.len() as usize)),
        SExpr::Bool(b) => lemma_plain_push(st, compile_expr(st, e), OpCode::LoadConst(st.consts.len() as usize)),
        SExpr::BinaryOp(l, op, r) => {
            lemma_expr_plain(st, *l);
            let s1 = compile_expr(st, *l);
            lemma_expr_plain(s1, *r);
            let s2 = compile_expr(s1, *r);
            lemma_plain_trans(st, s1, s2);
            match crate::compiler_spec::binary_opcode(op) {
                Some(code) => {
                    lemma_plain_push(s2, emit(s2, code), code);
                    lemma_plain_trans(st, s2, emit(s2, code));
                },
                None => {},
            }
        },
        SExpr::UnaryOp(_, a) => lemma_expr_plain(st, *a),
        SExpr::Identifier(id) => {
            match crate::compiler_spec::resolve(st.locals, id) {
                Some(i) => lemma_plain_push(st, compile_expr(st, e), OpCode::LoadLocal(i as usize)),
                None => lemma_plain_push(st, compile_expr(st, e), OpCode::LoadGlobal(st.consts.len() as usize)),
            }
        },
        SExpr::Call(target, args) => {
            lemma_expr_plain(st, *target);
            let s1 = compile_expr(st, *target);
            lemma_exprs_plain(s1, args);
            let s2 = compile_exprs(s1, args);
            lemma_plain_trans(st, s1, s2);
            lemma_plain_push(s2, emit(s2, OpCode::Call(args.len() as usize)), OpCode::Call(args.len() as usize));
            lemma_plain_trans(st, s2, emit(s2, OpCode::Call(args.len() as usize)));
        },
        SExpr::Index(target, key) => {
            lemma_expr_plain(st, *target);
            let s1 = compile_expr(st, *target);
            lemma_expr_plain(s1, *key);
            let s2 = compile_expr(s1, *key);
            lemma_plain_trans(st, s1, s2);
            lemma_plain_push(s2, emit(s2, OpCode::GetTable(0)), OpCode::GetTable(0));
            lemma_plain_trans(st, s2, emit(s2, OpCode::GetTable(0)));
        },
        SExpr::Table(fields) => {
            let s1 = emit(st, OpCode::NewTable(fields.len() as usize));
            lemma_plain_push(st, s1, OpCode::NewTable(fields.len() as usize));
            lemma_fields_plain(s1, fields);
            lemma_plain_trans(st, s1, compile_fields(s1, fields));
        },
        SExpr::MethodCall(target, method, args) => {
            lemma_expr_plain(st, *target);
            let s0 = compile_expr(st, *target);
            let s1 = emit(s0, OpCode::Dup);
            lemma_plain_push(s0, s1, OpCode::Dup);
            lemma_plain_trans(st, s0, s1);
            let s1b = load_const(s1, SValue::Str(method));
            lemma_plain_push(s1, s1b, OpCode::LoadConst(s1.consts.len() as usize));
            lemma_plain_trans(st, s1, s1b);
            let s1c = emit(s1b, OpCode::GetTable(0));
            lemma_plain_push(s1b, s1c, OpCode::GetTable(0));
            lemma_plain_trans(st, s1b, s1c);
            let s2 = emit(s1c, OpCode::Swap);
            lemma_plain_push(s1c, s2, OpCode::Swap);
            lemma_plain_trans(st, s1c, s2);
            lemma_exprs_plain(s2, args);
            let s3 = compile_exprs(s2, args);
            lemma_plain_trans(st, s2, s3);
            let op = OpCode::Call((args.len() + 1) as usize);
            lemma_plain_push(s3, emit(s3, op), op);
            lemma_plain_trans(st, s3, emit(s3, op));
        },
        SExpr::Function(params, body) => lemma_plain_push(st, compile_expr(st, e), OpCode::LoadConst(st.consts.len() as usize)),
        _ => lemma_plain_refl(st),
    }
}

proof fn lemma_exprs_plain(st: CState, es: Seq<SExpr>)
    ensures
        plain(st, compile_exprs(st, es)),
    decreases es, 0nat,
{
    if es.len() == 0 {
        lemma_plain_refl(st);
    } else {
        lemma_exprs_plain(st, es.drop_last());
        let mid = compile_exprs(st, es.drop_last());
        lemma_expr_plain(mid, es.last());
        lemma_plain_trans(st, mid, compile_exprs(st, es));
    }
}

proof fn lemma_field_plain(st: CState, f: SField)
    ensures
        plain(st, compile_field(st, f)),
    decreases f, 1nat,
{
    match f {
        SField::Dynamic(k, v) => {
            lemma_expr_plain(st, k);
            let s1 = compile_expr(st, k);
            lemma_expr_plain(s1, v);
            let s2 = compile_expr(s1, v);
            lemma_plain_trans(st, s1, s2);
            lemma_plain_push(s2, emit(s2, OpCode::SetTable(0)), OpCode::SetTable(0));
            lemma_plain_trans(st, s2, emit(s2, OpCode::SetTable(0)));
        },
        SField::Named(k, v) => {
            let s1 = load_const(st, SValue::Str(k));
            lemma_plain_push(st, s1, OpCode::LoadConst(st.consts.len() as usize));
            lemma_expr_plain(s1, v);
            let s2 = compile_expr(s1, v);
            lemma_plain_trans(st, s1, s2);
            lemma_plain_push(s2, emit(s2, OpCode::SetTable(0)), OpCode::SetTable(0));
            lemma_plain_trans(st, s2, emit(s2, OpCode::SetTable(0)));
        },
        SField::List(x) => {
            lemma_expr_plain(st, x);
            let s1 = compile_expr(st, x);
            lemma_plain_push(s1, emit(s1, OpCode::SetTable(0)), OpCode::SetTable(0));
            lemma_plain_trans(st, s1, emit(s1, OpCode::SetTable(0)));
        },
    }
}

proof fn lemma_fields_plain(st: CState, fs: Seq<SField>)
    ensures
        plain(st, compile_fields(st, fs)),
    decreases fs, 0nat,
{
    if fs.len() == 0 {
        lemma_plain_refl(st);
    } else {
        lemma_fields_plain(st, fs.drop_last());
        let mid = compile_fields(st, fs.drop_last());
        lemma_field_plain(mid, fs.last());
        lemma_plain_trans(st, mid, compile_fields(st, fs));
    }
}

/// Leaving a scope appends only `Pop`s.
proof fn lemma_close_plain(st: CState)
    ensures
        plain(st, close_scope(st)),
    decreases st.locals.len(),
{
    if st.locals.len() > 0 && st.locals.last().1 == st.depth {
        let next = CState { code: st.code.push(OpCode::Pop), locals: st.locals.drop_last(), ..st };
        lemma_plain_push(st, next, OpCode::Pop);
        lemma_close_plain(next);
        lemma_plain_trans(st, next, close_scope(next));
    } else {
        lemma_plain_refl(st);
    }
}

/// `b` follows `a`: the loops' jumps are jumps, the code is extended with the kinds of
/// its opcodes kept, the conditional jumps of `a` are kept, and those added go forward.
pub open spec fn jumps_step(a: CState, b: CState) -> bool {
    &&& jumps_ok(b)
    &&& extends(a, b)
    &&& b.loops.len() == a.loops.len()
    &&& conds_kept(a.code, b.code, a.code.len() as int)
    &&& conds_forward(b.code, a.code.len() as int, b.code.len() as int)
}

proof fn lemma_step_trans(a: CState, b: CState, c: CState)
    requires
        jumps_step(a, b),
        jumps_step(b, c),
    ensures
        jumps_step(a, c),
{
    lemma_extends_trans(a, b, c);
    assert forall|j: int| 0 <= j < a.code.len() && a.code[j] is JumpIfFalse implies #[trigger] c.code[j]
        == a.code[j] by {
        assert(b.code[j] == a.code[j]);
    }
    assert forall|j: int|
        a.code.len() <= j < c.code.len() && 0 <= j < c.code.len() implies (#[trigger] c.code[j] matches OpCode::JumpIfFalse(t)
        ==> j < t) by {
        if j < b.code.len() {
            assert(jump_kind(c.code[j]) == jump_kind(b.code[j]));
            if b.code[j] is JumpIfFalse {
                assert(c.code[j] == b.code[j]);
            }
        }
    }
}

proof fn lemma_plain_step(a: CState, b: CState)
    requires
        plain(a, b),
        jumps_ok(a),
    ensures
        jumps_step(a, b),
{
    lemma_plain_facts(a, b);
}

proof fn lemma_step_refl(a: CState)
    requires
        jumps_ok(a),
    ensures
        jumps_step(a, a),
{
    lemma_plain_refl(a);
    lemma_plain_step(a, a);
}

/// Patching changes only the opcode at the offset.
proof fn lemma_patch_at(x: CState, off: int)
    requires
        0 <= off < x.code.len(),
        jump_kind(x.code[off]) != 0,
    ensures
        forall|j: int| 0 <= j < x.code.len() && j != off ==> #[trigger] patch(x, off).code[j]
            == x.code[j],
        x.code[off] is JumpIfFalse ==> patch(x, off).code[off] == OpCode::JumpIfFalse(
            x.code.len() as usize,
        ),
        x.code[off] is Jump ==> patch(x, off).code[off] == OpCode::Jump(x.code.len() as usize),
        patch(x, off).code.len() == x.code.len(),
        patch(x, off).loops == x.loops,
{
}

/// Patching the jumps at offsets where unconditional jumps stand keeps every conditional
/// jump.
proof fn lemma_patch_all_keeps(x: CState, offs: Seq<nat>)
    requires
        forall|k: int| 0 <= k < offs.len() ==> (#[trigger] offs[k]) < x.code.len() && jump_kind(
            x.code[offs[k] as int],
        ) == 1,
    ensures
        conds_kept(x.code, patch_all(x, offs).code, x.code.len() as int),
        forall|j: int| 0 <= j < x.code.len() && !(x.code[j] is JumpIfFalse) ==> !(#[trigger] patch_all(x, offs).code[j] is JumpIfFalse),
    decreases offs.len(),
{
    lemma_patch_all(x, offs);
    if offs.len() > 0 {
        let mid = patch_all(x, offs.drop_last());
        assert forall|k: int| 0 <= k < offs.drop_last().len() implies (#[trigger] offs.drop_last()[k])
            < x.code.len() && jump_kind(x.code[offs.drop_last()[k] as int]) == 1 by {
            assert(offs.drop_last()[k] == offs[k]);
        }
        lemma_patch_all_keeps(x, offs.drop_last());
        lemma_patch_all(x, offs.drop_last());
        let off = offs.last() as int;
        assert(offs[offs.len() - 1] == offs.last());
        assert(jump_kind(mid.code[off]) == jump_kind(x.code[off]));
        lemma_patch_at(mid, off);
        assert forall|j: int| 0 <= j < x.code.len() && !(x.code[j] is JumpIfFalse) implies !(
        #[trigger] patch_all(x, offs).code[j] is JumpIfFalse) by {
            assert(jump_kind(patch_all(x, offs).code[j]) == jump_kind(x.code[j]));
        }
    }
}

proof fn lemma_stmts_jumps(st: CState, ss: Seq<SStmt>, room: nat)
    requires
        jumps_ok(st),
        stmts_ok(ss, st.loops.len() > 0, room),
        compile_stmts(st, ss).code.len() <= usize::MAX,
    ensures
        jumps_step(st, compile_stmts(st, ss)),
    decreases ss, 0nat,
{
    if ss.len() == 0 {
        lemma_step_refl(st);
    } else {
        crate::compiler_laws::lemma_code_grows_stmt(compile_stmts(st, ss.drop_last()), ss.last());
        lemma_stmts_jumps(st, ss.drop_last(), room);
        let mid = compile_stmts(st, ss.drop_last());
        lemma_stmt_jumps(mid, ss.last(), room);
        lemma_step_trans(st, mid, compile_stmts(st, ss));
    }
}

proof fn lemma_stmt_jumps(st: CState, s: SStmt, room: nat)
    requires
        jumps_ok(st),
        stmt_ok(s, st.loops.len() > 0, room),
        compile_stmt(st, s).code.len() <= usize::MAX,
    ensures
        jumps_step(st, compile_stmt(st, s)),
    decreases s, 1nat,
{
    let r = compile_stmt(st, s);
    match s {
        SStmt::Return(e) => {
            let s1 = match e {
                Some(x) => compile_expr(st, x),
                None => load_const(st, SValue::Nil),
            };
            match e {
                Some(x) => lemma_expr_plain(st, x),
                None => lemma_plain_push(st, s1, OpCode::LoadConst(st.consts.len() as usize)),
            }
            lemma_plain_push(s1, r, OpCode::Return);
            lemma_plain_trans(st, s1, r);
            lemma_plain_step(st, r);
        },
        SStmt::Expression(e) => {
            lemma_expr_plain(st, e);
            let s1 = compile_expr(st, e);
            lemma_plain_push(s1, r, OpCode::Pop);
            lemma_plain_trans(st, s1, r);
            lemma_plain_step(st, r);
        },
        SStmt::LocalVar(name, value) => {
            lemma_expr_plain(st, value);
            let s1 = compile_expr(st, value);
            lemma_plain_push(s1, r, OpCode::SetLocal(s1.locals.len() as usize));
            lemma_plain_trans(st, s1, r);
            lemma_plain_step(st, r);
        },
        SStmt::Assign(left, right) => match left {
            SExpr::Identifier(name) => {
                lemma_expr_plain(st, right);
                let s1 = compile_expr(st, right);
                match crate::compiler_spec::resolve(s1.locals, name) {
                    Some(i) => lemma_plain_push(s1, r, OpCode::SetLocal(i as usize)),
                    None => lemma_plain_push(s1, r, OpCode::SetGlobal(s1.consts.len() as usize)),
                }
                lemma_plain_trans(st, s1, r);
                lemma_plain_step(st, r);
            },
            SExpr::Index(target, key) => {
                lemma_expr_plain(st, *target);
                let s1 = compile_expr(st, *target);
                lemma_expr_plain(s1, *key);
                let s2 = compile_expr(s1, *key);
                lemma_expr_plain(s2, right);
                let s3 = compile_expr(s2, right);
                lemma_plain_trans(st, s1, s2);
                lemma_plain_trans(st, s2, s3);
                lemma_plain_push(s3, r, OpCode::SetTable(0));
                lemma_plain_trans(st, s3, r);
                lemma_plain_step(st, r);
            },
            _ => {},
        },
        SStmt::FunctionDef(name, params, body) => {
            let s1 = load_const(st, function_value(name, params, body));
            lemma_plain_push(st, s1, OpCode::LoadConst(st.consts.len() as usize));
            lemma_plain_push(s1, r, OpCode::SetGlobal(s1.consts.len() as usize));
            lemma_plain_trans(st, s1, r);
            lemma_plain_step(st, r);
        },
        SStmt::Break => {
            let n = st.loops.len() - 1;
            assert forall|i: int, j: int|
                0 <= i < r.loops.len() && 0 <= j < r.loops[i].len() implies #[trigger] r.loops[i][j]
                < r.code.len() && jump_kind(r.code[r.loops[i][j] as int]) == 1 by {
                if i == n && j == r.loops[i].len() - 1 {
                } else {
                    assert(r.loops[i][j] == st.loops[i][j]);
                }
            }
        },
        SStmt::If(c, t, e) => lemma_if_jumps(st, c, t, e, room),
        SStmt::While(c, body) => lemma_while_jumps(st, c, body, room),
        _ => {},
    }
}

proof fn lemma_if_jumps(st: CState, c: SExpr, t: Seq<SStmt>, e: Seq<SStmt>, room: nat)
    requires
        jumps_ok(st),
        stmt_ok(SStmt::If(c, t, e), st.loops.len() > 0, room),
        compile_stmt(st, SStmt::If(c, t, e)).code.len() <= usize::MAX,
    ensures
        jumps_step(st, compile_stmt(st, SStmt::If(c, t, e))),
    decreases SStmt::If(c, t, e), 0nat,
{
    let r = compile_stmt(st, SStmt::If(c, t, e));
    lemma_expr_plain(st, c);
    let s1 = compile_expr(st, c);
    lemma_plain_facts(st, s1);
    let j1 = s1.code.len() as int;
    let e1 = emit(s1, OpCode::JumpIfFalse(0));
    let s2 = begin(e1);
    lemma_jumps_kept(s1, s2);
    lemma_extends_trans(st, s1, s2);
    assert(decreases_to!(SStmt::If(c, t, e) => t));
    let rt = compile_stmts(s2, t);
    lemma_close_plain(rt);
    let s3 = close_scope(rt);
    if e.len() > 0 {
        let s4x = patch(emit(s3, OpCode::Jump(0)), j1);
        crate::compiler::lemma_patch(emit(s3, OpCode::Jump(0)), j1);
        crate::compiler_laws::lemma_code_grows_stmts(begin(s4x), e);
        lemma_close_plain(compile_stmts(begin(s4x), e));
        crate::compiler::lemma_patch(close_scope(compile_stmts(begin(s4x), e)), s3.code.len() as int);
    } else {
        crate::compiler::lemma_patch(s3, j1);
    }
    lemma_stmts_jumps(s2, t, (room - 1) as nat);
    lemma_plain_step(rt, s3);
    lemma_step_trans(s2, rt, s3);
    assert(s3.code[j1] == OpCode::JumpIfFalse(0));
    lemma_extends_trans(st, s2, s3);
    if e.len() > 0 {
        let j2 = s3.code.len() as int;
        let e2 = emit(s3, OpCode::Jump(0));
        lemma_jumps_kept(s3, e2);
        let s4 = patch(e2, j1);
        lemma_patch_at(e2, j1);
        lemma_patch(e2, j1);
        lemma_jumps_kept(e2, s4);
        let b4 = begin(s4);
        lemma_extends_trans(s3, e2, s4);
        lemma_extends_trans(st, s3, s4);
        assert(decreases_to!(SStmt::If(c, t, e) => e));
        lemma_stmts_jumps(b4, e, (room - 1) as nat);
        let re = compile_stmts(b4, e);
        lemma_close_plain(re);
        let s5 = close_scope(re);
        lemma_plain_step(re, s5);
        lemma_step_trans(b4, re, s5);
        lemma_extends_trans(st, b4, s5);
        assert(jump_kind(s5.code[j2]) == jump_kind(e2.code[j2]));
        lemma_patch_at(s5, j2);
        lemma_patch(s5, j2);
        lemma_jumps_kept(s5, r);
        lemma_extends_trans(st, s5, r);
        assert forall|j: int| 0 <= j < st.code.len() && st.code[j] is JumpIfFalse implies #[trigger] r.code[j]
            == st.code[j] by {
            assert(s1.code[j] == st.code[j]);
            assert(s2.code[j] == s1.code[j]);
            assert(s3.code[j] == s2.code[j]);
            assert(s4.code[j] == s3.code[j]);
            assert(s5.code[j] == s4.code[j]);
        }
        assert forall|j: int|
            st.code.len() <= j < r.code.len() && 0 <= j < r.code.len() implies (#[trigger] r.code[j] matches OpCode::JumpIfFalse(
            tt) ==> j < tt) by {
            if j < j1 {
                assert(jump_kind(r.code[j]) == jump_kind(s1.code[j]));
            } else if j == j1 {
                assert(s5.code[j1] == s4.code[j1]);
            } else if j < j2 {
                assert(jump_kind(r.code[j]) == jump_kind(s3.code[j]));
                if s3.code[j] is JumpIfFalse {
                    assert(s4.code[j] == s3.code[j]);
                    assert(s5.code[j] == s4.code[j]);
                }
            } else if j == j2 {
            } else {
                assert(r.code[j] == s5.code[j]);
            }
        }
    } else {
        lemma_patch_at(s3, j1);
        lemma_patch(s3, j1);
        lemma_jumps_kept(s3, r);
        lemma_extends_trans(st, s3, r);
        assert forall|j: int| 0 <= j < st.code.len() && st.code[j] is JumpIfFalse implies #[trigger] r.code[j]
            == st.code[j] by {
            assert(s1.code[j] == st.code[j]);
            assert(s2.code[j] == s1.code[j]);
            assert(s3.code[j] == s2.code[j]);
        }
        assert forall|j: int|
            st.code.len() <= j < r.code.len() && 0 <= j < r.code.len() implies (#[trigger] r.code[j] matches OpCode::JumpIfFalse(
            tt) ==> j < tt) by {
            if j < j1 {
                assert(jump_kind(r.code[j]) == jump_kind(s1.code[j]));
            } else if j == j1 {
            } else {
                assert(r.code[j] == s3.code[j]);
            }
        }
    }
}

proof fn lemma_while_jumps(st: CState, c: SExpr, body: Seq<SStmt>, room: nat)
    requires
        jumps_ok(st),
        stmt_ok(SStmt::While(c, body), st.loops.len() > 0, room),
        compile_stmt(st, SStmt::While(c, body)).code.len() <= usize::MAX,
    ensures
        jumps_step(st, compile_stmt(st, SStmt::While(c, body))),
    decreases SStmt::While(c, body), 0nat,
{
    let r = compile_stmt(st, SStmt::While(c, body));
    let st0 = CState { loops: st.loops.push(Seq::empty()), ..st };
    assert forall|i: int, j: int|
        0 <= i < st0.loops.len() && 0 <= j < st0.loops[i].len() implies #[trigger] st0.loops[i][j]
        < st0.code.len() && jump_kind(st0.code[st0.loops[i][j] as int]) == 1 by {
        assert(st0.loops[i] == st.loops[i]);
    }
    lemma_expr_plain(st0, c);
    let s1 = compile_expr(st0, c);
    lemma_plain_facts(st0, s1);
    let exit = s1.code.len() as int;
    let e1 = emit(s1, OpCode::JumpIfFalse(0));
    lemma_jumps_kept(s1, e1);
    assert(decreases_to!(SStmt::While(c, body) => body));
    let rb = compile_stmts(e1, body);
    {
        let e2x = emit(rb, OpCode::Jump(st.code.len() as usize));
        crate::compiler::lemma_patch(e2x, exit);
        let s3x = patch(e2x, exit);
        crate::compiler::lemma_patch_all(CState { loops: s3x.loops.drop_last(), ..s3x }, s3x.loops.last());
    }
    lemma_stmts_jumps(e1, body, room);
    assert(rb.code[exit] == OpCode::JumpIfFalse(0));
    let e2 = emit(rb, OpCode::Jump(st.code.len() as usize));
    lemma_jumps_kept(rb, e2);
    let s3 = patch(e2, exit);
    lemma_patch_at(e2, exit);
    lemma_patch(e2, exit);
    lemma_jumps_kept(e2, s3);
    let base = CState { loops: s3.loops.drop_last(), ..s3 };
    let last = s3.loops.last();
    assert forall|i: int, j: int|
        0 <= i < base.loops.len() && 0 <= j < base.loops[i].len() implies #[trigger] base.loops[i][j]
        < base.code.len() && jump_kind(base.code[base.loops[i][j] as int]) == 1 by {
        assert(base.loops[i] == s3.loops[i]);
    }
    assert forall|k: int| 0 <= k < last.len() implies (#[trigger] last[k]) < base.code.len()
        && jump_kind(base.code[last[k] as int]) == 1 by {
        assert(s3.loops[s3.loops.len() - 1][k] == last[k]);
    }
    lemma_patch_all(base, last);
    lemma_patch_all_keeps(base, last);
    lemma_jumps_kept(base, r);
    lemma_extends_trans(st0, s1, e1);
    lemma_extends_trans(st0, e1, rb);
    lemma_extends_trans(st0, rb, e2);
    lemma_extends_trans(st0, e2, s3);
    lemma_extends_trans(st0, s3, r);
    assert forall|j: int| 0 <= j < st.code.len() && st.code[j] is JumpIfFalse implies #[trigger] r.code[j]
        == st.code[j] by {
        assert(s1.code[j] == st.code[j]);
        assert(e1.code[j] == s1.code[j]);
        assert(rb.code[j] == e1.code[j]);
        assert(e2.code[j] == rb.code[j]);
        assert(s3.code[j] == e2.code[j]);
        assert(r.code[j] == base.code[j]);
    }
    assert forall|j: int|
        st.code.len() <= j < r.code.len() && 0 <= j < r.code.len() implies (#[trigger] r.code[j] matches OpCode::JumpIfFalse(
        tt) ==> j < tt) by {
        if j < exit {
            assert(jump_kind(r.code[j]) == jump_kind(s1.code[j]));
        } else if j == exit {
            assert(r.code[j] == base.code[j]);
        } else if j < rb.code.len() {
            assert(jump_kind(r.code[j]) == jump_kind(rb.code[j]));
            if rb.code[j] is JumpIfFalse {
                assert(s3.code[j] == rb.code[j]);
                assert(r.code[j] == base.code[j]);
            }
        } else {
            assert(jump_kind(r.code[j]) == jump_kind(e2.code[j]));
        }
    }
}

/// Every position recorded for an enclosing loop lies at or after `n`.
pub open spec fn loops_from(st: CState, n: int) -> bool {
    forall|i: int, j: int|
        0 <= i < st.loops.len() && 0 <= j < st.loops[i].len() ==> #[trigger] st.loops[i][j] >= n
}

/// `b` keeps the first `n` opcodes of `a` and all its constants, and records no loop
/// position before `n`.
pub open spec fn keeps_prefix(a: CState, b: CState, n: int) -> bool {
    &&& 0 <= n <= a.code.len() <= b.code.len()
    &&& b.code.subrange(0, n) == a.code.subrange(0, n)
    &&& a.consts.len() <= b.consts.len()
    &&& b.consts.subrange(0, a.consts.len() as int) == a.consts
    &&& loops_from(b, n)
}

proof fn lemma_keeps_trans(a: CState, b: CState, c: CState, n: int)
    requires
        keeps_prefix(a, b, n),
        keeps_prefix(b, c, n),
    ensures
        keeps_prefix(a, c, n),
{
    assert(c.consts.subrange(0, a.consts.len() as int) =~= a.consts) by {
        assert forall|j: int| 0 <= j < a.consts.len() implies c.consts[j] == a.consts[j] by {
            assert(c.consts.subrange(0, b.consts.len() as int)[j] == c.consts[j]);
            assert(b.consts.subrange(0, a.consts.len() as int)[j] == b.consts[j]);
        }
    }
}

proof fn lemma_plain_keeps(a: CState, b: CState, n: int)
    requires
        plain(a, b),
        0 <= n <= a.code.len(),
        loops_from(a, n),
    ensures
        keeps_prefix(a, b, n),
{
    assert(b.code.subrange(0, n) =~= a.code.subrange(0, n)) by {
        assert forall|j: int| 0 <= j < n implies b.code[j] == a.code[j] by {
            assert(b.code.subrange(0, a.code.len() as int)[j] == b.code[j]);
        }
    }
}

/// Appending an opcode, or changing the one at an offset from `n` on, with the constants
/// and loops as they were.
proof fn lemma_code_keeps(a: CState, b: CState, n: int)
    requires
        0 <= n <= a.code.len() <= b.code.len(),
        forall|j: int| 0 <= j < n ==> b.code[j] == a.code[j],
        b.consts == a.consts,
        loops_from(b, n),
    ensures
        keeps_prefix(a, b, n),
{
    assert(b.code.subrange(0, n) =~= a.code.subrange(0, n));
    assert(b.consts.subrange(0, a.consts.len() as int) =~= a.consts);
}

proof fn lemma_patch_all_keeps_prefix(x: CState, offs: Seq<nat>, n: int)
    requires
        forall|k: int| 0 <= k < offs.len() ==> (#[trigger] offs[k]) >= n,
    ensures
        forall|j: int| 0 <= j < n && j < x.code.len() ==> #[trigger] patch_all(x, offs).code[j]
            == x.code[j],
    decreases offs.len(),
{
    lemma_patch_all(x, offs);
    if offs.len() > 0 {
        assert forall|k: int| 0 <= k < offs.drop_last().len() implies (#[trigger] offs.drop_last()[k])
            >= n by {
            assert(offs.drop_last()[k] == offs[k]);
        }
        lemma_patch_all_keeps_prefix(x, offs.drop_last(), n);
        lemma_patch_all(x, offs.drop_last());
        assert(offs[offs.len() - 1] == offs.last());
    }
}

proof fn lemma_stmts_prefix(st: CState, ss: Seq<SStmt>, n: int, room: nat)
    requires
        0 <= n <= st.code.len(),
        loops_from(st, n),
        stmts_ok(ss, st.loops.len() > 0, room),
    ensures
        keeps_prefix(st, compile_stmts(st, ss), n),
        compile_stmts(st, ss).loops.len() == st.loops.len(),
    decreases ss, 0nat,
{
    if ss.len() == 0 {
        lemma_plain_refl(st);
        lemma_plain_keeps(st, st, n);
    } else {
        lemma_stmts_prefix(st, ss.drop_last(), n, room);
        let mid = compile_stmts(st, ss.drop_last());
        lemma_stmt_prefix(mid, ss.last(), n, room);
        lemma_keeps_trans(st, mid, compile_stmts(st, ss), n);
    }
}

proof fn lemma_stmt_prefix(st: CState, s: SStmt, n: int, room: nat)
    requires
        0 <= n <= st.code.len(),
        loops_from(st, n),
        stmt_ok(s, st.loops.len() > 0, room),
    ensures
        keeps_prefix(st, compile_stmt(st, s), n),
        compile_stmt(st, s).loops.len() == st.loops.len(),
    decreases s, 1nat,
{
    let r = compile_stmt(st, s);
    match s {
        SStmt::If(c, t, e) => {
            lemma_expr_plain(st, c);
            let s1 = compile_expr(st, c);
            lemma_plain_keeps(st, s1, n);
            let j1 = s1.code.len() as int;
            let s2 = begin(emit(s1, OpCode::JumpIfFalse(0)));
            lemma_code_keeps(s1, s2, n);
            lemma_keeps_trans(st, s1, s2, n);
            assert(decreases_to!(s => t));
            lemma_stmts_prefix(s2, t, n, (room - 1) as nat);
            let rt = compile_stmts(s2, t);
            lemma_keeps_trans(st, s2, rt, n);
            lemma_close_plain(rt);
            let s3 = close_scope(rt);
            lemma_plain_keeps(rt, s3, n);
            lemma_keeps_trans(st, rt, s3, n);
            if e.len() > 0 {
                let e2 = emit(s3, OpCode::Jump(0));
                let s4 = patch(e2, j1);
                lemma_patch(e2, j1);
                assert forall|j: int| 0 <= j < n implies s4.code[j] == s3.code[j] by {
                    assert(e2.code[j] == s3.code[j]);
                }
                lemma_code_keeps(s3, s4, n);
                lemma_keeps_trans(st, s3, s4, n);
                let b4 = begin(s4);
                assert(decreases_to!(s => e));
                lemma_stmts_prefix(b4, e, n, (room - 1) as nat);
                let re = compile_stmts(b4, e);
                lemma_keeps_trans(st, b4, re, n);
                lemma_close_plain(re);
                let s5 = close_scope(re);
                lemma_plain_keeps(re, s5, n);
                lemma_keeps_trans(st, re, s5, n);
                lemma_patch(s5, s3.code.len() as int);
                lemma_code_keeps(s5, r, n);
                lemma_keeps_trans(st, s5, r, n);
            } else {
                lemma_patch(s3, j1);
                lemma_code_keeps(s3, r, n);
                lemma_keeps_trans(st, s3, r, n);
            }
        },
        SStmt::While(c, body) => {
            let st0 = CState { loops: st.loops.push(Seq::empty()), ..st };
            assert forall|i: int, j: int|
                0 <= i < st0.loops.len() && 0 <= j < st0.loops[i].len() implies #[trigger] st0.loops[i][j]
                >= n by {
                assert(st0.loops[i] == st.loops[i]);
            }
            lemma_code_keeps(st, st0, n);
            lemma_expr_plain(st0, c);
            let s1 = compile_expr(st0, c);
            lemma_plain_keeps(st0, s1, n);
            lemma_keeps_trans(st, st0, s1, n);
            let exit = s1.code.len() as int;
            let e1 = emit(s1, OpCode::JumpIfFalse(0));
            lemma_code_keeps(s1, e1, n);
            lemma_keeps_trans(st, s1, e1, n);
            assert(decreases_to!(s => body));
            lemma_stmts_prefix(e1, body, n, room);
            let rb = compile_stmts(e1, body);
            lemma_keeps_trans(st, e1, rb, n);
            let e2 = emit(rb, OpCode::Jump(st.code.len() as usize));
            lemma_code_keeps(rb, e2, n);
            lemma_keeps_trans(st, rb, e2, n);
            let s3 = patch(e2, exit);
            lemma_patch(e2, exit);
            lemma_code_keeps(e2, s3, n);
            lemma_keeps_trans(st, e2, s3, n);
            let base = CState { loops: s3.loops.drop_last(), ..s3 };
            let last = s3.loops.last();
            assert forall|i: int, j: int|
                0 <= i < base.loops.len() && 0 <= j < base.loops[i].len() implies #[trigger] base.loops[i][j]
                >= n by {
                assert(base.loops[i] == s3.loops[i]);
            }
            lemma_code_keeps(s3, base, n);
            lemma_keeps_trans(st, s3, base, n);
            assert forall|k: int| 0 <= k < last.len() implies (#[trigger] last[k]) >= n by {
                assert(s3.loops[s3.loops.len() - 1][k] == last[k]);
            }
            lemma_patch_all(base, last);
            lemma_patch_all_keeps_prefix(base, last, n);
            lemma_code_keeps(base, r, n);
            lemma_keeps_trans(st, base, r, n);
        },
        SStmt::Break => {
            let k = st.loops.len() - 1;
            assert forall|i: int, j: int|
                0 <= i < r.loops.len() && 0 <= j < r.loops[i].len() implies #[trigger] r.loops[i][j]
                >= n by {
                if i == k && j == r.loops[i].len() - 1 {
                } else {
                    assert(r.loops[i][j] == st.loops[i][j]);
                }
            }
            lemma_code_keeps(st, r, n);
        },
        _ => {
            lemma_stmt_plain_cases(st, s);
            lemma_plain_keeps(st, r, n);
        },
    }
}

/// The statements that compile to plain code: all but `if`, `while` and `break`.
proof fn lemma_stmt_plain_cases(st: CState, s: SStmt)
    requires
        !(s is If),
        !(s is While),
        !(s is Break),
    ensures
        plain(st, compile_stmt(st, s)),
{
    let r = compile_stmt(st, s);
    match s {
        SStmt::Return(e) => {
            let s1 = match e {
                Some(x) => compile_expr(st, x),
                None => load_const(st, SValue::Nil),
            };
            match e {
                Some(x) => lemma_expr_plain(st, x),
                None => lemma_plain_push(st, s1, OpCode::LoadConst(st.consts.len() as usize)),
            }
            lemma_plain_push(s1, r, OpCode::Return);
            lemma_plain_trans(st, s1, r);
        },
        SStmt::Expression(e) => {
            lemma_expr_plain(st, e);
            let s1 = compile_expr(st, e);
            lemma_plain_push(s1, r, OpCode::Pop);
            lemma_plain_trans(st, s1, r);
        },
        SStmt::LocalVar(name, value) => {
            lemma_expr_plain(st, value);
            let s1 = compile_expr(st, value);
            lemma_plain_push(s1, r, OpCode::SetLocal(s1.locals.len() as usize));
            lemma_plain_trans(st, s1, r);
        },
        SStmt::Assign(left, right) => match left {
            SExpr::Identifier(name) => {
                lemma_expr_plain(st, right);
                let s1 = compile_expr(st, right);
                match crate::compiler_spec::resolve(s1.locals, name) {
                    Some(i) => lemma_plain_push(s1, r, OpCode::SetLocal(i as usize)),
                    None => lemma_plain_push(s1, r, OpCode::SetGlobal(s1.consts.len() as usize)),
                }
                lemma_plain_trans(st, s1, r);
            },
            SExpr::Index(target, key) => {
                lemma_expr_plain(st, *target);
                let s1 = compile_expr(st, *target);
                lemma_expr_plain(s1, *key);
                let s2 = compile_expr(s1, *key);
                lemma_expr_plain(s2, right);
                let s3 = compile_expr(s2, right);
                lemma_plain_trans(st, s1, s2);
                lemma_plain_trans(st, s2, s3);
                lemma_plain_push(s3, r, OpCode::SetTable(0));
                lemma_plain_trans(st, s3, r);
            },
            _ => lemma_plain_refl(st),
        },
        SStmt::FunctionDef(name, params, body) => {
            let s1 = load_const(st, function_value(name, params, body));
            lemma_plain_push(st, s1, OpCode::LoadConst(st.consts.len() as usize));
            lemma_plain_push(s1, r, OpCode::SetGlobal(s1.consts.len() as usize));
            lemma_plain_trans(st, s1, r);
        },
        _ => lemma_plain_refl(st),
    }
}

/// Compiling statements outside any loop keeps the code and constants there were, leaves
/// no loop open, and every jump it adds goes to a position of the code or just past its
/// end, a conditional one to a position past itself.
pub proof fn law_stmts_outside_loops(st: CState, ss: Seq<SStmt>, room: nat)
    requires
        st.loops.len() == 0,
        stmts_ok(ss, false, room),
        compile_stmts(st, ss).code.len() <= usize::MAX,
    ensures
        st.code.len() <= compile_stmts(st, ss).code.len(),
        compile_stmts(st, ss).code.subrange(0, st.code.len() as int) == st.code,
        st.consts.len() <= compile_stmts(st, ss).consts.len(),
        compile_stmts(st, ss).consts.subrange(0, st.consts.len() as int) == st.consts,
        compile_stmts(st, ss).loops.len() == 0,
        crate::compiler_laws::targets_from(compile_stmts(st, ss).code, st.code.len() as int),
        conds_forward(
            compile_stmts(st, ss).code,
            st.code.len() as int,
            compile_stmts(st, ss).code.len() as int,
        ),
{
    let n = st.code.len() as int;
    lemma_stmts_prefix(st, ss, n, room);
    assert(st.code.subrange(0, n) =~= st.code);
    lemma_stmts_jumps(st, ss, room);
    crate::compiler_laws::lemma_stmts_targets(st, ss, n);
}

/// Compiling statements keeps the loops' jumps jumps, extends the code keeping the kind of
/// each opcode, leaves the conditional jumps there were as they were, and adds only
/// conditional jumps that go forward.
pub proof fn law_stmts_jumps(st: CState, ss: Seq<SStmt>, room: nat)
    requires
        jumps_ok(st),
        stmts_ok(ss, st.loops.len() > 0, room),
        compile_stmts(st, ss).code.len() <= usize::MAX,
    ensures
        jumps_step(st, compile_stmts(st, ss)),
{
    lemma_stmts_jumps(st, ss, room);
}

/// Every conditional jump of a program's main function goes forward, to a position past
/// it and not past the end of the code.
pub proof fn law_main_conds_forward(ss: Seq<SStmt>)
    requires
        stmts_ok(ss, false, usize::MAX as nat),
        main_function(ss).code.len() <= usize::MAX,
    ensures
        conds_forward(main_function(ss).code, 0, main_function(ss).code.len() as int),
        crate::compiler_laws::targets_in_code(main_function(ss).code),
{
    lemma_stmts_jumps(empty_state(), ss, usize::MAX as nat);
    let st = compile_stmts(empty_state(), ss);
    let r = emit(st, OpCode::Return);
    assert forall|j: int| 0 <= j < r.code.len() implies (#[trigger] r.code[j] matches OpCode::JumpIfFalse(
        tt) ==> j < tt) by {
        if j < st.code.len() {
            assert(r.code[j] == st.code[j]);
        }
    }
    crate::compiler_laws::law_main_jumps_in_code(ss);
}

} // verus!
