//! What compiling an expression appends: only code and constants, no jump, and every
//! constant and local it refers to exists.
use vstd::prelude::*;

use crate::ast::{SExpr, SField};
use crate::compiler::OpCode;
use crate::compiler_spec::{
    compile_expr, compile_exprs, compile_field, compile_fields, emit, load_const, resolve, CState,
    SValue,
};

verus! {

/// The constant an opcode refers to, if any.
pub open spec fn const_index(op: OpCode) -> Option<nat> {
    match op {
        OpCode::LoadConst(k) => Some(k as nat),
        OpCode::LoadGlobal(k) => Some(k as nat),
        OpCode::SetGlobal(k) => Some(k as nat),
        _ => None,
    }
}

/// The local slot an opcode refers to, if any.
pub open spec fn local_index(op: OpCode) -> Option<nat> {
    match op {
        OpCode::LoadLocal(i) => Some(i as nat),
        OpCode::SetLocal(i) => Some(i as nat),
        _ => None,
    }
}

/// `b` holds the code and constants of `a` followed by more, and each opcode it adds is
/// no jump and refers to a constant of `b` or a local of `a`.
pub open spec fn appends_in_range(a: CState, b: CState) -> bool {
    &&& a.code.len() <= b.code.len()
    &&& b.code.subrange(0, a.code.len() as int) == a.code
    &&& a.consts.len() <= b.consts.len()
    &&& b.consts.subrange(0, a.consts.len() as int) == a.consts
    &&& forall|j: int|
        a.code.len() <= j < b.code.len() ==> {
            &&& crate::compiler::jump_kind(#[trigger] b.code[j]) == 0
            &&& (const_index(b.code[j]) matches Some(k) ==> k < b.consts.len())
            &&& (local_index(b.code[j]) matches Some(i) ==> i < a.locals.len())
        }
}

proof fn lemma_refl(a: CState)
    ensures
        appends_in_range(a, a),
{
    assert(a.code.subrange(0, a.code.len() as int) =~= a.code);
    assert(a.consts.subrange(0, a.consts.len() as int) =~= a.consts);
}

proof fn lemma_trans(a: CState, b: CState, c: CState)
    requires
        appends_in_range(a, b),
        appends_in_range(b, c),
        b.locals == a.locals,
    ensures
        appends_in_range(a, c),
{
    assert(c.code.subrange(0, a.code.len() as int) =~= a.code) by {
        assert forall|j: int| 0 <= j < a.code.len() implies c.code[j] == a.code[j] by {
            assert(c.code.subrange(0, b.code.len() as int)[j] == c.code[j]);
            assert(b.code.subrange(0, a.code.len() as int)[j] == b.code[j]);
        }
    }
    assert(c.consts.subrange(0, a.consts.len() as int) =~= a.consts) by {
        assert forall|j: int| 0 <= j < a.consts.len() implies c.consts[j] == a.consts[j] by {
            assert(c.consts.subrange(0, b.consts.len() as int)[j] == c.consts[j]);
            assert(b.consts.subrange(0, a.consts.len() as int)[j] == b.consts[j]);
        }
    }
    assert forall|j: int| a.code.len() <= j < c.code.len() implies {
        &&& crate::compiler::jump_kind(#[trigger] c.code[j]) == 0
        &&& (const_index(c.code[j]) matches Some(k) ==> k < c.consts.len())
        &&& (local_index(c.code[j]) matches Some(i) ==> i < a.locals.len())
    } by {
        if j < b.code.len() {
            assert(c.code.subrange(0, b.code.len() as int)[j] == c.code[j]);
        }
    }
}

/// Appending one opcode that is no jump and refers to what exists.
proof fn lemma_emit(a: CState, op: OpCode)
    requires
        crate::compiler::jump_kind(op) == 0,
        const_index(op) matches Some(k) ==> k < a.consts.len(),
        local_index(op) matches Some(i) ==> i < a.locals.len(),
    ensures
        appends_in_range(a, emit(a, op)),
{
    let b = emit(a, op);
    assert(b.code.subrange(0, a.code.len() as int) =~= a.code);
    assert(b.consts.subrange(0, a.consts.len() as int) =~= a.consts);
}

/// Adding a constant and loading it.
proof fn lemma_load(a: CState, v: SValue)
    requires
        a.consts.len() < usize::MAX,
    ensures
        appends_in_range(a, load_const(a, v)),
{
    let b = load_const(a, v);
    assert(b.code.subrange(0, a.code.len() as int) =~= a.code);
    assert(b.consts.subrange(0, a.consts.len() as int) =~= a.consts);
}

/// Adding a constant and an opcode that refers to it.
proof fn lemma_named(a: CState, op: OpCode, name: Seq<char>)
    requires
        crate::compiler::jump_kind(op) == 0,
        a.consts.len() < usize::MAX,
        const_index(op) == Some(a.consts.len()),
        local_index(op) is None,
    ensures
        appends_in_range(
            a,
            CState { code: a.code.push(op), consts: a.consts.push(SValue::Str(name)), ..a },
        ),
{
    let b = CState { code: a.code.push(op), consts: a.consts.push(SValue::Str(name)), ..a };
    assert(b.code.subrange(0, a.code.len() as int) =~= a.code);
    assert(b.consts.subrange(0, a.consts.len() as int) =~= a.consts);
}

/// The slot that a name resolves to is one of the locals.
proof fn lemma_resolve(locals: Seq<(Seq<char>, nat)>, name: Seq<char>)
    ensures
        resolve(locals, name) matches Some(i) ==> i < locals.len(),
    decreases locals.len(),
{
    if locals.len() > 0 && locals.last().0 != name {
        lemma_resolve(locals.drop_last(), name);
    }
}

/// The constants and locals of the compiled state fit the indices of opcodes.
pub open spec fn fits(st: CState, r: CState) -> bool {
    r.consts.len() <= usize::MAX && st.locals.len() <= usize::MAX
}

pub proof fn lemma_expr_appends(st: CState, e: SExpr)
    requires
        fits(st, compile_expr(st, e)),
    ensures
        appends_in_range(st, compile_expr(st, e)),
    decreases e, 1nat,
{
    let r = compile_expr(st, e);
    match e {
        SExpr::Number(n) => lemma_load(st, SValue::Number(n)),
        SExpr::Str(s) => lemma_load(st, SValue::Str(s)),
        SExpr::Bool(b) => lemma_load(st, SValue::Bool(b)),
        SExpr::BinaryOp(l, op, right) => {
            crate::compiler_laws::lemma_expr_locals(st, *l);
            let s1 = compile_expr(st, *l);
            let s2 = compile_expr(s1, *right);
            lemma_expr_appends(s1, *right);
            lemma_expr_appends(st, *l);
            lemma_trans(st, s1, s2);
            crate::compiler_laws::lemma_expr_locals(s1, *right);
            match crate::compiler_spec::binary_opcode(op) {
                Some(code) => {
                    lemma_emit(s2, code);
                    lemma_trans(st, s2, emit(s2, code));
                },
                None => {},
            }
        },
        SExpr::UnaryOp(_, a) => lemma_expr_appends(st, *a),
        SExpr::Identifier(id) => {
            lemma_resolve(st.locals, id);
            match resolve(st.locals, id) {
                Some(i) => lemma_emit(st, OpCode::LoadLocal(i as usize)),
                None => lemma_named(st, OpCode::LoadGlobal(st.consts.len() as usize), id),
            }
        },
        SExpr::Call(target, args) => {
            crate::compiler_laws::lemma_expr_locals(st, *target);
            let s1 = compile_expr(st, *target);
            let s2 = compile_exprs(s1, args);
            lemma_exprs_appends(s1, args);
            lemma_expr_appends(st, *target);
            lemma_trans(st, s1, s2);
            crate::compiler_laws::lemma_exprs_locals(s1, args);
            lemma_emit(s2, OpCode::Call(args.len() as usize));
            lemma_trans(st, s2, emit(s2, OpCode::Call(args.len() as usize)));
        },
        SExpr::Index(target, key) => {
            crate::compiler_laws::lemma_expr_locals(st, *target);
            let s1 = compile_expr(st, *target);
            let s2 = compile_expr(s1, *key);
            lemma_expr_appends(s1, *key);
            lemma_expr_appends(st, *target);
            lemma_trans(st, s1, s2);
            crate::compiler_laws::lemma_expr_locals(s1, *key);
            lemma_emit(s2, OpCode::GetTable(0));
            lemma_trans(st, s2, emit(s2, OpCode::GetTable(0)));
        },
        SExpr::Table(fields) => {
            let s1 = emit(st, OpCode::NewTable(fields.len() as usize));
            lemma_emit(st, OpCode::NewTable(fields.len() as usize));
            lemma_fields_appends(s1, fields);
            lemma_trans(st, s1, compile_fields(s1, fields));
        },
        SExpr::MethodCall(target, method, args) => {
            crate::compiler_laws::lemma_expr_locals(st, *target);
            let s0 = compile_expr(st, *target);
            let s1 = emit(s0, OpCode::Dup);
            let s1b = load_const(s1, SValue::Str(method));
            let s1c = emit(s1b, OpCode::GetTable(0));
            let s2 = emit(s1c, OpCode::Swap);
            let s3 = compile_exprs(s2, args);
            lemma_exprs_appends(s2, args);
            crate::compiler_laws::lemma_exprs_locals(s2, args);
            lemma_expr_appends(st, *target);
            lemma_emit(s0, OpCode::Dup);
            lemma_trans(st, s0, s1);
            lemma_load(s1, SValue::Str(method));
            lemma_trans(st, s1, s1b);
            lemma_emit(s1b, OpCode::GetTable(0));
            lemma_trans(st, s1b, s1c);
            lemma_emit(s1c, OpCode::Swap);
            lemma_trans(st, s1c, s2);
            lemma_trans(st, s2, s3);
            lemma_emit(s3, OpCode::Call((args.len() + 1) as usize));
            lemma_trans(st, s3, emit(s3, OpCode::Call((args.len() + 1) as usize)));
        },
        SExpr::Function(params, body) => lemma_load(
            st,
            crate::compiler_spec::function_value("<anonymous>"@, params, body),
        ),
        _ => lemma_refl(st),
    }
}

pub proof fn lemma_exprs_appends(st: CState, es: Seq<SExpr>)
    requires
        fits(st, compile_exprs(st, es)),
    ensures
        appends_in_range(st, compile_exprs(st, es)),
    decreases es, 0nat,
{
    if es.len() == 0 {
        lemma_refl(st);
    } else {
        crate::compiler_laws::lemma_exprs_locals(st, es.drop_last());
        let mid = compile_exprs(st, es.drop_last());
        lemma_expr_appends(mid, es.last());
        lemma_exprs_appends(st, es.drop_last());
        lemma_trans(st, mid, compile_exprs(st, es));
    }
}

proof fn lemma_field_appends(st: CState, f: SField)
    requires
        fits(st, compile_field(st, f)),
    ensures
        appends_in_range(st, compile_field(st, f)),
    decreases f, 1nat,
{
    match f {
        SField::Dynamic(k, v) => {
            crate::compiler_laws::lemma_expr_locals(st, k);
            let s1 = compile_expr(st, k);
            let s2 = compile_expr(s1, v);
            lemma_expr_appends(s1, v);
            lemma_expr_appends(st, k);
            lemma_trans(st, s1, s2);
            crate::compiler_laws::lemma_expr_locals(s1, v);
            lemma_emit(s2, OpCode::SetTable(0));
            lemma_trans(st, s2, emit(s2, OpCode::SetTable(0)));
        },
        SField::Named(k, v) => {
            let s1 = load_const(st, SValue::Str(k));
            let s2 = compile_expr(s1, v);
            lemma_expr_appends(s1, v);
            lemma_load(st, SValue::Str(k));
            lemma_trans(st, s1, s2);
            crate::compiler_laws::lemma_expr_locals(s1, v);
            lemma_emit(s2, OpCode::SetTable(0));
            lemma_trans(st, s2, emit(s2, OpCode::SetTable(0)));
        },
        SField::List(x) => {
            lemma_expr_appends(st, x);
            let s1 = compile_expr(st, x);
            crate::compiler_laws::lemma_expr_locals(st, x);
            lemma_emit(s1, OpCode::SetTable(0));
            lemma_trans(st, s1, emit(s1, OpCode::SetTable(0)));
        },
    }
}

proof fn lemma_fields_appends(st: CState, fs: Seq<SField>)
    requires
        fits(st, compile_fields(st, fs)),
    ensures
        appends_in_range(st, compile_fields(st, fs)),
    decreases fs, 0nat,
{
    if fs.len() == 0 {
        lemma_refl(st);
    } else {
        crate::compiler_laws::lemma_fields_locals(st, fs.drop_last());
        let mid = compile_fields(st, fs.drop_last());
        lemma_field_appends(mid, fs.last());
        lemma_fields_appends(st, fs.drop_last());
        lemma_trans(st, mid, compile_fields(st, fs));
    }
}

/// Compiling an expression only appends: the code and constants there were stay, and
/// each opcode it adds is no jump and refers to a constant that exists afterwards or a
/// local in scope; the locals stay as they were. The indices are those of a machine,
/// so the constants must fit in a `usize`.
pub proof fn law_expr_appends_in_range(st: CState, e: SExpr)
    requires
        fits(st, compile_expr(st, e)),
    ensures
        appends_in_range(st, compile_expr(st, e)),
        compile_expr(st, e).locals == st.locals,
{
    lemma_expr_appends(st, e);
    crate::compiler_laws::lemma_expr_locals(st, e);
}

} // verus!
