//! The bytecode compiler.
use std::rc::Rc;
use vstd::prelude::*;
use vstd::string::StringExecFns;

use crate::ast::{
    expr_model, exprs_model, field_model, fields_model, names_model, stmt_model, stmts_model, Expr,
    Statement, TableField,
};
use crate::compiler_spec::{
    begin, close_scope, compile_expr, compile_exprs, compile_field, compile_fields, compile_stmt,
    compile_stmts, emit, expr_ok, exprs_ok, field_ok, fields_ok, fresh_for, function_value,
    load_const, patch, patch_all, resolve, stmt_ok, stmts_ok, CState, SFunction, SValue,
};
use crate::token::TokenStream;
use crate::values::{value_model, values_model, Function, Value};

verus! {

/// An instruction of the virtual machine.
#[derive(Debug, Clone, Copy, PartialEq, Eq, Hash)]
pub enum OpCode {
    LoadConst(usize),
    LoadLocal(usize),
    LoadGlobal(usize),
    SetGlobal(usize),
    SetLocal(usize),
    Call(usize),
    Jump(usize),
    JumpIfFalse(usize),
    NewTable(usize),
    SetTable(usize),
    GetTable(usize),
    Add,
    Subtract,
    Multiply,
    Divide,
    Eq,
    Pop,
    Dup,
    Swap,
    Return,
}

/// 1 for an unconditional jump, 2 for a conditional one, 0 for any other opcode.
pub open spec fn jump_kind(op: OpCode) -> int {
    match op {
        OpCode::Jump(_) => 1,
        OpCode::JumpIfFalse(_) => 2,
        _ => 0,
    }
}

/// Bytecode and the constants it refers to.
#[derive(Debug, PartialEq, Hash)]
pub struct Chunk {
    pub code: Vec<OpCode>,
    pub constants: Vec<Value>,
}

impl Chunk {
    pub fn new() -> (c: Self)
        ensures
            c.code@ == Seq::<OpCode>::empty(),
            c.constants@ == Seq::<Value>::empty(),
    {
        Chunk { code: Vec::new(), constants: Vec::new() }
    }

    /// Appends a constant and gives its index.
    pub fn add_constant(&mut self, value: Value) -> (idx: usize)
        ensures
            final(self).code == old(self).code,
            final(self).constants@ == old(self).constants@.push(value),
            idx == old(self).constants.len(),
    {
        self.constants.push(value);
        self.constants.len() - 1
    }

    pub fn write(&mut self, opcode: OpCode)
        ensures
            final(self).code@ == old(self).code@.push(opcode),
            final(self).constants == old(self).constants,
    {
        self.code.push(opcode);
    }

    /// Appends a jump and gives its position.
    pub fn write_jump(&mut self, opcode: OpCode) -> (idx: usize)
        ensures
            final(self).code@ == old(self).code@.push(opcode),
            final(self).constants == old(self).constants,
            idx == old(self).code.len(),
    {
        self.code.push(opcode);
        self.code.len() - 1
    }

    /// Points the jump at `offset` to the end of the code.
    pub fn patch_jump(&mut self, offset: usize)
        requires
            offset < old(self).code.len(),
            jump_kind(old(self).code@[offset as int]) != 0,
        ensures
            final(self).constants == old(self).constants,
            final(self).code@ == old(self).code@.update(
                offset as int,
                match old(self).code@[offset as int] {
                    OpCode::JumpIfFalse(_) => OpCode::JumpIfFalse(old(self).code.len()),
                    _ => OpCode::Jump(old(self).code.len()),
                },
            ),
    {
        let current_ip = self.code.len();
        match self.code[offset] {
            OpCode::JumpIfFalse(_) => self.code.set(offset, OpCode::JumpIfFalse(current_ip)),
            _ => self.code.set(offset, OpCode::Jump(current_ip)),
        }
    }
}

impl Default for Chunk {
    fn default() -> (c: Self)
        ensures
            c.code@ == Seq::<OpCode>::empty(),
            c.constants@ == Seq::<Value>::empty(),
    {
        Self::new()
    }
}

impl Clone for Chunk {
    fn clone(&self) -> (c: Self)
        ensures
            c.code@ == self.code@,
            c.constants@ == self.constants@,
    {
        let code = self.code.clone();
        let mut constants: Vec<Value> = Vec::new();
        let mut i: usize = 0;
        while i < self.constants.len()
            invariant
                i <= self.constants.len(),
                constants@ == self.constants@.take(i as int),
            decreases self.constants.len() - i,
        {
            constants.push(self.constants[i].clone());
            assert(constants@ =~= self.constants@.take(i + 1));
            i = i + 1;
        }
        proof {
            assert(code@ =~= self.code@);
            assert(constants@ =~= self.constants@);
        }
        Chunk { code, constants }
    }
}

/// A local variable: its name and the scope depth it was declared at.
pub struct Local {
    name: String,
    depth: usize,
}

/// A compiler from statements to bytecode: the chunk so far, the local variables in
/// scope, the scope depth and, for each enclosing loop, the jumps of its `break`s.
pub struct Compiler {
    pub chunk: Chunk,
    pub locals: Vec<Local>,
    pub scope_depth: usize,
    pub loop_stack: Vec<Vec<usize>>,
}

/// Whether the jumps recorded for each enclosing loop are jumps of the code.
pub open spec fn jumps_ok(st: CState) -> bool {
    forall|i: int, j: int|
        0 <= i < st.loops.len() && 0 <= j < st.loops[i].len() ==> #[trigger] st.loops[i][j]
            < st.code.len() && jump_kind(st.code[st.loops[i][j] as int]) == 1
}

/// `b` extends the code of `a`, keeping the kind of each jump `a` has.
pub open spec fn extends(a: CState, b: CState) -> bool {
    &&& a.code.len() <= b.code.len()
    &&& forall|i: int| 0 <= i < a.code.len() ==> jump_kind(#[trigger] b.code[i]) == jump_kind(
        a.code[i],
    )
}

/// The name and depth of each local.
pub closed spec fn locals_model(ls: Seq<Local>) -> Seq<(Seq<char>, nat)> {
    ls.map_values(|l: Local| (l.name@, l.depth as nat))
}

pub proof fn lemma_locals_len(ls: Seq<Local>)
    ensures
        locals_model(ls).len() == ls.len(),
{
}

/// Each local's model is its name and depth.
proof fn lemma_locals_at(ls: Seq<Local>)
    ensures
        forall|j: int|
            0 <= j < ls.len() ==> #[trigger] locals_model(ls)[j] == (
                ls[j].name@,
                ls[j].depth as nat,
            ),
{
}

pub open spec fn loops_model(ls: Seq<Vec<usize>>) -> Seq<Seq<nat>> {
    ls.map_values(|v: Vec<usize>| v@.map_values(|x: usize| x as nat))
}

pub proof fn lemma_exprs_model(s: Seq<Expr>)
    ensures
        exprs_model(s).len() == s.len(),
        forall|i: int| 0 <= i < s.len() ==> #[trigger] exprs_model(s)[i] == expr_model(s[i]),
    decreases s.len(),
{
    if s.len() > 0 {
        lemma_exprs_model(s.drop_last());
    }
}

pub proof fn lemma_stmts_model(s: Seq<Statement>)
    ensures
        stmts_model(s).len() == s.len(),
        forall|i: int| 0 <= i < s.len() ==> #[trigger] stmts_model(s)[i] == stmt_model(s[i]),
    decreases s.len(),
{
    if s.len() > 0 {
        lemma_stmts_model(s.drop_last());
    }
}

pub proof fn lemma_fields_model(s: Seq<TableField>)
    ensures
        fields_model(s).len() == s.len(),
        forall|i: int| 0 <= i < s.len() ==> #[trigger] fields_model(s)[i] == field_model(s[i]),
    decreases s.len(),
{
    if s.len() > 0 {
        lemma_fields_model(s.drop_last());
    }
}

pub proof fn lemma_values_len(s: Seq<Value>)
    ensures
        values_model(s).len() == s.len(),
    decreases s.len(),
{
    if s.len() > 0 {
        lemma_values_len(s.drop_last());
    }
}

pub proof fn lemma_values_push(s: Seq<Value>, v: Value)
    ensures
        values_model(s.push(v)) == values_model(s).push(value_model(v)),
{
    assert(s.push(v).drop_last() =~= s);
}

pub proof fn lemma_exprs_ok(es: Seq<crate::ast::SExpr>)
    ensures
        exprs_ok(es) <==> forall|i: int| 0 <= i < es.len() ==> expr_ok(#[trigger] es[i]),
    decreases es.len(),
{
    if es.len() > 0 {
        lemma_exprs_ok(es.drop_last());
        if exprs_ok(es) {
            assert forall|i: int| 0 <= i < es.len() implies expr_ok(#[trigger] es[i]) by {
                if i < es.len() - 1 {
                    assert(es.drop_last()[i] == es[i]);
                }
            }
        }
        if forall|i: int| 0 <= i < es.len() ==> expr_ok(#[trigger] es[i]) {
            assert forall|i: int| 0 <= i < es.drop_last().len() implies expr_ok(
                #[trigger] es.drop_last()[i],
            ) by {
                assert(es.drop_last()[i] == es[i]);
            }
        }
    }
}

pub proof fn lemma_fields_ok(fs: Seq<crate::ast::SField>)
    ensures
        fields_ok(fs) <==> forall|i: int| 0 <= i < fs.len() ==> field_ok(#[trigger] fs[i]),
    decreases fs.len(),
{
    if fs.len() > 0 {
        lemma_fields_ok(fs.drop_last());
        if fields_ok(fs) {
            assert forall|i: int| 0 <= i < fs.len() implies field_ok(#[trigger] fs[i]) by {
                if i < fs.len() - 1 {
                    assert(fs.drop_last()[i] == fs[i]);
                }
            }
        }
        if forall|i: int| 0 <= i < fs.len() ==> field_ok(#[trigger] fs[i]) {
            assert forall|i: int| 0 <= i < fs.drop_last().len() implies field_ok(
                #[trigger] fs.drop_last()[i],
            ) by {
                assert(fs.drop_last()[i] == fs[i]);
            }
        }
    }
}

pub proof fn lemma_stmts_ok(ss: Seq<crate::ast::SStmt>, in_loop: bool, room: nat)
    ensures
        stmts_ok(ss, in_loop, room) <==> forall|i: int| 0 <= i < ss.len() ==> stmt_ok(
            #[trigger] ss[i],
            in_loop,
            room,
        ),
    decreases ss.len(),
{
    if ss.len() > 0 {
        lemma_stmts_ok(ss.drop_last(), in_loop, room);
        if stmts_ok(ss, in_loop, room) {
            assert forall|i: int| 0 <= i < ss.len() implies stmt_ok(#[trigger] ss[i], in_loop, room) by {
                if i < ss.len() - 1 {
                    assert(ss.drop_last()[i] == ss[i]);
                }
            }
        }
        if forall|i: int| 0 <= i < ss.len() ==> stmt_ok(#[trigger] ss[i], in_loop, room) {
            assert forall|i: int| 0 <= i < ss.drop_last().len() implies stmt_ok(
                #[trigger] ss.drop_last()[i],
                in_loop,
                room,
            ) by {
                assert(ss.drop_last()[i] == ss[i]);
            }
        }
    }
}

/// Extending the code keeps the loops' jumps jumps.
pub proof fn lemma_jumps_kept(a: CState, b: CState)
    requires
        jumps_ok(a),
        extends(a, b),
        b.loops == a.loops,
    ensures
        jumps_ok(b),
{
    assert forall|i: int, j: int|
        0 <= i < b.loops.len() && 0 <= j < b.loops[i].len() implies #[trigger] b.loops[i][j]
        < b.code.len() && jump_kind(b.code[b.loops[i][j] as int]) == 1 by {
        assert(a.loops[i][j] < a.code.len());
        assert(jump_kind(b.code[a.loops[i][j] as int]) == jump_kind(a.code[a.loops[i][j] as int]));
    }
}

pub proof fn lemma_extends_trans(a: CState, b: CState, c: CState)
    requires
        extends(a, b),
        extends(b, c),
    ensures
        extends(a, c),
{
    assert forall|i: int| 0 <= i < a.code.len() implies jump_kind(#[trigger] c.code[i])
        == jump_kind(a.code[i]) by {
        assert(jump_kind(c.code[i]) == jump_kind(b.code[i]));
    }
}

pub proof fn lemma_emit_extends(st: CState, op: OpCode)
    ensures
        extends(st, emit(st, op)),
        extends(st, load_const(st, crate::compiler_spec::SValue::Nil)),
{
}

/// Leaving a scope only appends `Pop`s and lowers the depth.
pub proof fn lemma_close_scope(st: CState)
    ensures
        extends(st, close_scope(st)),
        close_scope(st).loops == st.loops,
        close_scope(st).consts == st.consts,
        close_scope(st).depth == (st.depth - 1) as nat,
    decreases st.locals.len(),
{
    if st.locals.len() > 0 && st.locals.last().1 == st.depth {
        let next = CState { code: st.code.push(OpCode::Pop), locals: st.locals.drop_last(), ..st };
        lemma_close_scope(next);
        assert(extends(st, next));
        lemma_extends_trans(st, next, close_scope(next));
    }
}

/// Patching a jump keeps the length of the code and the kind of each opcode.
pub proof fn lemma_patch(st: CState, off: int)
    ensures
        extends(st, patch(st, off)),
        patch(st, off).code.len() == st.code.len(),
        patch(st, off).loops == st.loops,
        patch(st, off).locals == st.locals,
        patch(st, off).depth == st.depth,
        patch(st, off).consts == st.consts,
{
}

pub proof fn lemma_patch_all(st: CState, offs: Seq<nat>)
    ensures
        extends(st, patch_all(st, offs)),
        patch_all(st, offs).code.len() == st.code.len(),
        patch_all(st, offs).loops == st.loops,
        patch_all(st, offs).locals == st.locals,
        patch_all(st, offs).depth == st.depth,
        patch_all(st, offs).consts == st.consts,
    decreases offs.len(),
{
    if offs.len() > 0 {
        lemma_patch_all(st, offs.drop_last());
        let mid = patch_all(st, offs.drop_last());
        lemma_patch(mid, offs.last() as int);
        lemma_extends_trans(st, mid, patch(mid, offs.last() as int));
    }
}


impl Default for Compiler {
    fn default() -> (c: Self)
        ensures
            c.state() == empty_state(),
            c.wf(),
    {
        Self::new()
    }
}

impl Compiler {
    /// The compiler's state: its chunk, its locals, its scope depth and its loops, read
    /// as mathematical values.
    pub open spec fn state(&self) -> CState {
        CState {
            code: self.chunk.code@,
            consts: values_model(self.chunk.constants@),
            locals: locals_model(self.locals@),
            depth: self.scope_depth as nat,
            loops: loops_model(self.loop_stack@),
        }
    }

    /// The state is that of the chunk: its code is the chunk's code, its constants are the
    /// models of the chunk's constants, and each of its counts fits in a `usize`.
    pub proof fn law_state_of_chunk(&self)
        ensures
            self.state().code == self.chunk.code@,
            self.state().consts == values_model(self.chunk.constants@),
            self.state().consts.len() == self.chunk.constants@.len(),
            self.state().code.len() <= usize::MAX,
            self.state().consts.len() <= usize::MAX,
            self.state().locals.len() <= usize::MAX,
    {
        lemma_values_len(self.chunk.constants@);
        lemma_locals_len(self.locals@);
        assert(self.chunk.code.len() == self.chunk.code@.len());
        assert(self.chunk.constants.len() == self.chunk.constants@.len());
        assert(self.locals.len() == self.locals@.len());
    }

    /// The compiler keeps the jumps of each enclosing loop among its jumps.
    pub open spec fn wf(&self) -> bool {
        jumps_ok(self.state())
    }

    pub fn new() -> (c: Self)
        ensures
            c.state() == (CState {
                code: Seq::empty(),
                consts: Seq::empty(),
                locals: Seq::empty(),
                depth: 0,
                loops: Seq::empty(),
            }),
            c.wf(),
    {
        let c = Compiler {
            chunk: Chunk::new(),
            locals: Vec::new(),
            scope_depth: 0,
            loop_stack: Vec::new(),
        };
        assert(values_model(c.chunk.constants@) =~= Seq::<SValue>::empty());
        assert(locals_model(c.locals@) =~= Seq::<(Seq<char>, nat)>::empty());
        assert(loops_model(c.loop_stack@) =~= Seq::<Seq<nat>>::empty());
        c
    }

    fn write(&mut self, op: OpCode)
        ensures
            final(self).state() == emit(old(self).state(), op),
    {
        self.chunk.write(op);
    }

    /// Adds a constant and a load of it.
    fn emit_constant(&mut self, v: Value)
        ensures
            final(self).state() == load_const(old(self).state(), value_model(v)),
    {
        proof {
            lemma_values_push(self.chunk.constants@, v);
            lemma_values_len(self.chunk.constants@);
        }
        let idx = self.chunk.add_constant(v);
        self.chunk.write(OpCode::LoadConst(idx));
    }

    /// Adds a string constant and gives its index.
    fn string_constant(&mut self, s: &String) -> (idx: usize)
        ensures
            final(self).state() == (CState {
                consts: old(self).state().consts.push(SValue::Str(s@)),
                ..old(self).state()
            }),
            idx == old(self).state().consts.len(),
    {
        let v = Value::String(s.clone());
        proof {
            lemma_values_push(self.chunk.constants@, v);
            lemma_values_len(self.chunk.constants@);
        }
        self.chunk.add_constant(v)
    }

    fn add_local(&mut self, name: String) -> (idx: usize)
        ensures
            final(self).state() == (CState {
                locals: old(self).state().locals.push((name@, old(self).state().depth)),
                ..old(self).state()
            }),
            idx == old(self).state().locals.len(),
    {
        let idx = self.locals.len();
        let ghost before = self.locals@;
        self.locals.push(Local { name, depth: self.scope_depth });
        assert(locals_model(self.locals@) =~= locals_model(before).push(
            (name@, self.scope_depth as nat),
        ));
        idx
    }

    fn resolve_local(&self, name: &String) -> (r: Option<usize>)
        ensures
            match r {
                Some(i) => resolve(self.state().locals, name@) == Some(i as nat),
                None => resolve(self.state().locals, name@) is None,
            },
            match r {
                Some(i) => i < self.locals.len() && self.locals@[i as int].name@ == name@
                    && forall|j: int|
                    i < j < self.locals.len() ==> (#[trigger] self.locals@[j]).name@ != name@,
                None => forall|j: int|
                    0 <= j < self.locals.len() ==> (#[trigger] self.locals@[j]).name@ != name@,
            },
    {
        let mut i = self.locals.len();
        assert(self.locals@.take(i as int) =~= self.locals@);
        while i > 0
            invariant
                i <= self.locals.len(),
                resolve(self.state().locals, name@) == resolve(
                    locals_model(self.locals@.take(i as int)),
                    name@,
                ),
            decreases i,
        {
            let ghost pre = locals_model(self.locals@.take(i as int));
            assert(pre.last() == (self.locals@[i - 1].name@, self.locals@[i - 1].depth as nat));
            assert(pre.drop_last() =~= locals_model(self.locals@.take(i - 1)));
            if self.locals[i - 1].name == *name {
                proof {
                    self.lemma_resolved(name@);
                }
                return Some(i - 1);
            }
            i = i - 1;
        }
        proof {
            self.lemma_resolved(name@);
        }
        None
    }

    /// What `resolve` gives, over the locals themselves.
    proof fn lemma_resolved(&self, name: Seq<char>)
        ensures
            match resolve(self.state().locals, name) {
                Some(i) => i < self.locals.len() && self.locals@[i as int].name@ == name
                    && forall|j: int|
                    i < j < self.locals.len() ==> (#[trigger] self.locals@[j]).name@ != name,
                None => forall|j: int|
                    0 <= j < self.locals.len() ==> (#[trigger] self.locals@[j]).name@ != name,
            },
    {
        crate::compiler_laws::law_resolve_most_recent(self.state().locals, name);
        lemma_locals_len(self.locals@);
        lemma_locals_at(self.locals@);
        if let Some(i) = resolve(self.state().locals, name) {
            assert forall|j: int| i < j < self.locals.len() implies (#[trigger] self.locals@[j]).name@
                != name by {
                assert(self.state().locals[j].0 != name);
            }
        } else {
            assert forall|j: int| 0 <= j < self.locals.len() implies (
            #[trigger] self.locals@[j]).name@ != name by {
                assert(self.state().locals[j].0 != name);
            }
        }
    }

    fn end_scope(&mut self)
        requires
            old(self).wf(),
            old(self).state().depth > 0,
        ensures
            final(self).state() == close_scope(old(self).state()),
            final(self).wf(),
            extends(old(self).state(), final(self).state()),
            final(self).state().depth == old(self).state().depth - 1,
            final(self).state().loops == old(self).state().loops,
    {
        let ghost s0 = self.state();
        while self.locals.len() > 0 && self.locals[self.locals.len() - 1].depth == self.scope_depth
            invariant
                self.scope_depth > 0,
                close_scope(self.state()) == close_scope(old(self).state()),
            decreases self.locals.len(),
        {
            let ghost st = self.state();
            assert(locals_model(self.locals@).last().1 == self.locals@.last().depth as nat);
            self.chunk.write(OpCode::Pop);
            let ghost before = self.locals@;
            self.locals.pop();
            assert(locals_model(self.locals@) =~= locals_model(before).drop_last());
            assert(self.state() == CState {
                code: st.code.push(OpCode::Pop),
                locals: st.locals.drop_last(),
                ..st
            });
        }
        assert(self.locals@.len() > 0 ==> locals_model(self.locals@).last().1
            == self.locals@.last().depth as nat);
        let ghost st = self.state();
        assert(close_scope(st) == CState { depth: (st.depth - 1) as nat, ..st });
        self.scope_depth = self.scope_depth - 1;
        proof {
            lemma_close_scope(s0);
            lemma_jumps_kept(s0, self.state());
        }
    }

    pub fn begin_scope(&mut self)
        requires
            old(self).state().depth < usize::MAX,
        ensures
            final(self).state() == begin(old(self).state()),
    {
        self.scope_depth = self.scope_depth + 1;
    }

    /// Appends a jump and gives its position.
    fn write_jump(&mut self, op: OpCode) -> (idx: usize)
        ensures
            final(self).state() == emit(old(self).state(), op),
            idx == old(self).state().code.len(),
    {
        self.chunk.write_jump(op)
    }

    /// Points the jump at `off` to the end of the code.
    fn patch_at(&mut self, off: usize)
        requires
            old(self).wf(),
            off < old(self).state().code.len(),
            jump_kind(old(self).state().code[off as int]) != 0,
        ensures
            final(self).state() == patch(old(self).state(), off as int),
            final(self).wf(),
            extends(old(self).state(), final(self).state()),
            final(self).state().code.len() == old(self).state().code.len(),
            final(self).state().depth == old(self).state().depth,
            final(self).state().loops == old(self).state().loops,
            final(self).state().locals == old(self).state().locals,
    {
        let ghost s0 = self.state();
        self.chunk.patch_jump(off);
        proof {
            assert(self.state().code =~= patch(s0, off as int).code);
            lemma_patch(s0, off as int);
            lemma_jumps_kept(s0, self.state());
        }
    }

    /// The constant for a function compiled from `params` and `body`: the body's code
    /// followed by a return of `nil`.
    fn function_constant(name: String, params: &Vec<String>, body: &Vec<Statement>) -> (v: Value)
        requires
            stmts_ok(stmts_model(body@), false, usize::MAX as nat),
        ensures
            value_model(v) == function_value(name@, names_model(params@), stmts_model(body@)),
        decreases body@, 1nat,
    {
        let mut compiler = Compiler::new();
        let mut arity: usize = 0;
        let mut i: usize = 0;
        assert(names_model(params@.take(0)) =~= Seq::<Seq<char>>::empty());
        assert(fresh_for(Seq::empty()).locals =~= Seq::<(Seq<char>, nat)>::empty());
        while i < params.len()
            invariant
                i <= params.len(),
                arity == i,
                compiler.wf(),
                compiler.state() == (CState {
                    locals: fresh_for(names_model(params@.take(i as int))).locals,
                    ..fresh_for(Seq::empty())
                }),
            decreases params.len() - i,
        {
            compiler.add_local(params[i].clone());
            assert(fresh_for(names_model(params@.take(i + 1))).locals =~= fresh_for(
                names_model(params@.take(i as int)),
            ).locals.push((params@[i as int]@, 0nat)));
            arity = arity + 1;
            i = i + 1;
        }
        assert(params@.take(i as int) =~= params@);
        assert(compiler.state() == fresh_for(names_model(params@)));
        compiler.compile_stmt(body.as_slice());
        compiler.emit_constant(Value::Nil);
        compiler.write(OpCode::Return);
        let chunk = compiler.chunk;
        assert(names_model(params@).len() == params@.len());
        Value::Function(Rc::new(Function { name, arity, chunk }))
    }

    /// Emits the code of an expression.
    pub fn compile_expr(&mut self, expr: &Expr)
        requires
            old(self).wf(),
            expr_ok(expr_model(*expr)),
        ensures
            final(self).state() == compile_expr(old(self).state(), expr_model(*expr)),
            final(self).wf(),
            extends(old(self).state(), final(self).state()),
            final(self).state().locals == old(self).state().locals,
            final(self).state().depth == old(self).state().depth,
            final(self).state().loops == old(self).state().loops,
        decreases *expr, 2nat,
    {
        let ghost s0 = self.state();
        match expr {
            Expr::Number(n) => {
                self.emit_constant(Value::Number(n.clone()));
            },
            Expr::String(s) => {
                self.emit_constant(Value::String(s.clone()));
            },
            Expr::Bool(b) => {
                self.emit_constant(Value::Bool(*b));
            },
            Expr::BinaryOp { .. } => {
                self.compile_binary(expr);
            },
            Expr::UnaryOp { operator: _, argument } => {
                self.compile_expr(argument);
            },
            Expr::Identifier(id) => {
                if let Some(local_idx) = self.resolve_local(id) {
                    self.write(OpCode::LoadLocal(local_idx));
                } else {
                    let constant_idx = self.string_constant(id);
                    self.write(OpCode::LoadGlobal(constant_idx));
                }
            },
            Expr::Call { .. } => {
                self.compile_call(expr);
            },
            Expr::Index { target, key } => {
                self.compile_expr(target);
                let ghost s1 = self.state();
                self.compile_expr(key);
                let ghost s2 = self.state();
                self.write(OpCode::GetTable(0));
                proof {
                    lemma_extends_trans(s0, s1, s2);
                    lemma_emit_extends(s2, OpCode::GetTable(0));
                    lemma_extends_trans(s0, s2, self.state());
                }
            },
            Expr::TableConstructor(..) => {
                self.compile_table(expr);
            },
            Expr::MethodCall { .. } => {
                self.compile_method_call(expr);
            },
            Expr::Function { params, body } => {
                let f = Self::function_constant(String::from_str("<anonymous>"), params, body);
                self.emit_constant(f);
            },
            _ => {},
        }
        proof {
            lemma_jumps_kept(s0, self.state());
        }
    }

    fn compile_binary(&mut self, expr: &Expr)
        requires
            old(self).wf(),
            expr_ok(expr_model(*expr)),
            *expr is BinaryOp,
        ensures
            final(self).state() == compile_expr(old(self).state(), expr_model(*expr)),
            final(self).wf(),
            extends(old(self).state(), final(self).state()),
            final(self).state().locals == old(self).state().locals,
            final(self).state().depth == old(self).state().depth,
            final(self).state().loops == old(self).state().loops,
        decreases *expr, 1nat,
    {
        let ghost s0 = self.state();
        if let Expr::BinaryOp { left, operator, right } = expr {
            self.compile_expr(left);
            let ghost s1 = self.state();
            self.compile_expr(right);
            let ghost s2 = self.state();
            match operator {
                TokenStream::Plus => self.write(OpCode::Add),
                TokenStream::Minus => self.write(OpCode::Subtract),
                TokenStream::Asterisk => self.write(OpCode::Multiply),
                TokenStream::Slash => self.write(OpCode::Divide),
                TokenStream::EqualEqual => self.write(OpCode::Eq),
                _ => {},
            }
            proof {
                lemma_extends_trans(s0, s1, s2);
                lemma_extends_trans(s0, s2, self.state());
                lemma_jumps_kept(s0, self.state());
            }
        }
    }

    #[verifier::loop_isolation(false)]
    fn compile_call(&mut self, expr: &Expr)
        requires
            old(self).wf(),
            expr_ok(expr_model(*expr)),
            *expr is Call,
        ensures
            final(self).state() == compile_expr(old(self).state(), expr_model(*expr)),
            final(self).wf(),
            extends(old(self).state(), final(self).state()),
            final(self).state().locals == old(self).state().locals,
            final(self).state().depth == old(self).state().depth,
            final(self).state().loops == old(self).state().loops,
        decreases *expr, 1nat,
    {
        let ghost s0 = self.state();
        if let Expr::Call { target, args } = expr {
            self.compile_expr(target);
            let ghost s1 = self.state();
            let arg_count = args.len();
            proof {
                lemma_exprs_model(args@);
                lemma_exprs_ok(exprs_model(args@));
            }
            let mut i: usize = 0;
            while i < args.len()
                invariant
                    i <= args.len(),
                    self.wf(),
                    self.state() == compile_exprs(s1, exprs_model(args@.take(i as int))),
                    extends(s1, self.state()),
                    self.state().locals == s1.locals,
                    self.state().depth == s1.depth,
                    self.state().loops == s1.loops,
                decreases args.len() - i,
            {
                proof {
                    assert(exprs_model(args@)[i as int] == expr_model(args@[i as int]));
                    assert(decreases_to!(*expr => args@[i as int]));
                }
                let ghost before = self.state();
                self.compile_expr(&args[i]);
                proof {
                    lemma_extends_trans(s1, before, self.state());
                    assert(args@.take(i + 1).drop_last() =~= args@.take(i as int));
                    let m = exprs_model(args@.take(i as int));
                    assert(exprs_model(args@.take(i + 1)) == m.push(expr_model(args@[i as int])));
                    assert(m.push(expr_model(args@[i as int])).drop_last() =~= m);
                }
                i = i + 1;
            }
            assert(args@.take(i as int) =~= args@);
            let ghost s2 = self.state();
            self.write(OpCode::Call(arg_count));
            proof {
                lemma_extends_trans(s0, s1, s2);
                lemma_extends_trans(s0, s2, self.state());
                lemma_jumps_kept(s0, self.state());
            }
        }
    }

    #[verifier::loop_isolation(false)]
    fn compile_method_call(&mut self, expr: &Expr)
        requires
            old(self).wf(),
            expr_ok(expr_model(*expr)),
            *expr is MethodCall,
        ensures
            final(self).state() == compile_expr(old(self).state(), expr_model(*expr)),
            final(self).wf(),
            extends(old(self).state(), final(self).state()),
            final(self).state().locals == old(self).state().locals,
            final(self).state().depth == old(self).state().depth,
            final(self).state().loops == old(self).state().loops,
        decreases *expr, 1nat,
    {
        let ghost s0 = self.state();
        if let Expr::MethodCall { target, method, args } = expr {
            self.compile_expr(target);
            self.write(OpCode::Dup);
            let key_idx = self.string_constant(method);
            self.write(OpCode::LoadConst(key_idx));
            self.write(OpCode::GetTable(0));
            self.write(OpCode::Swap);
            let ghost s1 = self.state();
            proof {
                lemma_exprs_model(args@);
                lemma_exprs_ok(exprs_model(args@));
                lemma_jumps_kept(s0, s1);
            }
            let arg_count = args.len() + 1;
            let mut i: usize = 0;
            while i < args.len()
                invariant
                    i <= args.len(),
                    self.wf(),
                    self.state() == compile_exprs(s1, exprs_model(args@.take(i as int))),
                    extends(s1, self.state()),
                    self.state().locals == s1.locals,
                    self.state().depth == s1.depth,
                    self.state().loops == s1.loops,
                decreases args.len() - i,
            {
                proof {
                    assert(exprs_model(args@)[i as int] == expr_model(args@[i as int]));
                    assert(decreases_to!(*expr => args@[i as int]));
                }
                let ghost before = self.state();
                self.compile_expr(&args[i]);
                proof {
                    lemma_extends_trans(s1, before, self.state());
                    assert(args@.take(i + 1).drop_last() =~= args@.take(i as int));
                    let m = exprs_model(args@.take(i as int));
                    assert(exprs_model(args@.take(i + 1)) == m.push(expr_model(args@[i as int])));
                    assert(m.push(expr_model(args@[i as int])).drop_last() =~= m);
                }
                i = i + 1;
            }
            assert(args@.take(i as int) =~= args@);
            let ghost s2 = self.state();
            self.write(OpCode::Call(arg_count));
            proof {
                lemma_extends_trans(s0, s1, s2);
                lemma_extends_trans(s0, s2, self.state());
                lemma_jumps_kept(s0, self.state());
            }
        }
    }

    #[verifier::loop_isolation(false)]
    fn compile_table(&mut self, expr: &Expr)
        requires
            old(self).wf(),
            expr_ok(expr_model(*expr)),
            *expr is TableConstructor,
        ensures
            final(self).state() == compile_expr(old(self).state(), expr_model(*expr)),
            final(self).wf(),
            extends(old(self).state(), final(self).state()),
            final(self).state().locals == old(self).state().locals,
            final(self).state().depth == old(self).state().depth,
            final(self).state().loops == old(self).state().loops,
        decreases *expr, 1nat,
    {
        let ghost s0 = self.state();
        if let Expr::TableConstructor(fields) = expr {
            proof {
                lemma_fields_model(fields@);
                lemma_fields_ok(fields_model(fields@));
            }
            self.write(OpCode::NewTable(fields.len()));
            let ghost s1 = self.state();
            proof {
                lemma_jumps_kept(s0, s1);
            }
            let mut i: usize = 0;
            while i < fields.len()
                invariant
                    i <= fields.len(),
                    self.wf(),
                    self.state() == compile_fields(s1, fields_model(fields@.take(i as int))),
                    extends(s1, self.state()),
                    self.state().locals == s1.locals,
                    self.state().depth == s1.depth,
                    self.state().loops == s1.loops,
                decreases fields.len() - i,
            {
                proof {
                    assert(fields_model(fields@)[i as int] == field_model(fields@[i as int]));
                    assert(decreases_to!(*expr => fields@[i as int]));
                }
                let ghost before = self.state();
                self.compile_field(&fields[i]);
                proof {
                    lemma_extends_trans(s1, before, self.state());
                    assert(fields@.take(i + 1).drop_last() =~= fields@.take(i as int));
                    let m = fields_model(fields@.take(i as int));
                    assert(fields_model(fields@.take(i + 1)) == m.push(field_model(fields@[i as int])));
                    assert(m.push(field_model(fields@[i as int])).drop_last() =~= m);
                }
                i = i + 1;
            }
            assert(fields@.take(i as int) =~= fields@);
            proof {
                lemma_extends_trans(s0, s1, self.state());
            }
        }
    }

    fn compile_field(&mut self, field: &TableField)
        requires
            old(self).wf(),
            field_ok(field_model(*field)),
        ensures
            final(self).state() == compile_field(old(self).state(), field_model(*field)),
            final(self).wf(),
            extends(old(self).state(), final(self).state()),
            final(self).state().locals == old(self).state().locals,
            final(self).state().depth == old(self).state().depth,
            final(self).state().loops == old(self).state().loops,
        decreases *field, 2nat,
    {
        let ghost s0 = self.state();
        match field {
            TableField::Dynamic { key, value } => {
                self.compile_expr(key);
                let ghost s1 = self.state();
                self.compile_expr(value);
                let ghost s2 = self.state();
                self.write(OpCode::SetTable(0));
                proof {
                    lemma_extends_trans(s0, s1, s2);
                    lemma_extends_trans(s0, s2, self.state());
                }
            },
            TableField::Named { key, value } => {
                let key_idx = self.string_constant(key);
                self.write(OpCode::LoadConst(key_idx));
                let ghost s1 = self.state();
                proof {
                    lemma_jumps_kept(s0, s1);
                }
                self.compile_expr(value);
                let ghost s2 = self.state();
                self.write(OpCode::SetTable(0));
                proof {
                    lemma_extends_trans(s0, s1, s2);
                    lemma_extends_trans(s0, s2, self.state());
                }
            },
            TableField::List(x) => {
                self.compile_expr(x);
                let ghost s1 = self.state();
                self.write(OpCode::SetTable(0));
                proof {
                    lemma_extends_trans(s0, s1, self.state());
                }
            },
        }
        proof {
            lemma_jumps_kept(s0, self.state());
        }
    }

    /// Emits the code of each statement, in order.
    pub fn compile_stmt(&mut self, statements: &[Statement])
        requires
            old(self).wf(),
            stmts_ok(
                stmts_model(statements@),
                old(self).state().loops.len() > 0,
                (usize::MAX - old(self).state().depth) as nat,
            ),
        ensures
            final(self).state() == compile_stmts(old(self).state(), stmts_model(statements@)),
            final(self).wf(),
            extends(old(self).state(), final(self).state()),
            final(self).state().depth == old(self).state().depth,
            final(self).state().loops.len() == old(self).state().loops.len(),
        decreases statements@, 0nat,
    {
        let ghost s0 = self.state();
        proof {
            lemma_stmts_model(statements@);
            lemma_stmts_ok(
                stmts_model(statements@),
                s0.loops.len() > 0,
                (usize::MAX - s0.depth) as nat,
            );
        }
        let mut i: usize = 0;
        while i < statements.len()
            invariant
                i <= statements.len(),
                self.wf(),
                stmts_model(statements@).len() == statements@.len(),
                forall|j: int|
                    0 <= j < statements@.len() ==> #[trigger] stmts_model(statements@)[j]
                        == stmt_model(statements@[j]),
                forall|j: int|
                    0 <= j < statements@.len() ==> stmt_ok(
                        #[trigger] stmts_model(statements@)[j],
                        s0.loops.len() > 0,
                        (usize::MAX - s0.depth) as nat,
                    ),
                self.state() == compile_stmts(s0, stmts_model(statements@.take(i as int))),
                extends(s0, self.state()),
                self.state().depth == s0.depth,
                self.state().loops.len() == s0.loops.len(),
            decreases statements.len() - i,
        {
            assert(stmts_model(statements@)[i as int] == stmt_model(statements@[i as int]));
            let ghost before = self.state();
            self.compile_one(&statements[i]);
            proof {
                lemma_extends_trans(s0, before, self.state());
                assert(statements@.take(i + 1).drop_last() =~= statements@.take(i as int));
                let m = stmts_model(statements@.take(i as int));
                assert(stmts_model(statements@.take(i + 1)) == m.push(stmt_model(statements@[i as int])));
                assert(m.push(stmt_model(statements@[i as int])).drop_last() =~= m);
            }
            i = i + 1;
        }
        assert(statements@.take(i as int) =~= statements@);
    }

    fn compile_one(&mut self, stmt: &Statement)
        requires
            old(self).wf(),
            stmt_ok(
                stmt_model(*stmt),
                old(self).state().loops.len() > 0,
                (usize::MAX - old(self).state().depth) as nat,
            ),
        ensures
            final(self).state() == compile_stmt(old(self).state(), stmt_model(*stmt)),
            final(self).wf(),
            extends(old(self).state(), final(self).state()),
            final(self).state().depth == old(self).state().depth,
            final(self).state().loops.len() == old(self).state().loops.len(),
        decreases *stmt, 2nat,
    {
        let ghost s0 = self.state();
        match stmt {
            Statement::Return(expr) => {
                if let Some(expr) = expr {
                    self.compile_expr(expr);
                } else {
                    self.emit_constant(Value::Nil);
                    proof {
                        lemma_emit_extends(s0, OpCode::Return);
                    }
                }
                let ghost s1 = self.state();
                self.write(OpCode::Return);
                proof {
                    lemma_extends_trans(s0, s1, self.state());
                    lemma_jumps_kept(s0, self.state());
                }
            },
            Statement::Expression(expr) => {
                self.compile_expr(expr);
                let ghost s1 = self.state();
                self.write(OpCode::Pop);
                proof {
                    lemma_extends_trans(s0, s1, self.state());
                    lemma_jumps_kept(s0, self.state());
                }
            },
            Statement::LocalVar(name, value) => {
                self.compile_expr(value);
                let ghost s1 = self.state();
                let idx = self.add_local(name.clone());
                self.write(OpCode::SetLocal(idx));
                proof {
                    lemma_extends_trans(s0, s1, self.state());
                    lemma_jumps_kept(s0, self.state());
                }
            },
            Statement::Assign(left, right) => match left {
                Expr::Identifier(name) => {
                    self.compile_expr(right);
                    let ghost s1 = self.state();
                    if let Some(local_idx) = self.resolve_local(name) {
                        self.write(OpCode::SetLocal(local_idx));
                    } else {
                        let idx = self.string_constant(name);
                        self.write(OpCode::SetGlobal(idx));
                    }
                    proof {
                        lemma_extends_trans(s0, s1, self.state());
                    lemma_jumps_kept(s0, self.state());
                    }
                },
                Expr::Index { target, key } => {
                    self.compile_expr(target);
                    let ghost s1 = self.state();
                    self.compile_expr(key);
                    let ghost s2 = self.state();
                    self.compile_expr(right);
                    let ghost s3 = self.state();
                    self.write(OpCode::SetTable(0));
                    proof {
                        lemma_extends_trans(s0, s1, s2);
                        lemma_extends_trans(s0, s2, s3);
                        lemma_extends_trans(s0, s3, self.state());
                        lemma_jumps_kept(s0, self.state());
                    }
                },
                _ => {},
            },
            Statement::FunctionDef { name, params, body } => {
                let f = Self::function_constant(name.clone(), params, body);
                self.emit_constant(f);
                let name_idx = self.string_constant(name);
                self.write(OpCode::SetGlobal(name_idx));
                proof {
                    lemma_jumps_kept(s0, self.state());
                }
            },
            Statement::If { .. } => {
                self.compile_if(stmt);
            },
            Statement::While(..) => {
                self.compile_while(stmt);
            },
            Statement::Break => {
                self.compile_break();
            },
            _ => {},
        }
    }

    fn compile_if(&mut self, stmt: &Statement)
        requires
            old(self).wf(),
            *stmt is If,
            stmt_ok(
                stmt_model(*stmt),
                old(self).state().loops.len() > 0,
                (usize::MAX - old(self).state().depth) as nat,
            ),
        ensures
            final(self).state() == compile_stmt(old(self).state(), stmt_model(*stmt)),
            final(self).wf(),
            extends(old(self).state(), final(self).state()),
            final(self).state().depth == old(self).state().depth,
            final(self).state().loops.len() == old(self).state().loops.len(),
        decreases *stmt, 1nat,
    {
        let ghost s0 = self.state();
        if let Statement::If { condition, then_block, else_block } = stmt {
            proof {
                lemma_stmts_model(else_block@);
                assert(decreases_to!(*stmt => then_block@));
                assert(decreases_to!(*stmt => else_block@));
            }
            self.compile_expr(condition);
            let ghost s1 = self.state();
            let jump_if_false_idx = self.write_jump(OpCode::JumpIfFalse(0));
            let ghost s2 = self.state();
            proof {
                lemma_jumps_kept(s1, s2);
            }
            self.begin_scope();
            self.compile_stmt(then_block.as_slice());
            let ghost s3a = self.state();
            self.end_scope();
            let ghost s3 = self.state();
            proof {
                lemma_extends_trans(s0, s1, s2);
                lemma_extends_trans(s2, s3a, s3);
                lemma_extends_trans(s0, s2, s3);
            }
            if else_block.len() > 0 {
                let jump_over_else_idx = self.write_jump(OpCode::Jump(0));
                let ghost s4a = self.state();
                proof {
                    lemma_jumps_kept(s3, s4a);
                    lemma_extends_trans(s0, s3, s4a);
                }
                self.patch_at(jump_if_false_idx);
                let ghost s4 = self.state();
                self.begin_scope();
                self.compile_stmt(else_block.as_slice());
                let ghost s5a = self.state();
                self.end_scope();
                let ghost s5 = self.state();
                proof {
                    lemma_extends_trans(s0, s4a, s4);
                    lemma_extends_trans(s4, s5a, s5);
                    lemma_extends_trans(s0, s4, s5);
                }
                self.patch_at(jump_over_else_idx);
                proof {
                    lemma_extends_trans(s0, s5, self.state());
                }
            } else {
                self.patch_at(jump_if_false_idx);
                proof {
                    lemma_extends_trans(s0, s3, self.state());
                }
            }
        }
    }

    #[verifier::loop_isolation(false)]
    fn compile_while(&mut self, stmt: &Statement)
        requires
            old(self).wf(),
            *stmt is While,
            stmt_ok(
                stmt_model(*stmt),
                old(self).state().loops.len() > 0,
                (usize::MAX - old(self).state().depth) as nat,
            ),
        ensures
            final(self).state() == compile_stmt(old(self).state(), stmt_model(*stmt)),
            final(self).wf(),
            extends(old(self).state(), final(self).state()),
            final(self).state().depth == old(self).state().depth,
            final(self).state().loops.len() == old(self).state().loops.len(),
        decreases *stmt, 1nat,
    {
        let ghost s0 = self.state();
        if let Statement::While(condition, do_block) = stmt {
            proof {
                assert(decreases_to!(*stmt => do_block@));
            }
            let loop_start = self.chunk.code.len();
            self.loop_stack.push(Vec::new());
            let ghost sp = self.state();
            proof {
                assert(loops_model(self.loop_stack@)[s0.loops.len() as int] =~= Seq::<nat>::empty());
                assert(loops_model(self.loop_stack@) =~= s0.loops.push(Seq::empty()));
                assert(sp == CState { loops: s0.loops.push(Seq::empty()), ..s0 });
                assert forall|i: int, j: int|
                    0 <= i < sp.loops.len() && 0 <= j < sp.loops[i].len() implies #[trigger] sp.loops[i][j]
                    < sp.code.len() && jump_kind(sp.code[sp.loops[i][j] as int]) == 1 by {
                    assert(i < s0.loops.len());
                    assert(sp.loops[i] == s0.loops[i]);
                }
            }
            self.compile_expr(condition);
            let ghost s1 = self.state();
            let exit_jump = self.write_jump(OpCode::JumpIfFalse(0));
            let ghost s1b = self.state();
            proof {
                lemma_jumps_kept(s1, s1b);
            }
            self.compile_stmt(do_block.as_slice());
            let ghost s2 = self.state();
            self.write(OpCode::Jump(loop_start));
            let ghost s2b = self.state();
            proof {
                lemma_jumps_kept(s2, s2b);
                lemma_extends_trans(s1, s1b, s2);
                lemma_extends_trans(s1, s2, s2b);
            }
            self.patch_at(exit_jump);
            let ghost s3 = self.state();
            proof {
                lemma_extends_trans(sp, s1, s2b);
                lemma_extends_trans(sp, s2b, s3);
            }
            let breaks = self.loop_stack.pop().unwrap();
            let ghost base = self.state();
            let ghost last = s3.loops.last();
            proof {
                assert(loops_model(self.loop_stack@) =~= s3.loops.drop_last());
                assert(base == CState { loops: s3.loops.drop_last(), ..s3 });
                assert(last =~= breaks@.map_values(|x: usize| x as nat));
                assert forall|i: int, j: int|
                    0 <= i < base.loops.len() && 0 <= j < base.loops[i].len() implies #[trigger] base.loops[i][j]
                    < base.code.len() && jump_kind(base.code[base.loops[i][j] as int]) == 1 by {
                    assert(base.loops[i] == s3.loops[i]);
                }
                assert forall|j: int| 0 <= j < last.len() implies #[trigger] last[j] < base.code.len()
                    && jump_kind(base.code[last[j] as int]) == 1 by {
                    assert(s3.loops[s3.loops.len() - 1][j] == last[j]);
                }
            }
            let mut k: usize = 0;
            while k < breaks.len()
                invariant
                    k <= breaks.len(),
                    self.wf(),
                    self.state() == patch_all(base, last.take(k as int)),
                decreases breaks.len() - k,
            {
                proof {
                    lemma_patch_all(base, last.take(k as int));
                    assert(last[k as int] == breaks@[k as int] as nat);
                }
                self.patch_at(breaks[k]);
                proof {
                    assert(last.take(k + 1).drop_last() =~= last.take(k as int));
                }
                k = k + 1;
            }
            proof {
                assert(last.take(k as int) =~= last);
                lemma_patch_all(base, last);
                lemma_extends_trans(s0, s3, self.state());
            }
        }
    }

    fn compile_break(&mut self)
        requires
            old(self).wf(),
            old(self).state().loops.len() > 0,
        ensures
            final(self).state() == compile_stmt(old(self).state(), crate::ast::SStmt::Break),
            final(self).wf(),
            extends(old(self).state(), final(self).state()),
            final(self).state().depth == old(self).state().depth,
            final(self).state().loops.len() == old(self).state().loops.len(),
    {
        let ghost s0 = self.state();
        let jump_idx = self.write_jump(OpCode::Jump(0));
        let mut breaks = self.loop_stack.pop().unwrap();
        breaks.push(jump_idx);
        self.loop_stack.push(breaks);
        proof {
            let n = s0.loops.len() - 1;
            let st = self.state();
            assert(loops_model(self.loop_stack@)[n] =~= s0.loops.last().push(jump_idx as nat));
            assert(loops_model(self.loop_stack@) =~= s0.loops.update(
                n,
                s0.loops.last().push(jump_idx as nat),
            ));
            assert forall|i: int, j: int|
                0 <= i < st.loops.len() && 0 <= j < st.loops[i].len() implies #[trigger] st.loops[i][j]
                < st.code.len() && jump_kind(st.code[st.loops[i][j] as int]) == 1 by {
                if i == n && j == st.loops[i].len() - 1 {
                } else {
                    assert(st.loops[i][j] == s0.loops[i][j]);
                }
            }
        }
    }
}

/// The state of a fresh compiler.
pub open spec fn empty_state() -> CState {
    CState {
        code: Seq::empty(),
        consts: Seq::empty(),
        locals: Seq::empty(),
        depth: 0,
        loops: Seq::empty(),
    }
}

/// The main function of a program: its statements compiled by a fresh compiler,
/// followed by a `Return`.
pub open spec fn main_function(ss: Seq<crate::ast::SStmt>) -> SFunction {
    let fin = emit(compile_stmts(empty_state(), ss), OpCode::Return);
    SFunction { name: "main"@, arity: 0, code: fin.code, consts: fin.consts }
}

/// Compiles the statements of a program into its main function.
pub fn compile_main(stmts: &[Statement]) -> (f: Function)
    requires
        stmts_ok(stmts_model(stmts@), false, usize::MAX as nat),
    ensures
        f.name@ == main_function(stmts_model(stmts@)).name,
        f.arity == 0,
        f.chunk.code@ == main_function(stmts_model(stmts@)).code,
        values_model(f.chunk.constants@) == main_function(stmts_model(stmts@)).consts,
{
    let mut compiler = Compiler::new();
    compiler.compile_stmt(stmts);
    compiler.write(OpCode::Return);
    Function { name: String::from_str("main"), arity: 0, chunk: compiler.chunk }
}

} // verus!
