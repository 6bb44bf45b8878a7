//! The bytecode interpreter, as a step machine.
//!
//! One call of [`VM::step`] executes one instruction. What the virtual machine cannot do
//! itself it hands to its host as an [`Action`]: the arithmetic and the comparison of
//! numbers (which are binary64 values), the comparison of two functions (whose constants
//! hold numbers), and the call of a host function such as `print`. The host does the
//! work and hands the result back with [`VM::resume`].
use std::rc::Rc;
use vstd::prelude::*;
use vstd::string::StringExecFns;

use crate::compiler::OpCode;
use crate::names::{bindings_map, find_last, lemma_bindings_push, lemma_bindings_update};
use crate::values::{share_function, value_model, Function, Value};

verus! {

/// The handle of the host function `print`.
pub const PRINT: u64 = 0;

/// How a run ended.
#[derive(Debug, Clone, Copy, PartialEq, Eq)]
pub enum VMResult {
    Success,
    RuntimeError(&'static str),
}

/// A function being executed: the next instruction and where its slots start.
#[derive(Debug)]
pub struct CallFrame {
    pub function: Rc<Function>,
    pub ip: usize,
    pub base_slot: usize,
}

impl Clone for CallFrame {
    fn clone(&self) -> (r: Self)
        ensures
            r == *self,
    {
        CallFrame { function: share_function(&self.function), ip: self.ip, base_slot: self.base_slot }
    }
}

/// What a step leaves to the host.
#[derive(Debug)]
pub enum Action {
    /// The instruction was executed.
    Continue,
    /// The main function returned.
    Finished,
    /// The run stops with this error.
    Failed(&'static str),
    /// The host computes `left op right` on two numbers (`op` is `Add`, `Subtract`,
    /// `Multiply` or `Divide`) and resumes with the resulting number.
    Arithmetic(OpCode, String, String),
    /// The host decides whether two numbers, or two functions, are equal, and resumes
    /// with the boolean.
    Compare(Value, Value),
    /// The host calls its function with this handle on the arguments and resumes with
    /// the result.
    CallNative(u64, Vec<Value>),
}

/// The model of an action.
pub enum SAction {
    Continue,
    Finished,
    Failed(Seq<char>),
    Arithmetic(OpCode, Seq<char>, Seq<char>),
    Compare(Value, Value),
    CallNative(u64, Seq<Value>),
}

impl View for Action {
    type V = SAction;

    open spec fn view(&self) -> SAction {
        match self {
            Action::Continue => SAction::Continue,
            Action::Finished => SAction::Finished,
            Action::Failed(m) => SAction::Failed(m@),
            Action::Arithmetic(op, l, r) => SAction::Arithmetic(*op, l@, r@),
            Action::Compare(a, b) => SAction::Compare(*a, *b),
            Action::CallNative(h, args) => SAction::CallNative(*h, args@),
        }
    }
}

/// The model of the machine: the call frames, the value stack and the globals.
pub struct VmModel {
    pub frames: Seq<CallFrame>,
    pub stack: Seq<Value>,
    pub globals: Map<Seq<char>, Value>,
}

pub open spec fn top(m: VmModel) -> CallFrame {
    m.frames.last()
}

pub open spec fn code_of(f: CallFrame) -> Seq<OpCode> {
    f.function.chunk.code@
}

pub open spec fn consts_of(f: CallFrame) -> Seq<Value> {
    f.function.chunk.constants@
}

/// The instruction the top frame is at.
pub open spec fn fetch(m: VmModel) -> OpCode {
    code_of(top(m))[top(m).ip as int]
}

/// The model with the top frame at `ip`.
pub open spec fn with_ip(m: VmModel, ip: usize) -> VmModel {
    VmModel {
        frames: m.frames.update(m.frames.len() - 1, CallFrame { ip, ..top(m) }),
        ..m
    }
}

/// The stack cut down to `n` values (unchanged if it is shorter).
pub open spec fn truncated(s: Seq<Value>, n: nat) -> Seq<Value> {
    if n <= s.len() {
        s.take(n as int)
    } else {
        s
    }
}

/// Whether the machine can execute its next instruction: there is one, and the operands
/// it takes are there. The interpreter has no behaviour for the table opcodes, `Dup` and
/// `Swap`.
pub open spec fn step_ok(m: VmModel) -> bool {
    let f = top(m);
    let consts = consts_of(f);
    let n = m.stack.len();
    &&& m.frames.len() > 0
    &&& f.ip < code_of(f).len()
    &&& match fetch(m) {
        OpCode::LoadConst(i) => i < consts.len(),
        OpCode::LoadGlobal(i) => i < consts.len(),
        OpCode::SetGlobal(i) => i < consts.len() && (consts[i as int] is String ==> n >= 1),
        OpCode::Add | OpCode::Subtract | OpCode::Multiply | OpCode::Divide | OpCode::Eq => n >= 2,
        OpCode::Return | OpCode::Pop | OpCode::JumpIfFalse(_) => n >= 1,
        OpCode::LoadLocal(i) => f.base_slot + i < n,
        OpCode::SetLocal(i) => n >= 1 && f.base_slot + i < n - 1,
        OpCode::Call(k) => k < usize::MAX && k + 1 <= n,
        OpCode::Jump(_) => true,
        _ => false,
    }
}

/// Equality of two values where the machine decides it itself; `None` where the host
/// does (two numbers, or two functions, whose constants may hold numbers). Two tables are
/// equal when they are the same table.
pub open spec fn equality(a: Value, b: Value) -> Option<bool> {
    match (a, b) {
        (Value::Number(_), Value::Number(_)) => None,
        (Value::Function(_), Value::Function(_)) => None,
        (Value::Table(x), Value::Table(y)) => Some(x == y),
        (Value::Bool(x), Value::Bool(y)) => Some(x == y),
        (Value::String(x), Value::String(y)) => Some(x@ == y@),
        (Value::Nil, Value::Nil) => Some(true),
        (Value::NativeFuncion(x), Value::NativeFuncion(y)) => Some(x == y),
        _ => Some(false),
    }
}

pub open spec fn arith_step(m: VmModel, op: OpCode) -> (VmModel, SAction) {
    let b = m.stack.last();
    let a = m.stack.drop_last().last();
    let rest = VmModel { stack: m.stack.drop_last().drop_last(), ..m };
    match (a, b) {
        (Value::Number(x), Value::Number(y)) => (rest, SAction::Arithmetic(op, x@, y@)),
        _ => (rest, SAction::Failed("Os operadores devem ser numeros"@)),
    }
}

pub open spec fn eq_step(m: VmModel) -> (VmModel, SAction) {
    let a = m.stack.last();
    let b = m.stack.drop_last().last();
    let rest = m.stack.drop_last().drop_last();
    match equality(a, b) {
        Some(r) => (VmModel { stack: rest.push(Value::Bool(r)), ..m }, SAction::Continue),
        None => (VmModel { stack: rest, ..m }, SAction::Compare(a, b)),
    }
}

pub open spec fn return_step(m: VmModel) -> (VmModel, SAction) {
    let result = m.stack.last();
    let frames = m.frames.drop_last();
    let stack = truncated(m.stack.drop_last(), top(m).base_slot as nat);
    if frames.len() == 0 {
        (VmModel { frames, stack, ..m }, SAction::Finished)
    } else {
        (VmModel { frames, stack: stack.push(result), ..m }, SAction::Continue)
    }
}

pub open spec fn call_step(m: VmModel, k: usize) -> (VmModel, SAction) {
    let func_idx = m.stack.len() - (k + 1);
    match m.stack[func_idx] {
        Value::Function(f) => if f.arity != k {
            (m, SAction::Failed("Numero de argumentos incompativel"@))
        } else {
            (
                VmModel {
                    frames: m.frames.push(CallFrame { function: f, ip: 0, base_slot: func_idx as usize }),
                    stack: m.stack.remove(func_idx),
                    ..m
                },
                SAction::Continue,
            )
        },
        Value::NativeFuncion(h) => (
            VmModel { stack: m.stack.take(func_idx), ..m },
            SAction::CallNative(h, m.stack.subrange(func_idx + 1, m.stack.len() as int)),
        ),
        _ => (m, SAction::Failed("Tentativa de chamar algo que não e função"@)),
    }
}

pub open spec fn load_global_step(m: VmModel, c: Value) -> (VmModel, SAction) {
    match c {
        Value::String(name) => if m.globals.contains_key(name@) {
            (VmModel { stack: m.stack.push(m.globals[name@]), ..m }, SAction::Continue)
        } else {
            (m, SAction::Failed("Variavel global não definida"@))
        },
        _ => (m, SAction::Failed("O identificador da variavel deve ser string"@)),
    }
}

pub open spec fn set_global_step(m: VmModel, c: Value) -> (VmModel, SAction) {
    match c {
        Value::String(name) => (
            VmModel {
                stack: m.stack.drop_last(),
                globals: m.globals.insert(name@, m.stack.last()),
                ..m
            },
            SAction::Continue,
        ),
        _ => (m, SAction::Failed("O identificador da variavel deve ser string"@)),
    }
}

/// One step of the machine: the top frame moves past its instruction, which is then
/// executed.
pub open spec fn step_model(m: VmModel) -> (VmModel, SAction) {
    let f = top(m);
    let m1 = with_ip(m, (f.ip + 1) as usize);
    let consts = consts_of(f);
    let base = f.base_slot;
    match fetch(m) {
        OpCode::LoadConst(i) => (
            VmModel { stack: m1.stack.push(consts[i as int]), ..m1 },
            SAction::Continue,
        ),
        OpCode::Add | OpCode::Subtract | OpCode::Multiply | OpCode::Divide => arith_step(
            m1,
            fetch(m),
        ),
        OpCode::Eq => eq_step(m1),
        OpCode::Return => return_step(m1),
        OpCode::LoadGlobal(i) => load_global_step(m1, consts[i as int]),
        OpCode::SetGlobal(i) => set_global_step(m1, consts[i as int]),
        OpCode::LoadLocal(i) => (
            VmModel { stack: m1.stack.push(m1.stack[base + i]), ..m1 },
            SAction::Continue,
        ),
        OpCode::SetLocal(i) => (
            VmModel { stack: m1.stack.drop_last().update(base + i, m1.stack.last()), ..m1 },
            SAction::Continue,
        ),
        OpCode::Call(k) => call_step(m1, k),
        OpCode::Pop => (VmModel { stack: m1.stack.drop_last(), ..m1 }, SAction::Continue),
        OpCode::Jump(t) => (with_ip(m1, t), SAction::Continue),
        OpCode::JumpIfFalse(t) => {
            let c = m1.stack.last();
            let m2 = VmModel { stack: m1.stack.drop_last(), ..m1 };
            if c.truthy() {
                (m2, SAction::Continue)
            } else {
                (with_ip(m2, t), SAction::Continue)
            }
        },
        _ => (m1, SAction::Continue),
    }
}

/// A step that finishes is the return of the last frame; any other step leaves at
/// least one frame, and a step adds at most one frame and removes at most one.
pub proof fn law_step_frames(m: VmModel)
    requires
        step_ok(m),
    ensures
        (step_model(m).1 is Finished) <==> step_model(m).0.frames.len() == 0,
        m.frames.len() - 1 <= step_model(m).0.frames.len() <= m.frames.len() + 1,
        step_model(m).1 is Finished ==> m.frames.len() == 1 && fetch(m) is Return,
{
}

/// The globals change only by a `SetGlobal`, which binds its name to the value it pops.
pub proof fn law_step_globals(m: VmModel)
    requires
        step_ok(m),
    ensures
        step_model(m).0.globals == match fetch(m) {
            OpCode::SetGlobal(i) => match consts_of(top(m))[i as int] {
                Value::String(name) => m.globals.insert(name@, m.stack.last()),
                _ => m.globals,
            },
            _ => m.globals,
        },
{
}

/// Where the machine decides an equality itself, two values are equal exactly when their
/// models are: strings with the same text, the same boolean, the same table or host
/// function, or both `nil`. It leaves to the host only two numbers or two functions.
pub proof fn law_equality_decided(a: Value, b: Value)
    ensures
        equality(a, b) matches Some(r) ==> (r <==> value_model(a) == value_model(b)),
        equality(a, b) is None <==> ((a is Number && b is Number) || (a is Function
            && b is Function)),
{
}

/// `Eq` pops two values and, unless both are numbers or both functions, pushes whether
/// their models are equal and goes on; two numbers or two functions go to the host.
pub proof fn law_step_eq(m: VmModel)
    requires
        step_ok(m),
        fetch(m) is Eq,
    ensures
        ({
            let a = m.stack.last();
            let b = m.stack.drop_last().last();
            let rest = m.stack.drop_last().drop_last();
            if (a is Number && b is Number) || (a is Function && b is Function) {
                step_model(m).0.stack == rest && step_model(m).1 == SAction::Compare(a, b)
            } else {
                step_model(m).0.stack == rest.push(Value::Bool(value_model(a) == value_model(b)))
                    && step_model(m).1 is Continue
            }
        }),
{
    law_equality_decided(m.stack.last(), m.stack.drop_last().last());
}

/// The virtual machine.
pub struct VM {
    frames: Vec<CallFrame>,
    stack: Vec<Value>,
    globals: Vec<(String, Value)>,
}

/// Decides the equality of two values where the machine can.
pub fn decide_equality(a: &Value, b: &Value) -> (r: Option<bool>)
    ensures
        r == equality(*a, *b),
{
    match (a, b) {
        (Value::Number(_), Value::Number(_)) => None,
        (Value::Function(_), Value::Function(_)) => None,
        (Value::Table(x), Value::Table(y)) => Some(*x == *y),
        (Value::Bool(x), Value::Bool(y)) => Some(*x == *y),
        (Value::String(x), Value::String(y)) => Some(*x == *y),
        (Value::Nil, Value::Nil) => Some(true),
        (Value::NativeFuncion(x), Value::NativeFuncion(y)) => Some(*x == *y),
        _ => Some(false),
    }
}

impl VM {
    pub closed spec fn model(&self) -> VmModel {
        VmModel { frames: self.frames@, stack: self.stack@, globals: bindings_map(self.globals@) }
    }

    /// A machine about to run `main_func`, with the host function `print` as a global.
    pub fn new(main_func: Rc<Function>) -> (vm: Self)
        ensures
            vm.model().frames == seq![CallFrame { function: main_func, ip: 0, base_slot: 0 }],
            vm.model().stack == Seq::<Value>::empty(),
            vm.model().globals == Map::<Seq<char>, Value>::empty().insert(
                "print"@,
                Value::NativeFuncion(PRINT),
            ),
    {
        let mut globals: Vec<(String, Value)> = Vec::new();
        globals.push((String::from_str("print"), Value::NativeFuncion(PRINT)));
        let frame = CallFrame { function: main_func, ip: 0, base_slot: 0 };
        let mut frames: Vec<CallFrame> = Vec::new();
        frames.push(frame);
        let vm = VM { frames, stack: Vec::new(), globals };
        proof {
            lemma_bindings_push(Seq::empty(), vm.globals@[0]);
            assert(vm.globals@ =~= Seq::<(String, Value)>::empty().push(vm.globals@[0]));
            assert(bindings_map(Seq::<(String, Value)>::empty()) =~= Map::empty());
            assert(vm.frames@ =~= seq![CallFrame { function: main_func, ip: 0, base_slot: 0 }]);
        }
        vm
    }

    /// Whether the machine can execute its next instruction.
    pub fn can_step(&self) -> (b: bool)
        ensures
            b == step_ok(self.model()),
    {
        let n = self.frames.len();
        if n == 0 {
            return false;
        }
        let f = &self.frames[n - 1];
        if f.ip >= f.function.chunk.code.len() {
            return false;
        }
        let consts = f.function.chunk.constants.len();
        let len = self.stack.len();
        match f.function.chunk.code[f.ip] {
            OpCode::LoadConst(i) => i < consts,
            OpCode::LoadGlobal(i) => i < consts,
            OpCode::SetGlobal(i) => i < consts && (len >= 1 || !matches!(
                f.function.chunk.constants[i],
                Value::String(_)
            )),
            OpCode::Add | OpCode::Subtract | OpCode::Multiply | OpCode::Divide | OpCode::Eq => len
                >= 2,
            OpCode::Return | OpCode::Pop | OpCode::JumpIfFalse(_) => len >= 1,
            OpCode::LoadLocal(i) => f.base_slot < len && i < len - f.base_slot,
            OpCode::SetLocal(i) => len >= 1 && f.base_slot < len - 1 && i < len - 1 - f.base_slot,
            OpCode::Call(k) => k < usize::MAX && k + 1 <= len,
            OpCode::Jump(_) => true,
            _ => false,
        }
    }

    /// The call frames, the outermost first.
    pub fn frames(&self) -> (r: &Vec<CallFrame>)
        ensures
            r@ == self.model().frames,
    {
        &self.frames
    }

    /// Pushes the value the host computed for the last action.
    pub fn resume(&mut self, v: Value)
        ensures
            final(self).model() == (VmModel { stack: old(self).model().stack.push(v), ..old(self).model() }),
    {
        self.stack.push(v);
    }

    fn set_ip(&mut self, ip: usize)
        requires
            old(self).model().frames.len() > 0,
        ensures
            final(self).model() == with_ip(old(self).model(), ip),
    {
        let mut f = self.frames.pop().unwrap();
        f.ip = ip;
        self.frames.push(f);
        proof {
            assert(self.frames@ =~= old(self).frames@.update(
                old(self).frames@.len() - 1,
                CallFrame { ip, ..old(self).frames@.last() },
            ));
        }
    }

    /// The global of a name.
    fn global_get(&self, name: &String) -> (r: Option<Value>)
        ensures
            match r {
                Some(v) => self.model().globals.contains_key(name@) && self.model().globals[name@] == v,
                None => !self.model().globals.contains_key(name@),
            },
    {
        match find_last(&self.globals, name) {
            Some(i) => Some(self.globals[i].1.clone()),
            None => None,
        }
    }

    /// Binds a global.
    fn global_set(&mut self, name: String, v: Value)
        ensures
            final(self).model() == (VmModel {
                globals: old(self).model().globals.insert(name@, v),
                ..old(self).model()
            }),
    {
        match find_last(&self.globals, &name) {
            Some(i) => {
                proof {
                    lemma_bindings_update(self.globals@, i as int, name, v);
                }
                self.globals.set(i, (name, v));
            },
            None => {
                proof {
                    lemma_bindings_push(self.globals@, (name, v));
                }
                self.globals.push((name, v));
            },
        }
    }

    /// Executes the next instruction.
    pub fn step(&mut self) -> (act: Action)
        requires
            step_ok(old(self).model()),
        ensures
            (final(self).model(), act@) == step_model(old(self).model()),
    {
        let ghost m = self.model();
        let n = self.frames.len();
        let ip = self.frames[n - 1].ip;
        let base = self.frames[n - 1].base_slot;
        let code_len = self.frames[n - 1].function.chunk.code.len();
        let stack_len = self.stack.len();
        assert(ip < code_len);
        let instruction = self.frames[n - 1].function.chunk.code[ip];
        self.set_ip(ip + 1);
        let ghost m1 = self.model();
        assert(self.frames@[n - 1].function == m.frames[n - 1].function);
        match instruction {
            OpCode::LoadConst(idx) => {
                let constant = self.frames[n - 1].function.chunk.constants[idx].clone();
                self.stack.push(constant);
                Action::Continue
            },
            OpCode::Add | OpCode::Subtract | OpCode::Multiply | OpCode::Divide => self.arith(
                instruction,
            ),
            OpCode::Eq => self.equal(),
            OpCode::Return => self.ret(),
            OpCode::LoadGlobal(idx) => {
                let c = self.frames[n - 1].function.chunk.constants[idx].clone();
                self.load_global(c)
            },
            OpCode::SetGlobal(idx) => {
                let c = self.frames[n - 1].function.chunk.constants[idx].clone();
                self.set_global(c)
            },
            OpCode::LoadLocal(idx) => {
                let v = self.stack[base + idx].clone();
                self.stack.push(v);
                Action::Continue
            },
            OpCode::SetLocal(idx) => {
                let v = self.stack.pop().unwrap();
                self.stack.set(base + idx, v);
                Action::Continue
            },
            OpCode::Call(k) => self.execute_call(k),
            OpCode::Pop => {
                self.stack.pop();
                Action::Continue
            },
            OpCode::Jump(target) => {
                self.set_ip(target);
                Action::Continue
            },
            OpCode::JumpIfFalse(target) => {
                let condition = self.stack.pop().unwrap();
                if !condition.is_truthy() {
                    self.set_ip(target);
                }
                Action::Continue
            },
            _ => Action::Continue,
        }
    }

    fn arith(&mut self, op: OpCode) -> (act: Action)
        requires
            old(self).model().stack.len() >= 2,
        ensures
            (final(self).model(), act@) == arith_step(old(self).model(), op),
    {
        let b = self.stack.pop().unwrap();
        let a = self.stack.pop().unwrap();
        match (a, b) {
            (Value::Number(x), Value::Number(y)) => Action::Arithmetic(op, x, y),
            _ => Action::Failed("Os operadores devem ser numeros"),
        }
    }

    fn equal(&mut self) -> (act: Action)
        requires
            old(self).model().stack.len() >= 2,
        ensures
            (final(self).model(), act@) == eq_step(old(self).model()),
    {
        let a = self.stack.pop().unwrap();
        let b = self.stack.pop().unwrap();
        match decide_equality(&a, &b) {
            Some(r) => {
                self.stack.push(Value::Bool(r));
                Action::Continue
            },
            None => Action::Compare(a, b),
        }
    }

    fn ret(&mut self) -> (act: Action)
        requires
            old(self).model().stack.len() >= 1,
            old(self).model().frames.len() >= 1,
        ensures
            (final(self).model(), act@) == return_step(old(self).model()),
    {
        let result = self.stack.pop().unwrap();
        let frame_end = self.frames.pop().unwrap();
        self.stack.truncate(frame_end.base_slot);
        if self.frames.len() == 0 {
            Action::Finished
        } else {
            self.stack.push(result);
            Action::Continue
        }
    }

    fn load_global(&mut self, c: Value) -> (act: Action)
        ensures
            (final(self).model(), act@) == load_global_step(old(self).model(), c),
    {
        if let Value::String(name) = c {
            match self.global_get(&name) {
                Some(val) => {
                    self.stack.push(val);
                    Action::Continue
                },
                None => Action::Failed("Variavel global não definida"),
            }
        } else {
            Action::Failed("O identificador da variavel deve ser string")
        }
    }

    fn set_global(&mut self, c: Value) -> (act: Action)
        requires
            c is String ==> old(self).model().stack.len() >= 1,
        ensures
            (final(self).model(), act@) == set_global_step(old(self).model(), c),
    {
        if let Value::String(name) = c {
            let value = self.stack.pop().unwrap();
            self.global_set(name, value);
            Action::Continue
        } else {
            Action::Failed("O identificador da variavel deve ser string")
        }
    }

    /// Calls the value below the `arg_count` arguments on the top of the stack.
    fn execute_call(&mut self, arg_count: usize) -> (act: Action)
        requires
            arg_count < usize::MAX,
            arg_count + 1 <= old(self).model().stack.len(),
        ensures
            (final(self).model(), act@) == call_step(old(self).model(), arg_count),
    {
        let func_idx = self.stack.len() - (arg_count + 1);
        let func_value = self.stack[func_idx].clone();
        match func_value {
            Value::Function(function) => {
                if function.arity != arg_count {
                    return Action::Failed("Numero de argumentos incompativel");
                }
                let frame = CallFrame { function, ip: 0, base_slot: func_idx };
                let ghost old_stack = self.stack@;
                self.stack.remove(func_idx);
                assert(self.stack@ =~= old_stack.remove(func_idx as int));
                self.frames.push(frame);
                Action::Continue
            },
            Value::NativeFuncion(native_func) => {
                let ghost old_stack = self.stack@;
                let args = self.stack.split_off(func_idx + 1);
                self.stack.truncate(func_idx);
                assert(self.stack@ =~= old_stack.take(func_idx as int));
                Action::CallNative(native_func, args)
            },
            _ => Action::Failed("Tentativa de chamar algo que não e função"),
        }
    }
}

} // verus!
