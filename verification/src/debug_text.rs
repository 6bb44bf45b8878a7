//! The `Debug` text of tokens, opcodes and values, as `#[derive(Debug)]` writes it for
//! the types of the library, built from the `Debug` text of strings.
use vstd::prelude::*;
use vstd::string::StringExecFns;

use crate::compiler::OpCode;
use crate::token::TokenStream;
use crate::values::{Function, Value};

verus! {

/// The `Debug` text of a string: the string in double quotes, with the characters that
/// `char::escape_debug` escapes written as escapes.
pub uninterp spec fn quoted(s: Seq<char>) -> Seq<char>;

/// `<str as Debug>::fmt` through `format!`: the string quoted and escaped, named `quoted`.
#[verifier::external_body]
fn debug_str(s: &str) -> (r: String)
    ensures
        r@ == quoted(s@),
{
    format!("{:?}", s)
}

/// The decimal digit `d`.
pub open spec fn digit(d: nat) -> Seq<char> {
    if d == 0 {
        "0"@
    } else if d == 1 {
        "1"@
    } else if d == 2 {
        "2"@
    } else if d == 3 {
        "3"@
    } else if d == 4 {
        "4"@
    } else if d == 5 {
        "5"@
    } else if d == 6 {
        "6"@
    } else if d == 7 {
        "7"@
    } else if d == 8 {
        "8"@
    } else {
        "9"@
    }
}

/// The decimal numeral of `n`, without leading zeros.
pub open spec fn decimal(n: nat) -> Seq<char>
    decreases n,
{
    if n < 10 {
        digit(n)
    } else {
        decimal(n / 10) + digit(n % 10)
    }
}

fn digit_str(d: u64) -> (s: &'static str)
    requires
        d < 10,
    ensures
        s@ == digit(d as nat),
{
    match d {
        0 => "0",
        1 => "1",
        2 => "2",
        3 => "3",
        4 => "4",
        5 => "5",
        6 => "6",
        7 => "7",
        8 => "8",
        _ => "9",
    }
}

/// The decimal numeral of `n`.
pub fn decimal_text(n: u64) -> (s: String)
    ensures
        s@ == decimal(n as nat),
    decreases n,
{
    if n < 10 {
        String::from_str(digit_str(n))
    } else {
        let mut s = decimal_text(n / 10);
        s.append(digit_str(n % 10));
        s
    }
}

/// `open`, then `inner`, then `close`.
fn wrapped(open: &str, inner: String, close: &str) -> (s: String)
    ensures
        s@ == open@ + inner@ + close@,
{
    let mut s = String::from_str(open);
    s.append(inner.as_str());
    s.append(close);
    s
}

/// The `Debug` text of a token.
pub open spec fn token_text(t: TokenStream) -> Seq<char> {
    match t {
        TokenStream::Identifier(s) => "Identifier("@ + quoted(s@) + ")"@,
        TokenStream::Bool(b) => "Bool("@ + bool_text(b) + ")"@,
        TokenStream::Number(s) => "Number("@ + quoted(s@) + ")"@,
        TokenStream::String(s) => "String("@ + quoted(s@) + ")"@,
        TokenStream::And => "And"@,
        TokenStream::Break => "Break"@,
        TokenStream::Do => "Do"@,
        TokenStream::Else => "Else"@,
        TokenStream::Elseif => "Elseif"@,
        TokenStream::End => "End"@,
        TokenStream::False => "False"@,
        TokenStream::For => "For"@,
        TokenStream::Function => "Function"@,
        TokenStream::Goto => "Goto"@,
        TokenStream::If => "If"@,
        TokenStream::In => "In"@,
        TokenStream::Local => "Local"@,
        TokenStream::Nil => "Nil"@,
        TokenStream::Not => "Not"@,
        TokenStream::Or => "Or"@,
        TokenStream::Repeat => "Repeat"@,
        TokenStream::Return => "Return"@,
        TokenStream::Then => "Then"@,
        TokenStream::True => "True"@,
        TokenStream::Until => "Until"@,
        TokenStream::While => "While"@,
        TokenStream::Equal => "Equal"@,
        TokenStream::EqualEqual => "EqualEqual"@,
        TokenStream::NotEqual => "NotEqual"@,
        TokenStream::Less => "Less"@,
        TokenStream::LessEqual => "LessEqual"@,
        TokenStream::Greater => "Greater"@,
        TokenStream::GreaterEqual => "GreaterEqual"@,
        TokenStream::Plus => "Plus"@,
        TokenStream::Minus => "Minus"@,
        TokenStream::Asterisk => "Asterisk"@,
        TokenStream::Slash => "Slash"@,
        TokenStream::Percent => "Percent"@,
        TokenStream::Caret => "Caret"@,
        TokenStream::Hash => "Hash"@,
        TokenStream::LParen => "LParen"@,
        TokenStream::RParen => "RParen"@,
        TokenStream::LBrace => "LBrace"@,
        TokenStream::RBrace => "RBrace"@,
        TokenStream::LBracket => "LBracket"@,
        TokenStream::RBracket => "RBracket"@,
        TokenStream::Dot => "Dot"@,
        TokenStream::DotDot => "DotDot"@,
        TokenStream::DotDotDot => "DotDotDot"@,
        TokenStream::Colon => "Colon"@,
        TokenStream::Comma => "Comma"@,
        TokenStream::Semicolon => "Semicolon"@,
        TokenStream::EOF => "EOF"@,
    }
}

pub open spec fn bool_text(b: bool) -> Seq<char> {
    if b {
        "true"@
    } else {
        "false"@
    }
}

fn bool_str(b: bool) -> (s: &'static str)
    ensures
        s@ == bool_text(b),
{
    if b {
        "true"
    } else {
        "false"
    }
}

/// The `Debug` text of a token other than a numeral, whose value is a binary64 number
/// that the host writes.
pub fn token_debug(t: &TokenStream) -> (s: String)
    requires
        !(*t is Number),
    ensures
        s@ == token_text(*t),
{
    match t {
        TokenStream::Identifier(x) => wrapped("Identifier(", debug_str(x.as_str()), ")"),
        TokenStream::Bool(b) => wrapped("Bool(", String::from_str(bool_str(*b)), ")"),
        TokenStream::Number(x) => wrapped("Number(", debug_str(x.as_str()), ")"),
        TokenStream::String(x) => wrapped("String(", debug_str(x.as_str()), ")"),
        TokenStream::And => String::from_str("And"),
        TokenStream::Break => String::from_str("Break"),
        TokenStream::Do => String::from_str("Do"),
        TokenStream::Else => String::from_str("Else"),
        TokenStream::Elseif => String::from_str("Elseif"),
        TokenStream::End => String::from_str("End"),
        TokenStream::False => String::from_str("False"),
        TokenStream::For => String::from_str("For"),
        TokenStream::Function => String::from_str("Function"),
        TokenStream::Goto => String::from_str("Goto"),
        TokenStream::If => String::from_str("If"),
        TokenStream::In => String::from_str("In"),
        TokenStream::Local => String::from_str("Local"),
        TokenStream::Nil => String::from_str("Nil"),
        TokenStream::Not => String::from_str("Not"),
        TokenStream::Or => String::from_str("Or"),
        TokenStream::Repeat => String::from_str("Repeat"),
        TokenStream::Return => String::from_str("Return"),
        TokenStream::Then => String::from_str("Then"),
        TokenStream::True => String::from_str("True"),
        TokenStream::Until => String::from_str("Until"),
        TokenStream::While => String::from_str("While"),
        TokenStream::Equal => String::from_str("Equal"),
        TokenStream::EqualEqual => String::from_str("EqualEqual"),
        TokenStream::NotEqual => String::from_str("NotEqual"),
        TokenStream::Less => String::from_str("Less"),
        TokenStream::LessEqual => String::from_str("LessEqual"),
        TokenStream::Greater => String::from_str("Greater"),
        TokenStream::GreaterEqual => String::from_str("GreaterEqual"),
        TokenStream::Plus => String::from_str("Plus"),
        TokenStream::Minus => String::from_str("Minus"),
        TokenStream::Asterisk => String::from_str("Asterisk"),
        TokenStream::Slash => String::from_str("Slash"),
        TokenStream::Percent => String::from_str("Percent"),
        TokenStream::Caret => String::from_str("Caret"),
        TokenStream::Hash => String::from_str("Hash"),
        TokenStream::LParen => String::from_str("LParen"),
        TokenStream::RParen => String::from_str("RParen"),
        TokenStream::LBrace => String::from_str("LBrace"),
        TokenStream::RBrace => String::from_str("RBrace"),
        TokenStream::LBracket => String::from_str("LBracket"),
        TokenStream::RBracket => String::from_str("RBracket"),
        TokenStream::Dot => String::from_str("Dot"),
        TokenStream::DotDot => String::from_str("DotDot"),
        TokenStream::DotDotDot => String::from_str("DotDotDot"),
        TokenStream::Colon => String::from_str("Colon"),
        TokenStream::Comma => String::from_str("Comma"),
        TokenStream::Semicolon => String::from_str("Semicolon"),
        TokenStream::EOF => String::from_str("EOF"),
    }
}

/// The `Debug` text of an opcode.
pub open spec fn op_text(op: OpCode) -> Seq<char> {
    match op {
        OpCode::LoadConst(i) => "LoadConst("@ + decimal(i as nat) + ")"@,
        OpCode::LoadLocal(i) => "LoadLocal("@ + decimal(i as nat) + ")"@,
        OpCode::LoadGlobal(i) => "LoadGlobal("@ + decimal(i as nat) + ")"@,
        OpCode::SetGlobal(i) => "SetGlobal("@ + decimal(i as nat) + ")"@,
        OpCode::SetLocal(i) => "SetLocal("@ + decimal(i as nat) + ")"@,
        OpCode::Call(i) => "Call("@ + decimal(i as nat) + ")"@,
        OpCode::Jump(i) => "Jump("@ + decimal(i as nat) + ")"@,
        OpCode::JumpIfFalse(i) => "JumpIfFalse("@ + decimal(i as nat) + ")"@,
        OpCode::NewTable(i) => "NewTable("@ + decimal(i as nat) + ")"@,
        OpCode::SetTable(i) => "SetTable("@ + decimal(i as nat) + ")"@,
        OpCode::GetTable(i) => "GetTable("@ + decimal(i as nat) + ")"@,
        OpCode::Add => "Add"@,
        OpCode::Subtract => "Subtract"@,
        OpCode::Multiply => "Multiply"@,
        OpCode::Divide => "Divide"@,
        OpCode::Eq => "Eq"@,
        OpCode::Pop => "Pop"@,
        OpCode::Dup => "Dup"@,
        OpCode::Swap => "Swap"@,
        OpCode::Return => "Return"@,
    }
}

/// The `Debug` text of an opcode.
pub fn opcode_debug(op: OpCode) -> (s: String)
    ensures
        s@ == op_text(op),
{
    match op {
        OpCode::LoadConst(i) => wrapped("LoadConst(", decimal_text(i as u64), ")"),
        OpCode::LoadLocal(i) => wrapped("LoadLocal(", decimal_text(i as u64), ")"),
        OpCode::LoadGlobal(i) => wrapped("LoadGlobal(", decimal_text(i as u64), ")"),
        OpCode::SetGlobal(i) => wrapped("SetGlobal(", decimal_text(i as u64), ")"),
        OpCode::SetLocal(i) => wrapped("SetLocal(", decimal_text(i as u64), ")"),
        OpCode::Call(i) => wrapped("Call(", decimal_text(i as u64), ")"),
        OpCode::Jump(i) => wrapped("Jump(", decimal_text(i as u64), ")"),
        OpCode::JumpIfFalse(i) => wrapped("JumpIfFalse(", decimal_text(i as u64), ")"),
        OpCode::NewTable(i) => wrapped("NewTable(", decimal_text(i as u64), ")"),
        OpCode::SetTable(i) => wrapped("SetTable(", decimal_text(i as u64), ")"),
        OpCode::GetTable(i) => wrapped("GetTable(", decimal_text(i as u64), ")"),
        OpCode::Add => String::from_str("Add"),
        OpCode::Subtract => String::from_str("Subtract"),
        OpCode::Multiply => String::from_str("Multiply"),
        OpCode::Divide => String::from_str("Divide"),
        OpCode::Eq => String::from_str("Eq"),
        OpCode::Pop => String::from_str("Pop"),
        OpCode::Dup => String::from_str("Dup"),
        OpCode::Swap => String::from_str("Swap"),
        OpCode::Return => String::from_str("Return"),
    }
}

/// The texts of opcodes, separated by `, `.
pub open spec fn ops_text(ops: Seq<OpCode>) -> Seq<char>
    decreases ops.len(),
{
    if ops.len() == 0 {
        Seq::empty()
    } else if ops.len() == 1 {
        op_text(ops[0])
    } else {
        ops_text(ops.drop_last()) + ", "@ + op_text(ops.last())
    }
}

/// Whether a number occurs in the value, or in the constants of a function in it.
pub open spec fn has_number(v: Value) -> bool
    decreases v,
{
    match v {
        Value::Number(_) => true,
        Value::Function(f) => numbers_in(f.chunk.constants@),
        _ => false,
    }
}

pub open spec fn numbers_in(vs: Seq<Value>) -> bool
    decreases vs,
{
    if vs.len() == 0 {
        false
    } else {
        numbers_in(vs.drop_last()) || has_number(vs.last())
    }
}

/// The `Debug` text of a value: a function as the derived `Debug` of its fields, and a
/// host function or table as its handle.
pub open spec fn value_text(v: Value) -> Seq<char>
    decreases v,
{
    match v {
        Value::Bool(b) => "Bool("@ + bool_text(b) + ")"@,
        Value::Number(s) => "Number("@ + s@ + ")"@,
        Value::String(s) => "String("@ + quoted(s@) + ")"@,
        Value::Function(f) => "Function(Function { name: "@ + quoted(f.name@) + ", arity: "@
            + decimal(f.arity as nat) + ", chunk: Chunk { code: ["@ + ops_text(f.chunk.code@)
            + "], constants: ["@ + values_text(f.chunk.constants@) + "] } })"@,
        Value::Nil => "Nil"@,
        Value::NativeFuncion(h) => "NativeFuncion("@ + decimal(h as nat) + ")"@,
        Value::Table(h) => "Table("@ + decimal(h as nat) + ")"@,
    }
}

/// The texts of values, separated by `, `.
pub open spec fn values_text(vs: Seq<Value>) -> Seq<char>
    decreases vs,
{
    if vs.len() == 0 {
        Seq::empty()
    } else if vs.len() == 1 {
        value_text(vs.last())
    } else {
        values_text(vs.drop_last()) + ", "@ + value_text(vs.last())
    }
}

/// Whether a number occurs in the value, or in the constants of a function in it.
pub fn contains_number(v: &Value) -> (b: bool)
    ensures
        b == has_number(*v),
    decreases *v, 1nat,
{
    match v {
        Value::Number(_) => true,
        Value::Function(f) => {
            proof {
                assert(decreases_to!(*v => f.chunk.constants@));
            }
            any_number(&f.chunk.constants)
        },
        _ => false,
    }
}

/// Whether a number occurs in any of the values.
pub fn any_number(vs: &Vec<Value>) -> (b: bool)
    ensures
        b == numbers_in(vs@),
    decreases vs@, 0nat,
{
    let mut i: usize = 0;
    while i < vs.len()
        invariant
            i <= vs.len(),
            !numbers_in(vs@.take(i as int)),
        decreases vs.len() - i,
    {
        assert(vs@.take(i + 1).drop_last() =~= vs@.take(i as int));
        if contains_number(&vs[i]) {
            proof {
                lemma_numbers_in_prefix(vs@, i + 1);
            }
            return true;
        }
        i = i + 1;
    }
    assert(vs@.take(i as int) =~= vs@);
    false
}

/// A number in a prefix is a number in the whole.
proof fn lemma_numbers_in_prefix(vs: Seq<Value>, n: int)
    requires
        0 <= n <= vs.len(),
        numbers_in(vs.take(n)),
    ensures
        numbers_in(vs),
    decreases vs.len() - n,
{
    if n < vs.len() {
        assert(vs.take(n + 1).drop_last() =~= vs.take(n));
        lemma_numbers_in_prefix(vs, n + 1);
    } else {
        assert(vs.take(n) =~= vs);
    }
}

/// The texts of the opcodes, separated by `, `.
pub fn ops_debug(ops: &Vec<OpCode>) -> (s: String)
    ensures
        s@ == ops_text(ops@),
{
    let mut s = String::new();
    let mut i: usize = 0;
    while i < ops.len()
        invariant
            i <= ops.len(),
            s@ == ops_text(ops@.take(i as int)),
        decreases ops.len() - i,
    {
        let t = opcode_debug(ops[i]);
        assert(ops@.take(i + 1).drop_last() =~= ops@.take(i as int));
        if i > 0 {
            s.append(", ");
        } else {
            assert(s@ == Seq::<char>::empty());
        }
        s.append(t.as_str());
        i = i + 1;
    }
    assert(ops@.take(i as int) =~= ops@);
    s
}

/// The `Debug` text of a value in which no number occurs; the text of a number is the
/// host's, which writes binary64 values.
pub fn value_debug(v: &Value) -> (s: String)
    requires
        !has_number(*v),
    ensures
        s@ == value_text(*v),
    decreases *v, 1nat,
{
    match v {
        Value::Bool(b) => wrapped("Bool(", String::from_str(bool_str(*b)), ")"),
        Value::Number(x) => wrapped("Number(", x.clone(), ")"),
        Value::String(x) => wrapped("String(", debug_str(x.as_str()), ")"),
        Value::Function(f) => {
            proof {
                assert(decreases_to!(*v => f.chunk.constants@));
            }
            let mut s = String::from_str("Function(Function { name: ");
            s.append(debug_str(f.name.as_str()).as_str());
            s.append(", arity: ");
            s.append(decimal_text(f.arity as u64).as_str());
            s.append(", chunk: Chunk { code: [");
            s.append(ops_debug(&f.chunk.code).as_str());
            s.append("], constants: [");
            s.append(values_debug(&f.chunk.constants).as_str());
            s.append("] } })");
            s
        },
        Value::Nil => String::from_str("Nil"),
        Value::NativeFuncion(h) => wrapped("NativeFuncion(", decimal_text(*h), ")"),
        Value::Table(h) => wrapped("Table(", decimal_text(*h), ")"),
    }
}

/// The texts of values in which no number occurs, separated by `, `.
pub fn values_debug(vs: &Vec<Value>) -> (s: String)
    requires
        !numbers_in(vs@),
    ensures
        s@ == values_text(vs@),
    decreases vs@, 0nat,
{
    let mut s = String::new();
    let mut i: usize = 0;
    while i < vs.len()
        invariant
            i <= vs.len(),
            !numbers_in(vs@),
            s@ == values_text(vs@.take(i as int)),
        decreases vs.len() - i,
    {
        proof {
            lemma_no_number_at(vs@, i as int);
        }
        let t = value_debug(&vs[i]);
        assert(vs@.take(i + 1).drop_last() =~= vs@.take(i as int));
        if i > 0 {
            s.append(", ");
        } else {
            assert(s@ == Seq::<char>::empty());
        }
        s.append(t.as_str());
        i = i + 1;
    }
    assert(vs@.take(i as int) =~= vs@);
    s
}

/// No number occurs in any of the values that hold none.
proof fn lemma_no_number_at(vs: Seq<Value>, i: int)
    requires
        0 <= i < vs.len(),
        !numbers_in(vs),
    ensures
        !has_number(vs[i]),
    decreases vs.len(),
{
    if i < vs.len() - 1 {
        assert(vs.drop_last()[i] == vs[i]);
        lemma_no_number_at(vs.drop_last(), i);
    }
}

/// The message of the error for an operator that does not apply to its operands, given
/// the `Debug` texts of the three.
pub open spec fn operation_message(op: Seq<char>, left: Seq<char>, right: Seq<char>) -> Seq<char> {
    "não e possivel aplicar "@ + op + " entre "@ + left + " e "@ + right
}

/// The message of the error for an operator that does not apply to its operands, from
/// the `Debug` texts of the three.
pub fn invalid_operation_message(operator: &String, left: &String, right: &String) -> (s: String)
    ensures
        s@ == operation_message(operator@, left@, right@),
{
    let mut s = String::from_str("não e possivel aplicar ");
    s.append(operator.as_str());
    s.append(" entre ");
    s.append(left.as_str());
    s.append(" e ");
    s.append(right.as_str());
    s
}

} // verus!
