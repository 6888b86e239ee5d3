//! The bytecode instruction model and the stack machine that evaluates it.
//!
//! A comparison is two bytes: `[opcode][lhs << 4 | rhs]`. Its opcode byte holds the
//! operator in bits 0-2, the invert flag in bit 3 and the load mode in bit 4; bits 5-7
//! are zero. A conjunction is one byte: `0x20` for AND, `0x21` for OR.
use crate::types::{DataTable, PactType, Value};
use vstd::prelude::*;

verus! {

/// A comparison operator.
#[derive(Debug, PartialEq, Eq, Clone, Copy, Structural)]
pub enum OpComp {
    EQ,
    NE,
    LT,
    LTE,
    GT,
    GTE,
}

/// Where the operands of a comparison are read from.
#[allow(non_camel_case_types)]
#[derive(Debug, PartialEq, Eq, Clone, Copy, Structural)]
pub enum OpLoad {
    /// `lhs` indexes the runtime inputs, `rhs` the contract's constant table.
    INPUT_VS_USER,
    /// Both operands index the runtime inputs.
    INPUT_VS_INPUT,
}

/// The operand indices of a comparison; each is below 16.
#[derive(Debug, PartialEq, Eq, Clone, Copy, Structural)]
pub struct OpIndices {
    pub lhs: u8,
    pub rhs: u8,
}

/// A comparison instruction.
#[derive(Debug, PartialEq, Eq, Clone, Copy, Structural)]
pub struct Comparator {
    pub load: OpLoad,
    pub op: OpComp,
    pub indices: OpIndices,
    pub invert: bool,
}

/// A logical connective.
#[derive(Debug, PartialEq, Eq, Clone, Copy, Structural)]
pub enum OpConj {
    AND,
    OR,
}

/// A conjunction instruction: combines the two most recent results.
#[derive(Debug, PartialEq, Eq, Clone, Copy, Structural)]
pub struct Conjunction {
    pub op: OpConj,
}

/// An instruction.
#[derive(Debug, PartialEq, Eq, Clone, Copy, Structural)]
pub enum OpCode {
    COMP(Comparator),
    CONJ(Conjunction),
}

/// Why evaluation failed.
#[derive(Debug, PartialEq, Eq, Clone, Copy, Structural)]
pub enum InterpErr {
    /// A byte that is no instruction.
    InvalidOpCode(u8),
    /// A comparison without its index byte.
    MissingIndices,
    /// An operand index past the runtime inputs.
    InputIndexOutOfRange(u8),
    /// An operand index past the constant table.
    TableIndexOutOfRange(u8),
    /// A conjunction with fewer than two results to combine.
    StackUnderflow,
    /// The program left other than exactly one result.
    BadFinalStack,
    /// The operator is not defined on these operand types.
    UnsupportedComparison,
}

/// The 3-bit code of an operator.
pub open spec fn op_code(op: OpComp) -> u8 {
    match op {
        OpComp::EQ => 0,
        OpComp::NE => 1,
        OpComp::LT => 2,
        OpComp::LTE => 3,
        OpComp::GT => 4,
        OpComp::GTE => 5,
    }
}

/// The operator with the given 3-bit code.
pub open spec fn op_of(code: u8) -> Option<OpComp> {
    if code == 0 {
        Some(OpComp::EQ)
    } else if code == 1 {
        Some(OpComp::NE)
    } else if code == 2 {
        Some(OpComp::LT)
    } else if code == 3 {
        Some(OpComp::LTE)
    } else if code == 4 {
        Some(OpComp::GT)
    } else if code == 5 {
        Some(OpComp::GTE)
    } else {
        None
    }
}

/// The bit of a load mode.
pub open spec fn load_code(load: OpLoad) -> u8 {
    match load {
        OpLoad::INPUT_VS_USER => 0,
        OpLoad::INPUT_VS_INPUT => 1,
    }
}

/// The opcode byte of an instruction.
pub open spec fn opcode_byte(op: OpCode) -> u8 {
    match op {
        OpCode::COMP(c) => (op_code(c.op) | (if c.invert { 8u8 } else { 0u8 }) | (load_code(c.load)
            << 4u8)) as u8,
        OpCode::CONJ(c) => match c.op {
            OpConj::AND => 0x20,
            OpConj::OR => 0x21,
        },
    }
}

/// An instruction as read from its opcode byte.
#[derive(Debug, PartialEq, Eq, Clone, Copy)]
pub enum Instr {
    Compare(OpLoad, OpComp, bool),
    Conjoin(OpConj),
}

/// Reads the opcode byte `b`.
pub open spec fn decode_instr(b: u8) -> Option<Instr> {
    if b == 0x20 {
        Some(Instr::Conjoin(OpConj::AND))
    } else if b == 0x21 {
        Some(Instr::Conjoin(OpConj::OR))
    } else if b >> 5u8 != 0 {
        None
    } else {
        match op_of(b & 7u8) {
            None => None,
            Some(op) => Some(
                Instr::Compare(
                    if (b >> 4u8) & 1u8 == 1 {
                        OpLoad::INPUT_VS_INPUT
                    } else {
                        OpLoad::INPUT_VS_USER
                    },
                    op,
                    (b >> 3u8) & 1u8 == 1,
                ),
            ),
        }
    }
}

/// `op` applied to the two numbers.
pub open spec fn compare_numbers(op: OpComp, a: i64, b: i64) -> bool {
    match op {
        OpComp::EQ => a == b,
        OpComp::NE => a != b,
        OpComp::LT => a < b,
        OpComp::LTE => a <= b,
        OpComp::GT => a > b,
        OpComp::GTE => a >= b,
    }
}

/// `op` applied to two values: numbers take every operator, byte strings only `EQ` and `NE`.
pub open spec fn compare_values(op: OpComp, a: Value, b: Value) -> Result<bool, InterpErr> {
    match (a, b) {
        (Value::Numeric(x), Value::Numeric(y)) => Ok(compare_numbers(op, x, y)),
        (Value::StringLike(s), Value::StringLike(t)) => match op {
            OpComp::EQ => Ok(s == t),
            OpComp::NE => Ok(s != t),
            _ => Err(InterpErr::UnsupportedComparison),
        },
        _ => Err(InterpErr::UnsupportedComparison),
    }
}

/// The result of a comparison whose index byte is `idx`, before any inversion.
pub open spec fn comparison(
    inputs: Seq<Value>,
    table: Seq<Value>,
    load: OpLoad,
    op: OpComp,
    idx: u8,
) -> Result<bool, InterpErr> {
    let lhs = idx >> 4u8;
    let rhs = idx & 15u8;
    if lhs >= inputs.len() {
        Err(InterpErr::InputIndexOutOfRange(lhs))
    } else {
        match load {
            OpLoad::INPUT_VS_USER => if rhs >= table.len() {
                Err(InterpErr::TableIndexOutOfRange(rhs))
            } else {
                compare_values(op, inputs[lhs as int], table[rhs as int])
            },
            OpLoad::INPUT_VS_INPUT => if rhs >= inputs.len() {
                Err(InterpErr::InputIndexOutOfRange(rhs))
            } else {
                compare_values(op, inputs[lhs as int], inputs[rhs as int])
            },
        }
    }
}

/// `k` applied to the earlier result `a` and the later result `b`.
pub open spec fn combine(k: OpConj, a: bool, b: bool) -> bool {
    match k {
        OpConj::AND => a && b,
        OpConj::OR => a || b,
    }
}

/// Runs `code` from `pos` with the results `stack` so far.
pub open spec fn run(
    inputs: Seq<Value>,
    table: Seq<Value>,
    code: Seq<u8>,
    pos: nat,
    stack: Seq<bool>,
) -> Result<bool, InterpErr>
    decreases code.len() - pos,
{
    if pos >= code.len() {
        if stack.len() == 1 {
            Ok(stack[0])
        } else {
            Err(InterpErr::BadFinalStack)
        }
    } else {
        match decode_instr(code[pos as int]) {
            None => Err(InterpErr::InvalidOpCode(code[pos as int])),
            Some(Instr::Compare(load, op, invert)) => if pos + 1 >= code.len() {
                Err(InterpErr::MissingIndices)
            } else {
                match comparison(inputs, table, load, op, code[pos + 1int]) {
                    Err(e) => Err(e),
                    Ok(v) => run(inputs, table, code, pos + 2, stack.push(v != invert)),
                }
            },
            Some(Instr::Conjoin(k)) => if stack.len() < 2 {
                Err(InterpErr::StackUnderflow)
            } else {
                let n = stack.len() as int;
                run(
                    inputs,
                    table,
                    code,
                    pos + 1,
                    stack.subrange(0, n - 2).push(combine(k, stack[n - 2], stack[n - 1])),
                )
            },
        }
    }
}

/// The verdict of `code` on the runtime inputs and the constant table.
pub open spec fn evaluate(inputs: Seq<Value>, table: Seq<Value>, code: Seq<u8>) -> Result<
    bool,
    InterpErr,
> {
    run(inputs, table, code, 0, seq![])
}

/// The models of a sequence of values.
pub open spec fn values_of(v: Seq<PactType>) -> Seq<Value> {
    v.map_values(|x: PactType| x@)
}

impl OpIndices {
    /// The index byte: `lhs` in the high nibble, `rhs` in the low one.
    pub fn to_byte(&self) -> (r: u8)
        requires
            self.lhs < 16,
            self.rhs < 16,
        ensures
            r >> 4u8 == self.lhs,
            r & 15u8 == self.rhs,
    {
        let r = (self.lhs << 4u8) | self.rhs;
        let (l, h) = (self.lhs, self.rhs);
        assert(((l << 4u8) | h) >> 4u8 == l && ((l << 4u8) | h) & 15u8 == h) by (bit_vector)
            requires
                l < 16,
                h < 16,
        ;
        r
    }
}

impl Comparator {
    /// A comparison by `op` of input 0 against constant 0, not inverted.
    pub fn new(op: OpComp) -> (r: Comparator)
        ensures
            r == (Comparator {
                load: OpLoad::INPUT_VS_USER,
                op,
                indices: OpIndices { lhs: 0, rhs: 0 },
                invert: false,
            }),
    {
        Comparator {
            load: OpLoad::INPUT_VS_USER,
            op,
            indices: OpIndices { lhs: 0, rhs: 0 },
            invert: false,
        }
    }

    /// This comparison with its load mode set to `load`.
    pub fn load(self, load: OpLoad) -> (r: Comparator)
        ensures
            r == (Comparator { load, ..self }),
    {
        Comparator { load, ..self }
    }

    /// This comparison with its result negated.
    pub fn invert(self) -> (r: Comparator)
        ensures
            r == (Comparator { invert: !self.invert, ..self }),
    {
        Comparator { invert: !self.invert, ..self }
    }
}

impl Conjunction {
    /// A conjunction by `op`.
    pub fn new(op: OpConj) -> (r: Conjunction)
        ensures
            r == (Conjunction { op }),
    {
        Conjunction { op }
    }
}

impl OpCode {
    /// The opcode byte of this instruction.
    pub fn to_byte(&self) -> (r: u8)
        ensures
            r == opcode_byte(*self),
    {
        match self {
            OpCode::COMP(c) => {
                let code: u8 = match c.op {
                    OpComp::EQ => 0,
                    OpComp::NE => 1,
                    OpComp::LT => 2,
                    OpComp::LTE => 3,
                    OpComp::GT => 4,
                    OpComp::GTE => 5,
                };
                let load: u8 = match c.load {
                    OpLoad::INPUT_VS_USER => 0,
                    OpLoad::INPUT_VS_INPUT => 1,
                };
                code | (if c.invert { 8u8 } else { 0u8 }) | (load << 4u8)
            },
            OpCode::CONJ(c) => match c.op {
                OpConj::AND => 0x20,
                OpConj::OR => 0x21,
            },
        }
    }
}

impl From<OpCode> for u8 {
    fn from(op: OpCode) -> u8 {
        op.to_byte()
    }
}

impl vstd::std_specs::convert::FromSpecImpl<OpCode> for u8 {
    open spec fn obeys_from_spec() -> bool {
        true
    }

    open spec fn from_spec(op: OpCode) -> u8 {
        opcode_byte(op)
    }
}

impl Instr {
    /// Reads the opcode byte `b`.
    pub fn read(b: u8) -> (r: Option<Instr>)
        ensures
            r == decode_instr(b),
    {
        if b == 0x20 {
            return Some(Instr::Conjoin(OpConj::AND));
        }
        if b == 0x21 {
            return Some(Instr::Conjoin(OpConj::OR));
        }
        if b >> 5u8 != 0 {
            return None;
        }
        let code = b & 7u8;
        let op = if code == 0 {
            OpComp::EQ
        } else if code == 1 {
            OpComp::NE
        } else if code == 2 {
            OpComp::LT
        } else if code == 3 {
            OpComp::LTE
        } else if code == 4 {
            OpComp::GT
        } else if code == 5 {
            OpComp::GTE
        } else {
            return None;
        };
        let load = if (b >> 4u8) & 1u8 == 1 {
            OpLoad::INPUT_VS_INPUT
        } else {
            OpLoad::INPUT_VS_USER
        };
        Some(Instr::Compare(load, op, (b >> 3u8) & 1u8 == 1))
    }
}

/// Whether the two byte strings are equal.
pub(crate) fn bytes_equal(a: &Vec<u8>, b: &Vec<u8>) -> (r: bool)
    ensures
        r == (a@ == b@),
{
    if a.len() != b.len() {
        return false;
    }
    let mut i: usize = 0;
    while i < a.len()
        invariant
            a@.len() == b@.len(),
            i <= a@.len(),
            forall|j: int| 0 <= j < i ==> a@[j] == b@[j],
        decreases a@.len() - i,
    {
        if a[i] != b[i] {
            return false;
        }
        i += 1;
    }
    assert(a@ =~= b@);
    true
}

/// `op` applied to two values.
pub fn compare(op: OpComp, a: &PactType, b: &PactType) -> (r: Result<bool, InterpErr>)
    ensures
        r == compare_values(op, a@, b@),
{
    match (a, b) {
        (PactType::Numeric(x), PactType::Numeric(y)) => {
            let (x, y) = (x.0, y.0);
            Ok(
                match op {
                    OpComp::EQ => x == y,
                    OpComp::NE => x != y,
                    OpComp::LT => x < y,
                    OpComp::LTE => x <= y,
                    OpComp::GT => x > y,
                    OpComp::GTE => x >= y,
                },
            )
        },
        (PactType::StringLike(s), PactType::StringLike(t)) => match op {
            OpComp::EQ => Ok(bytes_equal(&s.0, &t.0)),
            OpComp::NE => Ok(!bytes_equal(&s.0, &t.0)),
            _ => Err(InterpErr::UnsupportedComparison),
        },
        _ => Err(InterpErr::UnsupportedComparison),
    }
}

/// The comparison whose index byte is `idx`, before any inversion.
fn compare_at(
    inputs: &Vec<PactType>,
    table: &DataTable,
    load: OpLoad,
    op: OpComp,
    idx: u8,
) -> (r: Result<bool, InterpErr>)
    ensures
        r == comparison(values_of(inputs@), table@, load, op, idx),
{
    let lhs = idx >> 4u8;
    let rhs = idx & 15u8;
    if lhs as usize >= inputs.len() {
        return Err(InterpErr::InputIndexOutOfRange(lhs));
    }
    match load {
        OpLoad::INPUT_VS_USER => {
            if rhs as usize >= table.0.len() {
                return Err(InterpErr::TableIndexOutOfRange(rhs));
            }
            compare(op, &inputs[lhs as usize], &table.0[rhs as usize])
        },
        OpLoad::INPUT_VS_INPUT => {
            if rhs as usize >= inputs.len() {
                return Err(InterpErr::InputIndexOutOfRange(rhs));
            }
            compare(op, &inputs[lhs as usize], &inputs[rhs as usize])
        },
    }
}

/// Evaluates `bytecode` on the runtime inputs `input_data` and the constant table
/// `user_data`: the verdict, or why there is none.
pub fn interpret(input_data: &Vec<PactType>, user_data: &DataTable, bytecode: &Vec<u8>) -> (r:
    Result<bool, InterpErr>)
    ensures
        r == evaluate(values_of(input_data@), user_data@, bytecode@),
{
    let ghost inputs = values_of(input_data@);
    let mut stack: Vec<bool> = Vec::new();
    let mut pos: usize = 0;
    while pos < bytecode.len()
        invariant
            inputs == values_of(input_data@),
            pos <= bytecode@.len(),
            run(inputs, user_data@, bytecode@, pos as nat, stack@) == evaluate(
                inputs,
                user_data@,
                bytecode@,
            ),
        decreases bytecode@.len() - pos,
    {
        let b = bytecode[pos];
        match Instr::read(b) {
            None => {
                return Err(InterpErr::InvalidOpCode(b));
            },
            Some(Instr::Compare(load, op, invert)) => {
                if pos + 1 >= bytecode.len() {
                    return Err(InterpErr::MissingIndices);
                }
                match compare_at(input_data, user_data, load, op, bytecode[pos + 1]) {
                    Err(e) => {
                        return Err(e);
                    },
                    Ok(v) => {
                        stack.push(v != invert);
                        pos = pos + 2;
                    },
                }
            },
            Some(Instr::Conjoin(k)) => {
                let n = stack.len();
                if n < 2 {
                    return Err(InterpErr::StackUnderflow);
                }
                let a = stack[n - 2];
                let c = stack[n - 1];
                let ghost before = stack@;
                stack.pop();
                stack.pop();
                let v = match k {
                    OpConj::AND => a && c,
                    OpConj::OR => a || c,
                };
                stack.push(v);
                assert(stack@ =~= before.subrange(0, n - 2).push(combine(k, a, c)));
                pos = pos + 1;
            },
        }
    }
    if stack.len() == 1 {
        Ok(stack[0])
    } else {
        Err(InterpErr::BadFinalStack)
    }
}

pub(crate) proof fn lemma_read_comparison(c: Comparator)
    ensures
        decode_instr(opcode_byte(OpCode::COMP(c))) == Some(Instr::Compare(c.load, c.op, c.invert)),
{
    let o = op_code(c.op);
    let l = load_code(c.load);
    let v: u8 = if c.invert { 8 } else { 0 };
    let b = opcode_byte(OpCode::COMP(c));
    assert(b == (o | v | (l << 4u8)) as u8);
    assert({
        let b = (o | v | (l << 4u8)) as u8;
        b != 0x20u8 && b != 0x21u8 && b >> 5u8 == 0u8 && b & 7u8 == o && ((b >> 4u8) & 1u8 == 1u8)
            == (l == 1u8) && ((b >> 3u8) & 1u8 == 1u8) == (v == 8u8)
    }) by (bit_vector)
        requires
            o <= 5u8,
            l <= 1u8,
            v == 0u8 || v == 8u8,
    ;
}

/// Negating the invert flag of a lone comparison negates its verdict; an error stays
/// the same error.
pub proof fn lemma_invert_negates(inputs: Seq<Value>, table: Seq<Value>, c: Comparator, idx: u8)
    ensures
        ({
            let flipped = Comparator { invert: !c.invert, ..c };
            let plain = evaluate(inputs, table, seq![opcode_byte(OpCode::COMP(c)), idx]);
            let negated = evaluate(inputs, table, seq![opcode_byte(OpCode::COMP(flipped)), idx]);
            match plain {
                Ok(v) => negated == Ok::<bool, InterpErr>(!v),
                Err(e) => negated == Err::<bool, InterpErr>(e),
            }
        }),
{
    let flipped = Comparator { invert: !c.invert, ..c };
    lemma_read_comparison(c);
    lemma_read_comparison(flipped);
    reveal_with_fuel(run, 3);
    assert(seq![opcode_byte(OpCode::COMP(c)), idx][1] == idx);
    assert(seq![opcode_byte(OpCode::COMP(flipped)), idx][1] == idx);
}

/// A conjunction after two comparisons combines their verdicts, the earlier one on the
/// left; an error of either comparison, the earlier first, is the program's error.
pub proof fn lemma_conjunction(
    inputs: Seq<Value>,
    table: Seq<Value>,
    first: Comparator,
    first_idx: u8,
    second: Comparator,
    second_idx: u8,
    k: OpConj,
)
    ensures
        ({
            let b1 = opcode_byte(OpCode::COMP(first));
            let b2 = opcode_byte(OpCode::COMP(second));
            let bk = opcode_byte(OpCode::CONJ(Conjunction { op: k }));
            let whole = evaluate(inputs, table, seq![b1, first_idx, b2, second_idx, bk]);
            match (
                evaluate(inputs, table, seq![b1, first_idx]),
                evaluate(inputs, table, seq![b2, second_idx]),
            ) {
                (Ok(x), Ok(y)) => whole == Ok::<bool, InterpErr>(combine(k, x, y)),
                (Err(e), _) => whole == Err::<bool, InterpErr>(e),
                (Ok(_), Err(e)) => whole == Err::<bool, InterpErr>(e),
            }
        }),
{
    let b1 = opcode_byte(OpCode::COMP(first));
    let b2 = opcode_byte(OpCode::COMP(second));
    let bk = opcode_byte(OpCode::CONJ(Conjunction { op: k }));
    let code = seq![b1, first_idx, b2, second_idx, bk];
    lemma_read_comparison(first);
    lemma_read_comparison(second);
    reveal_with_fuel(run, 4);
    assert(code[0] == b1 && code[1] == first_idx && code[2] == b2 && code[3] == second_idx
        && code[4] == bk);
    assert(seq![b1, first_idx][1] == first_idx);
    assert(seq![b2, second_idx][1] == second_idx);
    assert(decode_instr(bk) == Some(Instr::Conjoin(k)));
    let c1 = comparison(inputs, table, first.load, first.op, first_idx);
    let c2 = comparison(inputs, table, second.load, second.op, second_idx);
    if c1 is Ok && c2 is Ok {
        let x = c1->Ok_0 != first.invert;
        let y = c2->Ok_0 != second.invert;
        let s: Seq<bool> = seq![x, y];
        assert(seq![x].push(y) =~= s);
        assert(s.subrange(0, 0).push(combine(k, x, y)) =~= seq![combine(k, x, y)]);
    }
}

} // verus!
