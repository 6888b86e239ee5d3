//! Lowers a parsed program into a contract: a constant table and bytecode.
//!
//! Each predicate becomes one comparison. Its left operand must be a parameter, or its
//! right one is and the two are swapped (with the operator mirrored). A constant operand
//! is appended to the table on every use. A predicate joined by `and` or `or` is followed
//! by that conjunction; the end of every assertion after the first is followed by `AND`.
use crate::contract::{valid_contract, Contract, ContractModel};
use crate::interpreter::{
    comparison, compare_values, decode_instr, lemma_read_comparison, opcode_byte, Instr, values_of, Comparator, Conjunction, OpCode, OpComp, OpConj, OpIndices, OpLoad,
};
use crate::parser::{Ast, AstModel, Link, Operand, OperandModel, PredicateModel};
use crate::types::{valid_value, DataTable, PactType, Value};
use vstd::prelude::*;

verus! {

/// Why a program could not be lowered; each holds the index of the predicate.
#[derive(Debug, PartialEq, Eq, Clone, Copy)]
pub enum CompileErr {
    /// Neither operand is a parameter.
    NoParameter(usize),
    /// A parameter or table index does not fit in four bits.
    IndexTooLarge(usize),
    /// An operand names a definition that the program does not have.
    UnknownDefinition(usize),
    /// A string constant is longer than 255 bytes.
    ConstantTooLong(usize),
}

/// The operator with its operands swapped.
pub open spec fn mirrored(op: OpComp) -> OpComp {
    match op {
        OpComp::LT => OpComp::GT,
        OpComp::LTE => OpComp::GTE,
        OpComp::GT => OpComp::LT,
        OpComp::GTE => OpComp::LTE,
        _ => op,
    }
}

/// The constant that a non-parameter operand stands for.
pub open spec fn constant_of(ast: AstModel, o: OperandModel) -> Option<Value> {
    match o {
        OperandModel::Input(_) => None,
        OperandModel::Defined(i) => if i < ast.defs.len() {
            Some(ast.defs[i as int].1)
        } else {
            None
        },
        OperandModel::Literal(v) => Some(v),
    }
}

/// The two bytes of a comparison.
pub open spec fn comparison_bytes(load: OpLoad, op: OpComp, invert: bool, lhs: nat, rhs: nat) -> Seq<
    u8,
> {
    seq![
        opcode_byte(
            OpCode::COMP(
                Comparator { load, op, indices: OpIndices { lhs: 0, rhs: 0 }, invert },
            ),
        ),
        (lhs * 16 + rhs) as u8,
    ]
}

/// The comparison of predicate `i`, and the table after it.
pub open spec fn lower_predicate(ast: AstModel, i: nat, p: PredicateModel, table: Seq<Value>) -> Result<
    (Seq<u8>, Seq<Value>),
    CompileErr,
> {
    let t = table.len();
    match (p.lhs, p.rhs) {
        (OperandModel::Input(a), OperandModel::Input(b)) => if a >= 16 || b >= 16 {
            Err(CompileErr::IndexTooLarge(i as usize))
        } else {
            Ok((comparison_bytes(OpLoad::INPUT_VS_INPUT, p.op, p.not, a, b), table))
        },
        (OperandModel::Input(a), c) => match constant_of(ast, c) {
            None => Err(CompileErr::UnknownDefinition(i as usize)),
            Some(v) => if !valid_value(v) {
                Err(CompileErr::ConstantTooLong(i as usize))
            } else if a >= 16 || t >= 16 {
                Err(CompileErr::IndexTooLarge(i as usize))
            } else {
                Ok((comparison_bytes(OpLoad::INPUT_VS_USER, p.op, p.not, a, t), table.push(v)))
            },
        },
        (c, OperandModel::Input(b)) => match constant_of(ast, c) {
            None => Err(CompileErr::UnknownDefinition(i as usize)),
            Some(v) => if !valid_value(v) {
                Err(CompileErr::ConstantTooLong(i as usize))
            } else if b >= 16 || t >= 16 {
                Err(CompileErr::IndexTooLarge(i as usize))
            } else {
                Ok(
                    (
                        comparison_bytes(OpLoad::INPUT_VS_USER, mirrored(p.op), p.not, b, t),
                        table.push(v),
                    ),
                )
            },
        },
        _ => if constant_of(ast, p.lhs) is None || constant_of(ast, p.rhs) is None {
            Err(CompileErr::UnknownDefinition(i as usize))
        } else {
            Err(CompileErr::NoParameter(i as usize))
        },
    }
}

/// The conjunction byte that follows a predicate joined by `link`.
pub open spec fn link_bytes(link: Link) -> Seq<u8> {
    match link {
        Link::Start => seq![],
        Link::And => seq![opcode_byte(OpCode::CONJ(Conjunction { op: OpConj::AND }))],
        Link::Or => seq![opcode_byte(OpCode::CONJ(Conjunction { op: OpConj::OR }))],
    }
}

/// Predicate `i` is the last of its assertion.
pub open spec fn ends_assertion(preds: Seq<PredicateModel>, i: nat) -> bool {
    i + 1 >= preds.len() || preds[i + 1int].link == Link::Start
}

/// Lowers the predicates from `i` on, after the bytecode `code` and the table `table`;
/// `later` tells that an assertion before the current one has ended.
pub open spec fn lower_from(
    ast: AstModel,
    i: nat,
    code: Seq<u8>,
    table: Seq<Value>,
    later: bool,
) -> Result<ContractModel, CompileErr>
    decreases ast.preds.len() - i,
{
    if i >= ast.preds.len() {
        Ok(ContractModel { table, bytecode: code })
    } else {
        let p = ast.preds[i as int];
        let later = later || (i > 0 && p.link == Link::Start);
        match lower_predicate(ast, i, p, table) {
            Err(e) => Err(e),
            Ok((bytes, table)) => {
                let code = code + bytes + link_bytes(p.link) + if ends_assertion(ast.preds, i)
                    && later {
                    link_bytes(Link::And)
                } else {
                    seq![]
                };
                lower_from(ast, i + 1, code, table, later)
            },
        }
    }
}

/// The contract that a program lowers to.
pub open spec fn lower(ast: AstModel) -> Result<ContractModel, CompileErr> {
    lower_from(ast, 0, seq![], seq![], false)
}

/// The constant that a non-parameter operand stands for.
fn constant(ast: &Ast, o: &Operand) -> (r: Option<PactType>)
    ensures
        match r {
            Some(v) => constant_of(ast@, o@) == Some(v@),
            None => constant_of(ast@, o@) is None,
        },
{
    match o {
        Operand::Input(_) => None,
        Operand::Defined(i) => {
            if *i < ast.definitions.len() {
                Some(ast.definitions[*i].value.duplicate())
            } else {
                None
            }
        },
        Operand::Literal(v) => Some(v.duplicate()),
    }
}

/// Whether `v` can be encoded.
fn fits(v: &PactType) -> (r: bool)
    ensures
        r == valid_value(v@),
{
    match v {
        PactType::Numeric(_) => true,
        PactType::StringLike(s) => s.0.len() <= 255,
    }
}

/// The operator with its operands swapped.
fn mirror(op: OpComp) -> (r: OpComp)
    ensures
        r == mirrored(op),
{
    match op {
        OpComp::LT => OpComp::GT,
        OpComp::LTE => OpComp::GTE,
        OpComp::GT => OpComp::LT,
        OpComp::GTE => OpComp::LTE,
        _ => op,
    }
}

/// The two bytes of a comparison.
fn comparison_code(load: OpLoad, op: OpComp, invert: bool, lhs: usize, rhs: usize) -> (r: (u8, u8))
    requires
        lhs < 16,
        rhs < 16,
    ensures
        seq![r.0, r.1] == comparison_bytes(load, op, invert, lhs as nat, rhs as nat),
{
    let c = Comparator { load, op, indices: OpIndices { lhs: 0, rhs: 0 }, invert };
    (OpCode::COMP(c).to_byte(), (lhs as u8) * 16 + rhs as u8)
}

/// Lowers predicate `i` of `ast`, appending its constant, if any, to `table`.
fn lower_one(ast: &Ast, i: usize, table: &mut Vec<PactType>) -> (r: Result<(u8, u8), CompileErr>)
    requires
        i < ast.predicates@.len(),
    ensures
        match r {
            Ok((b0, b1)) => lower_predicate(
                ast@,
                i as nat,
                ast@.preds[i as int],
                values_of(old(table)@),
            ) == Ok::<_, CompileErr>((seq![b0, b1], values_of(final(table)@))),
            Err(e) => lower_predicate(ast@, i as nat, ast@.preds[i as int], values_of(old(table)@))
                == Err::<(Seq<u8>, Seq<Value>), _>(e),
        },
{
    let p = &ast.predicates[i];
    let t = table.len();
    let ghost before = values_of(table@);
    match (&p.lhs, &p.rhs) {
        (Operand::Input(a), Operand::Input(b)) => {
            if *a >= 16 || *b >= 16 {
                return Err(CompileErr::IndexTooLarge(i));
            }
            Ok(comparison_code(OpLoad::INPUT_VS_INPUT, p.op, p.not, *a, *b))
        },
        (Operand::Input(a), c) => match constant(ast, c) {
            None => Err(CompileErr::UnknownDefinition(i)),
            Some(v) => {
                if !fits(&v) {
                    return Err(CompileErr::ConstantTooLong(i));
                }
                if *a >= 16 || t >= 16 {
                    return Err(CompileErr::IndexTooLarge(i));
                }
                let ghost vm = v@;
                table.push(v);
                assert(values_of(table@) =~= before.push(vm));
                Ok(comparison_code(OpLoad::INPUT_VS_USER, p.op, p.not, *a, t))
            },
        },
        (c, Operand::Input(b)) => match constant(ast, c) {
            None => Err(CompileErr::UnknownDefinition(i)),
            Some(v) => {
                if !fits(&v) {
                    return Err(CompileErr::ConstantTooLong(i));
                }
                if *b >= 16 || t >= 16 {
                    return Err(CompileErr::IndexTooLarge(i));
                }
                let ghost vm = v@;
                table.push(v);
                assert(values_of(table@) =~= before.push(vm));
                Ok(comparison_code(OpLoad::INPUT_VS_USER, mirror(p.op), p.not, *b, t))
            },
        },
        (l, r) => {
            if constant(ast, l).is_none() || constant(ast, r).is_none() {
                return Err(CompileErr::UnknownDefinition(i));
            }
            Err(CompileErr::NoParameter(i))
        },
    }
}

/// Lowers a parsed program into a contract.
pub fn compile(ast: &Ast) -> (r: Result<Contract, CompileErr>)
    ensures
        match r {
            Ok(c) => lower(ast@) == Ok::<_, CompileErr>(c@) && valid_contract(c@),
            Err(e) => lower(ast@) == Err::<ContractModel, _>(e),
        },
{
    let mut code: Vec<u8> = Vec::new();
    let mut table: Vec<PactType> = Vec::new();
    let mut later = false;
    let mut i: usize = 0;
    let n = ast.predicates.len();
    assert(values_of(table@) =~= Seq::<Value>::empty());
    while i < n
        invariant
            n == ast.predicates@.len(),
            i <= n,
            lower_from(ast@, i as nat, code@, values_of(table@), later) == lower(ast@),
            values_of(table@).len() <= 16,
            forall|j: int| 0 <= j < values_of(table@).len() ==> valid_value(#[trigger] values_of(table@)[j]),
        decreases n - i,
    {
        let link = ast.predicates[i].link;
        later = later || (i > 0 && link == Link::Start);
        let ghost table_before = values_of(table@);
        let (b0, b1) = match lower_one(ast, i, &mut table) {
            Err(e) => {
                return Err(e);
            },
            Ok(x) => x,
        };
        let ghost code_before = code@;
        code.push(b0);
        code.push(b1);
        match link {
            Link::Start => {},
            Link::And => code.push(0x20),
            Link::Or => code.push(0x21),
        }
        let ends = i + 1 >= n || ast.predicates[i + 1].link == Link::Start;
        if ends && later {
            code.push(0x20);
        }
        assert(code@ =~= code_before + seq![b0, b1] + link_bytes(ast@.preds[i as int].link) + if ends_assertion(ast@.preds, i as nat) && later {
            link_bytes(Link::And)
        } else {
            seq![]
        });
        i += 1;
    }
    let data_table = DataTable(table);
    assert(data_table@ =~= values_of(data_table.0@));
    Ok(Contract { data_table, bytecode: code })
}

proof fn lemma_index_byte(a: nat, b: nat)
    requires
        a < 16,
        b < 16,
    ensures
        ((a * 16 + b) as u8) >> 4u8 == a,
        ((a * 16 + b) as u8) & 15u8 == b,
{
    let (x, y) = (a as u8, b as u8);
    assert((((x * 16 + y) as u8) >> 4u8) == x && (((x * 16 + y) as u8) & 15u8) == y) by (bit_vector)
        requires
            x < 16,
            y < 16,
    ;
}

/// A lowered predicate over two parameters reads their inputs by their declaration indices.
pub proof fn lemma_parameters_resolve(
    ast: AstModel,
    i: nat,
    p: PredicateModel,
    table: Seq<Value>,
    inputs: Seq<Value>,
)
    requires
        p.lhs is Input,
        p.rhs is Input,
        p.lhs->Input_0 < inputs.len(),
        p.rhs->Input_0 < inputs.len(),
        lower_predicate(ast, i, p, table) is Ok,
    ensures
        ({
            let (bytes, t) = lower_predicate(ast, i, p, table)->Ok_0;
            let (a, b) = (p.lhs->Input_0, p.rhs->Input_0);
            &&& t == table
            &&& decode_instr(bytes[0]) == Some(Instr::Compare(OpLoad::INPUT_VS_INPUT, p.op, p.not))
            &&& comparison(inputs, t, OpLoad::INPUT_VS_INPUT, p.op, bytes[1]) == compare_values(
                p.op,
                inputs[a as int],
                inputs[b as int],
            )
        }),
{
    let (a, b) = (p.lhs->Input_0, p.rhs->Input_0);
    lemma_index_byte(a, b);
    lemma_read_comparison(
        Comparator {
            load: OpLoad::INPUT_VS_INPUT,
            op: p.op,
            indices: OpIndices { lhs: 0, rhs: 0 },
            invert: p.not,
        },
    );
}

/// A lowered predicate of a parameter against a constant reads the parameter's input and
/// a table entry that holds the constant, whether or not the table already held it.
pub proof fn lemma_constant_resolves(
    ast: AstModel,
    i: nat,
    p: PredicateModel,
    table: Seq<Value>,
    inputs: Seq<Value>,
)
    requires
        p.lhs is Input,
        p.lhs->Input_0 < inputs.len(),
        !(p.rhs is Input),
        lower_predicate(ast, i, p, table) is Ok,
    ensures
        ({
            let (bytes, t) = lower_predicate(ast, i, p, table)->Ok_0;
            let v = constant_of(ast, p.rhs)->Some_0;
            &&& constant_of(ast, p.rhs) is Some
            &&& t == table.push(v)
            &&& decode_instr(bytes[0]) == Some(Instr::Compare(OpLoad::INPUT_VS_USER, p.op, p.not))
            &&& comparison(inputs, t, OpLoad::INPUT_VS_USER, p.op, bytes[1]) == compare_values(
                p.op,
                inputs[p.lhs->Input_0 as int],
                v,
            )
        }),
{
    lemma_index_byte(p.lhs->Input_0, table.len());
    lemma_read_comparison(
        Comparator {
            load: OpLoad::INPUT_VS_USER,
            op: p.op,
            indices: OpIndices { lhs: 0, rhs: 0 },
            invert: p.not,
        },
    );
}

} // verus!
