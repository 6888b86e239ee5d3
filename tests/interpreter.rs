use pact::interpreter::{
    compare, interpret, Comparator, Conjunction, InterpErr, OpCode, OpComp, OpConj, OpIndices,
    OpLoad,
};
use pact::types::{Contract, DataTable, Numeric, PactType, StringLike};

fn num(x: i64) -> PactType {
    PactType::Numeric(Numeric(x))
}

fn text(s: &[u8]) -> PactType {
    PactType::StringLike(StringLike(s.to_vec()))
}

fn comp(c: Comparator) -> u8 {
    OpCode::COMP(c).into()
}

fn conj(op: OpConj) -> u8 {
    OpCode::CONJ(Conjunction::new(op)).into()
}

#[test]
fn opcode_bytes() {
    assert_eq!(comp(Comparator::new(OpComp::EQ)), 0x00);
    assert_eq!(comp(Comparator::new(OpComp::GTE).invert()), 0x0d);
    assert_eq!(comp(Comparator::new(OpComp::LT).load(OpLoad::INPUT_VS_INPUT)), 0x12);
    assert_eq!(conj(OpConj::AND), 0x20);
    assert_eq!(conj(OpConj::OR), 0x21);
    assert_eq!(OpIndices { lhs: 1, rhs: 2 }.to_byte(), 0x12);
}

#[test]
fn single_comparison_against_table() {
    let table = DataTable::new(vec![num(123)]);
    let code = vec![comp(Comparator::new(OpComp::LTE)), 0x00];
    assert_eq!(interpret(&vec![num(5)], &table, &code), Ok(true));
    assert_eq!(interpret(&vec![num(124)], &table, &code), Ok(false));
}

#[test]
fn invert_negates_verdict() {
    let table = DataTable::new(vec![num(10)]);
    let inputs = vec![num(10)];
    let plain = vec![comp(Comparator::new(OpComp::EQ)), 0x00];
    let inverted = vec![comp(Comparator::new(OpComp::EQ).invert()), 0x00];
    assert_eq!(interpret(&inputs, &table, &plain), Ok(true));
    assert_eq!(interpret(&inputs, &table, &inverted), Ok(false));
}

#[test]
fn and_or_combine_true_and_false() {
    let table = DataTable::new(vec![num(1), num(2)]);
    let inputs = vec![num(1)];
    // input 0 == table 0 is true; input 0 == table 1 is false.
    let t = [comp(Comparator::new(OpComp::EQ)), 0x00];
    let f = [comp(Comparator::new(OpComp::EQ)), 0x01];
    let and = [&t[..], &f[..], &[conj(OpConj::AND)]].concat();
    let or = [&t[..], &f[..], &[conj(OpConj::OR)]].concat();
    assert_eq!(interpret(&inputs, &table, &and), Ok(false));
    assert_eq!(interpret(&inputs, &table, &or), Ok(true));
}

#[test]
fn input_vs_input_comparison() {
    let table = DataTable::new(vec![]);
    let code = vec![comp(Comparator::new(OpComp::GT).load(OpLoad::INPUT_VS_INPUT)), 0x10];
    assert_eq!(interpret(&vec![num(1), num(2)], &table, &code), Ok(true));
    assert_eq!(interpret(&vec![num(2), num(2)], &table, &code), Ok(false));
}

#[test]
fn string_comparisons() {
    let table = DataTable::new(vec![text(b"world")]);
    let eq = vec![comp(Comparator::new(OpComp::EQ)), 0x00];
    let ne = vec![comp(Comparator::new(OpComp::NE)), 0x00];
    let lt = vec![comp(Comparator::new(OpComp::LT)), 0x00];
    assert_eq!(interpret(&vec![text(b"world")], &table, &eq), Ok(true));
    assert_eq!(interpret(&vec![text(b"word")], &table, &eq), Ok(false));
    assert_eq!(interpret(&vec![text(b"word")], &table, &ne), Ok(true));
    assert_eq!(interpret(&vec![text(b"a")], &table, &lt), Err(InterpErr::UnsupportedComparison));
    assert_eq!(interpret(&vec![num(1)], &table, &eq), Err(InterpErr::UnsupportedComparison));
}

#[test]
fn numeric_operators() {
    assert_eq!(compare(OpComp::EQ, &num(-3), &num(-3)), Ok(true));
    assert_eq!(compare(OpComp::NE, &num(-3), &num(-3)), Ok(false));
    assert_eq!(compare(OpComp::LT, &num(-4), &num(-3)), Ok(true));
    assert_eq!(compare(OpComp::LTE, &num(-3), &num(-3)), Ok(true));
    assert_eq!(compare(OpComp::GT, &num(-3), &num(-4)), Ok(true));
    assert_eq!(compare(OpComp::GTE, &num(-4), &num(-3)), Ok(false));
}

#[test]
fn evaluation_errors() {
    let table = DataTable::new(vec![num(1)]);
    let inputs = vec![num(1)];
    let eq = comp(Comparator::new(OpComp::EQ));
    assert_eq!(interpret(&inputs, &table, &vec![0xff]), Err(InterpErr::InvalidOpCode(0xff)));
    assert_eq!(interpret(&inputs, &table, &vec![0x06, 0x00]), Err(InterpErr::InvalidOpCode(0x06)));
    assert_eq!(interpret(&inputs, &table, &vec![eq]), Err(InterpErr::MissingIndices));
    assert_eq!(interpret(&inputs, &table, &vec![eq, 0x10]), Err(InterpErr::InputIndexOutOfRange(1)));
    assert_eq!(interpret(&inputs, &table, &vec![eq, 0x01]), Err(InterpErr::TableIndexOutOfRange(1)));
    assert_eq!(
        interpret(&inputs, &table, &vec![comp(Comparator::new(OpComp::EQ).load(OpLoad::INPUT_VS_INPUT)), 0x03]),
        Err(InterpErr::InputIndexOutOfRange(3))
    );
    assert_eq!(interpret(&inputs, &table, &vec![eq, 0x00, conj(OpConj::AND)]), Err(InterpErr::StackUnderflow));
    assert_eq!(interpret(&inputs, &table, &vec![]), Err(InterpErr::BadFinalStack));
    assert_eq!(interpret(&inputs, &table, &vec![eq, 0x00, eq, 0x00]), Err(InterpErr::BadFinalStack));
}

#[test]
fn decoded_contract_evaluates() {
    let contract = Contract {
        data_table: DataTable::new(vec![num(111), num(333)]),
        bytecode: vec![
            comp(Comparator::new(OpComp::EQ)),
            0x00,
            comp(Comparator::new(OpComp::EQ)),
            0x11,
            conj(OpConj::AND),
        ],
    };
    let mut buf = vec![];
    contract.encode(&mut buf);
    let decoded = Contract::decode(&buf).unwrap();
    assert_eq!(decoded.evaluate(&vec![num(111), num(333)]), Ok(true));
    assert_eq!(decoded.evaluate(&vec![num(111), num(334)]), Ok(false));
}
