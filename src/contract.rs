//! The contract and its versioned binary envelope.
//!
//! Layout: `[version][table][bytecode...]`. The version byte is read in reversed bit order.
use crate::bits::{reversed, swap_bits};
use crate::interpreter::{evaluate, interpret, values_of, InterpErr};
use crate::types::{
    decode_table, encode_table, lemma_table_round_trip, valid_table, DataTable, PactType,
    TableFault, Value,
};
use vstd::prelude::*;

verus! {

/// The binary format version written and accepted.
pub const FORMAT_VERSION: u8 = 0;

/// Why a contract could not be decoded.
#[derive(Debug, PartialEq, Eq, Clone, Copy)]
pub enum BinaryFormatErr {
    /// The version byte is not a supported version.
    UnsupportedVersion,
    /// The constant table is invalid, with the reason.
    MalformedDataTable(&'static str),
    /// The buffer is too short to hold a contract.
    TooShort,
}

/// Why a contract could not be decoded, as a model.
pub enum FormatFault {
    UnsupportedVersion,
    MalformedDataTable(TableFault),
    TooShort,
}

/// `e` reports the fault `f`.
pub open spec fn reports(e: BinaryFormatErr, f: FormatFault) -> bool {
    match (e, f) {
        (BinaryFormatErr::UnsupportedVersion, FormatFault::UnsupportedVersion) => true,
        (BinaryFormatErr::TooShort, FormatFault::TooShort) => true,
        (BinaryFormatErr::MalformedDataTable(m), FormatFault::MalformedDataTable(t)) => m@
            == t.message(),
        _ => false,
    }
}

/// A contract: a constant table and the bytecode that reads it.
#[derive(Debug, PartialEq, Eq)]
pub struct Contract {
    pub data_table: DataTable,
    pub bytecode: Vec<u8>,
}

/// The model of a contract.
pub struct ContractModel {
    pub table: Seq<Value>,
    pub bytecode: Seq<u8>,
}

impl View for Contract {
    type V = ContractModel;

    open spec fn view(&self) -> ContractModel {
        ContractModel { table: self.data_table@, bytecode: self.bytecode@ }
    }
}

/// A contract can be encoded: its table can.
pub open spec fn valid_contract(c: ContractModel) -> bool {
    valid_table(c.table)
}

/// The bytes of a contract: the version, the table, then the bytecode.
pub open spec fn encode_contract(c: ContractModel) -> Seq<u8> {
    seq![FORMAT_VERSION] + encode_table(c.table) + c.bytecode
}

/// Decodes a contract from `b`.
pub open spec fn decode_contract(b: Seq<u8>) -> Result<ContractModel, FormatFault> {
    if b.len() < 2 {
        Err(FormatFault::TooShort)
    } else if reversed(b[0]) != FORMAT_VERSION {
        Err(FormatFault::UnsupportedVersion)
    } else {
        match decode_table(b.subrange(1, b.len() as int)) {
            Err(e) => Err(FormatFault::MalformedDataTable(e)),
            Ok((table, n)) => Ok(
                ContractModel { table, bytecode: b.subrange(1 + n as int, b.len() as int) },
            ),
        }
    }
}

impl Contract {
    /// Appends the encoding of this contract to `buf`.
    pub fn encode(&self, buf: &mut Vec<u8>)
        requires
            valid_contract(self@),
        ensures
            final(buf)@ == old(buf)@ + encode_contract(self@),
    {
        buf.push(FORMAT_VERSION);
        self.data_table.encode(buf);
        let ghost start = buf@;
        let mut i: usize = 0;
        while i < self.bytecode.len()
            invariant
                i <= self.bytecode@.len(),
                buf@ == start + self.bytecode@.take(i as int),
            decreases self.bytecode@.len() - i,
        {
            buf.push(self.bytecode[i]);
            i += 1;
            assert(buf@ =~= start + self.bytecode@.take(i as int));
        }
        assert(buf@ =~= old(buf)@ + encode_contract(self@));
    }

    /// The verdict of this contract on the runtime inputs `input_data`.
    pub fn evaluate(&self, input_data: &Vec<PactType>) -> (r: Result<bool, InterpErr>)
        ensures
            r == evaluate(values_of(input_data@), self@.table, self@.bytecode),
    {
        interpret(input_data, &self.data_table, &self.bytecode)
    }

    /// Decodes a contract from `buf`.
    pub fn decode(buf: &Vec<u8>) -> (r: Result<Contract, BinaryFormatErr>)
        ensures
            match r {
                Ok(c) => decode_contract(buf@) == Ok::<_, FormatFault>(c@),
                Err(e) => decode_contract(buf@) is Err && reports(e, decode_contract(buf@)->Err_0),
            },
    {
        if buf.len() < 2 {
            return Err(BinaryFormatErr::TooShort);
        }
        if swap_bits(buf[0]) != FORMAT_VERSION {
            return Err(BinaryFormatErr::UnsupportedVersion);
        }
        let rest = crate::types::copy_range(buf.as_slice(), 1, buf.len());
        match DataTable::decode(&rest) {
            Err(m) => Err(BinaryFormatErr::MalformedDataTable(m)),
            Ok((data_table, offset)) => {
                let bytecode = crate::types::copy_range(buf.as_slice(), 1 + offset, buf.len());
                assert(bytecode@ =~= buf@.subrange(1 + offset, buf@.len() as int));
                Ok(Contract { data_table, bytecode })
            },
        }
    }
}

/// Decoding the encoding of a valid contract gives the contract back.
pub proof fn lemma_round_trip(c: ContractModel)
    requires
        valid_contract(c),
    ensures
        decode_contract(encode_contract(c)) == Ok::<_, FormatFault>(c),
{
    let b = encode_contract(c);
    let te = encode_table(c.table);
    assert(reversed(0u8) == 0u8) by (bit_vector);
    assert(b[0] == FORMAT_VERSION);
    assert(b.subrange(1, b.len() as int) =~= te + c.bytecode);
    lemma_table_round_trip(c.table, c.bytecode);
    assert(b.subrange(1 + te.len() as int, b.len() as int) =~= c.bytecode);
}

} // verus!
