//! Value types and the constant table, with the table's binary codec.
//!
//! Table layout: `[count][entry]...`, where each entry is `[type id][payload]`.
//! A numeric payload is 8 little-endian bytes; a string payload is `[length][bytes]`.
//! The count, type id and length bytes are stored in reversed bit order.
pub use crate::contract::{BinaryFormatErr, Contract};

use crate::bits::{lemma_reversed_involution, reversed, swap_bits};
use vstd::prelude::*;

verus! {

/// Type id of a string entry, after bit reversal.
pub const STRING_TYPE_ID: u8 = 0;

/// Type id of a numeric entry, after bit reversal.
pub const NUMERIC_TYPE_ID: u8 = 1;

/// A 64-bit signed numeric value.
#[derive(Debug, PartialEq, Eq, Clone, Copy)]
pub struct Numeric(pub i64);

/// A byte string value.
#[derive(Debug, PartialEq, Eq)]
pub struct StringLike(pub Vec<u8>);

/// A constant or runtime value.
#[derive(Debug, PartialEq, Eq)]
pub enum PactType {
    Numeric(Numeric),
    StringLike(StringLike),
}

/// The mathematical model of a value.
pub enum Value {
    Numeric(i64),
    StringLike(Seq<u8>),
}

impl View for PactType {
    type V = Value;

    open spec fn view(&self) -> Value {
        match self {
            PactType::Numeric(n) => Value::Numeric(n.0),
            PactType::StringLike(s) => Value::StringLike(s.0@),
        }
    }
}

/// An ordered table of constants, referenced by index.
#[derive(Debug, PartialEq, Eq)]
pub struct DataTable(pub Vec<PactType>);

impl View for DataTable {
    type V = Seq<Value>;

    open spec fn view(&self) -> Seq<Value> {
        self.0@.map_values(|v: PactType| v@)
    }
}

/// Why a table could not be decoded.
#[derive(Debug, PartialEq, Eq, Clone, Copy)]
pub enum TableFault {
    MissingCount,
    MissingTypeId,
    UnsupportedTypeId,
    NumericTooShort,
    MissingStringLength,
    StringTooShort,
}

impl TableFault {
    /// The message reported for this fault.
    pub open spec fn message(self) -> Seq<char> {
        match self {
            TableFault::MissingCount => "missing entry count byte"@,
            TableFault::MissingTypeId => "missing type ID byte"@,
            TableFault::UnsupportedTypeId => "unsupported type ID"@,
            TableFault::NumericTooShort => "implementation only supports 64-bit numerics"@,
            TableFault::MissingStringLength => "missing string length byte"@,
            TableFault::StringTooShort => "string payload too short"@,
        }
    }

    /// The message reported for this fault.
    pub fn describe(self) -> (r: &'static str)
        ensures
            r@ == self.message(),
    {
        match self {
            TableFault::MissingCount => "missing entry count byte",
            TableFault::MissingTypeId => "missing type ID byte",
            TableFault::UnsupportedTypeId => "unsupported type ID",
            TableFault::NumericTooShort => "implementation only supports 64-bit numerics",
            TableFault::MissingStringLength => "missing string length byte",
            TableFault::StringTooShort => "string payload too short",
        }
    }
}

/// A value can be encoded: a string fits its one-byte length.
pub open spec fn valid_value(v: Value) -> bool {
    match v {
        Value::Numeric(_) => true,
        Value::StringLike(s) => s.len() <= 255,
    }
}

/// A table can be encoded: its entry count fits one byte and each entry can be encoded.
pub open spec fn valid_table(t: Seq<Value>) -> bool {
    t.len() <= 255 && forall|i: int| 0 <= i < t.len() ==> valid_value(#[trigger] t[i])
}

/// The 8 little-endian bytes of `x` in two's complement.
pub open spec fn numeric_bytes(x: i64) -> Seq<u8> {
    let u = x as u64;
    seq![
        u as u8,
        (u >> 8u64) as u8,
        (u >> 16u64) as u8,
        (u >> 24u64) as u8,
        (u >> 32u64) as u8,
        (u >> 40u64) as u8,
        (u >> 48u64) as u8,
        (u >> 56u64) as u8,
    ]
}

/// The number whose little-endian two's complement bytes are `b[0..8]`.
pub open spec fn numeric_of(b: Seq<u8>) -> i64 {
    (b[0] as u64 | (b[1] as u64) << 8u64 | (b[2] as u64) << 16u64 | (b[3] as u64) << 24u64
        | (b[4] as u64) << 32u64 | (b[5] as u64) << 40u64 | (b[6] as u64) << 48u64 | (b[7] as u64)
        << 56u64) as i64
}

/// The bytes of one entry.
pub open spec fn encode_value(v: Value) -> Seq<u8> {
    match v {
        Value::Numeric(x) => seq![reversed(NUMERIC_TYPE_ID)] + numeric_bytes(x),
        Value::StringLike(s) => seq![reversed(STRING_TYPE_ID), reversed(s.len() as u8)] + s,
    }
}

/// The bytes of a sequence of entries, one after another.
pub open spec fn encode_values(vs: Seq<Value>) -> Seq<u8>
    decreases vs.len(),
{
    if vs.len() == 0 {
        seq![]
    } else {
        encode_value(vs[0]) + encode_values(vs.drop_first())
    }
}

/// The bytes of a table: its entry count, then its entries.
pub open spec fn encode_table(t: Seq<Value>) -> Seq<u8> {
    seq![reversed(t.len() as u8)] + encode_values(t)
}

/// Decodes one entry of `b` at `pos`: the value and the position after it.
pub open spec fn decode_value(b: Seq<u8>, pos: nat) -> Result<(Value, nat), TableFault> {
    if pos >= b.len() {
        Err(TableFault::MissingTypeId)
    } else {
        let id = reversed(b[pos as int]);
        if id == NUMERIC_TYPE_ID {
            if pos + 9 > b.len() {
                Err(TableFault::NumericTooShort)
            } else {
                Ok(
                    (
                        Value::Numeric(numeric_of(b.subrange(pos + 1int, pos + 9int))),
                        (pos + 9) as nat,
                    ),
                )
            }
        } else if id == STRING_TYPE_ID {
            if pos + 1 >= b.len() {
                Err(TableFault::MissingStringLength)
            } else {
                let n = reversed(b[pos + 1int]) as nat;
                if pos + 2 + n > b.len() {
                    Err(TableFault::StringTooShort)
                } else {
                    Ok(
                        (
                            Value::StringLike(b.subrange(pos + 2int, pos + 2 + n as int)),
                            (pos + 2 + n) as nat,
                        ),
                    )
                }
            }
        } else {
            Err(TableFault::UnsupportedTypeId)
        }
    }
}

/// Decodes `n` more entries of `b` from `pos`, after the entries `acc` already decoded:
/// all the entries and the position after the last one.
pub open spec fn decode_entries(b: Seq<u8>, pos: nat, n: nat, acc: Seq<Value>) -> Result<
    (Seq<Value>, nat),
    TableFault,
>
    decreases n,
{
    if n == 0 {
        Ok((acc, pos))
    } else {
        match decode_value(b, pos) {
            Err(e) => Err(e),
            Ok((v, next)) => decode_entries(b, next, (n - 1) as nat, acc.push(v)),
        }
    }
}

/// Decodes a table from the start of `b`: its entries and the number of bytes it took.
pub open spec fn decode_table(b: Seq<u8>) -> Result<(Seq<Value>, nat), TableFault> {
    if b.len() == 0 {
        Err(TableFault::MissingCount)
    } else {
        decode_entries(b, 1, reversed(b[0]) as nat, seq![])
    }
}

/// The bytes `buf[start..end]`.
pub(crate) fn copy_range(buf: &[u8], start: usize, end: usize) -> (r: Vec<u8>)
    requires
        start <= end <= buf@.len(),
    ensures
        r@ == buf@.subrange(start as int, end as int),
{
    let mut r: Vec<u8> = Vec::new();
    let mut i: usize = start;
    while i < end
        invariant
            start <= i <= end <= buf@.len(),
            r@ == buf@.subrange(start as int, i as int),
        decreases end - i,
    {
        r.push(buf[i]);
        i += 1;
        assert(r@ =~= buf@.subrange(start as int, i as int));
    }
    r
}

/// A copy of the bytes of `v`.
pub(crate) fn copy_bytes(v: &Vec<u8>) -> (r: Vec<u8>)
    ensures
        r@ == v@,
{
    let r = copy_range(v.as_slice(), 0, v.len());
    assert(r@ =~= v@);
    r
}

impl PactType {
    /// A copy of this value.
    pub fn duplicate(&self) -> (r: PactType)
        ensures
            r@ == self@,
    {
        match self {
            PactType::Numeric(n) => PactType::Numeric(Numeric(n.0)),
            PactType::StringLike(s) => PactType::StringLike(StringLike(copy_bytes(&s.0))),
        }
    }

    /// Appends the encoding of this value to `buf`.
    pub fn encode(&self, buf: &mut Vec<u8>)
        requires
            valid_value(self@),
        ensures
            final(buf)@ == old(buf)@ + encode_value(self@),
    {
        match self {
            PactType::Numeric(n) => {
                let u = n.0 as u64;
                buf.push(swap_bits(NUMERIC_TYPE_ID));
                buf.push(u as u8);
                buf.push((u >> 8u64) as u8);
                buf.push((u >> 16u64) as u8);
                buf.push((u >> 24u64) as u8);
                buf.push((u >> 32u64) as u8);
                buf.push((u >> 40u64) as u8);
                buf.push((u >> 48u64) as u8);
                buf.push((u >> 56u64) as u8);
                assert(buf@ =~= old(buf)@ + encode_value(self@));
            },
            PactType::StringLike(s) => {
                buf.push(swap_bits(STRING_TYPE_ID));
                buf.push(swap_bits(s.0.len() as u8));
                let ghost start = buf@;
                let mut i: usize = 0;
                while i < s.0.len()
                    invariant
                        i <= s.0@.len(),
                        buf@ == start + s.0@.take(i as int),
                    decreases s.0@.len() - i,
                {
                    buf.push(s.0[i]);
                    i += 1;
                    assert(buf@ =~= start + s.0@.take(i as int));
                }
                assert(buf@ =~= old(buf)@ + encode_value(self@));
            },
        }
    }

    /// Decodes the entry of `buf` at `pos`: the value and the position after it.
    pub fn decode_at(buf: &Vec<u8>, pos: usize) -> (r: Result<(PactType, usize), TableFault>)
        ensures
            match r {
                Ok((v, next)) => decode_value(buf@, pos as nat) == Ok::<_, TableFault>(
                    (v@, next as nat),
                ) && next <= buf@.len(),
                Err(e) => decode_value(buf@, pos as nat) == Err::<(Value, nat), _>(e),
            },
    {
        if pos >= buf.len() {
            return Err(TableFault::MissingTypeId);
        }
        let id = swap_bits(buf[pos]);
        if id == NUMERIC_TYPE_ID {
            if buf.len() - pos < 9 {
                return Err(TableFault::NumericTooShort);
            }
            let u: u64 = buf[pos + 1] as u64 | (buf[pos + 2] as u64) << 8u64 | (buf[pos + 3] as u64)
                << 16u64 | (buf[pos + 4] as u64) << 24u64 | (buf[pos + 5] as u64) << 32u64 | (buf[pos
                + 6] as u64) << 40u64 | (buf[pos + 7] as u64) << 48u64 | (buf[pos + 8] as u64) << 56u64;
            let ghost payload = buf@.subrange(pos + 1, pos + 9);
            assert(numeric_of(payload) == u as i64);
            Ok((PactType::Numeric(Numeric(u as i64)), pos + 9))
        } else if id == STRING_TYPE_ID {
            if buf.len() - pos < 2 {
                return Err(TableFault::MissingStringLength);
            }
            let n = swap_bits(buf[pos + 1]) as usize;
            if buf.len() - (pos + 2) < n {
                return Err(TableFault::StringTooShort);
            }
            let bytes = copy_range(buf.as_slice(), pos + 2, pos + 2 + n);
            Ok((PactType::StringLike(StringLike(bytes)), pos + 2 + n))
        } else {
            Err(TableFault::UnsupportedTypeId)
        }
    }
}

impl DataTable {
    /// A table holding `entries`, in order.
    pub fn new(entries: Vec<PactType>) -> (r: DataTable)
        ensures
            r.0@ == entries@,
    {
        DataTable(entries)
    }

    /// Appends the encoding of this table to `buf`.
    pub fn encode(&self, buf: &mut Vec<u8>)
        requires
            valid_table(self@),
        ensures
            final(buf)@ == old(buf)@ + encode_table(self@),
    {
        buf.push(swap_bits(self.0.len() as u8));
        let ghost start = buf@;
        let mut i: usize = 0;
        while i < self.0.len()
            invariant
                i <= self.0@.len(),
                valid_table(self@),
                buf@ == start + encode_values(self@.take(i as int)),
            decreases self.0@.len() - i,
        {
            assert(valid_value(self@[i as int]));
            self.0[i].encode(buf);
            proof {
                lemma_encode_values_push(self@.take(i as int), self@[i as int]);
                assert(self@.take(i as int).push(self@[i as int]) =~= self@.take(i + 1));
            }
            i += 1;
        }
        assert(self@.take(i as int) =~= self@);
        assert(buf@ =~= old(buf)@ + encode_table(self@));
    }

    /// Decodes a table from the start of `buf`: the table and the number of bytes it took.
    pub fn decode(buf: &Vec<u8>) -> (r: Result<(DataTable, usize), &'static str>)
        ensures
            match r {
                Ok((t, n)) => decode_table(buf@) == Ok::<_, TableFault>((t@, n as nat)) && n
                    <= buf@.len(),
                Err(m) => decode_table(buf@) is Err && m@ == decode_table(buf@)->Err_0.message(),
            },
    {
        if buf.len() == 0 {
            return Err(TableFault::MissingCount.describe());
        }
        let count = swap_bits(buf[0]);
        let mut entries: Vec<PactType> = Vec::new();
        let mut pos: usize = 1;
        let mut k: u8 = 0;
        assert(DataTable(entries)@ =~= Seq::<Value>::empty());
        while k < count
            invariant
                k <= count,
                pos <= buf@.len(),
                count == reversed(buf@[0]),
                buf@.len() > 0,
                decode_entries(buf@, pos as nat, (count - k) as nat, DataTable(entries)@)
                    == decode_table(buf@),
            decreases count - k,
        {
            match PactType::decode_at(buf, pos) {
                Err(e) => {
                    return Err(e.describe());
                },
                Ok((v, next)) => {
                    proof {
                        assert(DataTable(entries)@.push(v@) =~= entries@.push(v).map_values(
                            |v: PactType| v@,
                        ));
                    }
                    entries.push(v);
                    pos = next;
                },
            }
            k += 1;
        }
        Ok((DataTable(entries), pos))
    }
}

proof fn lemma_encode_values_push(vs: Seq<Value>, v: Value)
    ensures
        encode_values(vs.push(v)) == encode_values(vs) + encode_value(v),
    decreases vs.len(),
{
    if vs.len() == 0 {
        assert(vs.push(v).drop_first() =~= seq![]);
        assert(vs.push(v)[0] == v);
        assert(encode_values(vs.push(v).drop_first()) == Seq::<u8>::empty());
        assert(encode_values(vs.push(v)) =~= encode_value(v));
        assert(encode_values(vs) == Seq::<u8>::empty());
    } else {
        assert(vs.push(v).drop_first() =~= vs.drop_first().push(v));
        lemma_encode_values_push(vs.drop_first(), v);
        assert(encode_values(vs.push(v)) =~= encode_values(vs) + encode_value(v));
    }
}

proof fn lemma_numeric_round_trip(x: i64)
    ensures
        numeric_of(numeric_bytes(x)) == x,
{
    let u = x as u64;
    assert(((u as u8) as u64 | (((u >> 8u64) as u8) as u64) << 8u64 | (((u >> 16u64) as u8) as u64)
        << 16u64 | (((u >> 24u64) as u8) as u64) << 24u64 | (((u >> 32u64) as u8) as u64) << 32u64
        | (((u >> 40u64) as u8) as u64) << 40u64 | (((u >> 48u64) as u8) as u64) << 48u64 | (((u
        >> 56u64) as u8) as u64) << 56u64) == u) by (bit_vector);
    assert((u as i64) == x) by (bit_vector)
        requires
            u == x as u64,
    ;
}

proof fn lemma_decode_value_encoded(b: Seq<u8>, pos: nat, v: Value)
    requires
        valid_value(v),
        pos + encode_value(v).len() <= b.len(),
        b.subrange(pos as int, pos + encode_value(v).len() as int) == encode_value(v),
    ensures
        decode_value(b, pos) == Ok::<_, TableFault>((v, pos + encode_value(v).len())),
{
    let e = encode_value(v);
    assert(b[pos as int] == b.subrange(pos as int, pos + e.len() as int)[0]);
    match v {
        Value::Numeric(x) => {
            lemma_reversed_involution(NUMERIC_TYPE_ID);
            assert(b.subrange(pos + 1int, pos + 9int) =~= numeric_bytes(x)) by {
                assert forall|i: int| 0 <= i < 8 implies b.subrange(pos + 1int, pos + 9int)[i]
                    == numeric_bytes(x)[i] by {
                    assert(b[pos + 1 + i] == b.subrange(pos as int, pos + e.len() as int)[1 + i]);
                }
            }
            lemma_numeric_round_trip(x);
        },
        Value::StringLike(s) => {
            lemma_reversed_involution(STRING_TYPE_ID);
            lemma_reversed_involution(s.len() as u8);
            assert(b[pos + 1int] == b.subrange(pos as int, pos + e.len() as int)[1]);
            assert(reversed(1u8) != 0u8) by (bit_vector);
            let n = s.len();
            assert(b.subrange(pos + 2int, pos + 2int + n as int) =~= s) by {
                assert forall|i: int| 0 <= i < n implies b.subrange(pos + 2int, pos + 2int + n as int)[i]
                    == s[i] by {
                    assert(b[pos + 2 + i] == b.subrange(pos as int, pos + e.len() as int)[2 + i]);
                }
            }
        },
    }
}

proof fn lemma_decode_entries_encoded(b: Seq<u8>, pos: nat, vs: Seq<Value>, acc: Seq<Value>)
    requires
        forall|i: int| 0 <= i < vs.len() ==> valid_value(#[trigger] vs[i]),
        pos + encode_values(vs).len() <= b.len(),
        b.subrange(pos as int, pos + encode_values(vs).len() as int) == encode_values(vs),
    ensures
        decode_entries(b, pos, vs.len(), acc) == Ok::<_, TableFault>(
            (acc + vs, pos + encode_values(vs).len()),
        ),
    decreases vs.len(),
{
    if vs.len() == 0 {
        assert(acc + vs =~= acc);
    } else {
        let e = encode_values(vs);
        let first = encode_value(vs[0]);
        let k = first.len() as int;
        assert(valid_value(vs[0]));
        assert(b.subrange(pos as int, pos + k) =~= first) by {
            assert forall|i: int| 0 <= i < k implies b.subrange(pos as int, pos + k)[i] == first[i] by {
                assert(b[pos + i] == b.subrange(pos as int, pos + e.len() as int)[i]);
            }
        }
        lemma_decode_value_encoded(b, pos, vs[0]);
        let tail = vs.drop_first();
        let te = encode_values(tail);
        let tl = te.len() as int;
        assert(b.subrange(pos + k, pos + k + tl) =~= te) by {
            assert forall|i: int| 0 <= i < tl implies b.subrange(pos + k, pos + k + tl)[i]
                == te[i] by {
                assert(b[pos + k + i] == b.subrange(pos as int, pos + e.len() as int)[k + i]);
            }
        }
        assert forall|i: int| 0 <= i < tail.len() implies valid_value(#[trigger] tail[i]) by {
            assert(tail[i] == vs[i + 1]);
        }
        lemma_decode_entries_encoded(b, (pos + k) as nat, tail, acc.push(vs[0]));
        assert(acc.push(vs[0]) + tail =~= acc + vs);
    }
}

/// A valid table followed by any bytes decodes to the same table, and the decoder reports
/// how many bytes the table took.
pub proof fn lemma_table_round_trip(t: Seq<Value>, rest: Seq<u8>)
    requires
        valid_table(t),
    ensures
        decode_table(encode_table(t) + rest) == Ok::<_, TableFault>((t, encode_table(t).len())),
{
    let b = encode_table(t) + rest;
    let e = encode_values(t);
    lemma_reversed_involution(t.len() as u8);
    assert(b[0] == reversed(t.len() as u8));
    assert(b.subrange(1, 1 + e.len() as int) =~= e);
    lemma_decode_entries_encoded(b, 1, t, seq![]);
    assert(seq![] + t =~= t);
}

} // verus!
