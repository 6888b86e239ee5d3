use pact::interpreter::{Comparator, Conjunction, OpCode, OpComp, OpConj, OpIndices, OpLoad};
use pact::types::{BinaryFormatErr, Contract, DataTable, Numeric, PactType, StringLike};

#[test]
fn contract_binary_format_unsupported_version() {
    assert_eq!(
        Contract::decode([1, 0].to_vec().as_ref()),
        Err(BinaryFormatErr::UnsupportedVersion)
    );
}

#[test]
fn contract_binary_format_too_short() {
    assert_eq!(
        Contract::decode([0].to_vec().as_ref()),
        Err(BinaryFormatErr::TooShort)
    );
}

#[test]
fn contract_encode_1() {
    let contract = Contract {
        data_table: DataTable::new(vec![
            PactType::Numeric(Numeric(10)),
            PactType::Numeric(Numeric(20)),
        ]),
        bytecode: vec![OpCode::COMP(Comparator::new(OpComp::EQ)).into(), 0x00],
    };
    let mut encoded_payload = vec![];
    contract.encode(&mut encoded_payload);
    println!("{:?}", encoded_payload);
}

#[test]
fn contract_encode_2() {
    let contract = Contract {
        data_table: DataTable::new(vec![
            PactType::Numeric(Numeric(10)),
            PactType::StringLike(StringLike(b"hello, world".to_vec())),
        ]),
        bytecode: vec![
            OpCode::COMP(Comparator::new(OpComp::EQ)).into(),
            0x00,
            OpCode::COMP(Comparator::new(OpComp::EQ)).into(),
            0x11,
        ],
    };
    let mut encoded_payload = vec![];
    contract.encode(&mut encoded_payload);
    println!("{:?}", encoded_payload);
}

#[test]
fn contract_encode_3() {
    let contract = Contract {
        data_table: DataTable::new(vec![
            PactType::Numeric(Numeric(10)),
            PactType::StringLike(StringLike(b"hello, world".to_vec())),
        ]),
        bytecode: vec![
            OpCode::COMP(Comparator::new(OpComp::EQ).invert()).into(),
            0x00,
            OpCode::COMP(Comparator::new(OpComp::EQ).load(OpLoad::INPUT_VS_INPUT)).into(),
            0x11,
        ],
    };
    let mut encoded_payload = vec![];
    contract.encode(&mut encoded_payload);
    println!("{:?}", encoded_payload);
}

#[test]
fn contract_encode_4() {
    let contract = Contract {
        data_table: DataTable::new(vec![
            PactType::Numeric(Numeric(10)),
            PactType::Numeric(Numeric(20)),
        ]),
        bytecode: vec![
            OpCode::COMP(Comparator::new(OpComp::EQ)).into(),
            0x00,
            OpCode::CONJ(Conjunction::new(OpConj::AND)).into(),
        ],
    };
    let mut encoded_payload = vec![];
    contract.encode(&mut encoded_payload);
    println!("{:?}", encoded_payload);
}

#[test]
fn contract_binary_format_codec() {
    let expected = Contract {
        data_table: DataTable::new(vec![
            PactType::Numeric(Numeric(111)),
            PactType::Numeric(Numeric(333)),
            PactType::StringLike(StringLike(b"testing".to_vec())),
        ]),
        bytecode: [
            // EQ LD_INPUT(0) LD_USER(0)
            OpCode::COMP(Comparator {
                load: OpLoad::INPUT_VS_USER,
                op: OpComp::EQ,
                indices: OpIndices { lhs: 1, rhs: 0 },
                invert: false,
            })
            .into(),
            0x10,
            // EQ LD_INPUT(1) LD_USER(1)
            OpCode::COMP(Comparator {
                load: OpLoad::INPUT_VS_USER,
                op: OpComp::EQ,
                indices: OpIndices { lhs: 1, rhs: 1 },
                invert: false,
            })
            .into(),
            0x11,
        ]
        .to_vec(),
    };

    let mut buf: Vec<u8> = Vec::new();
    expected.encode(&mut buf);

    let result = Contract::decode(&buf).expect("it decodes");

    assert_eq!(result, expected);
}

#[test]
fn contract_binary_format_malformed_data_table() {
    let malformed_short: Vec<u8> = vec![0, 1];
    assert_eq!(
        Contract::decode(&malformed_short),
        Err(BinaryFormatErr::MalformedDataTable("missing type ID byte"))
    );

    let bad_type_id = vec![0, 0b1000_0000, 0b0000_0001, 0b0000_0000];
    assert_eq!(
        Contract::decode(&bad_type_id),
        Err(BinaryFormatErr::MalformedDataTable("unsupported type ID"))
    );

    let numeric_too_small = vec![0, 0b1000_0000, 0b1000_0000, 0b0100_0000, 0, 0];
    assert_eq!(
        Contract::decode(&numeric_too_small),
        Err(BinaryFormatErr::MalformedDataTable(
            "implementation only supports 64-bit numerics"
        ))
    );
}

#[test]
fn encoding_is_exact() {
    let contract = Contract {
        data_table: DataTable::new(vec![
            PactType::Numeric(Numeric(10)),
            PactType::StringLike(StringLike(b"hi".to_vec())),
        ]),
        bytecode: vec![0x00, 0x00],
    };
    let mut buf = vec![];
    contract.encode(&mut buf);
    assert_eq!(
        buf,
        vec![0, 0b0100_0000, 0b1000_0000, 10, 0, 0, 0, 0, 0, 0, 0, 0, 0b0100_0000, b'h', b'i', 0, 0]
    );
}

#[test]
fn encode_appends_to_buffer() {
    let contract = Contract {
        data_table: DataTable::new(vec![]),
        bytecode: vec![7],
    };
    let mut buf = vec![9, 9];
    contract.encode(&mut buf);
    assert_eq!(buf, vec![9, 9, 0, 0, 7]);
}

#[test]
fn round_trip_negative_numbers_and_empty_strings() {
    let contract = Contract {
        data_table: DataTable::new(vec![
            PactType::Numeric(Numeric(-1)),
            PactType::Numeric(Numeric(i64::MIN)),
            PactType::Numeric(Numeric(i64::MAX)),
            PactType::StringLike(StringLike(vec![])),
            PactType::StringLike(StringLike(vec![0xff; 255])),
        ]),
        bytecode: vec![],
    };
    let mut buf = vec![];
    contract.encode(&mut buf);
    assert_eq!(Contract::decode(&buf), Ok(contract));
}

#[test]
fn round_trip_empty_table() {
    let contract = Contract {
        data_table: DataTable::new(vec![]),
        bytecode: vec![0x20, 0x21],
    };
    let mut buf = vec![];
    contract.encode(&mut buf);
    assert_eq!(buf, vec![0, 0, 0x20, 0x21]);
    assert_eq!(Contract::decode(&buf), Ok(contract));
}

#[test]
fn decode_reads_version_bit_reversed() {
    // 0b0000_0001 reversed is 0b1000_0000, not version 0.
    assert_eq!(Contract::decode(&vec![0b0000_0001, 0]), Err(BinaryFormatErr::UnsupportedVersion));
    assert_eq!(Contract::decode(&vec![0b1000_0000, 0]), Err(BinaryFormatErr::UnsupportedVersion));
    let ok = Contract::decode(&vec![0, 0]).unwrap();
    assert_eq!(ok.data_table, DataTable::new(vec![]));
    assert!(ok.bytecode.is_empty());
}

#[test]
fn decode_string_errors() {
    assert_eq!(
        Contract::decode(&vec![0, 0b1000_0000, 0]),
        Err(BinaryFormatErr::MalformedDataTable("missing string length byte"))
    );
    assert_eq!(
        Contract::decode(&vec![0, 0b1000_0000, 0, 0b0100_0000, b'a']),
        Err(BinaryFormatErr::MalformedDataTable("string payload too short"))
    );
}

#[test]
fn data_table_decode_reports_length_and_errors() {
    assert_eq!(DataTable::decode(&vec![]), Err("missing entry count byte"));
    let (table, n) = DataTable::decode(&vec![0b1000_0000, 0, 0b1000_0000, b'x', 1, 2]).unwrap();
    assert_eq!(table, DataTable::new(vec![PactType::StringLike(StringLike(b"x".to_vec()))]));
    assert_eq!(n, 4);
}

#[test]
fn decode_keeps_trailing_bytes_as_bytecode() {
    let buf = vec![0, 0b1000_0000, 0b1000_0000, 44, 1, 0, 0, 0, 0, 0, 0, 0x02, 0x03];
    let c = Contract::decode(&buf).unwrap();
    assert_eq!(c.data_table, DataTable::new(vec![PactType::Numeric(Numeric(300))]));
    assert_eq!(c.bytecode, vec![0x02, 0x03]);
}

#[test]
fn reencode_is_byte_identical() {
    let contract = Contract {
        data_table: DataTable::new(vec![
            PactType::Numeric(Numeric(111)),
            PactType::Numeric(Numeric(333)),
            PactType::StringLike(StringLike(b"testing".to_vec())),
        ]),
        bytecode: vec![
            OpCode::COMP(Comparator::new(OpComp::EQ)).into(),
            0x00,
            OpCode::COMP(Comparator::new(OpComp::EQ)).into(),
            0x11,
        ],
    };
    let mut first = vec![];
    contract.encode(&mut first);
    let decoded = Contract::decode(&first).unwrap();
    assert_eq!(decoded, contract);
    let mut second = vec![];
    decoded.encode(&mut second);
    assert_eq!(first, second);
}
