use pact::compiler::{compile, CompileErr};
use pact::interpreter::{interpret, InterpErr, OpComp};
use pact::lexer::{tokenize, Kw, LexErr, Token};
use pact::parser::{parse, Link, Operand, ParseErr};
use pact::types::{Contract, DataTable, Numeric, PactType, StringLike};

fn num(x: i64) -> PactType {
    PactType::Numeric(Numeric(x))
}

fn text(s: &[u8]) -> PactType {
    PactType::StringLike(StringLike(s.to_vec()))
}

fn run(source: &str, inputs: Vec<PactType>) -> Result<bool, InterpErr> {
    let ast = parse(source).unwrap();
    let contract = compile(&ast).unwrap();
    interpret(&inputs, &contract.data_table, &contract.bytecode)
}

#[test]
fn it_parses() {
    let ast =
        parse("given parameters $a, $b,  $c 5 must be less than or equal to 123").unwrap();
    println!("{:?}", ast);

    let ast = parse(
        "
      given parameters $hello
      define $world as \"world\"
      $hello must be equal to $world",
    )
    .unwrap();
    println!("{:?}", ast);

    let ast = parse("given parameters $alpha,$whiskey,$foxtrot 5 must be less than or equal to 123 and 5 must not be equal to 6 or 7 must be greater than 12 55555 must not be equal to 123").unwrap();
    println!("{:?}", ast);

    let ast = parse("given parameters $a \"hello world\" must be equal to \"dorem ipsum\" and $a must be less than or equal to 123").unwrap();
    println!("{:?}", ast);

    let ast = parse(
        "
      given parameters $charlie, $tango, $delta
      define $test as 12345
      5 must be less than or equal to 123
      \"hello world\" must be equal to \"dorem ipsum\"",
    )
    .unwrap();
    println!("{:?}", ast);
}

#[test]
fn parses_one_comparison_over_literal() {
    let ast = parse("given parameters $a, $b,  $c 5 must be less than or equal to 123").unwrap();
    assert_eq!(ast.params, vec![b"a".to_vec(), b"b".to_vec(), b"c".to_vec()]);
    assert!(ast.definitions.is_empty());
    assert_eq!(ast.predicates.len(), 1);
    let p = &ast.predicates[0];
    assert_eq!(p.link, Link::Start);
    assert_eq!(p.lhs, Operand::Literal(num(5)));
    assert_eq!(p.op, OpComp::LTE);
    assert!(!p.not);
    assert_eq!(p.rhs, Operand::Literal(num(123)));
}

#[test]
fn parameters_and_definitions_resolve_by_index() {
    let ast = parse(
        "given parameters $x, $y define $k as 7 define $s as \"hi\" $y must not be greater than $k or $x must be equal to $s",
    )
    .unwrap();
    assert_eq!(ast.definitions.len(), 2);
    assert_eq!(ast.definitions[0].name, b"k".to_vec());
    assert_eq!(ast.definitions[0].value, num(7));
    assert_eq!(ast.definitions[1].value, text(b"hi"));
    let p = &ast.predicates;
    assert_eq!(p.len(), 2);
    assert_eq!(p[0].lhs, Operand::Input(1));
    assert_eq!(p[0].op, OpComp::GT);
    assert!(p[0].not);
    assert_eq!(p[0].rhs, Operand::Defined(0));
    assert_eq!(p[1].link, Link::Or);
    assert_eq!(p[1].lhs, Operand::Input(0));
    assert_eq!(p[1].rhs, Operand::Defined(1));
}

#[test]
fn relations() {
    let ops = [
        ("equal to", OpComp::EQ),
        ("greater than", OpComp::GT),
        ("greater than or equal to", OpComp::GTE),
        ("less than", OpComp::LT),
        ("less than or equal to", OpComp::LTE),
    ];
    for (words, op) in ops {
        let src = format!("given parameters $a $a must be {} 1", words);
        let ast = parse(&src).unwrap();
        assert_eq!(ast.predicates[0].op, op);
    }
}

#[test]
fn undeclared_parameter_fails_to_parse() {
    assert_eq!(
        parse("given parameters $a $b must be equal to 1"),
        Err(ParseErr::UndeclaredName(3))
    );
}

#[test]
fn parse_errors() {
    assert_eq!(parse(""), Err(ParseErr::UnexpectedEnd));
    assert_eq!(parse("parameters $a"), Err(ParseErr::UnexpectedToken(0)));
    assert_eq!(parse("given parameters"), Err(ParseErr::UnexpectedEnd));
    assert_eq!(parse("given parameters $a, $a $a must be equal to 1"), Err(ParseErr::DuplicateName(4)));
    assert_eq!(
        parse("given parameters $a define $a as 1 $a must be equal to 1"),
        Err(ParseErr::DuplicateName(4))
    );
    assert_eq!(
        parse("given parameters $a define $k as $a $a must be equal to 1"),
        Err(ParseErr::UnexpectedToken(6))
    );
    assert_eq!(parse("given parameters $a"), Err(ParseErr::UnexpectedEnd));
    assert_eq!(parse("given parameters $a $a must equal 1"), Err(ParseErr::UnexpectedToken(5)));
    assert_eq!(parse("given parameters $a $a must be equal 1"), Err(ParseErr::UnexpectedToken(7)));
    assert_eq!(parse("given parameters $a $a must be equal to"), Err(ParseErr::UnexpectedEnd));
    assert_eq!(parse("given parameters $a $a must be equal to 1 and"), Err(ParseErr::UnexpectedEnd));
}

#[test]
fn lex_errors() {
    assert_eq!(parse("given parameters $"), Err(ParseErr::Lex(LexErr::EmptyParamName(17))));
    assert_eq!(parse("given ?"), Err(ParseErr::Lex(LexErr::UnexpectedByte(6))));
    assert_eq!(parse("given \"abc"), Err(ParseErr::Lex(LexErr::UnterminatedString(6))));
    assert_eq!(parse("9223372036854775808"), Err(ParseErr::Lex(LexErr::IntTooLarge(0))));
}

#[test]
fn tokens() {
    assert_eq!(
        tokenize(b" given $a_1,9223372036854775807 \"x y\" foo"),
        Ok(vec![
            Token::Keyword(Kw::Given),
            Token::Param(b"a_1".to_vec()),
            Token::Comma,
            Token::Int(i64::MAX),
            Token::Str(b"x y".to_vec()),
            Token::Word(b"foo".to_vec()),
        ])
    );
}

#[test]
fn distinct_parameters_get_declaration_order_indices() {
    let ast = parse("given parameters $p, $q, $r $r must be equal to $q and $p must be equal to 1").unwrap();
    assert_eq!(ast.predicates[0].lhs, Operand::Input(2));
    assert_eq!(ast.predicates[0].rhs, Operand::Input(1));
    assert_eq!(ast.predicates[1].lhs, Operand::Input(0));
    let contract = compile(&ast).unwrap();
    // INPUT_VS_INPUT EQ (2, 1); INPUT_VS_USER EQ (0, 0); AND
    assert_eq!(contract.bytecode, vec![0x10, 0x21, 0x00, 0x00, 0x20]);
    assert_eq!(contract.data_table, DataTable::new(vec![num(1)]));
}

#[test]
fn repeated_literal_gets_its_own_entry() {
    let ast = parse("given parameters $a $a must be greater than 5 and $a must be less than 5 or $a must be equal to 5").unwrap();
    let contract = compile(&ast).unwrap();
    assert_eq!(contract.data_table, DataTable::new(vec![num(5), num(5), num(5)]));
    assert_eq!(contract.bytecode, vec![0x04, 0x00, 0x02, 0x01, 0x20, 0x00, 0x02, 0x21]);
    assert_eq!(interpret(&vec![num(5)], &contract.data_table, &contract.bytecode), Ok(true));
    assert_eq!(interpret(&vec![num(6)], &contract.data_table, &contract.bytecode), Ok(false));
}

#[test]
fn constant_on_the_left_is_mirrored() {
    let src = "given parameters $a 5 must be less than $a";
    assert_eq!(run(src, vec![num(6)]), Ok(true));
    assert_eq!(run(src, vec![num(5)]), Ok(false));
    let contract = compile(&parse(src).unwrap()).unwrap();
    assert_eq!(contract.bytecode, vec![0x04, 0x00]);
}

#[test]
fn assertions_without_connective_all_hold() {
    let src = "given parameters $a $a must be greater than 1 $a must be less than 3 or $a must be equal to 10";
    let contract = compile(&parse(src).unwrap()).unwrap();
    assert_eq!(contract.bytecode, vec![0x04, 0x00, 0x02, 0x01, 0x00, 0x02, 0x21, 0x20]);
    assert_eq!(run(src, vec![num(2)]), Ok(true));
    assert_eq!(run(src, vec![num(10)]), Ok(true));
    assert_eq!(run(src, vec![num(5)]), Ok(false));
    assert_eq!(run(src, vec![num(0)]), Ok(false));
}

#[test]
fn defined_string_constant() {
    let src = "given parameters $hello define $world as \"world\" $hello must be equal to $world";
    assert_eq!(run(src, vec![text(b"world")]), Ok(true));
    assert_eq!(run(src, vec![text(b"earth")]), Ok(false));
}

#[test]
fn compile_errors() {
    let ast = parse("given parameters $a 5 must be less than or equal to 123").unwrap();
    assert_eq!(compile(&ast), Err(CompileErr::NoParameter(0)));
    let long = format!("given parameters $a $a must be equal to \"{}\"", "x".repeat(256));
    assert_eq!(compile(&parse(&long).unwrap()), Err(CompileErr::ConstantTooLong(0)));
    let mut many = String::from("given parameters $a");
    for _ in 0..17 {
        many.push_str(" $a must be equal to 1");
    }
    assert_eq!(compile(&parse(&many).unwrap()), Err(CompileErr::IndexTooLarge(16)));
}

#[test]
fn compiled_contract_round_trips() {
    let src = "given parameters $a, $b $a must be equal to \"ok\" and $b must not be less than 0";
    let contract = compile(&parse(src).unwrap()).unwrap();
    let mut buf = vec![];
    contract.encode(&mut buf);
    let decoded = Contract::decode(&buf).unwrap();
    assert_eq!(decoded, contract);
    assert_eq!(decoded.evaluate(&vec![text(b"ok"), num(0)]), Ok(true));
    assert_eq!(decoded.evaluate(&vec![text(b"ok"), num(-1)]), Ok(false));
}
