//! Parses rule source text into a syntax tree.
//!
//! ```text
//! program    := "given" "parameters" $name ("," $name)* definition* predicate+
//! definition := "define" $name "as" literal
//! predicate  := operand "must" ["not"] "be" relation operand ["and" | "or"]
//! relation   := "equal" "to"
//!             | ("greater" | "less") "than" ["or" "equal" "to"]
//! operand    := $name | integer | "string"
//! ```
//!
//! A predicate followed by `and` or `or` is joined to the next one by that connective;
//! connectives apply left to right with equal precedence. A predicate with no connective
//! before it starts a new assertion, and every assertion must hold.
use crate::interpreter::{bytes_equal, OpComp};
use crate::lexer::{tokenize, toks_of, Kw, LexErr, Tok, Token};
use crate::types::{copy_bytes, Numeric, PactType, StringLike, Value};
use vstd::prelude::*;
use vstd::string::StringSliceAdditionalSpecFns;

verus! {

/// An operand of a predicate.
#[derive(Debug, PartialEq, Eq)]
pub enum Operand {
    /// The parameter with this index, in declaration order.
    Input(usize),
    /// The definition with this index, in definition order.
    Defined(usize),
    /// A literal value.
    Literal(PactType),
}

/// The model of an operand.
pub enum OperandModel {
    Input(nat),
    Defined(nat),
    Literal(Value),
}

impl View for Operand {
    type V = OperandModel;

    open spec fn view(&self) -> OperandModel {
        match self {
            Operand::Input(i) => OperandModel::Input(*i as nat),
            Operand::Defined(i) => OperandModel::Defined(*i as nat),
            Operand::Literal(v) => OperandModel::Literal(v@),
        }
    }
}

/// How a predicate is joined to the one before it.
#[derive(Debug, PartialEq, Eq, Clone, Copy, Structural)]
pub enum Link {
    /// It starts a new assertion.
    Start,
    And,
    Or,
}

/// A comparison: `lhs must [not] be <op> rhs`.
#[derive(Debug, PartialEq, Eq)]
pub struct Predicate {
    pub link: Link,
    pub lhs: Operand,
    pub op: OpComp,
    pub not: bool,
    pub rhs: Operand,
}

/// The model of a predicate.
pub struct PredicateModel {
    pub link: Link,
    pub lhs: OperandModel,
    pub op: OpComp,
    pub not: bool,
    pub rhs: OperandModel,
}

impl View for Predicate {
    type V = PredicateModel;

    open spec fn view(&self) -> PredicateModel {
        PredicateModel {
            link: self.link,
            lhs: self.lhs@,
            op: self.op,
            not: self.not,
            rhs: self.rhs@,
        }
    }
}

/// A named constant.
#[derive(Debug, PartialEq, Eq)]
pub struct Definition {
    pub name: Vec<u8>,
    pub value: PactType,
}

/// A parsed program.
#[derive(Debug, PartialEq, Eq)]
pub struct Ast {
    pub params: Vec<Vec<u8>>,
    pub definitions: Vec<Definition>,
    pub predicates: Vec<Predicate>,
}

/// The model of a parsed program.
pub struct AstModel {
    pub params: Seq<Seq<u8>>,
    pub defs: Seq<(Seq<u8>, Value)>,
    pub preds: Seq<PredicateModel>,
}

pub open spec fn names_of(v: Seq<Vec<u8>>) -> Seq<Seq<u8>> {
    v.map_values(|n: Vec<u8>| n@)
}

pub open spec fn defs_of(v: Seq<Definition>) -> Seq<(Seq<u8>, Value)> {
    v.map_values(|d: Definition| (d.name@, d.value@))
}

pub open spec fn preds_of(v: Seq<Predicate>) -> Seq<PredicateModel> {
    v.map_values(|p: Predicate| p@)
}

impl View for Ast {
    type V = AstModel;

    open spec fn view(&self) -> AstModel {
        AstModel {
            params: names_of(self.params@),
            defs: defs_of(self.definitions@),
            preds: preds_of(self.predicates@),
        }
    }
}

/// Why source text could not be parsed.
#[derive(Debug, PartialEq, Eq, Clone, Copy)]
pub enum ParseErr {
    /// The text could not be split into tokens.
    Lex(LexErr),
    /// The token with this index is not what the grammar allows there.
    UnexpectedToken(usize),
    /// The text ended where the grammar wants more.
    UnexpectedEnd,
    /// The name at this token index is already declared.
    DuplicateName(usize),
    /// The name at this token index is neither a parameter nor a definition.
    UndeclaredName(usize),
}

/// The first index at or after `i` where `names` holds `n`.
pub open spec fn find(names: Seq<Seq<u8>>, n: Seq<u8>, i: nat) -> Option<nat>
    decreases names.len() - i,
{
    if i >= names.len() {
        None
    } else if names[i as int] == n {
        Some(i)
    } else {
        find(names, n, i + 1)
    }
}

pub open spec fn def_names(defs: Seq<(Seq<u8>, Value)>) -> Seq<Seq<u8>> {
    defs.map_values(|d: (Seq<u8>, Value)| d.0)
}

/// Token `pos` is the reserved word `k`.
pub open spec fn kw_at(ts: Seq<Tok>, pos: nat, k: Kw) -> bool {
    pos < ts.len() && ts[pos as int] == Tok::Keyword(k)
}

/// The error for a missing or wrong token at `pos`.
pub open spec fn expected_at(ts: Seq<Tok>, pos: nat) -> ParseErr {
    if pos >= ts.len() {
        ParseErr::UnexpectedEnd
    } else {
        ParseErr::UnexpectedToken(pos as usize)
    }
}

/// The declared parameter names from `pos` on, after the names `acc`, and the position
/// after the list.
pub open spec fn parse_params(ts: Seq<Tok>, pos: nat, acc: Seq<Seq<u8>>) -> Result<
    (Seq<Seq<u8>>, nat),
    ParseErr,
>
    decreases ts.len() - pos,
{
    if pos >= ts.len() {
        Err(ParseErr::UnexpectedEnd)
    } else {
        match ts[pos as int] {
            Tok::Param(n) => if find(acc, n, 0) is Some {
                Err(ParseErr::DuplicateName(pos as usize))
            } else if pos + 1 < ts.len() && ts[pos + 1int] == Tok::Comma {
                parse_params(ts, pos + 2, acc.push(n))
            } else {
                Ok((acc.push(n), pos + 1))
            },
            _ => Err(ParseErr::UnexpectedToken(pos as usize)),
        }
    }
}

/// The literal value at token `pos`, if it is one.
pub open spec fn literal_at(ts: Seq<Tok>, pos: nat) -> Option<Value> {
    if pos >= ts.len() {
        None
    } else {
        match ts[pos as int] {
            Tok::Int(n) => Some(Value::Numeric(n)),
            Tok::Str(s) => Some(Value::StringLike(s)),
            _ => None,
        }
    }
}

/// The definitions from `pos` on, after the definitions `acc`, and the position after them.
pub open spec fn parse_defs(
    ts: Seq<Tok>,
    pos: nat,
    params: Seq<Seq<u8>>,
    acc: Seq<(Seq<u8>, Value)>,
) -> Result<(Seq<(Seq<u8>, Value)>, nat), ParseErr>
    decreases ts.len() - pos,
{
    if !kw_at(ts, pos, Kw::Define) {
        Ok((acc, pos))
    } else if pos + 1 >= ts.len() {
        Err(ParseErr::UnexpectedEnd)
    } else {
        match ts[pos + 1int] {
            Tok::Param(n) => if find(params, n, 0) is Some || find(def_names(acc), n, 0) is Some {
                Err(ParseErr::DuplicateName((pos + 1) as usize))
            } else if !kw_at(ts, pos + 2, Kw::As) {
                Err(expected_at(ts, pos + 2))
            } else {
                match literal_at(ts, pos + 3) {
                    None => Err(expected_at(ts, pos + 3)),
                    Some(v) => parse_defs(ts, pos + 4, params, acc.push((n, v))),
                }
            },
            _ => Err(ParseErr::UnexpectedToken((pos + 1) as usize)),
        }
    }
}

/// The operand at token `pos`.
pub open spec fn operand_at(
    ts: Seq<Tok>,
    pos: nat,
    params: Seq<Seq<u8>>,
    defs: Seq<(Seq<u8>, Value)>,
) -> Result<OperandModel, ParseErr> {
    if pos >= ts.len() {
        Err(ParseErr::UnexpectedEnd)
    } else {
        match ts[pos as int] {
            Tok::Param(n) => match find(params, n, 0) {
                Some(i) => Ok(OperandModel::Input(i)),
                None => match find(def_names(defs), n, 0) {
                    Some(i) => Ok(OperandModel::Defined(i)),
                    None => Err(ParseErr::UndeclaredName(pos as usize)),
                },
            },
            Tok::Int(n) => Ok(OperandModel::Literal(Value::Numeric(n))),
            Tok::Str(s) => Ok(OperandModel::Literal(Value::StringLike(s))),
            _ => Err(ParseErr::UnexpectedToken(pos as usize)),
        }
    }
}

/// The relation that starts at token `pos`, and the position after it.
pub open spec fn relation_at(ts: Seq<Tok>, pos: nat) -> Result<(OpComp, nat), ParseErr> {
    if kw_at(ts, pos, Kw::Equal) {
        if kw_at(ts, pos + 1, Kw::To) {
            Ok((OpComp::EQ, pos + 2))
        } else {
            Err(expected_at(ts, pos + 1))
        }
    } else if kw_at(ts, pos, Kw::Greater) || kw_at(ts, pos, Kw::Less) {
        let greater = kw_at(ts, pos, Kw::Greater);
        if !kw_at(ts, pos + 1, Kw::Than) {
            Err(expected_at(ts, pos + 1))
        } else if kw_at(ts, pos + 2, Kw::Or) && kw_at(ts, pos + 3, Kw::Equal) && kw_at(
            ts,
            pos + 4,
            Kw::To,
        ) {
            Ok(
                (
                    if greater {
                        OpComp::GTE
                    } else {
                        OpComp::LTE
                    },
                    pos + 5,
                ),
            )
        } else {
            Ok(
                (
                    if greater {
                        OpComp::GT
                    } else {
                        OpComp::LT
                    },
                    pos + 2,
                ),
            )
        }
    } else {
        Err(expected_at(ts, pos))
    }
}

/// The predicate that starts at token `pos`, joined by `link`, and the position after it.
pub open spec fn predicate_at(
    ts: Seq<Tok>,
    pos: nat,
    params: Seq<Seq<u8>>,
    defs: Seq<(Seq<u8>, Value)>,
    link: Link,
) -> Result<(PredicateModel, nat), ParseErr> {
    match operand_at(ts, pos, params, defs) {
        Err(e) => Err(e),
        Ok(lhs) => if !kw_at(ts, pos + 1, Kw::Must) {
            Err(expected_at(ts, pos + 1))
        } else {
            let not = kw_at(ts, pos + 2, Kw::Not);
            let be = if not {
                pos + 3
            } else {
                pos + 2
            };
            if !kw_at(ts, be, Kw::Be) {
                Err(expected_at(ts, be))
            } else {
                match relation_at(ts, be + 1) {
                    Err(e) => Err(e),
                    Ok((op, at)) => match operand_at(ts, at, params, defs) {
                        Err(e) => Err(e),
                        Ok(rhs) => Ok((PredicateModel { link, lhs, op, not, rhs }, at + 1)),
                    },
                }
            }
        },
    }
}

/// A predicate ends after it starts.
pub proof fn lemma_predicate_advances(
    ts: Seq<Tok>,
    pos: nat,
    params: Seq<Seq<u8>>,
    defs: Seq<(Seq<u8>, Value)>,
    link: Link,
)
    ensures
        predicate_at(ts, pos, params, defs, link) matches Ok((_, next)) ==> pos < next <= ts.len(),
{
}

/// The predicates from `pos` on, the first joined by `link`, after the predicates `acc`.
pub open spec fn parse_preds(
    ts: Seq<Tok>,
    pos: nat,
    params: Seq<Seq<u8>>,
    defs: Seq<(Seq<u8>, Value)>,
    link: Link,
    acc: Seq<PredicateModel>,
) -> Result<Seq<PredicateModel>, ParseErr>
    decreases ts.len() - pos,
{
    match predicate_at(ts, pos, params, defs, link) {
        Err(e) => Err(e),
        Ok((p, next)) => {
            proof {
                lemma_predicate_advances(ts, pos, params, defs, link);
            }
            let acc = acc.push(p);
            if next >= ts.len() {
                Ok(acc)
            } else if kw_at(ts, next, Kw::And) {
                parse_preds(ts, next + 1, params, defs, Link::And, acc)
            } else if kw_at(ts, next, Kw::Or) {
                parse_preds(ts, next + 1, params, defs, Link::Or, acc)
            } else {
                parse_preds(ts, next, params, defs, Link::Start, acc)
            }
        },
    }
}

/// The program spelled by the tokens `ts`.
pub open spec fn parse_program(ts: Seq<Tok>) -> Result<AstModel, ParseErr> {
    if !kw_at(ts, 0, Kw::Given) {
        Err(expected_at(ts, 0))
    } else if !kw_at(ts, 1, Kw::Parameters) {
        Err(expected_at(ts, 1))
    } else {
        match parse_params(ts, 2, seq![]) {
            Err(e) => Err(e),
            Ok((params, p)) => match parse_defs(ts, p, params, seq![]) {
                Err(e) => Err(e),
                Ok((defs, q)) => match parse_preds(ts, q, params, defs, Link::Start, seq![]) {
                    Err(e) => Err(e),
                    Ok(preds) => Ok(AstModel { params, defs, preds }),
                },
            },
        }
    }
}

/// The program spelled by the source bytes `b`.
pub open spec fn parse_source(b: Seq<u8>) -> Result<AstModel, ParseErr> {
    match crate::lexer::tokens_of(b) {
        Err(e) => Err(ParseErr::Lex(e)),
        Ok(ts) => parse_program(ts),
    }
}

/// Whether token `pos` is the reserved word `k`.
fn is_kw(ts: &Vec<Token>, pos: usize, k: Kw) -> (r: bool)
    ensures
        r == kw_at(toks_of(ts@), pos as nat, k),
        r ==> pos < ts@.len(),
        ts@.len() <= usize::MAX,
{
    if pos >= ts.len() {
        return false;
    }
    match &ts[pos] {
        Token::Keyword(x) => *x == k,
        _ => false,
    }
}

/// Whether token `pos` is a comma.
fn is_comma(ts: &Vec<Token>, pos: usize) -> (r: bool)
    ensures
        r == (pos < ts@.len() && toks_of(ts@)[pos as int] == Tok::Comma),
{
    if pos >= ts.len() {
        return false;
    }
    match &ts[pos] {
        Token::Comma => true,
        _ => false,
    }
}

/// The error for a missing or wrong token at `pos`.
fn expected(ts: &Vec<Token>, pos: usize) -> (r: ParseErr)
    ensures
        r == expected_at(toks_of(ts@), pos as nat),
{
    if pos >= ts.len() {
        ParseErr::UnexpectedEnd
    } else {
        ParseErr::UnexpectedToken(pos)
    }
}

/// Where `names` first holds `n`.
fn find_name(names: &Vec<Vec<u8>>, n: &Vec<u8>) -> (r: Option<usize>)
    ensures
        match r {
            Some(i) => find(names_of(names@), n@, 0) == Some(i as nat),
            None => find(names_of(names@), n@, 0) is None,
        },
{
    let mut i: usize = 0;
    while i < names.len()
        invariant
            i <= names@.len(),
            find(names_of(names@), n@, i as nat) == find(names_of(names@), n@, 0),
        decreases names@.len() - i,
    {
        if bytes_equal(&names[i], n) {
            return Some(i);
        }
        i += 1;
    }
    None
}

/// Where `defs` first defines `n`.
fn find_def(defs: &Vec<Definition>, n: &Vec<u8>) -> (r: Option<usize>)
    ensures
        match r {
            Some(i) => find(def_names(defs_of(defs@)), n@, 0) == Some(i as nat),
            None => find(def_names(defs_of(defs@)), n@, 0) is None,
        },
{
    let ghost names = def_names(defs_of(defs@));
    let mut i: usize = 0;
    while i < defs.len()
        invariant
            i <= defs@.len(),
            names == def_names(defs_of(defs@)),
            find(names, n@, i as nat) == find(names, n@, 0),
        decreases defs@.len() - i,
    {
        assert(names[i as int] == defs@[i as int].name@);
        if bytes_equal(&defs[i].name, n) {
            return Some(i);
        }
        i += 1;
    }
    None
}

/// Reads the parameter list that starts at token `start`.
fn read_params(ts: &Vec<Token>, start: usize) -> (r: Result<(Vec<Vec<u8>>, usize), ParseErr>)
    requires
        start <= ts@.len(),
    ensures
        match r {
            Ok((ns, p)) => parse_params(toks_of(ts@), start as nat, seq![]) == Ok::<_, ParseErr>(
                (names_of(ns@), p as nat),
            ) && p <= ts@.len(),
            Err(e) => parse_params(toks_of(ts@), start as nat, seq![]) == Err::<
                (Seq<Seq<u8>>, nat),
                _,
            >(e),
        },
{
    let ghost t = toks_of(ts@);
    let mut names: Vec<Vec<u8>> = Vec::new();
    let mut pos: usize = start;
    assert(names_of(names@) =~= Seq::<Seq<u8>>::empty());
    loop
        invariant
            t == toks_of(ts@),
            pos <= ts@.len(),
            parse_params(t, pos as nat, names_of(names@)) == parse_params(t, start as nat, seq![]),
        decreases ts@.len() - pos,
    {
        if pos >= ts.len() {
            return Err(ParseErr::UnexpectedEnd);
        }
        match &ts[pos] {
            Token::Param(n) => {
                if find_name(&names, n).is_some() {
                    return Err(ParseErr::DuplicateName(pos));
                }
                let ghost before = names_of(names@);
                names.push(copy_bytes(n));
                assert(names_of(names@) =~= before.push(n@));
                if is_comma(ts, pos + 1) {
                    pos = pos + 2;
                } else {
                    return Ok((names, pos + 1));
                }
            },
            _ => {
                return Err(ParseErr::UnexpectedToken(pos));
            },
        }
    }
}

/// The literal value at token `pos`, if it is one.
fn read_literal(ts: &Vec<Token>, pos: usize) -> (r: Option<PactType>)
    ensures
        match r {
            Some(v) => literal_at(toks_of(ts@), pos as nat) == Some(v@),
            None => literal_at(toks_of(ts@), pos as nat) is None,
        },
{
    if pos >= ts.len() {
        return None;
    }
    match &ts[pos] {
        Token::Int(n) => Some(PactType::Numeric(Numeric(*n))),
        Token::Str(s) => Some(PactType::StringLike(StringLike(copy_bytes(s)))),
        _ => None,
    }
}

/// Reads the definitions that start at token `start`.
fn read_defs(ts: &Vec<Token>, start: usize, params: &Vec<Vec<u8>>) -> (r: Result<
    (Vec<Definition>, usize),
    ParseErr,
>)
    requires
        start <= ts@.len(),
    ensures
        match r {
            Ok((ds, p)) => parse_defs(toks_of(ts@), start as nat, names_of(params@), seq![])
                == Ok::<_, ParseErr>((defs_of(ds@), p as nat)) && p <= ts@.len(),
            Err(e) => parse_defs(toks_of(ts@), start as nat, names_of(params@), seq![]) == Err::<
                (Seq<(Seq<u8>, Value)>, nat),
                _,
            >(e),
        },
{
    let ghost t = toks_of(ts@);
    let ghost ps = names_of(params@);
    let mut defs: Vec<Definition> = Vec::new();
    let mut pos: usize = start;
    assert(defs_of(defs@) =~= Seq::<(Seq<u8>, Value)>::empty());
    loop
        invariant
            t == toks_of(ts@),
            ps == names_of(params@),
            pos <= ts@.len(),
            parse_defs(t, pos as nat, ps, defs_of(defs@)) == parse_defs(t, start as nat, ps, seq![]),
        decreases ts@.len() - pos,
    {
            if !is_kw(ts, pos, Kw::Define) {
            return Ok((defs, pos));
        }
        if pos + 1 >= ts.len() {
            return Err(ParseErr::UnexpectedEnd);
        }
        match &ts[pos + 1] {
            Token::Param(n) => {
                if find_name(params, n).is_some() || find_def(&defs, n).is_some() {
                    return Err(ParseErr::DuplicateName(pos + 1));
                }
                if !is_kw(ts, pos + 2, Kw::As) {
                    return Err(expected(ts, pos + 2));
                }
                match read_literal(ts, pos + 3) {
                    None => {
                        return Err(expected(ts, pos + 3));
                    },
                    Some(v) => {
                        let ghost before = defs_of(defs@);
                        let ghost entry = (n@, v@);
                        defs.push(Definition { name: copy_bytes(n), value: v });
                        assert(defs_of(defs@) =~= before.push(entry));
                        pos = pos + 4;
                    },
                }
            },
            _ => {
                return Err(ParseErr::UnexpectedToken(pos + 1));
            },
        }
    }
}

/// Reads the operand at token `pos`.
fn read_operand(ts: &Vec<Token>, pos: usize, params: &Vec<Vec<u8>>, defs: &Vec<Definition>) -> (r:
    Result<Operand, ParseErr>)
    ensures
        r is Ok ==> pos < ts@.len(),
        ts@.len() <= usize::MAX,
        match r {
            Ok(o) => operand_at(toks_of(ts@), pos as nat, names_of(params@), defs_of(defs@))
                == Ok::<_, ParseErr>(o@),
            Err(e) => operand_at(toks_of(ts@), pos as nat, names_of(params@), defs_of(defs@))
                == Err::<OperandModel, _>(e),
        },
{
    if pos >= ts.len() {
        return Err(ParseErr::UnexpectedEnd);
    }
    match &ts[pos] {
        Token::Param(n) => match find_name(params, n) {
            Some(i) => Ok(Operand::Input(i)),
            None => match find_def(defs, n) {
                Some(i) => Ok(Operand::Defined(i)),
                None => Err(ParseErr::UndeclaredName(pos)),
            },
        },
        Token::Int(n) => Ok(Operand::Literal(PactType::Numeric(Numeric(*n)))),
        Token::Str(s) => Ok(Operand::Literal(PactType::StringLike(StringLike(copy_bytes(s))))),
        _ => Err(ParseErr::UnexpectedToken(pos)),
    }
}

/// Reads the relation at token `pos`, and the position after it.
fn read_relation(ts: &Vec<Token>, pos: usize) -> (r: Result<(OpComp, usize), ParseErr>)
    requires
        pos <= ts@.len(),
    ensures
        match r {
            Ok((op, p)) => relation_at(toks_of(ts@), pos as nat) == Ok::<_, ParseErr>(
                (op, p as nat),
            ) && p <= ts@.len(),
            Err(e) => relation_at(toks_of(ts@), pos as nat) == Err::<(OpComp, nat), _>(e),
        },
{
    if is_kw(ts, pos, Kw::Equal) {
        if is_kw(ts, pos + 1, Kw::To) {
            return Ok((OpComp::EQ, pos + 2));
        }
        return Err(expected(ts, pos + 1));
    }
    let greater = is_kw(ts, pos, Kw::Greater);
    if !greater && !is_kw(ts, pos, Kw::Less) {
        return Err(expected(ts, pos));
    }
    if !is_kw(ts, pos + 1, Kw::Than) {
        return Err(expected(ts, pos + 1));
    }
    if is_kw(ts, pos + 2, Kw::Or) && is_kw(ts, pos + 3, Kw::Equal) && is_kw(ts, pos + 4, Kw::To) {
        Ok((
            if greater {
                OpComp::GTE
            } else {
                OpComp::LTE
            },
            pos + 5,
        ))
    } else {
        Ok((
            if greater {
                OpComp::GT
            } else {
                OpComp::LT
            },
            pos + 2,
        ))
    }
}

/// Reads the predicate at token `pos`, joined by `link`, and the position after it.
fn read_predicate(
    ts: &Vec<Token>,
    pos: usize,
    params: &Vec<Vec<u8>>,
    defs: &Vec<Definition>,
    link: Link,
) -> (r: Result<(Predicate, usize), ParseErr>)
    requires
        pos <= ts@.len(),
    ensures
        match r {
            Ok((p, next)) => predicate_at(
                toks_of(ts@),
                pos as nat,
                names_of(params@),
                defs_of(defs@),
                link,
            ) == Ok::<_, ParseErr>((p@, next as nat)) && next <= ts@.len(),
            Err(e) => predicate_at(
                toks_of(ts@),
                pos as nat,
                names_of(params@),
                defs_of(defs@),
                link,
            ) == Err::<(PredicateModel, nat), _>(e),
        },
{
    let lhs = match read_operand(ts, pos, params, defs) {
        Err(e) => {
            return Err(e);
        },
        Ok(o) => o,
    };
    if !is_kw(ts, pos + 1, Kw::Must) {
        return Err(expected(ts, pos + 1));
    }
    let not = is_kw(ts, pos + 2, Kw::Not);
    let be = if not {
        pos + 3
    } else {
        pos + 2
    };
    if !is_kw(ts, be, Kw::Be) {
        return Err(expected(ts, be));
    }
    let (op, at) = match read_relation(ts, be + 1) {
        Err(e) => {
            return Err(e);
        },
        Ok(x) => x,
    };
    let rhs = match read_operand(ts, at, params, defs) {
        Err(e) => {
            return Err(e);
        },
        Ok(o) => o,
    };
    Ok((Predicate { link, lhs, op, not, rhs }, at + 1))
}

/// Reads the predicates that start at token `start`.
fn read_predicates(
    ts: &Vec<Token>,
    start: usize,
    params: &Vec<Vec<u8>>,
    defs: &Vec<Definition>,
) -> (r: Result<Vec<Predicate>, ParseErr>)
    requires
        start <= ts@.len(),
    ensures
        ({
            let spec_r = parse_preds(
                toks_of(ts@),
                start as nat,
                names_of(params@),
                defs_of(defs@),
                Link::Start,
                seq![],
            );
            match r {
                Ok(ps) => spec_r == Ok::<_, ParseErr>(preds_of(ps@)),
                Err(e) => spec_r == Err::<Seq<PredicateModel>, _>(e),
            }
        }),
{
    let ghost t = toks_of(ts@);
    let ghost ps = names_of(params@);
    let ghost ds = defs_of(defs@);
    let mut preds: Vec<Predicate> = Vec::new();
    let mut pos: usize = start;
    let mut link = Link::Start;
    assert(preds_of(preds@) =~= Seq::<PredicateModel>::empty());
    loop
        invariant
            t == toks_of(ts@),
            ps == names_of(params@),
            ds == defs_of(defs@),
            pos <= ts@.len(),
            parse_preds(t, pos as nat, ps, ds, link, preds_of(preds@)) == parse_preds(
                t,
                start as nat,
                ps,
                ds,
                Link::Start,
                seq![],
            ),
        decreases ts@.len() - pos,
    {
        proof {
            lemma_predicate_advances(t, pos as nat, ps, ds, link);
        }
        let (p, next) = match read_predicate(ts, pos, params, defs, link) {
            Err(e) => {
                return Err(e);
            },
            Ok(x) => x,
        };
        let ghost before = preds_of(preds@);
        let ghost pm = p@;
        preds.push(p);
        assert(preds_of(preds@) =~= before.push(pm));
        if next >= ts.len() {
            return Ok(preds);
        } else if is_kw(ts, next, Kw::And) {
            link = Link::And;
            pos = next + 1;
        } else if is_kw(ts, next, Kw::Or) {
            link = Link::Or;
            pos = next + 1;
        } else {
            link = Link::Start;
            pos = next;
        }
    }
}

/// Parses the tokens `ts` as a program.
pub fn parse_tokens(ts: &Vec<Token>) -> (r: Result<Ast, ParseErr>)
    ensures
        match r {
            Ok(a) => parse_program(toks_of(ts@)) == Ok::<_, ParseErr>(a@),
            Err(e) => parse_program(toks_of(ts@)) == Err::<AstModel, _>(e),
        },
{
    if !is_kw(ts, 0, Kw::Given) {
        return Err(expected(ts, 0));
    }
    if !is_kw(ts, 1, Kw::Parameters) {
        return Err(expected(ts, 1));
    }
    let (params, p) = match read_params(ts, 2) {
        Err(e) => {
            return Err(e);
        },
        Ok(x) => x,
    };
    let (definitions, q) = match read_defs(ts, p, &params) {
        Err(e) => {
            return Err(e);
        },
        Ok(x) => x,
    };
    let predicates = match read_predicates(ts, q, &params, &definitions) {
        Err(e) => {
            return Err(e);
        },
        Ok(x) => x,
    };
    Ok(Ast { params, definitions, predicates })
}

/// Parses rule source text.
pub fn parse(source: &str) -> (r: Result<Ast, ParseErr>)
    ensures
        match r {
            Ok(a) => parse_source(source.spec_bytes()) == Ok::<_, ParseErr>(a@),
            Err(e) => parse_source(source.spec_bytes()) == Err::<AstModel, _>(e),
        },
{
    match tokenize(source.as_bytes()) {
        Err(e) => Err(ParseErr::Lex(e)),
        Ok(ts) => parse_tokens(&ts),
    }
}

/// No two names of `s` are the same.
pub open spec fn distinct(s: Seq<Seq<u8>>) -> bool {
    forall|i: int, j: int| 0 <= i < j < s.len() ==> s[i] != s[j]
}

/// What a search for a name finds.
pub proof fn lemma_find(names: Seq<Seq<u8>>, n: Seq<u8>, j: nat)
    ensures
        match find(names, n, j) {
            Some(i) => j <= i < names.len() && names[i as int] == n,
            None => forall|k: int| j <= k < names.len() ==> names[k] != n,
        },
    decreases names.len() - j,
{
    if j < names.len() && names[j as int] != n {
        lemma_find(names, n, j + 1);
    }
}

proof fn lemma_parse_params_distinct(ts: Seq<Tok>, pos: nat, acc: Seq<Seq<u8>>)
    requires
        distinct(acc),
    ensures
        parse_params(ts, pos, acc) matches Ok((ps, _)) ==> distinct(ps),
    decreases ts.len() - pos,
{
    if pos < ts.len() {
        if let Tok::Param(n) = ts[pos as int] {
            lemma_find(acc, n, 0);
            if find(acc, n, 0) is None {
                let next = acc.push(n);
                assert(distinct(next)) by {
                    assert forall|i: int, j: int| 0 <= i < j < next.len() implies next[i]
                        != next[j] by {
                        if j == acc.len() {
                            assert(acc[i] != n);
                        }
                    }
                }
                if pos + 1 < ts.len() && ts[pos + 1int] == Tok::Comma {
                    lemma_parse_params_distinct(ts, pos + 2, next);
                }
            }
        }
    }
}

/// The parameters of a parsed program are distinct names.
pub proof fn lemma_parameters_distinct(ts: Seq<Tok>)
    ensures
        parse_program(ts) matches Ok(a) ==> distinct(a.params),
{
    lemma_parse_params_distinct(ts, 2, seq![]);
}

/// A parameter operand gets the index at which its name was declared.
pub proof fn lemma_input_index(
    ts: Seq<Tok>,
    pos: nat,
    params: Seq<Seq<u8>>,
    defs: Seq<(Seq<u8>, Value)>,
)
    ensures
        operand_at(ts, pos, params, defs) matches Ok(OperandModel::Input(k)) ==> k < params.len()
            && ts[pos as int] == Tok::Param(params[k as int]),
{
    if pos < ts.len() {
        if let Tok::Param(n) = ts[pos as int] {
            lemma_find(params, n, 0);
        }
    }
}

/// A predicate whose left operand names neither a parameter nor a definition is rejected,
/// and so is every sequence of predicates that starts with it.
pub proof fn lemma_undeclared_rejected(
    ts: Seq<Tok>,
    pos: nat,
    params: Seq<Seq<u8>>,
    defs: Seq<(Seq<u8>, Value)>,
    link: Link,
    acc: Seq<PredicateModel>,
)
    requires
        pos < ts.len(),
        ts[pos as int] is Param,
        find(params, ts[pos as int]->Param_0, 0) is None,
        find(def_names(defs), ts[pos as int]->Param_0, 0) is None,
    ensures
        predicate_at(ts, pos, params, defs, link) == Err::<(PredicateModel, nat), _>(
            ParseErr::UndeclaredName(pos as usize),
        ),
        parse_preds(ts, pos, params, defs, link, acc) == Err::<Seq<PredicateModel>, _>(
            ParseErr::UndeclaredName(pos as usize),
        ),
{
}

} // verus!
