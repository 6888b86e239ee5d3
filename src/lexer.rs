//! Splits rule source text into tokens.
//!
//! Tokens are words (ASCII letters), parameter names (`$` then letters, digits or `_`),
//! non-negative integers, double-quoted byte strings and commas. Whitespace separates
//! tokens and is otherwise ignored.
use crate::types::copy_range;
use vstd::prelude::*;

verus! {

/// A reserved word of the rule language.
#[derive(Debug, PartialEq, Eq, Clone, Copy, Structural)]
pub enum Kw {
    Given,
    Parameters,
    Define,
    As,
    Must,
    Not,
    Be,
    Equal,
    To,
    Greater,
    Less,
    Than,
    And,
    Or,
}

/// The reserved word spelled by `w`, if any.
pub open spec fn keyword_of(w: Seq<u8>) -> Option<Kw> {
    if w == seq![0x67u8, 0x69u8, 0x76u8, 0x65u8, 0x6eu8] {
        Some(Kw::Given)
    } else if w == seq![0x70u8, 0x61u8, 0x72u8, 0x61u8, 0x6du8, 0x65u8, 0x74u8, 0x65u8, 0x72u8, 0x73u8] {
        Some(Kw::Parameters)
    } else if w == seq![0x64u8, 0x65u8, 0x66u8, 0x69u8, 0x6eu8, 0x65u8] {
        Some(Kw::Define)
    } else if w == seq![0x61u8, 0x73u8] {
        Some(Kw::As)
    } else if w == seq![0x6du8, 0x75u8, 0x73u8, 0x74u8] {
        Some(Kw::Must)
    } else if w == seq![0x6eu8, 0x6fu8, 0x74u8] {
        Some(Kw::Not)
    } else if w == seq![0x62u8, 0x65u8] {
        Some(Kw::Be)
    } else if w == seq![0x65u8, 0x71u8, 0x75u8, 0x61u8, 0x6cu8] {
        Some(Kw::Equal)
    } else if w == seq![0x74u8, 0x6fu8] {
        Some(Kw::To)
    } else if w == seq![0x67u8, 0x72u8, 0x65u8, 0x61u8, 0x74u8, 0x65u8, 0x72u8] {
        Some(Kw::Greater)
    } else if w == seq![0x6cu8, 0x65u8, 0x73u8, 0x73u8] {
        Some(Kw::Less)
    } else if w == seq![0x74u8, 0x68u8, 0x61u8, 0x6eu8] {
        Some(Kw::Than)
    } else if w == seq![0x61u8, 0x6eu8, 0x64u8] {
        Some(Kw::And)
    } else if w == seq![0x6fu8, 0x72u8] {
        Some(Kw::Or)
    } else {
        None
    }
}

/// A token of rule source text.
#[derive(Debug, PartialEq, Eq)]
pub enum Token {
    Keyword(Kw),
    Word(Vec<u8>),
    Param(Vec<u8>),
    Int(i64),
    Str(Vec<u8>),
    Comma,
}

/// The model of a token.
pub enum Tok {
    Keyword(Kw),
    Word(Seq<u8>),
    Param(Seq<u8>),
    Int(i64),
    Str(Seq<u8>),
    Comma,
}

impl View for Token {
    type V = Tok;

    open spec fn view(&self) -> Tok {
        match self {
            Token::Keyword(k) => Tok::Keyword(*k),
            Token::Word(w) => Tok::Word(w@),
            Token::Param(p) => Tok::Param(p@),
            Token::Int(n) => Tok::Int(*n),
            Token::Str(s) => Tok::Str(s@),
            Token::Comma => Tok::Comma,
        }
    }
}

/// The models of a sequence of tokens.
pub open spec fn toks_of(ts: Seq<Token>) -> Seq<Tok> {
    ts.map_values(|t: Token| t@)
}

/// Why source text could not be split into tokens; each holds a byte position.
#[derive(Debug, PartialEq, Eq, Clone, Copy)]
pub enum LexErr {
    /// A byte that starts no token.
    UnexpectedByte(usize),
    /// A `$` with no name after it.
    EmptyParamName(usize),
    /// An integer above `i64::MAX`.
    IntTooLarge(usize),
    /// A string with no closing quote.
    UnterminatedString(usize),
}

/// The classes of bytes that a token is made of.
#[derive(Clone, Copy)]
pub enum ByteClass {
    Letter,
    NameByte,
    Digit,
    NotQuote,
}

pub open spec fn is_letter(c: u8) -> bool {
    (0x61 <= c <= 0x7a) || (0x41 <= c <= 0x5a)
}

pub open spec fn is_digit(c: u8) -> bool {
    0x30 <= c <= 0x39
}

pub open spec fn is_space(c: u8) -> bool {
    c == 0x20 || c == 0x09 || c == 0x0a || c == 0x0d
}

pub open spec fn in_class(k: ByteClass, c: u8) -> bool {
    match k {
        ByteClass::Letter => is_letter(c),
        ByteClass::NameByte => is_letter(c) || is_digit(c) || c == 0x5f,
        ByteClass::Digit => is_digit(c),
        ByteClass::NotQuote => c != 0x22,
    }
}

/// The end of the run of bytes of class `k` that starts at `pos`.
pub open spec fn scan(b: Seq<u8>, pos: nat, k: ByteClass) -> nat
    decreases b.len() - pos,
{
    if pos < b.len() && in_class(k, b[pos as int]) {
        scan(b, pos + 1, k)
    } else {
        pos
    }
}

/// The value of a sequence of decimal digits.
pub open spec fn digits_value(s: Seq<u8>) -> int
    decreases s.len(),
{
    if s.len() == 0 {
        0
    } else {
        digits_value(s.drop_last()) * 10 + (s.last() - 0x30)
    }
}

/// A scan ends within the bytes, after a run of bytes of its class.
pub proof fn lemma_scan_bounds(b: Seq<u8>, pos: nat, k: ByteClass)
    ensures
        pos <= scan(b, pos, k),
        pos <= b.len() ==> scan(b, pos, k) <= b.len(),
        forall|i: int| pos <= i < scan(b, pos, k) ==> in_class(k, #[trigger] b[i]),
        scan(b, pos, k) < b.len() ==> !in_class(k, b[scan(b, pos, k) as int]),
    decreases b.len() - pos,
{
    if pos < b.len() && in_class(k, b[pos as int]) {
        lemma_scan_bounds(b, pos + 1, k);
    }
}

/// The tokens of `b` from `pos` on, after the tokens `acc`.
pub open spec fn lex(b: Seq<u8>, pos: nat, acc: Seq<Tok>) -> Result<Seq<Tok>, LexErr>
    decreases b.len() - pos,
{
    if pos >= b.len() {
        Ok(acc)
    } else {
        let c = b[pos as int];
        if is_space(c) {
            lex(b, pos + 1, acc)
        } else if c == 0x2c {
            lex(b, pos + 1, acc.push(Tok::Comma))
        } else if is_letter(c) {
            let e = scan(b, pos + 1, ByteClass::Letter);
            proof {
                lemma_scan_bounds(b, pos + 1, ByteClass::Letter);
            }
            let w = b.subrange(pos as int, e as int);
            lex(
                b,
                e,
                acc.push(
                    match keyword_of(w) {
                        Some(k) => Tok::Keyword(k),
                        None => Tok::Word(w),
                    },
                ),
            )
        } else if c == 0x24 {
            let e = scan(b, pos + 1, ByteClass::NameByte);
            proof {
                lemma_scan_bounds(b, pos + 1, ByteClass::NameByte);
            }
            if e == pos + 1 {
                Err(LexErr::EmptyParamName(pos as usize))
            } else {
                lex(b, e, acc.push(Tok::Param(b.subrange(pos + 1int, e as int))))
            }
        } else if is_digit(c) {
            let e = scan(b, pos + 1, ByteClass::Digit);
            proof {
                lemma_scan_bounds(b, pos + 1, ByteClass::Digit);
            }
            let v = digits_value(b.subrange(pos as int, e as int));
            if v > i64::MAX {
                Err(LexErr::IntTooLarge(pos as usize))
            } else {
                lex(b, e, acc.push(Tok::Int(v as i64)))
            }
        } else if c == 0x22 {
            let e = scan(b, pos + 1, ByteClass::NotQuote);
            proof {
                lemma_scan_bounds(b, pos + 1, ByteClass::NotQuote);
            }
            if e >= b.len() {
                Err(LexErr::UnterminatedString(pos as usize))
            } else {
                lex(b, e + 1, acc.push(Tok::Str(b.subrange(pos + 1int, e as int))))
            }
        } else {
            Err(LexErr::UnexpectedByte(pos as usize))
        }
    }
}

/// The tokens of `b`.
pub open spec fn tokens_of(b: Seq<u8>) -> Result<Seq<Tok>, LexErr> {
    lex(b, 0, seq![])
}

/// The reserved word spelled by `w`, if any.
fn read_keyword(w: &Vec<u8>) -> (r: Option<Kw>)
    ensures
        r == keyword_of(w@),
{
    if w.len() == 5 && w[0] == 0x67 && w[1] == 0x69 && w[2] == 0x76 && w[3] == 0x65 && w[4] == 0x6e {
        assert(w@ =~= seq![0x67u8, 0x69u8, 0x76u8, 0x65u8, 0x6eu8]);
        return Some(Kw::Given);
    }
    if w.len() == 10 && w[0] == 0x70 && w[1] == 0x61 && w[2] == 0x72 && w[3] == 0x61 && w[4] == 0x6d && w[5] == 0x65 && w[6] == 0x74 && w[7] == 0x65 && w[8] == 0x72 && w[9] == 0x73 {
        assert(w@ =~= seq![0x70u8, 0x61u8, 0x72u8, 0x61u8, 0x6du8, 0x65u8, 0x74u8, 0x65u8, 0x72u8, 0x73u8]);
        return Some(Kw::Parameters);
    }
    if w.len() == 6 && w[0] == 0x64 && w[1] == 0x65 && w[2] == 0x66 && w[3] == 0x69 && w[4] == 0x6e && w[5] == 0x65 {
        assert(w@ =~= seq![0x64u8, 0x65u8, 0x66u8, 0x69u8, 0x6eu8, 0x65u8]);
        return Some(Kw::Define);
    }
    if w.len() == 2 && w[0] == 0x61 && w[1] == 0x73 {
        assert(w@ =~= seq![0x61u8, 0x73u8]);
        return Some(Kw::As);
    }
    if w.len() == 4 && w[0] == 0x6d && w[1] == 0x75 && w[2] == 0x73 && w[3] == 0x74 {
        assert(w@ =~= seq![0x6du8, 0x75u8, 0x73u8, 0x74u8]);
        return Some(Kw::Must);
    }
    if w.len() == 3 && w[0] == 0x6e && w[1] == 0x6f && w[2] == 0x74 {
        assert(w@ =~= seq![0x6eu8, 0x6fu8, 0x74u8]);
        return Some(Kw::Not);
    }
    if w.len() == 2 && w[0] == 0x62 && w[1] == 0x65 {
        assert(w@ =~= seq![0x62u8, 0x65u8]);
        return Some(Kw::Be);
    }
    if w.len() == 5 && w[0] == 0x65 && w[1] == 0x71 && w[2] == 0x75 && w[3] == 0x61 && w[4] == 0x6c {
        assert(w@ =~= seq![0x65u8, 0x71u8, 0x75u8, 0x61u8, 0x6cu8]);
        return Some(Kw::Equal);
    }
    if w.len() == 2 && w[0] == 0x74 && w[1] == 0x6f {
        assert(w@ =~= seq![0x74u8, 0x6fu8]);
        return Some(Kw::To);
    }
    if w.len() == 7 && w[0] == 0x67 && w[1] == 0x72 && w[2] == 0x65 && w[3] == 0x61 && w[4] == 0x74 && w[5] == 0x65 && w[6] == 0x72 {
        assert(w@ =~= seq![0x67u8, 0x72u8, 0x65u8, 0x61u8, 0x74u8, 0x65u8, 0x72u8]);
        return Some(Kw::Greater);
    }
    if w.len() == 4 && w[0] == 0x6c && w[1] == 0x65 && w[2] == 0x73 && w[3] == 0x73 {
        assert(w@ =~= seq![0x6cu8, 0x65u8, 0x73u8, 0x73u8]);
        return Some(Kw::Less);
    }
    if w.len() == 4 && w[0] == 0x74 && w[1] == 0x68 && w[2] == 0x61 && w[3] == 0x6e {
        assert(w@ =~= seq![0x74u8, 0x68u8, 0x61u8, 0x6eu8]);
        return Some(Kw::Than);
    }
    if w.len() == 3 && w[0] == 0x61 && w[1] == 0x6e && w[2] == 0x64 {
        assert(w@ =~= seq![0x61u8, 0x6eu8, 0x64u8]);
        return Some(Kw::And);
    }
    if w.len() == 2 && w[0] == 0x6f && w[1] == 0x72 {
        assert(w@ =~= seq![0x6fu8, 0x72u8]);
        return Some(Kw::Or);
    }
    None
}

/// Whether `c` is of class `k`.
fn class_has(k: ByteClass, c: u8) -> (r: bool)
    ensures
        r == in_class(k, c),
{
    let letter = (0x61 <= c && c <= 0x7a) || (0x41 <= c && c <= 0x5a);
    let digit = 0x30 <= c && c <= 0x39;
    match k {
        ByteClass::Letter => letter,
        ByteClass::NameByte => letter || digit || c == 0x5f,
        ByteClass::Digit => digit,
        ByteClass::NotQuote => c != 0x22,
    }
}

/// The end of the run of bytes of class `k` that starts at `pos`.
fn scan_run(b: &[u8], pos: usize, k: ByteClass) -> (r: usize)
    requires
        pos <= b@.len(),
    ensures
        r == scan(b@, pos as nat, k),
        pos <= r <= b@.len(),
{
    let mut i: usize = pos;
    while i < b.len() && class_has(k, b[i])
        invariant
            pos <= i <= b@.len(),
            scan(b@, i as nat, k) == scan(b@, pos as nat, k),
        decreases b@.len() - i,
    {
        i += 1;
    }
    i
}

proof fn lemma_digits_monotone(s: Seq<u8>, j: int, k: int)
    requires
        0 <= j <= k <= s.len(),
        forall|i: int| 0 <= i < s.len() ==> is_digit(#[trigger] s[i]),
    ensures
        0 <= digits_value(s.subrange(0, j)) <= digits_value(s.subrange(0, k)),
    decreases k,
{
    if k > 0 {
        let p = s.subrange(0, k);
        assert(p.drop_last() =~= s.subrange(0, k - 1));
        if j < k {
            lemma_digits_monotone(s, j, k - 1);
        } else {
            lemma_digits_monotone(s, k - 1, k - 1);
        }
    } else {
        assert(s.subrange(0, j) =~= Seq::<u8>::empty());
    }
}

/// The integer spelled by the digits `b[start..end]`.
fn read_int(b: &[u8], start: usize, end: usize) -> (r: Option<i64>)
    requires
        start <= end <= b@.len(),
        forall|i: int| start <= i < end ==> is_digit(#[trigger] b@[i]),
    ensures
        ({
            let v = digits_value(b@.subrange(start as int, end as int));
            match r {
                Some(n) => v <= i64::MAX && n == v,
                None => v > i64::MAX,
            }
        }),
{
    let ghost s = b@.subrange(start as int, end as int);
    let mut v: u64 = 0;
    let mut i: usize = start;
    while i < end
        invariant
            start <= i <= end <= b@.len(),
            s == b@.subrange(start as int, end as int),
            forall|j: int| start <= j < end ==> is_digit(#[trigger] b@[j]),
            v == digits_value(s.subrange(0, i - start)),
            v <= i64::MAX,
        decreases end - i,
    {
        let d = (b[i] - 0x30) as u64;
        proof {
            assert(s.subrange(0, i + 1 - start).drop_last() =~= s.subrange(0, i - start));
            assert(s.subrange(0, i + 1 - start).last() == b@[i as int]);
        }
        if v > 922337203685477580 || (v == 922337203685477580 && d > 7) {
            proof {
                assert forall|j: int| 0 <= j < s.len() implies is_digit(#[trigger] s[j]) by {
                    assert(s[j] == b@[start + j]);
                }
                lemma_digits_monotone(s, i + 1 - start, s.len() as int);
                assert(s.subrange(0, s.len() as int) =~= s);
            }
            return None;
        }
        v = v * 10 + d;
        i += 1;
    }
    assert(s.subrange(0, end - start) =~= s);
    Some(v as i64)
}

/// Splits `b` into tokens.
pub fn tokenize(b: &[u8]) -> (r: Result<Vec<Token>, LexErr>)
    ensures
        match r {
            Ok(ts) => tokens_of(b@) == Ok::<_, LexErr>(toks_of(ts@)),
            Err(e) => tokens_of(b@) == Err::<Seq<Tok>, _>(e),
        },
{
    let mut ts: Vec<Token> = Vec::new();
    let mut pos: usize = 0;
    assert(toks_of(ts@) =~= Seq::<Tok>::empty());
    while pos < b.len()
        invariant
            pos <= b@.len(),
            lex(b@, pos as nat, toks_of(ts@)) == tokens_of(b@),
        decreases b@.len() - pos,
    {
        let c = b[pos];
        let ghost before = toks_of(ts@);
        if c == 0x20 || c == 0x09 || c == 0x0a || c == 0x0d {
            pos += 1;
        } else if c == 0x2c {
            ts.push(Token::Comma);
            assert(toks_of(ts@) =~= before.push(Tok::Comma));
            pos += 1;
        } else if class_has(ByteClass::Letter, c) {
            let e = scan_run(b, pos + 1, ByteClass::Letter);
            let w = copy_range(b, pos, e);
            let t = match read_keyword(&w) {
                Some(k) => Token::Keyword(k),
                None => Token::Word(w),
            };
            ts.push(t);
            assert(toks_of(ts@) =~= before.push(
                match keyword_of(b@.subrange(pos as int, e as int)) {
                    Some(k) => Tok::Keyword(k),
                    None => Tok::Word(b@.subrange(pos as int, e as int)),
                },
            ));
            pos = e;
        } else if c == 0x24 {
            let e = scan_run(b, pos + 1, ByteClass::NameByte);
            if e == pos + 1 {
                return Err(LexErr::EmptyParamName(pos));
            }
            let w = copy_range(b, pos + 1, e);
            ts.push(Token::Param(w));
            assert(toks_of(ts@) =~= before.push(Tok::Param(b@.subrange(pos + 1int, e as int))));
            pos = e;
        } else if class_has(ByteClass::Digit, c) {
            let e = scan_run(b, pos + 1, ByteClass::Digit);
            proof {
                lemma_scan_bounds(b@, (pos + 1) as nat, ByteClass::Digit);
            }
            match read_int(b, pos, e) {
                None => {
                    return Err(LexErr::IntTooLarge(pos));
                },
                Some(n) => {
                    ts.push(Token::Int(n));
                    assert(toks_of(ts@) =~= before.push(Tok::Int(n)));
                },
            }
            pos = e;
        } else if c == 0x22 {
            let e = scan_run(b, pos + 1, ByteClass::NotQuote);
            if e >= b.len() {
                return Err(LexErr::UnterminatedString(pos));
            }
            let w = copy_range(b, pos + 1, e);
            ts.push(Token::Str(w));
            assert(toks_of(ts@) =~= before.push(Tok::Str(b@.subrange(pos + 1int, e as int))));
            pos = e + 1;
        } else {
            return Err(LexErr::UnexpectedByte(pos));
        }
    }
    Ok(ts)
}

} // verus!
