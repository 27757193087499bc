use crate::grammar::{wf_tokens, BinaryOp, SpecConstant, SpecToken};
use vstd::prelude::*;

verus! {

// ASCII bytes, named for use in both spec and exec code.
pub const B_SP: u8 = 32;
pub const B_TAB: u8 = 9;
pub const B_CR: u8 = 13;
pub const B_LF: u8 = 10;
pub const B_0: u8 = 48;
pub const B_9: u8 = 57;
pub const B_DOT: u8 = 46;
pub const B_LOW_K: u8 = 107;
pub const B_UP_K: u8 = 75;
pub const B_UP_M: u8 = 77;
pub const B_UP_G: u8 = 71;
pub const B_UP_T: u8 = 84;
pub const B_UP_A: u8 = 65;
pub const B_UP_Z: u8 = 90;
pub const B_LOW_A: u8 = 97;
pub const B_LOW_Z: u8 = 122;
pub const B_UNDER: u8 = 95;
pub const B_PLUS: u8 = 43;
pub const B_MINUS: u8 = 45;
pub const B_STAR: u8 = 42;
pub const B_SLASH: u8 = 47;
pub const B_PCT: u8 = 37;
pub const B_CARET: u8 = 94;
pub const B_LT: u8 = 60;
pub const B_GT: u8 = 62;
pub const B_EQ: u8 = 61;
pub const B_BANG: u8 = 33;
pub const B_LOW_O: u8 = 111;
pub const B_LOW_R: u8 = 114;
pub const B_LOW_N: u8 = 110;
pub const B_LOW_D: u8 = 100;

// ---------------------------------------------------------------------------
// Byte classes
// ---------------------------------------------------------------------------
/// Whitespace: space, tab, carriage return, line feed.
pub open spec fn is_space_b(b: u8) -> bool {
    b == B_SP || b == B_TAB || b == B_CR || b == B_LF
}

/// An ASCII decimal digit.
pub open spec fn is_digit_b(b: u8) -> bool {
    B_0 <= b && b <= B_9
}

/// The default constant classifier: digits and dots anywhere, the unit
/// suffix letters only past the first position.
pub open spec fn default_const_byte(b: u8, i: nat) -> bool {
    is_digit_b(b) || b == B_DOT || (i > 0 && (b == B_LOW_K || b == B_UP_K || b == B_UP_M || b == B_UP_G
        || b == B_UP_T))
}

/// The default identifier classifier: ASCII letters and underscore anywhere,
/// digits only past the first position.
pub open spec fn default_var_byte(b: u8, i: nat) -> bool {
    (B_UP_A <= b && b <= B_UP_Z) || (B_LOW_A <= b && b <= B_LOW_Z) || b == B_UNDER || (i > 0 && is_digit_b(b))
}

// ---------------------------------------------------------------------------
// Whitespace skipping
// ---------------------------------------------------------------------------
/// `bs` with its leading whitespace removed.
pub open spec fn skip_space(bs: Seq<u8>) -> Seq<u8>
    decreases bs.len(),
{
    if bs.len() > 0 && is_space_b(bs[0]) {
        skip_space(bs.drop_first())
    } else {
        bs
    }
}

pub proof fn lemma_skip_space_len(bs: Seq<u8>)
    ensures
        skip_space(bs).len() <= bs.len(),
    decreases bs.len(),
{
    if bs.len() > 0 && is_space_b(bs[0]) {
        lemma_skip_space_len(bs.drop_first());
    }
}

/// A byte run of whitespace only.
pub open spec fn all_space(ws: Seq<u8>) -> bool {
    forall|i: int| 0 <= i < ws.len() ==> is_space_b(#[trigger] ws[i])
}

pub proof fn lemma_skip_space_concat(ws: Seq<u8>, rest: Seq<u8>)
    requires
        all_space(ws),
    ensures
        skip_space(ws + rest) == skip_space(rest),
    decreases ws.len(),
{
    if ws.len() == 0 {
        assert(ws + rest =~= rest);
    } else {
        assert((ws + rest)[0] == ws[0]);
        assert((ws + rest).drop_first() =~= ws.drop_first() + rest);
        lemma_skip_space_concat(ws.drop_first(), rest);
    }
}

pub proof fn lemma_skip_space_idem(bs: Seq<u8>)
    ensures
        skip_space(skip_space(bs)) == skip_space(bs),
    decreases bs.len(),
{
    if bs.len() > 0 && is_space_b(bs[0]) {
        lemma_skip_space_idem(bs.drop_first());
    }
}

// ---------------------------------------------------------------------------
// Constant literals
// ---------------------------------------------------------------------------
/// How many leading bytes of `bs` the default constant classifier accepts,
/// when the first of them sits at position `i` within its token.
pub open spec fn const_run_len(bs: Seq<u8>, i: nat) -> nat
    decreases bs.len(),
{
    if bs.len() > 0 && default_const_byte(bs[0], i) {
        1 + const_run_len(bs.drop_first(), i + 1)
    } else {
        0
    }
}

pub proof fn lemma_const_run_len_le(bs: Seq<u8>, i: nat)
    ensures
        const_run_len(bs, i) <= bs.len(),
    decreases bs.len(),
{
    if bs.len() > 0 && default_const_byte(bs[0], i) {
        lemma_const_run_len_le(bs.drop_first(), i + 1);
    }
}

/// The factor a unit-suffix byte names; 1 for every other byte.
pub open spec fn suffix_multiplier(b: u8) -> u64 {
    if b == B_LOW_K || b == B_UP_K {
        1000
    } else if b == B_UP_M {
        1000000
    } else if b == B_UP_G {
        1000000000
    } else if b == B_UP_T {
        1000000000000
    } else {
        1
    }
}

/// The accepted run without its unit suffix, if its last byte is one.
pub open spec fn literal_digits(run: Seq<u8>) -> Seq<u8> {
    if run.len() > 0 && suffix_multiplier(run.last()) != 1 {
        run.drop_last()
    } else {
        run
    }
}

/// The factor named by the run's unit suffix, 1 when there is none.
pub open spec fn literal_multiplier(run: Seq<u8>) -> u64 {
    if run.len() > 0 {
        suffix_multiplier(run.last())
    } else {
        1
    }
}

/// The numeric literals this library accepts: at least one digit, at most
/// one dot, nothing else.  On the bytes the default classifier can collect
/// this coincides exactly with base-10 floating acceptance.  The grammar is
/// fixed for every classifier: a custom constant classifier widens which
/// bytes join a run, never which runs pass as literals, so a hook admitting
/// further bytes (an exponent letter, say) has such runs rejected.
pub open spec fn valid_literal(ds: Seq<u8>) -> bool {
    &&& ds.len() > 0
    &&& forall|i: int| 0 <= i < ds.len() ==> is_digit_b(#[trigger] ds[i]) || ds[i] == B_DOT
    &&& exists|i: int| 0 <= i < ds.len() && is_digit_b(#[trigger] ds[i])
    &&& forall|i: int, j: int|
        #![trigger ds[i], ds[j]]
        0 <= i < j < ds.len() ==> !(ds[i] == B_DOT && ds[j] == B_DOT)
}

/// A constant a parse may emit: a valid literal and a suffix factor.
pub open spec fn wf_constant(c: SpecConstant) -> bool {
    &&& valid_literal(c.digits)
    &&& (c.multiplier == 1 || c.multiplier == 1000 || c.multiplier == 1000000 || c.multiplier
        == 1000000000 || c.multiplier == 1000000000000)
}

/// Everything a parse promises of its token sequence: alternation and
/// well-formed constants.
pub open spec fn wf_expr(toks: Seq<SpecToken>) -> bool {
    &&& wf_tokens(toks)
    &&& forall|i: int|
        0 <= i < toks.len() ==> ((#[trigger] toks[i]) matches SpecToken::Val(c) ==> wf_constant(c))
}

// ---------------------------------------------------------------------------
// Failures
// ---------------------------------------------------------------------------
/// ASCII bytes read as the characters they are.
pub open spec fn ascii_chars(ds: Seq<u8>) -> Seq<char> {
    Seq::new(ds.len(), |i: int| ds[i] as char)
}

/// How a parse fails.
pub enum ParseErr {
    /// A value was required and none begins here.
    MissingValue,
    /// The accepted constant run, suffix stripped, is not a valid numeric
    /// literal; the offending text rides along as a breadcrumb.
    BadNumber(Seq<char>),
    /// Bytes other than whitespace remain after a complete expression.
    TrailingTokens,
}

/// The message an [`crate::error::Error`] carries for each failure.
pub open spec fn parse_err_msg(k: ParseErr) -> Seq<char> {
    match k {
        ParseErr::MissingValue => "InvalidValue"@,
        ParseErr::BadNumber(text) => "parse<f64> error"@,
        ParseErr::TrailingTokens => "unparsed tokens remaining"@,
    }
}

/// The breadcrumbs it carries when the failure leaves a value read, before
/// the caller prepends its own.
pub open spec fn value_err_ctx(k: ParseErr) -> Seq<Seq<char>> {
    match k {
        ParseErr::MissingValue => Seq::<Seq<char>>::empty(),
        ParseErr::BadNumber(text) => seq![text],
        ParseErr::TrailingTokens => Seq::<Seq<char>>::empty(),
    }
}

/// The breadcrumbs it carries out of a whole-expression parse.
pub open spec fn parse_err_ctx(k: ParseErr) -> Seq<Seq<char>> {
    match k {
        ParseErr::MissingValue => seq!["read_value"@],
        ParseErr::BadNumber(text) => seq!["read_value"@, text],
        ParseErr::TrailingTokens => Seq::<Seq<char>>::empty(),
    }
}

// ---------------------------------------------------------------------------
// Reading one constant / one value
// ---------------------------------------------------------------------------
/// Reading one constant off the front of `bs` with the default classifier:
/// skip whitespace, take the accepted run, split off the unit suffix, and
/// demand a valid literal.  Returns the constant and the remaining bytes.
pub open spec fn spec_read_const(bs: Seq<u8>) -> Result<(SpecConstant, Seq<u8>), ParseErr> {
    let t = skip_space(bs);
    let n = const_run_len(t, 0) as int;
    let run = t.take(n);
    let ds = literal_digits(run);
    if valid_literal(ds) {
        Ok(((SpecConstant { digits: ds, multiplier: literal_multiplier(run) }), t.skip(n)))
    } else {
        Err(ParseErr::BadNumber(ascii_chars(ds)))
    }
}

/// Where the cursor stands after a constant read, whatever its outcome: the
/// whitespace and the whole accepted run are consumed.
pub open spec fn spec_const_rest(bs: Seq<u8>) -> Seq<u8> {
    let t = skip_space(bs);
    t.skip(const_run_len(t, 0) as int)
}

/// Where the cursor stands after a value read, whatever its outcome: a
/// missing value consumes the leading whitespace alone.
pub open spec fn spec_value_rest(bs: Seq<u8>) -> Seq<u8> {
    let t = skip_space(bs);
    if t.len() > 0 && default_const_byte(t[0], 0) {
        spec_const_rest(t)
    } else {
        t
    }
}

/// Every byte inside the accepted run was accepted by the default
/// classifier at its position.
pub proof fn lemma_const_run_accepts(bs: Seq<u8>, i: nat)
    ensures
        forall|j: int|
            0 <= j < const_run_len(bs, i) ==> default_const_byte(#[trigger] bs[j], (i + j) as nat),
    decreases bs.len(),
{
    if bs.len() > 0 && default_const_byte(bs[0], i) {
        lemma_const_run_accepts(bs.drop_first(), i + 1);
        lemma_const_run_len_le(bs.drop_first(), i + 1);
        assert forall|j: int|
            0 <= j < const_run_len(bs, i) implies default_const_byte(
            #[trigger] bs[j],
            (i + j) as nat,
        ) by {
            if j > 0 {
                assert(bs.drop_first()[j - 1] == bs[j]);
            }
        }
    }
}

/// Reading one value: with the default classifier a value can only be a
/// constant, and one must begin right after the whitespace.
pub open spec fn spec_read_value(bs: Seq<u8>) -> Result<(SpecConstant, Seq<u8>), ParseErr> {
    let t = skip_space(bs);
    if t.len() > 0 && default_const_byte(t[0], 0) {
        spec_read_const(t)
    } else {
        Err(ParseErr::MissingValue)
    }
}

pub proof fn lemma_read_const_consumes(bs: Seq<u8>)
    ensures
        spec_read_const(bs) matches Ok((c, rest)) ==> rest.len() <= bs.len(),
{
    lemma_skip_space_len(bs);
    lemma_const_run_len_le(skip_space(bs), 0);
}

pub proof fn lemma_read_value_consumes(bs: Seq<u8>)
    ensures
        spec_read_value(bs) matches Ok((c, rest)) ==> rest.len() <= bs.len(),
{
    lemma_skip_space_len(bs);
    lemma_read_const_consumes(skip_space(bs));
}

// ---------------------------------------------------------------------------
// Binary operators
// ---------------------------------------------------------------------------
/// Whether a binary operator spelling begins at the front of `t` (whose
/// leading whitespace is already gone).  Single-byte operators stand alone;
/// `==`, `!=`, `or` and `and` are matched byte for byte.
pub open spec fn binaryop_ahead(t: Seq<u8>) -> bool {
    t.len() > 0 && {
        let b = t[0];
        ||| b == B_PLUS
        ||| b == B_MINUS
        ||| b == B_STAR
        ||| b == B_SLASH
        ||| b == B_PCT
        ||| b == B_CARET
        ||| b == B_LT
        ||| b == B_GT
        ||| (b == B_EQ && t.len() > 1 && t[1] == B_EQ)
        ||| (b == B_BANG && t.len() > 1 && t[1] == B_EQ)
        ||| (b == B_LOW_O && t.len() > 1 && t[1] == B_LOW_R)
        ||| (b == B_LOW_A && t.len() > 2 && t[1] == B_LOW_N && t[2] == B_LOW_D)
    }
}

/// Which operator begins `t`, meaningful when `binaryop_ahead(t)`.
pub open spec fn spec_binop(t: Seq<u8>) -> BinaryOp {
    if t[0] == B_PLUS {
        BinaryOp::EPlus
    } else if t[0] == B_MINUS {
        BinaryOp::EMinus
    } else if t[0] == B_STAR {
        BinaryOp::EMul
    } else if t[0] == B_SLASH {
        BinaryOp::EDiv
    } else if t[0] == B_PCT {
        BinaryOp::EMod
    } else if t[0] == B_CARET {
        BinaryOp::EExp
    } else if t[0] == B_LT {
        if t.len() > 1 && t[1] == B_EQ {
            BinaryOp::ELTE
        } else {
            BinaryOp::ELT
        }
    } else if t[0] == B_GT {
        if t.len() > 1 && t[1] == B_EQ {
            BinaryOp::EGTE
        } else {
            BinaryOp::EGT
        }
    } else if t[0] == B_EQ {
        BinaryOp::EEQ
    } else if t[0] == B_BANG {
        BinaryOp::ENE
    } else if t[0] == B_LOW_O {
        BinaryOp::EOR
    } else {
        BinaryOp::EAND
    }
}

/// How many bytes that operator spelling occupies.
pub open spec fn spec_binop_len(t: Seq<u8>) -> int {
    if t[0] == B_LT || t[0] == B_GT {
        if t.len() > 1 && t[1] == B_EQ {
            2
        } else {
            1
        }
    } else if t[0] == B_EQ || t[0] == B_BANG || t[0] == B_LOW_O {
        2
    } else if t[0] == B_LOW_A {
        3
    } else {
        1
    }
}

pub proof fn lemma_binop_len_bounds(t: Seq<u8>)
    requires
        binaryop_ahead(t),
    ensures
        1 <= spec_binop_len(t) <= t.len(),
{
}

// ---------------------------------------------------------------------------
// Whole expressions
// ---------------------------------------------------------------------------
/// The operator/value tail of an expression: as long as an operator spelling
/// follows, read it and the value after it, extending `acc`; stop at the
/// first position where none does, returning the tokens and what remains
/// (whitespace already skipped).  The recursion always consumes bytes, so
/// the unreachable guard arm carries an arbitrary value.
pub open spec fn spec_parse_rest(bs: Seq<u8>, acc: Seq<SpecToken>) -> Result<
    (Seq<SpecToken>, Seq<u8>),
    ParseErr,
>
    decreases bs.len(),
{
    let t = skip_space(bs);
    if !binaryop_ahead(t) {
        Ok((acc, t))
    } else {
        let op = spec_binop(t);
        let after_op = t.skip(spec_binop_len(t));
        match spec_read_value(after_op) {
            Err(k) => Err(k),
            Ok((c, rest)) => {
                let acc2 = acc.push(SpecToken::Op(op)).push(SpecToken::Val(c));
                if rest.len() < bs.len() {
                    spec_parse_rest(rest, acc2)
                } else {
                    arbitrary()
                }
            },
        }
    }
}

/// One loop step of the tail always consumes at least one byte, so the
/// guard in `spec_parse_rest` never falls into its arbitrary arm.
pub proof fn lemma_parse_rest_step(bs: Seq<u8>)
    requires
        binaryop_ahead(skip_space(bs)),
    ensures
        match spec_read_value(skip_space(bs).skip(spec_binop_len(skip_space(bs)))) {
            Ok((c, rest)) => rest.len() < bs.len(),
            Err(k) => true,
        },
{
    let t = skip_space(bs);
    lemma_skip_space_len(bs);
    lemma_binop_len_bounds(t);
    lemma_read_value_consumes(t.skip(spec_binop_len(t)));
}

/// A whole expression: one value, then the operator/value tail; when
/// `expect_eof` is set, nothing but whitespace may remain.
pub open spec fn spec_read_expression(bs: Seq<u8>, expect_eof: bool) -> Result<
    (Seq<SpecToken>, Seq<u8>),
    ParseErr,
> {
    match spec_read_value(bs) {
        Err(k) => Err(k),
        Ok((c, rest)) => match spec_parse_rest(rest, seq![SpecToken::Val(c)]) {
            Err(k) => Err(k),
            Ok((toks, rest2)) => if expect_eof && rest2.len() != 0 {
                Err(ParseErr::TrailingTokens)
            } else {
                Ok((toks, rest2))
            },
        },
    }
}

/// The whole parse of a byte sequence: the token sequence it denotes, or the
/// failure it raises.
pub open spec fn spec_parse(bs: Seq<u8>) -> Result<Seq<SpecToken>, ParseErr> {
    match spec_read_expression(bs, true) {
        Ok((toks, rest)) => Ok(toks),
        Err(k) => Err(k),
    }
}

/// Law: whitespace ahead of the first token never changes what a parse
/// yields.
pub proof fn lemma_parse_ignores_leading_space(bs: Seq<u8>)
    ensures
        spec_parse(skip_space(bs)) == spec_parse(bs),
{
    lemma_skip_space_idem(bs);
}

} // verus!

