use crate::error::Error;
use crate::grammar::{
    toks_view, BinaryOp, Constant, Expression, ExpressionTok, SpecConstant, SpecToken, Value,
};
use crate::model::{
    ascii_chars, binaryop_ahead, const_run_len, default_const_byte, default_var_byte, is_digit_b,
    is_space_b, lemma_binop_len_bounds, lemma_const_run_accepts,
    lemma_const_run_len_le, lemma_parse_rest_step, lemma_skip_space_idem, lemma_skip_space_len,
    literal_digits, literal_multiplier, parse_err_ctx, parse_err_msg, skip_space, spec_binop,
    spec_binop_len, spec_const_rest, spec_parse, spec_parse_rest, spec_read_const,
    spec_read_expression, spec_read_value, spec_value_rest, valid_literal, value_err_ctx,
    wf_constant, wf_expr, ParseErr, B_0, B_9, B_BANG, B_CARET,
    B_CR, B_DOT, B_EQ, B_GT, B_LF, B_LOW_A, B_LOW_D, B_LOW_K, B_LOW_N, B_LOW_O, B_LOW_R, B_LOW_Z,
    B_LT, B_MINUS, B_PCT, B_PLUS, B_SLASH, B_SP, B_STAR, B_TAB, B_UNDER, B_UP_A, B_UP_G, B_UP_K,
    B_UP_M, B_UP_T, B_UP_Z,
};
use vstd::prelude::*;
use vstd::slice::{slice_index_get, slice_subrange};
use vstd::string::StringSliceAdditionalSpecFns;

verus! {

// ---------------------------------------------------------------------------
// Cursor primitives
// ---------------------------------------------------------------------------
// The parser walks a shrinking byte slice rather than a vector or an index
// pair: advancing is one pointer bump, and nothing is ever shifted or copied.
/// Removes and returns the first byte, or fails with an end-of-input error
/// when the slice is empty.
pub fn read<'a>(bs: &mut &'a [u8]) -> (r: Result<u8, Error>)
    ensures
        old(bs)@.len() > 0 ==> r == Ok::<u8, Error>(old(bs)@[0]) && final(bs)@ == old(
            bs,
        )@.drop_first(),
        old(bs)@.len() == 0 ==> ({
            &&& final(bs)@ == old(bs)@
            &&& r matches Err(e) && e.msg() == "EOF"@ && e.ctx() == Seq::<Seq<char>>::empty()
        }),
{
    let n = (*bs).len();
    if n > 0 {
        let b = *slice_index_get(*bs, 0);
        *bs = slice_subrange(*bs, 1, n);
        proof {
            assert(final(bs)@ =~= old(bs)@.drop_first());
        }
        Ok(b)
    } else {
        Err(Error::new("EOF"))
    }
}

/// Returns the byte `skip` positions ahead without consuming anything, or
/// nothing when that runs past the end.
pub fn peek(bs: &[u8], skip: usize) -> (r: Option<u8>)
    ensures
        r == (if (skip as int) < bs@.len() {
            Some(bs@[skip as int])
        } else {
            None::<u8>
        }),
{
    if bs.len() > skip {
        Some(*slice_index_get(bs, skip))
    } else {
        None
    }
}

/// Whether the input is exhausted.
pub fn is_at_eof(bs: &[u8]) -> (r: bool)
    ensures
        r == (bs@.len() == 0),
{
    bs.len() == 0
}

/// Whether the byte `skip` positions ahead exists and equals `val`.
pub fn peek_is(bs: &[u8], skip: usize, val: u8) -> (r: bool)
    ensures
        r == ((skip as int) < bs@.len() && bs@[skip as int] == val),
{
    match peek(bs, skip) {
        None => false,
        Some(b) => b == val,
    }
}

/// Whether `b` is formula whitespace.
pub fn is_space(b: u8) -> (r: bool)
    ensures
        r == is_space_b(b),
{
    b == B_SP || b == B_TAB || b == B_CR || b == B_LF
}

/// Advances past leading whitespace.
pub fn space(bs: &mut &[u8])
    ensures
        final(bs)@ == skip_space(old(bs)@),
{
    let ghost orig: Seq<u8> = bs@;
    loop
        invariant
            skip_space(bs@) == skip_space(orig),
        ensures
            bs@.len() == 0 || !is_space_b(bs@[0]),
            skip_space(bs@) == skip_space(orig),
        decreases bs@.len(),
    {
        match peek(*bs, 0) {
            None => { break ; },
            Some(b) => {
                if !is_space(b) {
                    break ;
                }
                let ghost before: Seq<u8> = bs@;
                let _ = read(bs);
                proof {
                    assert(skip_space(before) == skip_space(bs@));
                }
            },
        }
    }
    proof {
        assert(skip_space(bs@) == bs@);
    }
}

/// Decides [`valid_literal`]: at least one digit, at most one dot, nothing
/// else.
fn check_literal(ds: &Vec<u8>) -> (r: bool)
    ensures
        r == valid_literal(ds@),
{
    if ds.len() == 0 {
        return false;
    }
    let mut seen_digit = false;
    let mut seen_dot = false;
    let mut j: usize = 0;
    while j < ds.len()
        invariant
            j <= ds@.len(),
            forall|x: int| 0 <= x < j ==> is_digit_b(#[trigger] ds@[x]) || ds@[x] == B_DOT,
            seen_digit == exists|x: int| 0 <= x < j && is_digit_b(#[trigger] ds@[x]),
            seen_dot == exists|x: int| 0 <= x < j && (#[trigger] ds@[x]) == B_DOT,
            forall|x: int, y: int|
                #![trigger ds@[x], ds@[y]]
                0 <= x < y < j ==> !(ds@[x] == B_DOT && ds@[y] == B_DOT),
        decreases ds@.len() - j,
    {
        let b = ds[j];
        if B_0 <= b && b <= B_9 {
            seen_digit = true;
        } else if b == B_DOT {
            if seen_dot {
                proof {
                    let x = choose|x: int| 0 <= x < j && (#[trigger] ds@[x]) == B_DOT;
                    assert(ds@[x] == B_DOT && ds@[j as int] == B_DOT);
                    assert(!valid_literal(ds@));
                }
                return false;
            }
            proof {
                assert(forall|x: int| 0 <= x < j ==> (#[trigger] ds@[x]) != B_DOT);
            }
            seen_dot = true;
        } else {
            proof {
                assert(!(is_digit_b(ds@[j as int]) || ds@[j as int] == B_DOT));
                assert(!valid_literal(ds@));
            }
            return false;
        }
        j += 1;
    }
    seen_digit
}

/// Relies on str::from_utf8 (and str::to_owned): ASCII bytes are valid
/// UTF-8, and decode to exactly those characters.  The default classifier
/// only ever collects ASCII, so for it the breadcrumb below is pinned; a
/// custom classifier may collect bytes this gives no promise about.
#[verifier::external_body]
fn decode_run(bytes: &Vec<u8>) -> (r: Option<String>)
    ensures
        (match r {
            Some(s) => (forall|i: int| 0 <= i < bytes@.len() ==> bytes@[i] < 128) ==> s@
                == ascii_chars(bytes@),
            None => exists|i: int| 0 <= i < bytes@.len() && bytes@[i] >= 128,
        }),
{
    match core::str::from_utf8(bytes.as_slice()) {
        Ok(s) => Some(s.to_owned()),
        Err(_) => None,
    }
}

/// What a failed value read hands back: the missing-value or encoding kinds
/// with no breadcrumb yet, or the bad-literal kind carrying the offending
/// run as its one breadcrumb.
pub open spec fn value_err(e: Error) -> bool {
    ||| (e.msg() == "InvalidValue"@ && e.ctx() == Seq::<Seq<char>>::empty())
    ||| (e.msg() == "Utf8Error"@ && e.ctx() == Seq::<Seq<char>>::empty())
    ||| (e.msg() == "parse<f64> error"@ && e.ctx().len() == 1)
}

/// What a failed constant read hands back: a value-read failure other than
/// the missing-value kind.
pub open spec fn const_err(e: Error) -> bool {
    ||| (e.msg() == "Utf8Error"@ && e.ctx() == Seq::<Seq<char>>::empty())
    ||| (e.msg() == "parse<f64> error"@ && e.ctx().len() == 1)
}

/// What a failed expression parse hands back, whatever classifier runs:
/// one of the fixed kinds, each with its fixed breadcrumb shape.
pub open spec fn expression_err(e: Error) -> bool {
    ||| (e.msg() == "InvalidValue"@ && e.ctx() == seq!["read_value"@])
    ||| (e.msg() == "Utf8Error"@ && e.ctx() == seq!["read_value"@])
    ||| (e.msg() == "parse<f64> error"@ && e.ctx().len() == 2 && e.ctx()[0] == "read_value"@)
    ||| (e.msg() == "unparsed tokens remaining"@ && e.ctx() == Seq::<Seq<char>>::empty())
}

// ---------------------------------------------------------------------------
// The parser
// ---------------------------------------------------------------------------
/// The parser itself: three optional byte classifiers, each a hook taking a
/// byte and its position within the token.  An absent hook means the
/// documented default.  Hooks extend what counts as a constant, function
/// name or variable name without touching the parser's structure; a caller
/// with a non-`Copy` closure passes a reference to it.
pub struct Parser<FC, FF, FV> where
    FC: Fn(u8, usize) -> bool + Copy,
    FF: Fn(u8, usize) -> bool + Copy,
    FV: Fn(u8, usize) -> bool + Copy,
 {
    pub is_const_byte: Option<FC>,
    pub is_func_byte: Option<FF>,
    pub is_var_byte: Option<FV>,
}

impl<FC, FF, FV> Parser<FC, FF, FV> where
    FC: Fn(u8, usize) -> bool + Copy,
    FF: Fn(u8, usize) -> bool + Copy,
    FV: Fn(u8, usize) -> bool + Copy,
 {
    /// The constant hook, if any, must take a call on every byte and
    /// position; classification asks nothing else of it.
    pub open spec fn const_hook_total(&self) -> bool {
        self.is_const_byte matches Some(f) ==> forall|b: u8, i: usize| #[trigger]
            call_requires(f, (b, i))
    }

    /// Likewise for the function-name hook.
    pub open spec fn func_hook_total(&self) -> bool {
        self.is_func_byte matches Some(f) ==> forall|b: u8, i: usize| #[trigger]
            call_requires(f, (b, i))
    }

    /// Likewise for the variable-name hook.
    pub open spec fn var_hook_total(&self) -> bool {
        self.is_var_byte matches Some(f) ==> forall|b: u8, i: usize| #[trigger]
            call_requires(f, (b, i))
    }

    /// Whether constant classification is left to the default; only then is
    /// the parse pinned byte for byte by the model in [`crate::model`].
    pub open spec fn uses_default_const(&self) -> bool {
        self.is_const_byte is None
    }

    /// The default constant classifier: digits and dots anywhere, unit
    /// suffix letters past the first position.
    pub fn default_is_const_byte(b: u8, i: usize) -> (r: bool)
        ensures
            r == default_const_byte(b, i as nat),
    {
        if B_0 <= b && b <= B_9 || b == B_DOT {
            return true;
        }
        if i > 0 && (b == B_LOW_K || b == B_UP_K || b == B_UP_M || b == B_UP_G || b == B_UP_T) {
            return true;
        }
        false
    }

    /// The default identifier classifier: ASCII letters and underscore
    /// anywhere, digits past the first position.
    pub fn default_is_var_byte(b: u8, i: usize) -> (r: bool)
        ensures
            r == default_var_byte(b, i as nat),
    {
        (B_UP_A <= b && b <= B_UP_Z) || (B_LOW_A <= b && b <= B_LOW_Z) || b == B_UNDER || (i > 0
            && B_0 <= b && b <= B_9)
    }

    /// Classifies a peeked byte as part of a constant: absent bytes are
    /// rejected, otherwise the hook (or the default) decides.
    pub fn call_is_const_byte(&self, bo: Option<u8>, i: usize) -> (r: bool)
        requires
            self.const_hook_total(),
        ensures
            (match bo {
                None => r == false,
                Some(b) => match self.is_const_byte {
                    Some(f) => call_ensures(f, (b, i), r),
                    None => r == default_const_byte(b, i as nat),
                },
            }),
    {
        match bo {
            Some(b) => match self.is_const_byte {
                Some(f) => f(b, i),
                None => Self::default_is_const_byte(b, i),
            },
            None => false,
        }
    }

    /// Skips whitespace, then tells whether a constant begins here.
    pub fn peek_const(&self, bs: &mut &[u8]) -> (r: bool)
        requires
            self.const_hook_total(),
        ensures
            final(bs)@ == skip_space(old(bs)@),
            self.uses_default_const() ==> r == (final(bs)@.len() > 0 && default_const_byte(
                final(bs)@[0],
                0,
            )),
            final(bs)@.len() == 0 ==> r == false,
            (match self.is_const_byte {
                Some(f) => final(bs)@.len() > 0 ==> call_ensures(f, (final(bs)@[0], 0), r),
                None => true,
            }),
    {
        space(bs);
        self.call_is_const_byte(peek(*bs, 0), 0)
    }

    /// Reads one constant: the classifier-accepted run, its unit suffix
    /// split off, checked against this library's literal grammar (at least
    /// one digit, at most one dot).  That grammar is fixed whatever
    /// classifier runs: a custom classifier widens which bytes join the
    /// run, not which runs are accepted as literals, so a hook admitting,
    /// say, exponent letters still has such runs rejected here.  Whatever
    /// the outcome, the whitespace and the whole run are consumed.
    pub fn read_const(&self, bs: &mut &[u8]) -> (r: Result<Constant, Error>)
        requires
            self.const_hook_total(),
        ensures
            self.uses_default_const() ==> (match spec_read_const(old(bs)@) {
                Ok((c, rest)) => r matches Ok(con) && con@ == c && final(bs)@ == rest,
                Err(k) => r matches Err(e) && e.msg() == parse_err_msg(k) && e.ctx()
                    == value_err_ctx(k),
            }),
            self.uses_default_const() ==> final(bs)@ == spec_const_rest(old(bs)@),
            r matches Ok(con) ==> wf_constant(con@) && final(bs)@.len() < old(bs)@.len(),
            r matches Err(e) ==> const_err(e),
    {
        proof {
            lemma_skip_space_len(old(bs)@);
        }
        space(bs);
        let ghost t: Seq<u8> = bs@;
        let mut buf: Vec<u8> = Vec::with_capacity(16);
        loop
            invariant_except_break
                self.const_hook_total(),
                bs@.len() + buf@.len() == t.len(),
                self.uses_default_const() ==> ({
                    &&& buf@ == t.take(buf@.len() as int)
                    &&& bs@ == t.skip(buf@.len() as int)
                    &&& const_run_len(t, 0) == buf@.len() + const_run_len(bs@, buf@.len() as nat)
                }),
            ensures
                bs@.len() + buf@.len() == t.len(),
                self.uses_default_const() ==> ({
                    &&& const_run_len(t, 0) == buf@.len()
                    &&& buf@ == t.take(buf@.len() as int)
                    &&& bs@ == t.skip(buf@.len() as int)
                }),
            decreases bs@.len(),
        {
            let c = peek(*bs, 0);
            if !self.call_is_const_byte(c, buf.len()) {
                proof {
                    if self.uses_default_const() {
                        assert(const_run_len(bs@, buf@.len() as nat) == 0);
                    }
                }
                break ;
            }
            let ghost k: int = buf@.len() as int;
            let ghost prev: Seq<u8> = bs@;
            let b = match read(bs) {
                Ok(b) => b,
                Err(e) => { return Err(e) },
            };
            buf.push(b);
            proof {
                if self.uses_default_const() {
                    lemma_const_run_len_le(t, 0);
                    assert(prev == t.skip(k) && prev.len() > 0 && k + 1 <= t.len());
                    assert(t.skip(k).drop_first() =~= t.skip(k + 1));
                    assert(t.take(k).push(t[k]) =~= t.take(k + 1));
                    assert(default_const_byte(prev[0], k as nat));
                }
            }
        }
        let ghost run: Seq<u8> = buf@;
        let mut multiplier: u64 = 1;
        if buf.len() > 0 {
            let last = buf[buf.len() - 1];
            if last == B_LOW_K || last == B_UP_K {
                multiplier = 1000;
                let _ = buf.pop();
            } else if last == B_UP_M {
                multiplier = 1000000;
                let _ = buf.pop();
            } else if last == B_UP_G {
                multiplier = 1000000000;
                let _ = buf.pop();
            } else if last == B_UP_T {
                multiplier = 1000000000000;
                let _ = buf.pop();
            }
        }
        proof {
            assert(buf@ == literal_digits(run));
            assert(multiplier == literal_multiplier(run));
        }
        if !check_literal(&buf) {
            proof {
                if self.uses_default_const() {
                    lemma_const_run_accepts(t, 0);
                    assert forall|j: int| 0 <= j < buf@.len() implies buf@[j] < 128 by {
                        assert(default_const_byte(run[j], j as nat));
                    }
                }
            }
            return Err(
                match decode_run(&buf) {
                    Some(s) => {
                        let e = Error::new("parse<f64> error").pre(s.as_str());
                        proof {
                            assert(e.ctx() =~= seq![s@]);
                        }
                        e
                    },
                    None => Error::new("Utf8Error"),
                },
            );
        }
        proof {
            assert(run.len() >= 1 && bs@.len() < old(bs)@.len());
        }
        Ok(Constant { digits: buf, multiplier })
    }

    /// Parses a whole string into its flat token sequence, or fails as the
    /// first sub-rule did.  With the default constant classifier the result
    /// is exactly [`spec_parse`] of the string's bytes; whatever classifier
    /// runs, a success is a well-formed alternating sequence.
    pub fn parse(&self, s: &str) -> (r: Result<Expression, Error>)
        requires
            self.const_hook_total(),
        ensures
            self.uses_default_const() ==> (match spec_parse(s.spec_bytes()) {
                Ok(toks) => r matches Ok(e) && e@ == toks,
                Err(k) => r matches Err(err) && err.msg() == parse_err_msg(k) && err.ctx()
                    == parse_err_ctx(k),
            }),
            r matches Ok(e) ==> wf_expr(e@),
            r matches Err(err) ==> expression_err(err),
    {
        let mut bs: &[u8] = s.as_bytes();
        self.read_expression(&mut bs, true)
    }

    /// Reads one expression: a value, then an operator and a value as long
    /// as an operator spelling follows.  With `expect_eof`, bytes other
    /// than whitespace left over are a failure.
    pub fn read_expression(&self, bs: &mut &[u8], expect_eof: bool) -> (r: Result<
        Expression,
        Error,
    >)
        requires
            self.const_hook_total(),
        ensures
            self.uses_default_const() ==> (match spec_read_expression(old(bs)@, expect_eof) {
                Ok((toks, rest)) => r matches Ok(e) && e@ == toks && final(bs)@ == rest,
                Err(k) => r matches Err(err) && err.msg() == parse_err_msg(k) && err.ctx()
                    == parse_err_ctx(k),
            }),
            r matches Ok(e) ==> wf_expr(e@),
            r matches Err(err) ==> expression_err(err),
    {
        let ghost orig: Seq<u8> = bs@;
        let val = match self.read_value(bs) {
            Ok(v) => v,
            Err(e) => {
                let e2 = e.pre("read_value");
                proof {
                    if e.ctx().len() == 0 {
                        assert(e2.ctx() =~= seq!["read_value"@]);
                    }
                    if self.uses_default_const() {
                        let k = spec_read_value(orig)->Err_0;
                        assert(e2.ctx() =~= parse_err_ctx(k));
                    }
                }
                return Err(e2);
            },
        };
        let ghost c0: SpecConstant = val@;
        let ghost rest0: Seq<u8> = bs@;
        let ghost acc0: Seq<SpecToken> = seq![SpecToken::Val(c0)];
        let mut toks: Vec<ExpressionTok> = Vec::new();
        toks.push(ExpressionTok::EValue(val));
        proof {
            assert(toks_view(toks@) =~= acc0);
        }
        loop
            invariant_except_break
                self.const_hook_total(),
                orig == old(bs)@,
                wf_expr(toks_view(toks@)),
                self.uses_default_const() ==> ({
                    &&& spec_read_value(orig) == Ok::<(SpecConstant, Seq<u8>), ParseErr>(
                        (c0, rest0),
                    )
                    &&& acc0 == seq![SpecToken::Val(c0)]
                    &&& spec_parse_rest(rest0, acc0) == spec_parse_rest(bs@, toks_view(toks@))
                }),
            ensures
                wf_expr(toks_view(toks@)),
                skip_space(bs@) == bs@,
                self.uses_default_const() ==> ({
                    &&& spec_read_value(orig) == Ok::<(SpecConstant, Seq<u8>), ParseErr>(
                        (c0, rest0),
                    )
                    &&& spec_parse_rest(rest0, acc0) == Ok::<(Seq<SpecToken>, Seq<u8>), ParseErr>(
                        (toks_view(toks@), bs@),
                    )
                }),
            decreases bs@.len(),
        {
            let ghost entry: Seq<u8> = bs@;
            let ghost acc: Seq<SpecToken> = toks_view(toks@);
            if !self.peek_binaryop(bs) {
                proof {
                    lemma_skip_space_idem(entry);
                }
                break ;
            }
            proof {
                lemma_skip_space_idem(entry);
                lemma_skip_space_len(entry);
                lemma_binop_len_bounds(skip_space(entry));
                lemma_parse_rest_step(entry);
            }
            let bop = match self.read_binaryop(bs) {
                Ok(o) => o,
                Err(e) => {
                    // not reachable: an operator spelling is ahead
                    return Err(e.pre("read_binaryop"));
                },
            };
            let ghost after_op: Seq<u8> = bs@;
            let val2 = match self.read_value(bs) {
                Ok(v) => v,
                Err(e) => {
                    let e2 = e.pre("read_value");
                    proof {
                        if e.ctx().len() == 0 {
                            assert(e2.ctx() =~= seq!["read_value"@]);
                        }
                        if self.uses_default_const() {
                            let k = spec_read_value(after_op)->Err_0;
                            assert(spec_parse_rest(entry, acc) == Err::<
                                (Seq<SpecToken>, Seq<u8>),
                                ParseErr,
                            >(k));
                            assert(spec_read_expression(orig, expect_eof) == Err::<
                                (Seq<SpecToken>, Seq<u8>),
                                ParseErr,
                            >(k));
                            assert(e2.ctx() =~= parse_err_ctx(k));
                        }
                    }
                    return Err(e2);
                },
            };
            let ghost c2: SpecConstant = val2@;
            toks.push(ExpressionTok::EBinaryOp(bop));
            toks.push(ExpressionTok::EValue(val2));
            proof {
                let n = acc.len() as int;
                let acc2 = acc.push(SpecToken::Op(bop)).push(SpecToken::Val(c2));
                assert(toks_view(toks@) =~= acc2);
                if self.uses_default_const() {
                    assert(spec_read_value(after_op) == Ok::<(SpecConstant, Seq<u8>), ParseErr>(
                        (c2, bs@),
                    ));
                    assert(spec_parse_rest(entry, acc) == spec_parse_rest(bs@, acc2));
                }
                assert forall|i: int| 0 <= i < acc2.len() implies ((#[trigger] acc2[i]) is Val
                    <==> i % 2 == 0) by {
                    if i < n {
                        assert(acc2[i] == acc[i]);
                    }
                }
                assert forall|i: int|
                    0 <= i < acc2.len() implies ((#[trigger] acc2[i]) matches SpecToken::Val(c)
                    ==> wf_constant(c)) by {
                    if i < n {
                        assert(acc2[i] == acc[i]);
                    }
                }
                assert(wf_expr(acc2));
            }
        }
        space(bs);
        if expect_eof {
            if !is_at_eof(*bs) {
                return Err(Error::new("unparsed tokens remaining"));
            }
        }
        Ok(Expression(toks))
    }

    /// Reads one value.  In the core grammar a value can only be a constant;
    /// further value forms would branch here.  A missing value consumes the
    /// leading whitespace alone; a bad literal leaves its whole run
    /// consumed.
    pub fn read_value(&self, bs: &mut &[u8]) -> (r: Result<Value, Error>)
        requires
            self.const_hook_total(),
        ensures
            self.uses_default_const() ==> (match spec_read_value(old(bs)@) {
                Ok((c, rest)) => r matches Ok(v) && v@ == c && final(bs)@ == rest,
                Err(k) => r matches Err(e) && e.msg() == parse_err_msg(k) && e.ctx()
                    == value_err_ctx(k),
            }),
            self.uses_default_const() ==> final(bs)@ == spec_value_rest(old(bs)@),
            (r matches Err(e) && e.msg() == "InvalidValue"@) ==> final(bs)@ == skip_space(
                old(bs)@,
            ),
            r matches Ok(v) ==> wf_constant(v@) && final(bs)@.len() < old(bs)@.len(),
            r matches Err(e) ==> value_err(e),
    {
        proof {
            lemma_skip_space_idem(old(bs)@);
            lemma_skip_space_len(old(bs)@);
        }
        if self.peek_const(bs) {
            return match self.read_const(bs) {
                Ok(constant) => Ok(Value::EConstant(constant)),
                Err(err) => {
                    proof {
                        // the kinds a constant read raises differ from the
                        // missing-value kind already in length
                        reveal_strlit("InvalidValue");
                        reveal_strlit("Utf8Error");
                        reveal_strlit("parse<f64> error");
                        assert("InvalidValue"@.len() == 12);
                        assert("Utf8Error"@.len() == 9);
                        assert("parse<f64> error"@.len() == 16);
                        assert(err.msg() != "InvalidValue"@);
                    }
                    Err(err)
                },
            };
        }
        Err(Error::new("InvalidValue"))
    }

    /// Skips whitespace, then tells whether a binary-operator spelling
    /// begins here, looking at most two bytes past the first.
    pub fn peek_binaryop(&self, bs: &mut &[u8]) -> (r: bool)
        ensures
            final(bs)@ == skip_space(old(bs)@),
            r == binaryop_ahead(final(bs)@),
    {
        space(bs);
        match peek(*bs, 0) {
            None => false,
            Some(b) => {
                if b == B_PLUS || b == B_MINUS || b == B_STAR || b == B_SLASH || b == B_PCT || b
                    == B_CARET || b == B_LT || b == B_GT {
                    true
                } else if b == B_EQ {
                    peek_is(*bs, 1, B_EQ)
                } else if b == B_BANG {
                    peek_is(*bs, 1, B_EQ)
                } else if b == B_LOW_O {
                    peek_is(*bs, 1, B_LOW_R)
                } else if b == B_LOW_A {
                    peek_is(*bs, 1, B_LOW_N) && peek_is(*bs, 2, B_LOW_D)
                } else {
                    false
                }
            },
        }
    }

    /// Reads one binary operator, consuming exactly its spelling; fails
    /// without a spelling ahead (at the end of input, with the end-of-input
    /// error).
    pub fn read_binaryop(&self, bs: &mut &[u8]) -> (r: Result<BinaryOp, Error>)
        ensures
            ({
                let t = skip_space(old(bs)@);
                &&& binaryop_ahead(t) ==> r == Ok::<BinaryOp, Error>(spec_binop(t)) && final(bs)@
                    == t.skip(spec_binop_len(t))
                &&& (!binaryop_ahead(t) && t.len() == 0) ==> final(bs)@ == t && (r matches Err(e)
                    && e.msg() == "EOF"@ && e.ctx() == Seq::<Seq<char>>::empty())
                &&& (!binaryop_ahead(t) && t.len() > 0) ==> final(bs)@ == t.drop_first() && (
                r matches Err(e) && e.msg() == "illegal binaryop"@ && e.ctx() == Seq::<
                    Seq<char>,
                >::empty())
            }),
    {
        space(bs);
        let ghost t: Seq<u8> = bs@;
        proof {
            assert(t.drop_first() =~= t.skip(1));
            if t.len() >= 2 {
                assert(t.drop_first().drop_first() =~= t.skip(2));
            }
            if t.len() >= 3 {
                assert(t.drop_first().drop_first().drop_first() =~= t.skip(3));
            }
        }
        let b = match read(bs) {
            Ok(b) => b,
            Err(e) => { return Err(e) },
        };
        if b == B_PLUS {
            Ok(BinaryOp::EPlus)
        } else if b == B_MINUS {
            Ok(BinaryOp::EMinus)
        } else if b == B_STAR {
            Ok(BinaryOp::EMul)
        } else if b == B_SLASH {
            Ok(BinaryOp::EDiv)
        } else if b == B_PCT {
            Ok(BinaryOp::EMod)
        } else if b == B_CARET {
            Ok(BinaryOp::EExp)
        } else if b == B_LT {
            if peek_is(*bs, 0, B_EQ) {
                let _ = read(bs);
                Ok(BinaryOp::ELTE)
            } else {
                Ok(BinaryOp::ELT)
            }
        } else if b == B_GT {
            if peek_is(*bs, 0, B_EQ) {
                let _ = read(bs);
                Ok(BinaryOp::EGTE)
            } else {
                Ok(BinaryOp::EGT)
            }
        } else if b == B_EQ {
            if peek_is(*bs, 0, B_EQ) {
                let _ = read(bs);
                Ok(BinaryOp::EEQ)
            } else {
                Err(Error::new("illegal binaryop"))
            }
        } else if b == B_BANG {
            if peek_is(*bs, 0, B_EQ) {
                let _ = read(bs);
                Ok(BinaryOp::ENE)
            } else {
                Err(Error::new("illegal binaryop"))
            }
        } else if b == B_LOW_O {
            if peek_is(*bs, 0, B_LOW_R) {
                let _ = read(bs);
                Ok(BinaryOp::EOR)
            } else {
                Err(Error::new("illegal binaryop"))
            }
        } else if b == B_LOW_A {
            if peek_is(*bs, 0, B_LOW_N) && peek_is(*bs, 1, B_LOW_D) {
                let _ = read(bs);
                let _ = read(bs);
                Ok(BinaryOp::EAND)
            } else {
                Err(Error::new("illegal binaryop"))
            }
        } else {
            Err(Error::new("illegal binaryop"))
        }
    }

    /// Classifies a peeked byte as part of a function name.
    pub fn call_is_func_byte(&self, bo: Option<u8>, i: usize) -> (r: bool)
        requires
            self.func_hook_total(),
        ensures
            (match bo {
                None => r == false,
                Some(b) => match self.is_func_byte {
                    Some(f) => call_ensures(f, (b, i), r),
                    None => r == default_var_byte(b, i as nat),
                },
            }),
    {
        match bo {
            Some(b) => match self.is_func_byte {
                Some(f) => f(b, i),
                None => Self::default_is_var_byte(b, i),
            },
            None => false,
        }
    }

    /// Classifies a peeked byte as part of a variable name.
    pub fn call_is_var_byte(&self, bo: Option<u8>, i: usize) -> (r: bool)
        requires
            self.var_hook_total(),
        ensures
            (match bo {
                None => r == false,
                Some(b) => match self.is_var_byte {
                    Some(f) => call_ensures(f, (b, i), r),
                    None => r == default_var_byte(b, i as nat),
                },
            }),
    {
        match bo {
            Some(b) => match self.is_var_byte {
                Some(f) => f(b, i),
                None => Self::default_is_var_byte(b, i),
            },
            None => false,
        }
    }
}

} // verus!

