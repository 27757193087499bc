use crate::grammar::{BinaryOp, SpecConstant, SpecToken};
use crate::model::{
    all_space, binaryop_ahead, const_run_len, default_const_byte, is_digit_b, is_space_b, literal_digits,
    literal_multiplier, skip_space, spec_binop, spec_binop_len, spec_parse, spec_parse_rest,
    spec_read_const, spec_read_value, suffix_multiplier, valid_literal, wf_constant, wf_expr,
    ParseErr, B_BANG, B_CARET, B_DOT, B_EQ, B_GT, B_LOW_A, B_LOW_D, B_LOW_K, B_LOW_N, B_LOW_O, B_LOW_R,
    B_LT, B_MINUS, B_PCT, B_PLUS, B_SLASH, B_STAR, B_UP_G, B_UP_M, B_UP_T,
};
use vstd::prelude::*;

verus! {

// ---------------------------------------------------------------------------
// Rendering tokens back to text
// ---------------------------------------------------------------------------
// A well-formed token sequence can be written out again: each constant as
// its digit run plus one unit-suffix letter, each operator as its spelling,
// with any whitespace at all between tokens.  The round-trip law at the
// bottom says that parsing any such rendering gives back exactly the tokens,
// whatever whitespace was chosen: the parse depends only on the tokens.
/// One spelling of a suffix factor; the empty one for factor 1.
pub open spec fn render_multiplier(m: u64) -> Seq<u8> {
    if m == 1 {
        Seq::<u8>::empty()
    } else if m == 1000 {
        seq![B_LOW_K]
    } else if m == 1000000 {
        seq![B_UP_M]
    } else if m == 1000000000 {
        seq![B_UP_G]
    } else {
        seq![B_UP_T]
    }
}

/// A constant written out: its digit run, then its suffix spelling.
pub open spec fn render_const(c: SpecConstant) -> Seq<u8> {
    c.digits + render_multiplier(c.multiplier)
}

/// An operator's spelling.
pub open spec fn render_op(op: BinaryOp) -> Seq<u8> {
    match op {
        BinaryOp::EPlus => seq![B_PLUS],
        BinaryOp::EMinus => seq![B_MINUS],
        BinaryOp::EMul => seq![B_STAR],
        BinaryOp::EDiv => seq![B_SLASH],
        BinaryOp::EMod => seq![B_PCT],
        BinaryOp::EExp => seq![B_CARET],
        BinaryOp::ELT => seq![B_LT],
        BinaryOp::ELTE => seq![B_LT, B_EQ],
        BinaryOp::EEQ => seq![B_EQ, B_EQ],
        BinaryOp::ENE => seq![B_BANG, B_EQ],
        BinaryOp::EGTE => seq![B_GT, B_EQ],
        BinaryOp::EGT => seq![B_GT],
        BinaryOp::EOR => seq![B_LOW_O, B_LOW_R],
        BinaryOp::EAND => seq![B_LOW_A, B_LOW_N, B_LOW_D],
    }
}

/// One token written out.
pub open spec fn render_tok(t: SpecToken) -> Seq<u8> {
    match t {
        SpecToken::Val(c) => render_const(c),
        SpecToken::Op(op) => render_op(op),
    }
}

/// A token sequence written out, with the whitespace run `ws[i]` in front
/// of the `i`-th token and `ws` one entry longer than `toks`, so its last
/// entry trails the text.
pub open spec fn render_toks(toks: Seq<SpecToken>, ws: Seq<Seq<u8>>) -> Seq<u8>
    decreases toks.len(),
{
    if toks.len() == 0 {
        if ws.len() > 0 {
            ws[0]
        } else {
            Seq::<u8>::empty()
        }
    } else {
        ws[0] + render_tok(toks[0]) + render_toks(toks.drop_first(), ws.drop_first())
    }
}

/// A fitting choice of whitespace: one run per gap, each of spaces only.
pub open spec fn spacing_ok(toks: Seq<SpecToken>, ws: Seq<Seq<u8>>) -> bool {
    &&& ws.len() == toks.len() + 1
    &&& forall|i: int| 0 <= i < ws.len() ==> all_space(#[trigger] ws[i])
}

// ---------------------------------------------------------------------------
// Helper lemmas
// ---------------------------------------------------------------------------
/// An operator spelling opens with a byte that is neither whitespace nor
/// ever part of a constant.
proof fn lemma_op_first_byte(op: BinaryOp)
    ensures
        render_op(op).len() >= 1,
        !is_space_b(render_op(op)[0]),
        !default_const_byte(render_op(op)[0], 1),
{
}

/// The classifier accepts a run of accepted bytes as a whole: the run's
/// length is the run itself plus whatever the tail still yields.
proof fn lemma_const_run_over(ds: Seq<u8>, y: Seq<u8>, i: nat)
    requires
        forall|j: int| 0 <= j < ds.len() ==> default_const_byte(#[trigger] ds[j], (i + j) as nat),
    ensures
        const_run_len(ds + y, i) == ds.len() + const_run_len(y, (i + ds.len()) as nat),
    decreases ds.len(),
{
    if ds.len() == 0 {
        assert(ds + y =~= y);
    } else {
        assert((ds + y)[0] == ds[0]);
        assert((ds + y).drop_first() =~= ds.drop_first() + y);
        lemma_const_run_over(ds.drop_first(), y, i + 1);
    }
}

/// Reading a value off a rendered constant gives that constant back and
/// leaves exactly the tail, provided the tail does not begin with a byte
/// the constant classifier would keep accepting.
proof fn lemma_read_value_render(c: SpecConstant, x: Seq<u8>)
    requires
        wf_constant(c),
        x.len() == 0 || !default_const_byte(x[0], 1),
    ensures
        spec_read_value(render_const(c) + x) == Ok::<(SpecConstant, Seq<u8>), ParseErr>((c, x)),
        !is_space_b((render_const(c) + x)[0]),
{
    let rc = render_const(c);
    let bs = rc + x;
    assert(c.digits.len() > 0);
    assert(bs[0] == c.digits[0]);
    assert(default_const_byte(bs[0], 0));
    assert(!is_space_b(bs[0]));
    assert(skip_space(bs) == bs);
    assert forall|j: int| 0 <= j < rc.len() implies default_const_byte(
        #[trigger] rc[j],
        (0 + j) as nat,
    ) by {
        if j < c.digits.len() {
            assert(rc[j] == c.digits[j]);
        } else {
            assert(rc[j] == render_multiplier(c.multiplier)[j - c.digits.len()]);
        }
    }
    lemma_const_run_over(rc, x, 0);
    assert(const_run_len(x, rc.len() as nat) == 0);
    assert(const_run_len(bs, 0) == rc.len());
    let run = bs.take(rc.len() as int);
    assert(run =~= rc);
    assert(bs.skip(rc.len() as int) =~= x);
    if c.multiplier == 1 {
        assert(run =~= c.digits);
        assert(is_digit_b(c.digits.last()) || c.digits.last() == B_DOT);
        assert(suffix_multiplier(run.last()) == 1);
        assert(literal_digits(run) == run);
        assert(literal_multiplier(run) == 1);
    } else {
        assert(run.last() == render_multiplier(c.multiplier)[0]);
        assert(suffix_multiplier(run.last()) == c.multiplier);
        assert(literal_digits(run) =~= c.digits);
        assert(literal_multiplier(run) == c.multiplier);
    }
    assert(spec_read_const(bs) == Ok::<(SpecConstant, Seq<u8>), ParseErr>((c, x)));
}

/// Reading an operator off its rendered spelling gives that operator back
/// and leaves exactly the tail; the one care is that `<` and `>` must not
/// be followed directly by `=`, which their own longer spellings cover.
proof fn lemma_read_op_render(op: BinaryOp, x: Seq<u8>)
    requires
        (op == BinaryOp::ELT || op == BinaryOp::EGT) ==> (x.len() == 0 || x[0] != B_EQ),
    ensures
        ({
            let bs = render_op(op) + x;
            &&& binaryop_ahead(bs)
            &&& spec_binop(bs) == op
            &&& spec_binop_len(bs) == render_op(op).len()
            &&& bs.skip(render_op(op).len() as int) == x
        }),
{
    let ro = render_op(op);
    let bs = ro + x;
    assert(bs.skip(ro.len() as int) =~= x);
    assert(bs[0] == ro[0]);
    if ro.len() >= 2 {
        assert(bs[1] == ro[1]);
    }
    if ro.len() >= 3 {
        assert(bs[2] == ro[2]);
    }
    if x.len() > 0 {
        assert(bs[ro.len() as int] == x[0]);
    }
}

/// The text a token sequence renders to, read from its first gap: a byte
/// run that is empty or opens with whitespace or an operator byte, never
/// with a byte the constant classifier accepts.
proof fn lemma_render_opens_free(toks: Seq<SpecToken>, ws: Seq<Seq<u8>>)
    requires
        toks.len() > 0 ==> toks[0] is Op,
        ws.len() == toks.len() + 1,
        forall|i: int| 0 <= i < ws.len() ==> all_space(#[trigger] ws[i]),
    ensures
        ({
            let r = render_toks(toks, ws);
            r.len() == 0 || is_space_b(r[0]) || !default_const_byte(r[0], 1)
        }),
{
    let r = render_toks(toks, ws);
    if toks.len() == 0 {
        if ws[0].len() > 0 {
            assert(is_space_b(ws[0][0]));
        }
    } else {
        if ws[0].len() > 0 {
            assert(r[0] == ws[0][0]);
            assert(is_space_b(r[0]));
        } else {
            let op = toks[0]->Op_0;
            lemma_op_first_byte(op);
            assert(r[0] == render_op(op)[0]);
        }
    }
}

/// The operator/value tail of a rendering parses to exactly those tokens
/// appended to the accumulator, with nothing left over.
proof fn lemma_parse_rest_render(tail: Seq<SpecToken>, ws: Seq<Seq<u8>>, acc: Seq<SpecToken>)
    requires
        tail.len() % 2 == 0,
        forall|i: int| 0 <= i < tail.len() ==> ((#[trigger] tail[i]) is Op <==> i % 2 == 0),
        forall|i: int|
            0 <= i < tail.len() ==> ((#[trigger] tail[i]) matches SpecToken::Val(c)
                ==> wf_constant(c)),
        ws.len() == tail.len() + 1,
        forall|i: int| 0 <= i < ws.len() ==> all_space(#[trigger] ws[i]),
    ensures
        spec_parse_rest(render_toks(tail, ws), acc) == Ok::<(Seq<SpecToken>, Seq<u8>), ParseErr>(
            (acc + tail, Seq::<u8>::empty()),
        ),
    decreases tail.len(),
{
    let bs = render_toks(tail, ws);
    if tail.len() == 0 {
        assert(bs == ws[0]);
        crate::model::lemma_skip_space_concat(ws[0], Seq::<u8>::empty());
        assert(ws[0] + Seq::<u8>::empty() =~= ws[0]);
        assert(skip_space(Seq::<u8>::empty()) == Seq::<u8>::empty());
        assert(skip_space(bs) == Seq::<u8>::empty());
        assert(!binaryop_ahead(skip_space(bs)));
        assert(acc + tail =~= acc);
    } else {
        let op = tail[0]->Op_0;
        let c = tail[1]->Val_0;
        let w0 = ws[0];
        let ro = render_op(op);
        let rc = render_const(c);
        let tail1 = tail.drop_first();
        let ws1 = ws.drop_first();
        let rest1 = render_toks(tail1, ws1);
        let tail2 = tail1.drop_first();
        let ws2 = ws1.drop_first();
        let rest2 = render_toks(tail2, ws2);
        assert(tail[1] == tail1[0] && SpecToken::Val(c) == tail[1]);
        assert(rest1 == ws[1] + rc + rest2);
        assert(bs == w0 + render_op(op) + rest1);

        // what follows the operator: whitespace, then the constant
        assert(tail2.len() > 0 ==> tail2[0] == tail[2]);
        lemma_render_opens_free(tail2, ws2);
        lemma_read_value_render(
            c,
            rest2,
        );
        let inner = rc + rest2;
        crate::model::lemma_skip_space_concat(ws[1], inner);
        assert(ws[1] + rc + rest2 =~= ws[1] + inner);
        assert(skip_space(inner) == inner);
        assert(skip_space(rest1) == inner);
        assert(spec_read_value(rest1) == Ok::<(SpecConstant, Seq<u8>), ParseErr>((c, rest2))) by {
            crate::model::lemma_skip_space_idem(rest1);
        }

        // the operator spelling is read off the front
        assert(rest1.len() > 0 && (is_space_b(rest1[0]) || rest1[0] != B_EQ)) by {
            if ws[1].len() > 0 {
                assert(rest1[0] == ws[1][0]);
            } else {
                assert(rest1 =~= inner);
                assert(rest1[0] == rc[0] && rc[0] == c.digits[0]);
            }
        }
        lemma_read_op_render(op, rest1);
        lemma_op_first_byte(op);
        let t = ro + rest1;
        crate::model::lemma_skip_space_concat(w0, t);
        assert(w0 + render_op(op) + rest1 =~= w0 + t);
        assert(skip_space(t) == t);
        assert(skip_space(bs) == t);
        assert(binaryop_ahead(t) && spec_binop(t) == op && t.skip(spec_binop_len(t)) == rest1);

        // one unfolding of the tail parse, then the induction hypothesis
        assert(rest2.len() < bs.len());
        let acc2 = acc.push(SpecToken::Op(op)).push(SpecToken::Val(c));
        assert(spec_parse_rest(bs, acc) == spec_parse_rest(rest2, acc2));
        assert forall|i: int| 0 <= i < tail2.len() implies ((#[trigger] tail2[i]) is Op <==> i % 2
            == 0) by {
            assert(tail2[i] == tail[i + 2]);
        }
        assert forall|i: int|
            0 <= i < tail2.len() implies ((#[trigger] tail2[i]) matches SpecToken::Val(cc)
            ==> wf_constant(cc)) by {
            assert(tail2[i] == tail[i + 2]);
        }
        assert(ws2.len() == tail2.len() + 1);
        assert forall|i: int| 0 <= i < ws2.len() implies all_space(#[trigger] ws2[i]) by {
            assert(ws2[i] == ws[i + 2]);
        }
        lemma_parse_rest_render(tail2, ws2, acc2);
        assert(acc2 + tail2 =~= acc + tail);
    }
}

/// Law: rendering any well-formed token sequence, with whatever whitespace
/// in its gaps, and parsing the result gives back exactly that sequence.
/// The parse of a rendering depends on the tokens alone, never on the
/// whitespace around them.
pub proof fn lemma_parse_render_roundtrip(toks: Seq<SpecToken>, ws: Seq<Seq<u8>>)
    requires
        wf_expr(toks),
        spacing_ok(toks, ws),
    ensures
        spec_parse(render_toks(toks, ws)) == Ok::<Seq<SpecToken>, ParseErr>(toks),
{
    let bs = render_toks(toks, ws);
    let c0 = toks[0]->Val_0;
    let rc = render_const(c0);
    let tail = toks.drop_first();
    let ws1 = ws.drop_first();
    let rest1 = render_toks(tail, ws1);
    assert(toks[0] == SpecToken::Val(c0));
    assert(bs == ws[0] + rc + rest1);

    assert(tail.len() > 0 ==> tail[0] == toks[1]);
    lemma_render_opens_free(tail, ws1);
    lemma_read_value_render(c0, rest1);
    let inner = rc + rest1;
    crate::model::lemma_skip_space_concat(ws[0], inner);
    assert(ws[0] + rc + rest1 =~= ws[0] + inner);
    assert(skip_space(inner) == inner);
    assert(skip_space(bs) == inner);
    assert(spec_read_value(bs) == Ok::<(SpecConstant, Seq<u8>), ParseErr>((c0, rest1))) by {
        crate::model::lemma_skip_space_idem(bs);
    }

    assert forall|i: int| 0 <= i < tail.len() implies ((#[trigger] tail[i]) is Op <==> i % 2 == 0)
        by {
        assert(tail[i] == toks[i + 1]);
    }
    assert forall|i: int|
        0 <= i < tail.len() implies ((#[trigger] tail[i]) matches SpecToken::Val(cc)
        ==> wf_constant(cc)) by {
        assert(tail[i] == toks[i + 1]);
    }
    assert forall|i: int| 0 <= i < ws1.len() implies all_space(#[trigger] ws1[i]) by {
        assert(ws1[i] == ws[i + 1]);
    }
    lemma_parse_rest_render(tail, ws1, seq![SpecToken::Val(c0)]);
    assert(seq![SpecToken::Val(c0)] + tail =~= toks);
}

} // verus!
