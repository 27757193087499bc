use vstd::prelude::*;

verus! {

/// One binary operator of the formula grammar.
#[derive(Clone, Copy, Debug, PartialEq, Eq, Structural)]
pub enum BinaryOp {
    EPlus,
    EMinus,
    EMul,
    EDiv,
    EMod,
    EExp,
    ELT,
    ELTE,
    EEQ,
    ENE,
    EGTE,
    EGT,
    EOR,
    EAND,
}

/// A numeric literal as read from the text: its digit-and-dot run, and the
/// factor named by an optional trailing unit suffix (`k`/`K` for 1e3, `M` for
/// 1e6, `G` for 1e9, `T` for 1e12; 1 when there was none).  The double it
/// denotes is the run parsed base-10, times the factor; producing that double
/// is the host's concern, since the verified core keeps clear of floating
/// point.
#[derive(Clone, Debug, PartialEq, Eq)]
pub struct Constant {
    pub digits: Vec<u8>,
    pub multiplier: u64,
}

/// Mathematical model of a [`Constant`].
pub struct SpecConstant {
    pub digits: Seq<u8>,
    pub multiplier: u64,
}

impl View for Constant {
    type V = SpecConstant;

    open spec fn view(&self) -> SpecConstant {
        SpecConstant { digits: self.digits@, multiplier: self.multiplier }
    }
}

/// A value token.  Constants are the core grammar; further value forms
/// (variables, calls, groups) are extension points that would hang off this
/// enum.
#[derive(Clone, Debug, PartialEq, Eq)]
pub enum Value {
    EConstant(Constant),
}

impl View for Value {
    type V = SpecConstant;

    open spec fn view(&self) -> SpecConstant {
        match self {
            Value::EConstant(c) => c@,
        }
    }
}

/// One element of the flat token sequence.
#[derive(Clone, Debug, PartialEq, Eq)]
pub enum ExpressionTok {
    EValue(Value),
    EBinaryOp(BinaryOp),
}

/// Mathematical model of an [`ExpressionTok`].
pub enum SpecToken {
    Val(SpecConstant),
    Op(BinaryOp),
}

impl View for ExpressionTok {
    type V = SpecToken;

    open spec fn view(&self) -> SpecToken {
        match self {
            ExpressionTok::EValue(v) => SpecToken::Val(v@),
            ExpressionTok::EBinaryOp(op) => SpecToken::Op(*op),
        }
    }
}

/// The flat, precedence-unaware token sequence a parse produces: oddly many
/// tokens, values at even positions, operators at odd ones.
#[derive(Clone, Debug, PartialEq, Eq)]
pub struct Expression(pub Vec<ExpressionTok>);

/// The model of a sequence of tokens: each token's model, in order.
pub open spec fn toks_view(ts: Seq<ExpressionTok>) -> Seq<SpecToken> {
    Seq::new(ts.len(), |i: int| ts[i]@)
}

impl View for Expression {
    type V = Seq<SpecToken>;

    open spec fn view(&self) -> Seq<SpecToken> {
        toks_view(self.0@)
    }
}

/// The structural invariant of a parsed token sequence: the length is odd,
/// and values strictly alternate with operators, a value first and last.
pub open spec fn wf_tokens(toks: Seq<SpecToken>) -> bool {
    &&& toks.len() % 2 == 1
    &&& forall|i: int| 0 <= i < toks.len() ==> ((#[trigger] toks[i]) is Val <==> i % 2 == 0)
}

/// How many operator tokens a sequence holds.
pub open spec fn op_count(toks: Seq<SpecToken>) -> nat
    decreases toks.len(),
{
    if toks.len() == 0 {
        0
    } else {
        op_count(toks.drop_last()) + if toks.last() is Op {
            1nat
        } else {
            0nat
        }
    }
}

proof fn lemma_op_count_alternating(toks: Seq<SpecToken>)
    requires
        forall|i: int| 0 <= i < toks.len() ==> ((#[trigger] toks[i]) is Val <==> i % 2 == 0),
    ensures
        op_count(toks) == toks.len() / 2,
    decreases toks.len(),
{
    if toks.len() > 0 {
        let prefix = toks.drop_last();
        assert(forall|i: int|
            0 <= i < prefix.len() ==> ((#[trigger] prefix[i]) is Val <==> i % 2 == 0));
        lemma_op_count_alternating(prefix);
    }
}

/// Law: a well-formed token sequence with `n` operators has exactly
/// `2 * n + 1` tokens, so a parse that read `n` operators emitted `2 * n + 1`
/// tokens, alternating value / operator.
pub proof fn lemma_expression_shape(toks: Seq<SpecToken>)
    requires
        wf_tokens(toks),
    ensures
        toks.len() == 2 * op_count(toks) + 1,
{
    lemma_op_count_alternating(toks);
}

} // verus!
