use vstd::prelude::*;

verus! {

/// Failure record returned by every fallible operation: a short, stable
/// message naming what went wrong, plus a chain of context breadcrumbs, one
/// prepended at each propagation boundary (outermost context first).
#[derive(Debug, PartialEq, Eq)]
pub struct Error {
    pub message: String,
    pub context: Vec<String>,
}

impl Error {
    /// The message, as a sequence of characters.
    pub open spec fn msg(&self) -> Seq<char> {
        self.message@
    }

    /// The breadcrumb chain, as sequences of characters, outermost first.
    pub open spec fn ctx(&self) -> Seq<Seq<char>> {
        Seq::new(self.context@.len() as nat, |i: int| self.context@[i]@)
    }

    /// Constructs an error with the given message and no context yet.
    pub fn new(message: &str) -> (e: Error)
        ensures
            e.msg() == message@,
            e.ctx() == Seq::<Seq<char>>::empty(),
    {
        let e = Error { message: message.to_owned(), context: Vec::new() };
        proof {
            assert(e.ctx() =~= Seq::<Seq<char>>::empty());
        }
        e
    }

    /// Prepends one more context breadcrumb in front of the chain.
    pub fn pre(self, context: &str) -> (e: Error)
        ensures
            e.msg() == self.msg(),
            e.ctx() == self.ctx().insert(0, context@),
    {
        let ghost old_ctx = self.ctx();
        let Error { message, context: mut chain } = self;
        chain.insert(0, context.to_owned());
        let e = Error { message, context: chain };
        proof {
            assert(e.ctx() =~= old_ctx.insert(0, context@));
        }
        e
    }
}

} // verus!
