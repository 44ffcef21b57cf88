use vstd::prelude::*;

use crate::address::Address;
use crate::errors::InterpreterError;

verus! {

/// The call stack: a bounded LIFO of return addresses with 15 usable
/// slots — a fixed array of 16 whose last index stays reserved. A push on
/// a full stack and a pop on an empty one are distinct failures and leave
/// the stack unchanged.
#[derive(Debug, PartialEq, Eq)]
pub struct Stack {
    pub(crate) items: Vec<Address>,
}

impl Stack {
    #[verifier::type_invariant]
    pub(crate) open spec fn type_inv(self) -> bool {
        self.items.len() <= 15
    }

    /// The stored addresses from bottom to top, for use in specifications.
    pub open(crate) spec fn contents(&self) -> Seq<u16> {
        Seq::new(self.items.len() as nat, |i: int| self.items@[i].value())
    }

    /// An empty stack.
    pub fn new() -> (r: Self)
        ensures
            r.contents() == Seq::<u16>::empty(),
    {
        let r = Self { items: Vec::new() };
        proof {
            assert(r.contents() =~= Seq::<u16>::empty());
        }
        r
    }

    /// Pushes a return address; fails with `StackOverflow`, mutating
    /// nothing, exactly when 15 addresses are already stored.
    pub fn push(&mut self, value: Address) -> (r: Result<(), InterpreterError>)
        ensures
            r is Ok <==> old(self).contents().len() < 15,
            r is Ok ==> final(self).contents() == old(self).contents().push(value.value()),
            r is Err ==> r == Err::<(), InterpreterError>(InterpreterError::StackOverflow)
                && final(self).contents() == old(self).contents(),
    {
        proof {
            use_type_invariant(&*self);
        }
        if self.items.len() == 15 {
            return Err(InterpreterError::StackOverflow);
        }
        let mut items: Vec<Address> = Vec::new();
        std::mem::swap(&mut self.items, &mut items);
        items.push(value);
        std::mem::swap(&mut self.items, &mut items);
        proof {
            assert(self.contents() =~= old(self).contents().push(value.value()));
        }
        Ok(())
    }

    /// Pops the most recently pushed address; fails with `StackUnderflow`,
    /// mutating nothing, exactly when the stack is empty.
    pub fn pop(&mut self) -> (r: Result<Address, InterpreterError>)
        ensures
            r is Ok <==> old(self).contents().len() > 0,
            r matches Ok(a) ==> a.value() == old(self).contents().last()
                && final(self).contents() == old(self).contents().drop_last(),
            r is Err ==> r == Err::<Address, InterpreterError>(InterpreterError::StackUnderflow)
                && final(self).contents() == old(self).contents(),
    {
        proof {
            use_type_invariant(&*self);
        }
        let mut items: Vec<Address> = Vec::new();
        std::mem::swap(&mut self.items, &mut items);
        let popped = items.pop();
        std::mem::swap(&mut self.items, &mut items);
        match popped {
            None => Err(InterpreterError::StackUnderflow),
            Some(a) => {
                proof {
                    assert(self.contents() =~= old(self).contents().drop_last());
                }
                Ok(a)
            }
        }
    }
}

/// Stack LIFO law. After pushing the addresses of `items` in order onto a
/// stack holding `base` (the push contract accumulates `base + items`), the
/// stack before the `k`-th pop holds `(base + items).take(base.len() +
/// items.len() - k)`; this lemma states that that pop returns
/// `items[items.len() - 1 - k]` — the pushed addresses come back in exact
/// reverse order — and that after `items.len()` pops the stack holds `base`
/// again.
pub proof fn lemma_stack_lifo(base: Seq<u16>, items: Seq<u16>, k: int)
    requires
        0 <= k < items.len(),
    ensures
        (base + items).take(base.len() + items.len() - k).last()
            == items[items.len() - 1 - k],
        (base + items).take(base.len() + items.len() - k).drop_last()
            == (base + items).take(base.len() + items.len() - (k + 1)),
        (base + items).take(base.len() as int) == base,
{
    let whole = base + items;
    let n = base.len() + items.len();
    assert(whole.take(n - k).last() == whole[n - k - 1]);
    assert(whole[n - k - 1] == items[items.len() - 1 - k]);
    assert(whole.take(n - k).drop_last() =~= whole.take(n - (k + 1)));
    assert(whole.take(base.len() as int) =~= base);
}

} // verus!
