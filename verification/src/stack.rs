//! The operand stack: 1024 slots of 32 bytes each, with a top-of-stack
//! index.  All bounds are checked before any mutation; a failed operation
//! leaves the stack exactly as it was.

use vstd::prelude::*;

verus! {

/// A failure of a stack operation, returned per call and recoverable.
#[derive(Debug, PartialEq, Eq)]
pub enum StackError {
    /// Too few elements for the operation.
    Underflow,
    /// The stack already holds 1024 elements.
    Overflow,
    /// A caller-contract violation: an over-long input or a depth outside
    /// the operation's range.
    Internal,
}

/// A pushed input right-justified into a 32-byte slot: short inputs are
/// zero-padded on the left.
pub open spec fn padded_slot(input: Seq<u8>) -> Seq<u8> {
    Seq::new((32 - input.len()) as nat, |i: int| 0u8) + input
}

/// The operand stack.  Its view is the live elements, bottom first, each a
/// 32-byte word.
pub struct Stack {
    data: Vec<[u8; 32]>,
    ptr: usize,
}

impl View for Stack {
    type V = Seq<Seq<u8>>;

    closed spec fn view(&self) -> Seq<Seq<u8>> {
        Seq::new(self.ptr as nat, |i: int| self.data@[i]@)
    }
}

impl Default for Stack {
    /// An empty stack, its whole backing store zeroed.
    fn default() -> (s: Stack)
        ensures
            s@ == Seq::<Seq<u8>>::empty(),
    {
        Stack::new()
    }
}

impl Stack {
    #[verifier::type_invariant]
    spec fn inv(&self) -> bool {
        self.data@.len() == 1024 && self.ptr <= 1024
    }

    /// An empty stack, its whole backing store zeroed.
    pub fn new() -> (s: Stack)
        ensures
            s@ == Seq::<Seq<u8>>::empty(),
    {
        let mut data: Vec<[u8; 32]> = Vec::new();
        while data.len() < 1024
            invariant
                data@.len() <= 1024,
            decreases 1024 - data@.len(),
        {
            data.push([0u8; 32]);
        }
        let s = Stack { data, ptr: 0 };
        proof {
            assert(s@ =~= Seq::<Seq<u8>>::empty());
        }
        s
    }

    /// The number of live elements.
    pub fn size(&self) -> (r: usize)
        ensures
            r == self@.len(),
    {
        self.ptr
    }

    /// Push a value of at most 32 bytes, right-justified into a fresh slot.
    /// `Internal` on an over-long input, `Overflow` on a full stack; the
    /// stack is unchanged on either error.
    pub fn push(&mut self, input: &[u8]) -> (r: Result<(), StackError>)
        ensures
            input@.len() > 32 ==> r == Err::<(), StackError>(StackError::Internal) && final(self)@
                == old(self)@,
            input@.len() <= 32 && old(self)@.len() >= 1024 ==> r == Err::<(), StackError>(
                StackError::Overflow,
            ) && final(self)@ == old(self)@,
            input@.len() <= 32 && old(self)@.len() < 1024 ==> r == Ok::<(), StackError>(())
                && final(self)@ == old(self)@.push(padded_slot(input@)),
    {
        proof {
            use_type_invariant(&*self);
        }
        let len_in = input.len();
        if len_in > 32 {
            return Err(StackError::Internal);
        }
        if self.ptr >= 1024 {
            return Err(StackError::Overflow);
        }
        let ghost pre = self@;
        let start = 32 - len_in;
        let mut slot = [0u8; 32];
        let mut k: usize = 0;
        while k < len_in
            invariant
                len_in == input@.len(),
                len_in <= 32,
                start == 32 - len_in,
                k <= len_in,
                forall|j: int| 0 <= j < start ==> slot@[j] == 0u8,
                forall|j: int| start <= j < start + k ==> slot@[j] == input@[j - start],
                forall|j: int| start + k <= j < 32 ==> slot@[j] == 0u8,
            decreases len_in - k,
        {
            slot[start + k] = input[k];
            k += 1;
        }
        proof {
            assert(slot@ =~= padded_slot(input@));
        }
        let idx = self.ptr;
        self.data[idx] = slot;
        self.ptr = idx + 1;
        proof {
            assert(self@ =~= pre.push(padded_slot(input@)));
        }
        Ok(())
    }

    /// Pop the top element, zeroing its slot.  `Underflow` on an empty
    /// stack, which is left unchanged.
    pub fn pop(&mut self) -> (r: Result<[u8; 32], StackError>)
        ensures
            old(self)@.len() == 0 ==> r == Err::<[u8; 32], StackError>(StackError::Underflow)
                && final(self)@ == old(self)@,
            old(self)@.len() > 0 ==> (r matches Ok(top) && top@ == old(self)@.last()
                && final(self)@ == old(self)@.drop_last()),
    {
        proof {
            use_type_invariant(&*self);
        }
        if self.ptr == 0 {
            return Err(StackError::Underflow);
        }
        let ghost pre = self@;
        let idx = self.ptr - 1;
        let ret = self.data[idx];
        self.data[idx] = [0u8; 32];
        self.ptr = idx;
        proof {
            assert(self@ =~= pre.drop_last());
        }
        Ok(ret)
    }

    /// The element `n` positions below the top, the top being depth 0.
    /// `Underflow` when fewer than `n + 1` elements are live.
    pub fn back(&self, n: usize) -> (r: Result<&[u8], StackError>)
        ensures
            match r {
                Ok(s) => self@.len() >= n + 1 && s@ == self@[self@.len() - 1 - n],
                Err(e) => self@.len() < n + 1 && e == StackError::Underflow,
            },
    {
        proof {
            use_type_invariant(self);
        }
        if n >= self.ptr {
            return Err(StackError::Underflow);
        }
        let idx = self.ptr - 1 - n;
        let slot = &self.data[idx];
        Ok(slot.as_slice())
    }

    /// The top element: `back(0)`.
    pub fn peek(&self) -> (r: Result<&[u8], StackError>)
        ensures
            match r {
                Ok(s) => self@.len() >= 1 && s@ == self@.last(),
                Err(e) => self@.len() == 0 && e == StackError::Underflow,
            },
    {
        self.back(0)
    }

    /// Copy the element at depth `n - 1` onto a new top slot.  Valid only
    /// for `n` in 1..=16 (`Internal` otherwise); `Overflow` on a full
    /// stack, `Underflow` when fewer than `n` elements are live; the stack
    /// is unchanged on every error.
    pub fn dup(&mut self, n: usize) -> (r: Result<(), StackError>)
        ensures
            !(1 <= n <= 16) ==> r == Err::<(), StackError>(StackError::Internal) && final(self)@
                == old(self)@,
            1 <= n <= 16 && old(self)@.len() >= 1024 ==> r == Err::<(), StackError>(
                StackError::Overflow,
            ) && final(self)@ == old(self)@,
            1 <= n <= 16 && old(self)@.len() < 1024 && old(self)@.len() < n ==> r == Err::<
                (),
                StackError,
            >(StackError::Underflow) && final(self)@ == old(self)@,
            1 <= n <= 16 && n <= old(self)@.len() < 1024 ==> r == Ok::<(), StackError>(())
                && final(self)@ == old(self)@.push(old(self)@[old(self)@.len() - n]),
    {
        proof {
            use_type_invariant(&*self);
        }
        if 1 > n || n > 16 {
            return Err(StackError::Internal);
        }
        if self.ptr >= 1024 {
            return Err(StackError::Overflow);
        }
        if self.ptr < n {
            return Err(StackError::Underflow);
        }
        let ghost pre = self@;
        let src = self.ptr - n;
        let slot = self.data[src];
        let idx = self.ptr;
        self.data[idx] = slot;
        self.ptr = idx + 1;
        proof {
            assert(self@ =~= pre.push(pre[pre.len() - n]));
        }
        Ok(())
    }

    /// Exchange the top element with the one `n` positions below it.  Valid
    /// only for `n` in 1..=16 (`Internal` otherwise); `Underflow` when
    /// fewer than `n + 1` elements are live.  The size never changes, and
    /// every slot except the two exchanged ones keeps its value.
    pub fn swap(&mut self, n: usize) -> (r: Result<(), StackError>)
        ensures
            !(1 <= n <= 16) ==> r == Err::<(), StackError>(StackError::Internal) && final(self)@
                == old(self)@,
            1 <= n <= 16 && old(self)@.len() < n + 1 ==> r == Err::<(), StackError>(
                StackError::Underflow,
            ) && final(self)@ == old(self)@,
            1 <= n <= 16 && old(self)@.len() >= n + 1 ==> {
                let len = old(self)@.len() as int;
                &&& r == Ok::<(), StackError>(())
                &&& final(self)@ == old(self)@.update(len - 1, old(self)@[len - 1 - n]).update(
                    len - 1 - n,
                    old(self)@[len - 1],
                )
            },
            final(self)@.len() == old(self)@.len(),
            1 <= n <= 16 && old(self)@.len() >= n + 1 ==> forall|i: int|
                0 <= i < old(self)@.len() && i != old(self)@.len() - 1 && i != old(self)@.len() - 1
                    - n ==> final(self)@[i] == old(self)@[i],
    {
        proof {
            use_type_invariant(&*self);
        }
        if 1 > n || n > 16 {
            return Err(StackError::Internal);
        }
        if n >= self.ptr {
            return Err(StackError::Underflow);
        }
        let ghost pre = self@;
        let top = self.ptr - 1;
        let low = self.ptr - 1 - n;
        let a = self.data[top];
        let b = self.data[low];
        self.data[top] = b;
        self.data[low] = a;
        proof {
            assert(self@ =~= pre.update(pre.len() - 1, pre[pre.len() - 1 - n]).update(
                pre.len() - 1 - n,
                pre[pre.len() - 1],
            ));
        }
        Ok(())
    }
}

/// What a dup leaves on top is exactly what `back(n - 1)` read before it:
/// the element at depth `n - 1`, which a following pop returns.
pub proof fn lemma_dup_pop_matches_back(s: Seq<Seq<u8>>, n: int)
    requires
        1 <= n <= s.len(),
    ensures
        s.push(s[s.len() - n]).last() == s[s.len() - 1 - (n - 1)],
{
}

} // verus!
