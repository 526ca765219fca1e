use vstd::prelude::*;

verus! {

/// The data stack of the interpreter: a last-in, first-out stack of `i32`.
#[derive(Debug)]
pub struct Stack {
    data_stack: Vec<i32>,
}

impl View for Stack {
    type V = Seq<i32>;

    /// The stack's contents, bottom first; the top is the last element.
    closed spec fn view(&self) -> Seq<i32> {
        self.data_stack@
    }
}

impl Stack {
    /// An empty stack.
    pub fn new() -> (s: Stack)
        ensures
            s@ == Seq::<i32>::empty(),
    {
        Stack { data_stack: Vec::<i32>::new() }
    }

    /// Puts `d` on top of the stack.
    pub fn push(&mut self, d: i32)
        ensures
            final(self)@ == old(self)@.push(d),
    {
        self.data_stack.push(d);
    }

    /// Takes the top value off the stack.
    pub fn pop(&mut self) -> (x: i32)
        requires
            old(self)@.len() > 0,
        ensures
            x == old(self)@.last(),
            final(self)@ == old(self)@.drop_last(),
    {
        match self.data_stack.pop() {
            Some(x) => x,
            None => { proof { assert(false); } 0 },
        }
    }

    /// The number of values on the stack.
    pub fn len(&self) -> (n: usize)
        ensures
            n == self@.len(),
    {
        self.data_stack.len()
    }

    /// A copy of the stack's contents, bottom first.
    pub fn to_vec(&self) -> (v: Vec<i32>)
        ensures
            v@ == self@,
    {
        let mut v: Vec<i32> = Vec::new();
        let n: usize = self.data_stack.len();
        for i in 0..n
            invariant
                n == self.data_stack@.len(),
                v@ == self.data_stack@.subrange(0, i as int),
        {
            v.push(self.data_stack[i]);
            proof {
                assert(self.data_stack@.subrange(0, i + 1) =~= self.data_stack@.subrange(0, i as int).push(self.data_stack@[i as int]));
            }
        }
        proof {
            assert(self.data_stack@.subrange(0, n as int) =~= self.data_stack@);
        }
        v
    }
}

/// Taking a value off the stack after putting `d` on it gives `d` back and
/// leaves the stack as it was.
pub proof fn law_pop_after_push(st: Seq<i32>, d: i32)
    ensures
        st.push(d).last() == d,
        st.push(d).drop_last() == st,
{
    assert(st.push(d).drop_last() =~= st);
}

} // verus!
