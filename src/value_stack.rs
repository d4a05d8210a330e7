//! The value stack that is emulated while Wasm bytecode is translated.

use vstd::prelude::*;
use wasmi_core::ValueType;

verus! {

/// The emulated value stack: the types of the values that the Wasm operand
/// stack would hold at the current point of the translation.
#[derive(Debug)]
pub struct ValueStack {
    values: Vec<ValueType>,
}

impl View for ValueStack {
    type V = Seq<ValueType>;

    closed spec fn view(&self) -> Seq<ValueType> {
        self.values@
    }
}

impl Default for ValueStack {
    fn default() -> (r: ValueStack)
        ensures
            r@ == Seq::<ValueType>::empty(),
    {
        ValueStack { values: Vec::new() }
    }
}

impl ValueStack {
    /// The largest height the stack can reach, so that its height fits in a `u32`.
    pub open spec fn max_height() -> nat {
        u32::MAX as nat
    }

    /// Pushes the type of a value onto the emulated stack.
    pub fn push(&mut self, value_type: ValueType)
        requires
            old(self)@.len() < Self::max_height(),
        ensures
            final(self)@ == old(self)@.push(value_type),
    {
        self.values.push(value_type)
    }

    /// Pops the topmost type from the emulated stack.
    ///
    /// Popping from an empty stack is a bug of the translator, so the stack
    /// must not be empty.
    pub fn pop1(&mut self) -> (r: ValueType)
        requires
            old(self)@.len() > 0,
        ensures
            r == old(self)@.last(),
            final(self)@ == old(self)@.drop_last(),
    {
        self.values.pop().unwrap()
    }

    /// Pops the two topmost types: `(lhs, rhs)`, where `rhs` was on top.
    pub fn pop2(&mut self) -> (r: (ValueType, ValueType))
        requires
            old(self)@.len() >= 2,
        ensures
            r.0 == old(self)@[old(self)@.len() - 2],
            r.1 == old(self)@[old(self)@.len() - 1],
            final(self)@ == old(self)@.subrange(0, old(self)@.len() - 2),
    {
        let rhs = self.pop1();
        let lhs = self.pop1();
        (lhs, rhs)
    }

    /// Pops the three topmost types, in the order they were pushed: `v2` was on top.
    pub fn pop3(&mut self) -> (r: (ValueType, ValueType, ValueType))
        requires
            old(self)@.len() >= 3,
        ensures
            r.0 == old(self)@[old(self)@.len() - 3],
            r.1 == old(self)@[old(self)@.len() - 2],
            r.2 == old(self)@[old(self)@.len() - 1],
            final(self)@ == old(self)@.subrange(0, old(self)@.len() - 3),
    {
        let v2 = self.pop1();
        let v1 = self.pop1();
        let v0 = self.pop1();
        (v0, v1, v2)
    }

    /// Returns the height of the emulated stack.
    pub fn len(&self) -> (r: u32)
        requires
            self@.len() <= Self::max_height(),
        ensures
            r == self@.len(),
    {
        self.values.len() as u32
    }

    /// The type `depth` places below the top: `0` is the topmost.
    pub fn nth_back(&self, depth: u32) -> (r: ValueType)
        requires
            depth < self@.len(),
        ensures
            r == self@[self@.len() - 1 - depth],
    {
        self.values[self.values.len() - 1 - depth as usize]
    }

    /// Returns `true` if the emulated stack holds no value.
    pub fn is_empty(&self) -> (r: bool)
        ensures
            r == (self@.len() == 0),
    {
        self.values.len() == 0
    }

    /// Shrinks the emulated stack to the given height.
    ///
    /// Shrinking to a height above the current one is a bug of the translator,
    /// so the height must not exceed the current height.
    pub fn shrink_to(&mut self, height: u32)
        requires
            height <= old(self)@.len(),
        ensures
            final(self)@ == old(self)@.subrange(0, height as int),
    {
        self.values.truncate(height as usize)
    }
}

/// Shrinking to the current height keeps the stack as it is, and shrinking
/// to height zero empties it.
pub proof fn lemma_shrink_bounds(values: Seq<ValueType>)
    ensures
        values.subrange(0, values.len() as int) == values,
        values.subrange(0, 0) == Seq::<ValueType>::empty(),
{
    assert(values.subrange(0, values.len() as int) =~= values);
    assert(values.subrange(0, 0) =~= Seq::<ValueType>::empty());
}

} // verus!
