//! Derivation records: what an executed instruction observed before it
//! committed (`InstructionDerivationPre`) and what it produced
//! (`InstructionDerivationPost`).

use vstd::prelude::*;

verus! {

/// Element types whose loads can be recorded.
pub trait Load<Value>: Sized {
    /// The record of a load of this element type.
    spec fn load_post(offset: u32, raw_address: u32, value: Value) -> InstructionDerivationPost<Value>;

    /// Builds the record of a load; loads have no pre record, as the loaded
    /// value is only known after the load.
    fn new_load_post(offset: u32, raw_address: u32, value: Value) -> (r: InstructionDerivationPost<
        Value,
    >)
        ensures
            r == Self::load_post(offset, raw_address, value),
    ;
}

/// Element types whose stores can be recorded.
pub trait Store<Value>: Sized {
    /// The pre record of a store of this element type.
    spec fn store_pre(offset: u32, raw_address: u32, value: Value) -> InstructionDerivationPre<Value>;

    /// The post record of a store of this element type.
    spec fn store_post(offset: u32, raw_address: u32, value: Value) -> InstructionDerivationPost<Value>;

    /// Builds the pre record of a store.
    fn new_store_pre(offset: u32, raw_address: u32, value: Value) -> (r: InstructionDerivationPre<
        Value,
    >)
        ensures
            r == Self::store_pre(offset, raw_address, value),
    ;

    /// Builds the post record of a store.
    fn new_store_post(offset: u32, raw_address: u32, value: Value) -> (r: InstructionDerivationPost<
        Value,
    >)
        ensures
            r == Self::store_post(offset, raw_address, value),
    ;
}

impl<Value> Load<Value> for i32 {
    open spec fn load_post(offset: u32, raw_address: u32, value: Value) -> InstructionDerivationPost<Value> {
        InstructionDerivationPost::I32Load { offset, raw_address, value }
    }

    fn new_load_post(offset: u32, raw_address: u32, value: Value) -> (r: InstructionDerivationPost<
        Value,
    >) {
        InstructionDerivationPost::I32Load { offset, raw_address, value }
    }
}

impl<Value> Store<Value> for i32 {
    open spec fn store_pre(offset: u32, raw_address: u32, value: Value) -> InstructionDerivationPre<Value> {
        InstructionDerivationPre::I32Store { offset, raw_address, value }
    }

    open spec fn store_post(offset: u32, raw_address: u32, value: Value) -> InstructionDerivationPost<Value> {
        InstructionDerivationPost::I32Store { offset, raw_address, value }
    }

    fn new_store_pre(offset: u32, raw_address: u32, value: Value) -> (r: InstructionDerivationPre<
        Value,
    >) {
        InstructionDerivationPre::I32Store { offset, raw_address, value }
    }

    fn new_store_post(offset: u32, raw_address: u32, value: Value) -> (r: InstructionDerivationPost<
        Value,
    >) {
        InstructionDerivationPost::I32Store { offset, raw_address, value }
    }
}

/// What an instruction observed before it committed: the operands it consumed.
#[derive(Copy, Clone, Debug, PartialEq, Eq)]
pub enum InstructionDerivationPre<Value> {
    Br { dst_pc: u32, keep: bool, drop: u32 },
    BrIfEqz { cond: bool, dst_pc: u32, keep: bool, drop: u32 },
    BrIfNez { cond: bool, dst_pc: u32, keep: bool, drop: u32 },
    Return { keep: bool, drop: u32 },
    Select { left: Value, mid: Value, right: Value },
    SetLocal { depth: u32, value: Value },
    SetGlobal { index: u32, value: Value },
    I32Store { offset: u32, raw_address: u32, value: Value },
    GrowMemory { pages: u32 },
    I32Add { lhs: i32, rhs: i32 },
}

/// What an instruction produced: the operands it consumed and its outputs.
#[allow(inconsistent_fields)]
#[derive(Clone, Debug, PartialEq, Eq)]
pub enum InstructionDerivationPost<Value> {
    Select { left: Value, mid: Value, right: Value, output: Value },
    Br { dst_pc: u32, keep: bool, drop: u32, return_value: Option<Value> },
    BrIfEqz { cond: bool, dst_pc: u32, keep: bool, drop: u32, return_value: Option<Value> },
    BrIfNez { cond: bool, dst_pc: u32, keep: bool, drop: u32, return_value: Option<Value> },
    Return { keep: bool, drop: u32, return_value: Option<Value> },
    Call { index: u32 },
    GetLocal { depth: u32, value: Value },
    SetLocal { depth: u32, value: Value },
    TeeLocal { depth: u32, value: Value },
    GetGlobal { index: u32, value: Value },
    SetGlobal { index: u32, value: Value },
    I32Load { offset: u32, raw_address: u32, value: Value },
    I32Store { offset: u32, raw_address: u32, value: Value },
    CurrentMemory(usize),
    GrowMemory { pages: u32, new_size: u32 },
    I32Const(i32),
    I32Add { lhs: i32, rhs: i32, output: i32 },
}

/// `true` when `pre` and `post` carry the same tag and agree on every field
/// that the two records share.
pub open spec fn shares_fields<Value>(
    pre: InstructionDerivationPre<Value>,
    post: InstructionDerivationPost<Value>,
) -> bool {
    match (pre, post) {
        (
            InstructionDerivationPre::Br { dst_pc: a, keep: b, drop: c },
            InstructionDerivationPost::Br { dst_pc: x, keep: y, drop: z, .. },
        ) => a == x && b == y && c == z,
        (
            InstructionDerivationPre::BrIfEqz { cond: d, dst_pc: a, keep: b, drop: c },
            InstructionDerivationPost::BrIfEqz { cond: w, dst_pc: x, keep: y, drop: z, .. },
        ) => d == w && a == x && b == y && c == z,
        (
            InstructionDerivationPre::BrIfNez { cond: d, dst_pc: a, keep: b, drop: c },
            InstructionDerivationPost::BrIfNez { cond: w, dst_pc: x, keep: y, drop: z, .. },
        ) => d == w && a == x && b == y && c == z,
        (
            InstructionDerivationPre::Return { keep: b, drop: c },
            InstructionDerivationPost::Return { keep: y, drop: z, .. },
        ) => b == y && c == z,
        (
            InstructionDerivationPre::Select { left: a, mid: b, right: c },
            InstructionDerivationPost::Select { left: x, mid: y, right: z, .. },
        ) => a == x && b == y && c == z,
        (
            InstructionDerivationPre::SetLocal { depth: a, value: b },
            InstructionDerivationPost::SetLocal { depth: x, value: y },
        ) => a == x && b == y,
        (
            InstructionDerivationPre::SetGlobal { index: a, value: b },
            InstructionDerivationPost::SetGlobal { index: x, value: y },
        ) => a == x && b == y,
        (
            InstructionDerivationPre::I32Store { offset: a, raw_address: b, value: c },
            InstructionDerivationPost::I32Store { offset: x, raw_address: y, value: z },
        ) => a == x && b == y && c == z,
        (
            InstructionDerivationPre::GrowMemory { pages: a },
            InstructionDerivationPost::GrowMemory { pages: x, .. },
        ) => a == x,
        (
            InstructionDerivationPre::I32Add { lhs: a, rhs: b },
            InstructionDerivationPost::I32Add { lhs: x, rhs: y, .. },
        ) => a == x && b == y,
        _ => false,
    }
}

/// The sum that Wasm's `i32.add` produces: two's complement, wrapping on overflow.
pub open spec fn i32_add_output(lhs: i32, rhs: i32) -> i32 {
    lhs.wrapping_add(rhs)
}

/// The page count that `memory.grow` leaves: grown by `pages` on success,
/// unchanged on failure.
pub open spec fn grown_size(size_before: u32, pages: u32, grown: bool) -> int {
    if grown {
        size_before + pages
    } else {
        size_before as int
    }
}

impl<Value> InstructionDerivationPre<Value> {
    /// Whether `into_post` can complete this record from the given outputs:
    /// a `select` needs its output, and a memory growth must leave a page
    /// count that fits in a `u32`.
    pub open spec fn completable(self, output: Option<Value>, size_before: u32, grown: bool) -> bool {
        match self {
            InstructionDerivationPre::Select { .. } => output is Some,
            InstructionDerivationPre::GrowMemory { pages } => grown_size(size_before, pages, grown)
                <= u32::MAX,
            _ => true,
        }
    }

    /// Completes this pre record into the post record of the same step.
    ///
    /// `output` is the value that a branch kept (`None` when it kept none) or
    /// that a `select` chose; `size_before` is the page count before a
    /// `memory.grow`, and `grown` tells whether the growth succeeded. Other
    /// instructions ignore them; an `i32.add` computes its own output.
    pub fn into_post(self, output: Option<Value>, size_before: u32, grown: bool) -> (r:
        InstructionDerivationPost<Value>)
        requires
            self.completable(output, size_before, grown),
        ensures
            shares_fields(self, r),
            match (self, r) {
                (InstructionDerivationPre::Select { .. }, InstructionDerivationPost::Select { output: o, .. }) =>
                    output == Some(o),
                (InstructionDerivationPre::Br { .. }, InstructionDerivationPost::Br { return_value, .. }) =>
                    return_value == output,
                (InstructionDerivationPre::BrIfEqz { .. }, InstructionDerivationPost::BrIfEqz { return_value, .. }) =>
                    return_value == output,
                (InstructionDerivationPre::BrIfNez { .. }, InstructionDerivationPost::BrIfNez { return_value, .. }) =>
                    return_value == output,
                (InstructionDerivationPre::Return { .. }, InstructionDerivationPost::Return { return_value, .. }) =>
                    return_value == output,
                (InstructionDerivationPre::GrowMemory { pages }, InstructionDerivationPost::GrowMemory { new_size, .. }) =>
                    new_size == grown_size(size_before, pages, grown),
                (InstructionDerivationPre::I32Add { lhs, rhs }, InstructionDerivationPost::I32Add { output: o, .. }) =>
                    o == i32_add_output(lhs, rhs),
                _ => true,
            },
    {
        match self {
            InstructionDerivationPre::Br { dst_pc, keep, drop } => InstructionDerivationPost::Br {
                dst_pc,
                keep,
                drop,
                return_value: output,
            },
            InstructionDerivationPre::BrIfEqz { cond, dst_pc, keep, drop } => InstructionDerivationPost::BrIfEqz {
                cond,
                dst_pc,
                keep,
                drop,
                return_value: output,
            },
            InstructionDerivationPre::BrIfNez { cond, dst_pc, keep, drop } => InstructionDerivationPost::BrIfNez {
                cond,
                dst_pc,
                keep,
                drop,
                return_value: output,
            },
            InstructionDerivationPre::Return { keep, drop } => InstructionDerivationPost::Return {
                keep,
                drop,
                return_value: output,
            },
            InstructionDerivationPre::Select { left, mid, right } => InstructionDerivationPost::Select {
                left,
                mid,
                right,
                output: output.unwrap(),
            },
            InstructionDerivationPre::SetLocal { depth, value } => InstructionDerivationPost::SetLocal {
                depth,
                value,
            },
            InstructionDerivationPre::SetGlobal { index, value } => InstructionDerivationPost::SetGlobal {
                index,
                value,
            },
            InstructionDerivationPre::I32Store { offset, raw_address, value } => InstructionDerivationPost::I32Store {
                offset,
                raw_address,
                value,
            },
            InstructionDerivationPre::GrowMemory { pages } => {
                let new_size = if grown {
                    size_before + pages
                } else {
                    size_before
                };
                InstructionDerivationPost::GrowMemory { pages, new_size }
            },
            InstructionDerivationPre::I32Add { lhs, rhs } => InstructionDerivationPost::I32Add {
                lhs,
                rhs,
                output: lhs.wrapping_add(rhs),
            },
        }
    }
}

/// The pre and post records that the store constructors build from the same
/// arguments agree on every shared field: offset, address and stored value.
pub proof fn lemma_store_records_agree<Value>(offset: u32, raw_address: u32, value: Value)
    ensures
        shares_fields(
            <i32 as Store<Value>>::store_pre(offset, raw_address, value),
            <i32 as Store<Value>>::store_post(offset, raw_address, value),
        ),
{
}

} // verus!
