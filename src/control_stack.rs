//! The stack of structured control frames that are open during translation.

use vstd::prelude::*;
use wasmi_core::ValueType;
use crate::inst_builder::LabelIdx;

verus! {

/// The results of a block: none, or one value of the given type.
#[derive(Clone, Copy, Debug)]
pub enum BlockType {
    Empty,
    Returns(ValueType),
}

impl BlockType {
    /// The number of values the block leaves on the stack.
    pub open spec fn arity(self) -> nat {
        match self {
            BlockType::Empty => 0,
            BlockType::Returns(_) => 1,
        }
    }

    /// The number of values the block leaves on the stack.
    pub fn len_results(&self) -> (r: u32)
        ensures
            r == self.arity(),
    {
        match self {
            BlockType::Empty => 0,
            BlockType::Returns(_) => 1,
        }
    }
}

/// An open structured control construct. Each frame records the height of
/// the emulated value stack when it was entered.
#[derive(Clone, Copy, Debug)]
pub enum ControlFrame {
    /// A `block`: branches to it go to its end.
    Block { end_label: LabelIdx, block_type: BlockType, height: u32 },
    /// A `loop`: branches to it go back to its header.
    Loop { header: LabelIdx, block_type: BlockType, height: u32 },
    /// An `if`: its condition jumps to the else label when it is zero;
    /// branches to it go to its end.
    If { else_label: LabelIdx, end_label: LabelIdx, has_else: bool, block_type: BlockType, height: u32 },
}

impl ControlFrame {
    /// The label that a branch to this frame targets.
    pub open spec fn spec_branch_label(self) -> LabelIdx {
        match self {
            ControlFrame::Block { end_label, .. } => end_label,
            ControlFrame::Loop { header, .. } => header,
            ControlFrame::If { end_label, .. } => end_label,
        }
    }

    /// The smallest label the frame holds.
    pub open spec fn first_label(self) -> nat {
        match self {
            ControlFrame::Block { end_label, .. } => end_label.0 as nat,
            ControlFrame::Loop { header, .. } => header.0 as nat,
            ControlFrame::If { else_label, .. } => else_label.0 as nat,
        }
    }

    /// The largest label the frame holds.
    pub open spec fn last_label(self) -> nat {
        self.spec_branch_label().0 as nat
    }

    /// The height of the value stack when the frame was entered.
    pub open spec fn spec_height(self) -> u32 {
        match self {
            ControlFrame::Block { height, .. } => height,
            ControlFrame::Loop { height, .. } => height,
            ControlFrame::If { height, .. } => height,
        }
    }

    /// The results of the construct.
    pub open spec fn spec_block_type(self) -> BlockType {
        match self {
            ControlFrame::Block { block_type, .. } => block_type,
            ControlFrame::Loop { block_type, .. } => block_type,
            ControlFrame::If { block_type, .. } => block_type,
        }
    }

    /// The number of values a branch to this frame carries: the results of a
    /// block or an `if`, none for a loop.
    pub open spec fn branch_arity(self) -> nat {
        match self {
            ControlFrame::Loop { .. } => 0,
            _ => self.spec_block_type().arity(),
        }
    }

    /// `true` when `label` is a label of this frame that is resolved only
    /// when the frame is closed or reaches its `else`.
    pub open spec fn holds_open_label(self, label: nat) -> bool {
        match self {
            ControlFrame::Block { end_label, .. } => end_label.0 == label,
            ControlFrame::Loop { .. } => false,
            ControlFrame::If { else_label, end_label, has_else, .. } => end_label.0 == label || (!has_else
                && else_label.0 == label),
        }
    }

    /// The label that a branch to this frame targets.
    pub fn branch_label(&self) -> (r: LabelIdx)
        ensures
            r == self.spec_branch_label(),
    {
        match self {
            ControlFrame::Block { end_label, .. } => *end_label,
            ControlFrame::Loop { header, .. } => *header,
            ControlFrame::If { end_label, .. } => *end_label,
        }
    }

    /// The height of the value stack when the frame was entered.
    pub fn height(&self) -> (r: u32)
        ensures
            r == self.spec_height(),
    {
        match self {
            ControlFrame::Block { height, .. } => *height,
            ControlFrame::Loop { height, .. } => *height,
            ControlFrame::If { height, .. } => *height,
        }
    }

    /// The number of values a branch to this frame carries.
    pub fn len_branch_values(&self) -> (r: u32)
        ensures
            r == self.branch_arity(),
    {
        match self {
            ControlFrame::Block { block_type, .. } => block_type.len_results(),
            ControlFrame::Loop { .. } => 0,
            ControlFrame::If { block_type, .. } => block_type.len_results(),
        }
    }
}

/// The open control frames, innermost last.
#[derive(Debug)]
pub struct ControlFlowStack {
    frames: Vec<ControlFrame>,
}

impl View for ControlFlowStack {
    type V = Seq<ControlFrame>;

    closed spec fn view(&self) -> Seq<ControlFrame> {
        self.frames@
    }
}

impl Default for ControlFlowStack {
    fn default() -> (r: ControlFlowStack)
        ensures
            r@ == Seq::<ControlFrame>::empty(),
    {
        ControlFlowStack { frames: Vec::new() }
    }
}

impl ControlFlowStack {
    /// Opens a frame.
    pub fn push_frame(&mut self, frame: ControlFrame)
        ensures
            final(self)@ == old(self)@.push(frame),
    {
        self.frames.push(frame)
    }

    /// Closes the innermost frame and returns it.
    pub fn pop_frame(&mut self) -> (r: ControlFrame)
        requires
            old(self)@.len() > 0,
        ensures
            r == old(self)@.last(),
            final(self)@ == old(self)@.drop_last(),
    {
        self.frames.pop().unwrap()
    }

    /// The frame `depth` levels out from the innermost one.
    pub fn nth_back(&self, depth: usize) -> (r: ControlFrame)
        requires
            depth < self@.len(),
        ensures
            r == self@[self@.len() - 1 - depth],
    {
        self.frames[self.frames.len() - 1 - depth]
    }

    /// The number of open frames.
    pub fn len(&self) -> (r: usize)
        ensures
            r == self@.len(),
    {
        self.frames.len()
    }

    /// Returns `true` if no frame is open.
    pub fn is_empty(&self) -> (r: bool)
        ensures
            r == (self@.len() == 0),
    {
        self.frames.len() == 0
    }
}

} // verus!
