//! Translation of one Wasm function into the interpreter's instructions:
//! the emulated value stack, the control frames and the instruction buffer,
//! driven one operator at a time.

use vstd::prelude::*;
use wasmi_core::ValueType;
use crate::control_stack::{BlockType, ControlFlowStack, ControlFrame};
use crate::inst_builder::{
    branch_inst, is_branch, lemma_branches_pinned, without_label, BranchKind, Instruction,
    InstructionIdx, InstructionsBuilder, LabelIdx, Reloc, PLACEHOLDER_PC, with_target,
};
use crate::value_stack::ValueStack;

verus! {

/// Why the translation of a function failed: the bytecode is malformed or
/// exceeds a limit of the translator.
#[derive(Clone, Copy, Debug, PartialEq, Eq, Structural)]
pub enum ModuleError {
    /// An `end` with no open control frame.
    UnbalancedEnd,
    /// An `else` whose innermost frame is not an `if` without `else`.
    ElseWithoutIf,
    /// A branch to a frame that is not open.
    InvalidBranchDepth,
    /// An operator that this translator does not lower.
    UnsupportedOperator,
    /// An operator needs more values than the current frame holds.
    StackUnderflow,
    /// A frame or the function ends with another number of values than its results.
    StackHeightMismatch,
    /// The function ends while control frames are still open.
    UnclosedBlocks,
    /// The emulated value stack would exceed its largest height.
    TooManyValues,
    /// The function would exceed the largest number of instructions.
    TooManyInstructions,
    /// The function declares more local variables than can be counted.
    TooManyLocals,
    /// An access to a local variable that was not declared.
    InvalidLocalIndex,
}

/// The number of local variables that runs of `(count, type)` declare.
pub open spec fn locals_total(runs: Seq<(u32, ValueType)>) -> nat
    decreases runs.len(),
{
    if runs.len() == 0 {
        0
    } else {
        runs[0].0 as nat + locals_total(runs.drop_first())
    }
}

/// The type of local variable `index` among runs of `(count, type)`, if it
/// was declared.
pub open spec fn local_type(runs: Seq<(u32, ValueType)>, index: int) -> Option<ValueType>
    decreases runs.len(),
{
    if runs.len() == 0 || index < 0 {
        None
    } else if index < runs[0].0 {
        Some(runs[0].1)
    } else {
        local_type(runs.drop_first(), index - runs[0].0)
    }
}

/// Drives the translation of one Wasm function.
pub struct FunctionBuilder {
    /// The index of the function under construction.
    func: u32,
    /// The results of the function.
    results: BlockType,
    /// The open control frames.
    control_frames: ControlFlowStack,
    /// The emulated value stack.
    value_stack: ValueStack,
    /// The instructions emitted so far.
    inst_builder: InstructionsBuilder,
    /// The number of local variables of the function.
    len_locals: usize,
    /// The types of the local variables, as runs of `(count, type)` in the
    /// order they were declared.
    local_runs: Vec<(u32, ValueType)>,
    /// The largest height the emulated value stack reached; parameters and
    /// locals are not counted.
    max_stack_height: u32,
    /// Whether the code being translated is reachable. Unreachable code still
    /// opens and closes frames, but emits nothing and leaves the value stack.
    reachable: bool,
}

/// The relocations of `relocs` are kept as they are when none of them is
/// recorded against `label`.
proof fn lemma_without_absent_label(relocs: Seq<Reloc>, label: LabelIdx)
    requires
        forall|j: int| 0 <= j < relocs.len() ==> (#[trigger] relocs[j]).label != label,
    ensures
        without_label(relocs, label) == relocs,
    decreases relocs.len(),
{
    if relocs.len() > 0 {
        assert forall|j: int| 0 <= j < relocs.drop_last().len() implies (#[trigger] relocs.drop_last()[j]).label
            != label by {
            assert(relocs.drop_last()[j] == relocs[j]);
        }
        lemma_without_absent_label(relocs.drop_last(), label);
        assert(relocs.drop_last().push(relocs.last()) =~= relocs);
    }
}

/// The values a construct with these results leaves on the stack.
pub open spec fn result_types(block_type: BlockType) -> Seq<ValueType> {
    match block_type {
        BlockType::Empty => Seq::empty(),
        BlockType::Returns(t) => seq![t],
    }
}

/// The relocations left once the open labels of `frame` are resolved, the
/// `else` label of an `if` before its end label.
pub open spec fn relocs_after_close(relocs: Seq<Reloc>, frame: ControlFrame) -> Seq<Reloc> {
    match frame {
        ControlFrame::Block { end_label, .. } => without_label(relocs, end_label),
        ControlFrame::Loop { .. } => relocs,
        ControlFrame::If { else_label, end_label, has_else, .. } => if has_else {
            without_label(relocs, end_label)
        } else {
            without_label(without_label(relocs, else_label), end_label)
        },
    }
}

/// The larger of two heights.
pub open spec fn max_height(a: nat, b: nat) -> nat {
    if a >= b {
        a
    } else {
        b
    }
}

impl FunctionBuilder {
    pub closed spec fn spec_func(&self) -> u32 {
        self.func
    }

    pub closed spec fn spec_results(&self) -> BlockType {
        self.results
    }

    pub closed spec fn spec_frames(&self) -> Seq<ControlFrame> {
        self.control_frames@
    }

    pub closed spec fn spec_stack(&self) -> Seq<ValueType> {
        self.value_stack@
    }

    pub closed spec fn spec_builder(&self) -> InstructionsBuilder {
        self.inst_builder
    }

    pub closed spec fn spec_len_locals(&self) -> usize {
        self.len_locals
    }

    pub closed spec fn spec_local_runs(&self) -> Seq<(u32, ValueType)> {
        self.local_runs@
    }

    pub closed spec fn spec_max_stack_height(&self) -> u32 {
        self.max_stack_height
    }

    pub closed spec fn spec_reachable(&self) -> bool {
        self.reachable
    }

    /// The height below which the innermost frame may not pop values.
    pub open spec fn floor(&self) -> nat {
        if self.spec_frames().len() == 0 {
            0
        } else {
            self.spec_frames().last().spec_height() as nat
        }
    }

    /// The invariant of the translation: the instruction buffer is well
    /// formed; the stack never exceeded the recorded maximum; frames hold
    /// minted labels, in increasing order from the outermost, and stack
    /// heights that grow inward and are not above the current height; the
    /// open labels of the frames are unresolved, and every unresolved label is
    /// an open label of a frame.
    pub open spec fn wf(&self) -> bool {
        let b = self.spec_builder();
        let labels = b.spec_labels();
        let frames = self.spec_frames();
        let stack = self.spec_stack();
        &&& b.wf()
        &&& stack.len() <= self.spec_max_stack_height()
        &&& forall|f: int| 0 <= f < frames.len() ==> {
            &&& (#[trigger] frames[f]).last_label() < labels.len()
            &&& frames[f].first_label() <= frames[f].last_label()
            &&& frames[f] is If ==> frames[f].first_label() < frames[f].last_label()
            &&& frames[f].spec_height() <= stack.len()
        }
        &&& forall|f1: int, f2: int| 0 <= f1 < f2 < frames.len() ==> {
            &&& (#[trigger] frames[f1]).last_label() < (#[trigger] frames[f2]).first_label()
            &&& frames[f1].spec_height() <= frames[f2].spec_height()
        }
        &&& forall|f: int, l: nat| 0 <= f < frames.len() && (#[trigger] frames[f].holds_open_label(l))
            ==> labels[l as int] is None
        &&& forall|l: int| 0 <= l < labels.len() && (#[trigger] labels[l]) is None ==> exists|f: int|
            0 <= f < frames.len() && (#[trigger] frames[f].holds_open_label(l as nat))
    }

    /// Starts the translation of function `func` with the given results:
    /// nothing emitted, no frame open, the code reachable.
    pub fn new(func: u32, results: BlockType) -> (r: Self)
        ensures
            r.wf(),
            r.spec_func() == func,
            r.spec_results() == results,
            r.spec_frames() == Seq::<ControlFrame>::empty(),
            r.spec_stack() == Seq::<ValueType>::empty(),
            r.spec_builder().spec_insts() == Seq::<Instruction>::empty(),
            r.spec_builder().spec_labels() == Seq::<Option<u32>>::empty(),
            r.spec_builder().spec_relocs() == Seq::<Reloc>::empty(),
            r.spec_len_locals() == 0,
            r.spec_max_stack_height() == 0,
            r.spec_reachable(),
    {
        FunctionBuilder {
            func,
            results,
            control_frames: ControlFlowStack::default(),
            value_stack: ValueStack::default(),
            inst_builder: InstructionsBuilder::new(),
            len_locals: 0,
            local_runs: Vec::new(),
            max_stack_height: 0,
            reachable: true,
        }
    }

    /// Adds `amount` local variables of the given type.
    pub fn translate_locals(&mut self, amount: u32, value_type: ValueType) -> (r: Result<(), ModuleError>)
        requires
            old(self).wf(),
        ensures
            final(self).wf(),
            final(self).spec_func() == old(self).spec_func(),
            final(self).spec_results() == old(self).spec_results(),
            r is Ok <==> old(self).spec_len_locals() + amount <= usize::MAX,
            r is Err ==> r == Err::<(), ModuleError>(ModuleError::TooManyLocals),
            r is Ok ==> final(self).spec_len_locals() == old(self).spec_len_locals() + amount,
            r is Ok ==> final(self).spec_local_runs() == old(self).spec_local_runs().push((amount, value_type)),
            r is Err ==> *final(self) == *old(self),
            final(self).spec_frames() == old(self).spec_frames(),
            final(self).spec_stack() == old(self).spec_stack(),
            final(self).spec_builder() == old(self).spec_builder(),
            final(self).spec_max_stack_height() == old(self).spec_max_stack_height(),
            final(self).spec_reachable() == old(self).spec_reachable(),
    {
        match self.len_locals.checked_add(amount as usize) {
            Some(len_locals) => {
                self.len_locals = len_locals;
                self.local_runs.push((amount, value_type));
                Ok(())
            },
            None => Err(ModuleError::TooManyLocals),
        }
    }

    /// The type of local variable `index`, if it was declared.
    pub fn local_type_of(&self, index: u32) -> (r: Option<ValueType>)
        ensures
            r == local_type(self.spec_local_runs(), index as int),
    {
        let mut rest: u32 = index;
        let mut k: usize = 0;
        proof {
            assert(self.local_runs@.subrange(0, self.local_runs@.len() as int) =~= self.local_runs@);
        }
        while k < self.local_runs.len()
            invariant
                0 <= k <= self.local_runs@.len(),
                local_type(self.local_runs@, index as int) == local_type(
                    self.local_runs@.subrange(k as int, self.local_runs@.len() as int),
                    rest as int,
                ),
            decreases self.local_runs@.len() - k,
        {
            let (count, value_type) = self.local_runs[k];
            proof {
                let tail = self.local_runs@.subrange(k as int, self.local_runs@.len() as int);
                assert(tail.drop_first() =~= self.local_runs@.subrange(k + 1, self.local_runs@.len() as int));
                assert(tail[0] == (count, value_type));
            }
            if rest < count {
                return Some(value_type);
            }
            rest = rest - count;
            k = k + 1;
        }
        None
    }

    /// Opens a `block`: mints its end label and pushes its frame.
    pub fn translate_block(&mut self, block_type: BlockType) -> (r: Result<(), ModuleError>)
        requires
            old(self).wf(),
        ensures
            final(self).wf(),
            final(self).spec_func() == old(self).spec_func(),
            final(self).spec_results() == old(self).spec_results(),
            r is Ok,
            final(self).spec_frames() == old(self).spec_frames().push(
                ControlFrame::Block {
                    end_label: LabelIdx(old(self).spec_builder().spec_labels().len() as usize),
                    block_type,
                    height: old(self).spec_stack().len() as u32,
                },
            ),
            final(self).spec_builder().spec_labels() == old(self).spec_builder().spec_labels().push(None),
            final(self).spec_builder().spec_insts() == old(self).spec_builder().spec_insts(),
            final(self).spec_builder().spec_relocs() == old(self).spec_builder().spec_relocs(),
            final(self).spec_stack() == old(self).spec_stack(),
            final(self).spec_max_stack_height() == old(self).spec_max_stack_height(),
            final(self).spec_reachable() == old(self).spec_reachable(),
            final(self).spec_len_locals() == old(self).spec_len_locals(),
            final(self).spec_local_runs() == old(self).spec_local_runs(),
    {
        let end_label = self.inst_builder.new_label();
        let height = self.value_stack.len();
        let frame = ControlFrame::Block { end_label, block_type, height };
        self.control_frames.push_frame(frame);
        proof {
            self.lemma_open_frame(*old(self), frame);
        }
        Ok(())
    }

    /// The invariant holds after a frame was opened whose labels were minted
    /// after every label of the open frames.
    proof fn lemma_open_frame(&self, prev: FunctionBuilder, frame: ControlFrame)
        requires
            prev.wf(),
            self.spec_builder().wf(),
            self.spec_stack() == prev.spec_stack(),
            self.spec_max_stack_height() == prev.spec_max_stack_height(),
            self.spec_frames() == prev.spec_frames().push(frame),
            prev.spec_builder().spec_labels().len() <= frame.first_label(),
            frame.first_label() <= frame.last_label(),
            frame is If ==> frame.first_label() < frame.last_label(),
            frame.last_label() < self.spec_builder().spec_labels().len(),
            frame.spec_height() == prev.spec_stack().len(),
            self.spec_builder().spec_labels().len() >= prev.spec_builder().spec_labels().len(),
            forall|l: int| 0 <= l < prev.spec_builder().spec_labels().len() ==> #[trigger] self.spec_builder().spec_labels()[l] == prev.spec_builder().spec_labels()[l],
            forall|l: int| prev.spec_builder().spec_labels().len() <= l < self.spec_builder().spec_labels().len() ==>
                ((#[trigger] self.spec_builder().spec_labels()[l]) is None <==> frame.holds_open_label(l as nat)),
        ensures
            self.wf(),
    {
        let frames = self.spec_frames();
        let labels = self.spec_builder().spec_labels();
        let old_labels = prev.spec_builder().spec_labels();
        let n = prev.spec_frames().len();
        assert forall|f: int| 0 <= f < frames.len() implies {
            &&& (#[trigger] frames[f]).last_label() < labels.len()
            &&& frames[f].first_label() <= frames[f].last_label()
            &&& frames[f] is If ==> frames[f].first_label() < frames[f].last_label()
            &&& frames[f].spec_height() <= self.spec_stack().len()
        } by {
            if f < n {
                assert(frames[f] == prev.spec_frames()[f]);
            }
        }
        assert forall|f1: int, f2: int| 0 <= f1 < f2 < frames.len() implies {
            &&& (#[trigger] frames[f1]).last_label() < (#[trigger] frames[f2]).first_label()
            &&& frames[f1].spec_height() <= frames[f2].spec_height()
        } by {
            assert(frames[f1] == prev.spec_frames()[f1]);
            if f2 < n {
                assert(frames[f2] == prev.spec_frames()[f2]);
            } else {
                assert(prev.spec_frames()[f1].last_label() < old_labels.len());
            }
        }
        assert forall|f: int, l: nat| 0 <= f < frames.len() && (#[trigger] frames[f].holds_open_label(l))
            implies labels[l as int] is None by {
            if f < n {
                assert(frames[f] == prev.spec_frames()[f]);
                assert(prev.spec_frames()[f].holds_open_label(l));
                assert(l <= prev.spec_frames()[f].last_label());
            } else {
                assert(frame.first_label() <= l <= frame.last_label());
            }
        }
        assert forall|l: int| 0 <= l < labels.len() && (#[trigger] labels[l]) is None implies exists|f: int|
            0 <= f < frames.len() && (#[trigger] frames[f].holds_open_label(l as nat)) by {
            if l < old_labels.len() {
                assert(old_labels[l] is None);
                let f = choose|f: int| 0 <= f < prev.spec_frames().len() && (#[trigger] prev.spec_frames()[f].holds_open_label(l as nat));
                assert(frames[f] == prev.spec_frames()[f]);
            } else {
                assert(frames[n as int] == frame);
                assert(frames[n as int].holds_open_label(l as nat));
            }
        }
    }
    fn push_value(&mut self, value_type: ValueType)
        requires
            old(self).wf(),
            old(self).spec_stack().len() < u32::MAX,
        ensures
            final(self).wf(),
            final(self).spec_stack() == old(self).spec_stack().push(value_type),
            final(self).spec_max_stack_height() == max_height(
                old(self).spec_max_stack_height() as nat,
                final(self).spec_stack().len(),
            ),
            final(self).func == old(self).func,
            final(self).results == old(self).results,
            final(self).spec_frames() == old(self).spec_frames(),
            final(self).spec_builder() == old(self).spec_builder(),
            final(self).spec_len_locals() == old(self).spec_len_locals(),
            final(self).spec_local_runs() == old(self).spec_local_runs(),
            final(self).spec_reachable() == old(self).spec_reachable(),
    {
        self.value_stack.push(value_type);
        let len = self.value_stack.len();
        if len > self.max_stack_height {
            self.max_stack_height = len;
        }
        proof {
            let frames = self.spec_frames();
            assert forall|f: int| 0 <= f < frames.len() implies {
                &&& (#[trigger] frames[f]).last_label() < self.spec_builder().spec_labels().len()
                &&& frames[f].first_label() <= frames[f].last_label()
                &&& frames[f] is If ==> frames[f].first_label() < frames[f].last_label()
                &&& frames[f].spec_height() <= self.spec_stack().len()
            } by {
                assert(old(self).spec_frames()[f] == frames[f]);
            }
        }
    }

    /// Opens a `loop`: mints its header label, pins it to the current PC at
    /// once, as branches to a loop go backward, and pushes its frame.
    pub fn translate_loop(&mut self, block_type: BlockType) -> (r: Result<(), ModuleError>)
        requires
            old(self).wf(),
        ensures
            final(self).wf(),
            final(self).spec_func() == old(self).spec_func(),
            final(self).spec_results() == old(self).spec_results(),
            r is Ok,
            final(self).spec_frames() == old(self).spec_frames().push(
                ControlFrame::Loop {
                    header: LabelIdx(old(self).spec_builder().spec_labels().len() as usize),
                    block_type,
                    height: old(self).spec_stack().len() as u32,
                },
            ),
            final(self).spec_builder().spec_labels() == old(self).spec_builder().spec_labels().push(
                Some(old(self).spec_builder().spec_insts().len() as u32),
            ),
            final(self).spec_builder().spec_insts() == old(self).spec_builder().spec_insts(),
            final(self).spec_builder().spec_relocs() == old(self).spec_builder().spec_relocs(),
            final(self).spec_stack() == old(self).spec_stack(),
            final(self).spec_max_stack_height() == old(self).spec_max_stack_height(),
            final(self).spec_reachable() == old(self).spec_reachable(),
            final(self).spec_len_locals() == old(self).spec_len_locals(),
            final(self).spec_local_runs() == old(self).spec_local_runs(),
    {
        let header = self.inst_builder.new_label();
        proof {
            let relocs = self.inst_builder.spec_relocs();
            assert forall|j: int| 0 <= j < relocs.len() implies (#[trigger] relocs[j]).label != header by {}
            lemma_without_absent_label(relocs, header);
        }
        self.inst_builder.resolve_label(header);
        proof {
            let insts = self.inst_builder.spec_insts();
            let old_insts = old(self).inst_builder.spec_insts();
            assert forall|i: int| 0 <= i < insts.len() implies insts[i] == old_insts[i] by {
                if old(self).inst_builder.spec_targets().contains_key(i) {
                    assert(old(self).inst_builder.spec_targets()[i] < old(self).inst_builder.spec_labels().len());
                }
            }
            assert(insts =~= old_insts);
            assert(self.inst_builder.spec_labels() =~= old(self).inst_builder.spec_labels().push(
                Some(old_insts.len() as u32)));
        }
        let height = self.value_stack.len();
        let frame = ControlFrame::Loop { header, block_type, height };
        self.control_frames.push_frame(frame);
        proof {
            self.lemma_open_frame(*old(self), frame);
        }
        Ok(())
    }

    /// The invariant holds after the innermost frame was closed: its open
    /// labels resolved, the other labels kept, and the stack no lower than the
    /// frame's height.
    proof fn lemma_close_frame(&self, prev: FunctionBuilder)
        requires
            prev.wf(),
            prev.spec_frames().len() > 0,
            self.spec_builder().wf(),
            self.spec_frames() == prev.spec_frames().drop_last(),
            self.spec_stack().len() <= self.spec_max_stack_height(),
            prev.spec_frames().last().spec_height() <= self.spec_stack().len(),
            self.spec_builder().spec_labels().len() == prev.spec_builder().spec_labels().len(),
            forall|l: int| 0 <= l < prev.spec_builder().spec_labels().len() ==> (#[trigger] self.spec_builder().spec_labels()[l])
                == if prev.spec_frames().last().holds_open_label(l as nat) {
                    Some(prev.spec_builder().spec_insts().len() as u32)
                } else {
                    prev.spec_builder().spec_labels()[l]
                },
        ensures
            self.wf(),
    {
        let frames = self.spec_frames();
        let old_frames = prev.spec_frames();
        let labels = self.spec_builder().spec_labels();
        let old_labels = prev.spec_builder().spec_labels();
        let top = old_frames.last();
        let n = old_frames.len() - 1;
        assert forall|f: int| 0 <= f < frames.len() implies {
            &&& (#[trigger] frames[f]).last_label() < labels.len()
            &&& frames[f].first_label() <= frames[f].last_label()
            &&& frames[f] is If ==> frames[f].first_label() < frames[f].last_label()
            &&& frames[f].spec_height() <= self.spec_stack().len()
        } by {
            assert(frames[f] == old_frames[f]);
            assert(old_frames[f].spec_height() <= old_frames[n].spec_height());
        }
        assert forall|f1: int, f2: int| 0 <= f1 < f2 < frames.len() implies {
            &&& (#[trigger] frames[f1]).last_label() < (#[trigger] frames[f2]).first_label()
            &&& frames[f1].spec_height() <= frames[f2].spec_height()
        } by {
            assert(frames[f1] == old_frames[f1]);
            assert(frames[f2] == old_frames[f2]);
        }
        assert forall|f: int, l: nat| 0 <= f < frames.len() && (#[trigger] frames[f].holds_open_label(l))
            implies labels[l as int] is None by {
            assert(frames[f] == old_frames[f]);
            assert(old_frames[f].holds_open_label(l));
            assert(old_frames[f].last_label() < old_frames[n].first_label());
            assert(l <= old_frames[f].last_label());
            assert(!top.holds_open_label(l));
        }
        assert forall|l: int| 0 <= l < labels.len() && (#[trigger] labels[l]) is None implies exists|f: int|
            0 <= f < frames.len() && (#[trigger] frames[f].holds_open_label(l as nat)) by {
            assert(!top.holds_open_label(l as nat));
            assert(old_labels[l] is None);
            let f = choose|f: int| 0 <= f < old_frames.len() && (#[trigger] old_frames[f].holds_open_label(l as nat));
            assert(f != n);
            assert(frames[f] == old_frames[f]);
        }
    }

    /// Closes the innermost frame: resolves its open labels to the current PC
    /// (a loop's header already is), leaves the frame's results on the stack
    /// and makes the code reachable again.
    pub fn translate_end(&mut self) -> (r: Result<(), ModuleError>)
        requires
            old(self).wf(),
        ensures
            final(self).wf(),
            final(self).spec_func() == old(self).spec_func(),
            final(self).spec_results() == old(self).spec_results(),
            final(self).spec_max_stack_height() >= old(self).spec_max_stack_height(),
            final(self).spec_len_locals() == old(self).spec_len_locals(),
            final(self).spec_local_runs() == old(self).spec_local_runs(),
            old(self).spec_frames().len() == 0 ==> r == Err::<(), ModuleError>(ModuleError::UnbalancedEnd),
            old(self).spec_frames().len() > 0 ==> {
                let top = old(self).spec_frames().last();
                let height = top.spec_height() as nat;
                let arity = top.spec_block_type().arity();
                &&& old(self).spec_reachable() && old(self).spec_stack().len() != height + arity
                    ==> r == Err::<(), ModuleError>(ModuleError::StackHeightMismatch)
                &&& !old(self).spec_reachable() && height + arity > u32::MAX
                    ==> r == Err::<(), ModuleError>(ModuleError::TooManyValues)
                &&& (old(self).spec_reachable() ==> old(self).spec_stack().len() == height + arity)
                    && height + arity <= u32::MAX ==> {
                    &&& r is Ok
                    &&& final(self).spec_frames() == old(self).spec_frames().drop_last()
                    &&& final(self).spec_stack() == old(self).spec_stack().subrange(0, height as int)
                        + result_types(top.spec_block_type())
                    &&& final(self).spec_reachable()
                    &&& final(self).spec_max_stack_height() == max_height(
                        old(self).spec_max_stack_height() as nat,
                        height + arity,
                    )
                    &&& final(self).spec_builder().spec_labels().len() == old(self).spec_builder().spec_labels().len()
                    &&& forall|l: int| 0 <= l < old(self).spec_builder().spec_labels().len() ==>
                        (#[trigger] final(self).spec_builder().spec_labels()[l]) == if top.holds_open_label(l as nat) {
                            Some(old(self).spec_builder().spec_insts().len() as u32)
                        } else {
                            old(self).spec_builder().spec_labels()[l]
                        }
                    &&& final(self).spec_builder().spec_insts().len() == old(self).spec_builder().spec_insts().len()
                    &&& forall|i: int| 0 <= i < old(self).spec_builder().spec_insts().len() ==>
                        #[trigger] final(self).spec_builder().spec_insts()[i] == if old(self).spec_builder().spec_targets().contains_key(i)
                            && top.holds_open_label(old(self).spec_builder().spec_targets()[i]) {
                            with_target(
                                old(self).spec_builder().spec_insts()[i],
                                old(self).spec_builder().spec_insts().len() as u32,
                            )
                        } else {
                            old(self).spec_builder().spec_insts()[i]
                        }
                    &&& final(self).spec_builder().spec_targets() == old(self).spec_builder().spec_targets()
                    &&& final(self).spec_builder().spec_relocs() == relocs_after_close(
                        old(self).spec_builder().spec_relocs(),
                        top,
                    )
                }
            },
            r is Err ==> *final(self) == *old(self),
    {
        if self.control_frames.is_empty() {
            return Err(ModuleError::UnbalancedEnd);
        }
        let frame = self.control_frames.nth_back(0);
        let height = frame.height();
        let (block_type, arity) = match frame {
            ControlFrame::Block { block_type, .. } => (block_type, block_type.len_results()),
            ControlFrame::Loop { block_type, .. } => (block_type, block_type.len_results()),
            ControlFrame::If { block_type, .. } => (block_type, block_type.len_results()),
        };
        if self.reachable {
            if self.value_stack.len() as u64 != height as u64 + arity as u64 {
                return Err(ModuleError::StackHeightMismatch);
            }
        } else if height as u64 + arity as u64 > u32::MAX as u64 {
            return Err(ModuleError::TooManyValues);
        }
        let ghost prev = *self;
        let frame = self.control_frames.pop_frame();
        match frame {
            ControlFrame::Block { end_label, .. } => {
                proof {
                    assert(prev.spec_frames()[prev.spec_frames().len() - 1].holds_open_label(end_label.0 as nat));
                }
                self.inst_builder.resolve_label(end_label);
            },
            ControlFrame::Loop { .. } => {},
            ControlFrame::If { else_label, end_label, has_else, .. } => {
                proof {
                    assert(prev.spec_frames()[prev.spec_frames().len() - 1].holds_open_label(end_label.0 as nat));
                    assert(prev.spec_frames()[prev.spec_frames().len() - 1].last_label() < prev.inst_builder.spec_labels().len());
                }
                if !has_else {
                    proof {
                        assert(prev.spec_frames()[prev.spec_frames().len() - 1].holds_open_label(else_label.0 as nat));
                    }
                    self.inst_builder.resolve_label(else_label);
                }
                self.inst_builder.resolve_label(end_label);
            },
        }
        self.value_stack.shrink_to(height);
        match block_type {
            BlockType::Returns(value_type) => {
                self.value_stack.push(value_type);
                let len = self.value_stack.len();
                if len > self.max_stack_height {
                    self.max_stack_height = len;
                }
            },
            BlockType::Empty => {},
        }
        self.reachable = true;
        proof {
            assert(self.value_stack@ =~= prev.value_stack@.subrange(0, height as int) + result_types(block_type));
            self.lemma_close_frame(prev);
        }
        Ok(())
    }

    /// Ends the translation of the function: no frame may be open, and
    /// reachable code must leave exactly the function's results. Afterwards
    /// the stack holds the results, every label is resolved and no relocation
    /// is pending.
    pub fn finish(&mut self) -> (r: Result<(), ModuleError>)
        requires
            old(self).wf(),
        ensures
            final(self).wf(),
            final(self).spec_func() == old(self).spec_func(),
            final(self).spec_results() == old(self).spec_results(),
            r is Ok <==> old(self).spec_frames().len() == 0 && (old(self).spec_reachable()
                ==> old(self).spec_stack().len() == old(self).spec_results().arity()),
            old(self).spec_frames().len() > 0 ==> r == Err::<(), ModuleError>(ModuleError::UnclosedBlocks),
            old(self).spec_frames().len() == 0 && old(self).spec_reachable() && old(self).spec_stack().len()
                != old(self).spec_results().arity() ==> r == Err::<(), ModuleError>(ModuleError::StackHeightMismatch),
            r is Err ==> *final(self) == *old(self),
            r is Ok ==> {
                &&& final(self).spec_frames().len() == 0
                &&& final(self).spec_stack() == result_types(old(self).spec_results())
                &&& final(self).spec_reachable()
                &&& final(self).spec_builder() == old(self).spec_builder()
                &&& final(self).spec_builder().all_resolved()
                &&& final(self).spec_builder().spec_relocs().len() == 0
                &&& final(self).spec_max_stack_height() == max_height(
                    old(self).spec_max_stack_height() as nat,
                    old(self).spec_results().arity(),
                )
                &&& final(self).spec_len_locals() == old(self).spec_len_locals()
                &&& final(self).spec_local_runs() == old(self).spec_local_runs()
            },
    {
        if !self.control_frames.is_empty() {
            return Err(ModuleError::UnclosedBlocks);
        }
        let arity = self.results.len_results();
        if self.reachable && self.value_stack.len() != arity {
            return Err(ModuleError::StackHeightMismatch);
        }
        self.value_stack.shrink_to(0);
        match self.results {
            BlockType::Returns(value_type) => {
                self.value_stack.push(value_type);
                if 1 > self.max_stack_height {
                    self.max_stack_height = 1;
                }
            },
            BlockType::Empty => {},
        }
        self.reachable = true;
        proof {
            assert(self.value_stack@ =~= result_types(self.results));
            lemma_closed_translation(self);
        }
        Ok(())
    }
    /// `next` is this state with `inst` emitted and the stack replaced by
    /// `stack`; frames, labels and relocations are as they were.
    pub open spec fn emits(self, next: Self, inst: Instruction, stack: Seq<ValueType>) -> bool {
        &&& next.spec_frames() == self.spec_frames()
        &&& next.spec_builder().spec_insts() == self.spec_builder().spec_insts().push(inst)
        &&& next.spec_builder().spec_labels() == self.spec_builder().spec_labels()
        &&& next.spec_builder().spec_relocs() == self.spec_builder().spec_relocs()
        &&& next.spec_stack() == stack
        &&& next.spec_max_stack_height() == max_height(self.spec_max_stack_height() as nat, stack.len())
        &&& next.spec_len_locals() == self.spec_len_locals()
        &&& next.spec_local_runs() == self.spec_local_runs()
    }

    /// `next` is this state with a branch of `kind` to `label` emitted: to the
    /// label's PC when it is resolved, else to a placeholder with a relocation
    /// recorded; the stack is replaced by `stack`.
    pub open spec fn emits_branch(
        self,
        next: Self,
        kind: BranchKind,
        label: LabelIdx,
        keep: bool,
        drop: u32,
        stack: Seq<ValueType>,
    ) -> bool {
        let b = self.spec_builder();
        &&& next.spec_frames() == self.spec_frames()
        &&& next.spec_builder().spec_labels() == b.spec_labels()
        &&& b.resolved(label.0 as nat) ==> {
            &&& next.spec_builder().spec_insts() == b.spec_insts().push(
                branch_inst(kind, b.spec_labels()[label.0 as int]->Some_0, keep, drop),
            )
            &&& next.spec_builder().spec_relocs() == b.spec_relocs()
        }
        &&& !b.resolved(label.0 as nat) ==> {
            &&& next.spec_builder().spec_insts() == b.spec_insts().push(
                branch_inst(kind, PLACEHOLDER_PC, keep, drop),
            )
            &&& next.spec_builder().spec_relocs() == b.spec_relocs().push(
                Reloc { inst: InstructionIdx(b.spec_insts().len() as usize), label },
            )
        }
        &&& next.spec_stack() == stack
        &&& next.spec_max_stack_height() == max_height(self.spec_max_stack_height() as nat, stack.len())
        &&& next.spec_len_locals() == self.spec_len_locals()
        &&& next.spec_local_runs() == self.spec_local_runs()
    }

    /// `true` when no more instruction can be emitted.
    pub open spec fn insts_full(&self) -> bool {
        self.spec_builder().spec_insts().len() >= u32::MAX
    }

    /// The invariant holds after values above the innermost frame's height
    /// were popped, with all else kept.
    proof fn lemma_stack_popped(&self, prev: FunctionBuilder)
        requires
            prev.wf(),
            self.spec_builder() == prev.spec_builder(),
            self.spec_frames() == prev.spec_frames(),
            self.spec_max_stack_height() == prev.spec_max_stack_height(),
            prev.floor() <= self.spec_stack().len() <= prev.spec_stack().len(),
        ensures
            self.wf(),
    {
        let frames = self.spec_frames();
        assert forall|f: int| 0 <= f < frames.len() implies {
            &&& (#[trigger] frames[f]).last_label() < self.spec_builder().spec_labels().len()
            &&& frames[f].first_label() <= frames[f].last_label()
            &&& frames[f] is If ==> frames[f].first_label() < frames[f].last_label()
            &&& frames[f].spec_height() <= self.spec_stack().len()
        } by {
            if f < frames.len() - 1 {
                assert(frames[f].spec_height() <= frames[frames.len() - 1].spec_height());
            }
        }
    }

    /// The invariant holds after an instruction was emitted with all else kept.
    proof fn lemma_emitted(&self, prev: FunctionBuilder)
        requires
            prev.wf(),
            self.spec_builder().wf(),
            self.spec_builder().spec_labels() == prev.spec_builder().spec_labels(),
            self.spec_frames() == prev.spec_frames(),
            self.spec_stack() == prev.spec_stack(),
            self.spec_max_stack_height() == prev.spec_max_stack_height(),
        ensures
            self.wf(),
    {
    }

    fn emit(&mut self, inst: Instruction)
        requires
            old(self).wf(),
            !is_branch(inst),
            !old(self).insts_full(),
        ensures
            final(self).wf(),
            old(self).emits(*final(self), inst, old(self).spec_stack()),
            final(self).func == old(self).func,
            final(self).results == old(self).results,
            final(self).spec_reachable() == old(self).spec_reachable(),
    {
        let ghost prev = *self;
        self.inst_builder.push_inst(inst);
        proof {
            self.lemma_emitted(prev);
        }
    }

    fn emit_branch(&mut self, kind: BranchKind, label: LabelIdx, keep: bool, drop: u32)
        requires
            old(self).wf(),
            label.0 < old(self).spec_builder().spec_labels().len(),
            !old(self).insts_full(),
        ensures
            final(self).wf(),
            old(self).emits_branch(*final(self), kind, label, keep, drop, old(self).spec_stack()),
            final(self).func == old(self).func,
            final(self).results == old(self).results,
            final(self).spec_reachable() == old(self).spec_reachable(),
    {
        let ghost prev = *self;
        self.inst_builder.push_br(kind, label, keep, drop);
        proof {
            self.lemma_emitted(prev);
        }
    }

    fn floor_height(&self) -> (r: u32)
        requires
            self.wf(),
        ensures
            r == self.floor(),
    {
        if self.control_frames.is_empty() {
            0
        } else {
            self.control_frames.nth_back(0).height()
        }
    }

    /// Translates `unreachable`: emits a trap and makes the code unreachable.
    pub fn translate_unreachable(&mut self) -> (r: Result<(), ModuleError>)
        requires
            old(self).wf(),
        ensures
            final(self).wf(),
            final(self).spec_func() == old(self).spec_func(),
            final(self).spec_results() == old(self).spec_results(),
            !old(self).spec_reachable() ==> r is Ok && *final(self) == *old(self),
            old(self).spec_reachable() && old(self).insts_full() ==> r == Err::<(), ModuleError>(
                ModuleError::TooManyInstructions,
            ),
            old(self).spec_reachable() && !old(self).insts_full() ==> {
                &&& r is Ok
                &&& old(self).emits(*final(self), Instruction::Unreachable, old(self).spec_stack())
                &&& !final(self).spec_reachable()
            },
            r is Err ==> *final(self) == *old(self),
    {
        if !self.reachable {
            return Ok(());
        }
        if self.inst_builder.current_pc() == u32::MAX {
            return Err(ModuleError::TooManyInstructions);
        }
        self.emit(Instruction::Unreachable);
        self.reachable = false;
        Ok(())
    }

    /// Translates `drop`: discards the top value.
    pub fn translate_drop(&mut self) -> (r: Result<(), ModuleError>)
        requires
            old(self).wf(),
        ensures
            final(self).wf(),
            final(self).spec_func() == old(self).spec_func(),
            final(self).spec_results() == old(self).spec_results(),
            !old(self).spec_reachable() ==> r is Ok && *final(self) == *old(self),
            old(self).spec_reachable() && old(self).spec_stack().len() <= old(self).floor() ==> r
                == Err::<(), ModuleError>(ModuleError::StackUnderflow),
            old(self).spec_reachable() && old(self).spec_stack().len() > old(self).floor()
                && old(self).insts_full() ==> r == Err::<(), ModuleError>(ModuleError::TooManyInstructions),
            old(self).spec_reachable() && old(self).spec_stack().len() > old(self).floor()
                && !old(self).insts_full() ==> {
                &&& r is Ok
                &&& old(self).emits(*final(self), Instruction::Drop, old(self).spec_stack().drop_last())
                &&& final(self).spec_reachable()
            },
            r is Err ==> *final(self) == *old(self),
    {
        let ghost prev = *self;
        let r = self.lower(1, None, Instruction::Drop);
        proof {
            assert(prev.stack_after(1, None) =~= prev.spec_stack().drop_last());
        }
        r
    }

    /// Translates `select`: pops the condition and two values, and leaves a
    /// value of the first one's type.
    pub fn translate_select(&mut self) -> (r: Result<(), ModuleError>)
        requires
            old(self).wf(),
        ensures
            final(self).wf(),
            final(self).spec_func() == old(self).spec_func(),
            final(self).spec_results() == old(self).spec_results(),
            !old(self).spec_reachable() ==> r is Ok && *final(self) == *old(self),
            old(self).spec_reachable() && old(self).spec_stack().len() < old(self).floor() + 3 ==> r
                == Err::<(), ModuleError>(ModuleError::StackUnderflow),
            old(self).spec_reachable() && old(self).spec_stack().len() >= old(self).floor() + 3
                && old(self).insts_full() ==> r == Err::<(), ModuleError>(ModuleError::TooManyInstructions),
            old(self).spec_reachable() && old(self).spec_stack().len() >= old(self).floor() + 3
                && !old(self).insts_full() ==> {
                let stack = old(self).spec_stack();
                &&& r is Ok
                &&& old(self).emits(
                    *final(self),
                    Instruction::Select,
                    stack.subrange(0, stack.len() - 3).push(stack[stack.len() - 3]),
                )
                &&& final(self).spec_reachable()
            },
            r is Err ==> *final(self) == *old(self),
    {
        if !self.reachable {
            return Ok(());
        }
        let len = self.value_stack.len();
        if (len as u64) < self.floor_height() as u64 + 3 {
            return Err(ModuleError::StackUnderflow);
        }
        let first = self.value_stack.nth_back(2);
        self.lower(3, Some(first), Instruction::Select)
    }

    /// Translates `i32.const`: leaves an `i32`.
    pub fn translate_i32_const(&mut self, value: i32) -> (r: Result<(), ModuleError>)
        requires
            old(self).wf(),
        ensures
            final(self).wf(),
            final(self).spec_func() == old(self).spec_func(),
            final(self).spec_results() == old(self).spec_results(),
            !old(self).spec_reachable() ==> r is Ok && *final(self) == *old(self),
            old(self).spec_reachable() && old(self).insts_full() ==> r == Err::<(), ModuleError>(
                ModuleError::TooManyInstructions,
            ),
            old(self).spec_reachable() && !old(self).insts_full() && old(self).spec_stack().len()
                >= u32::MAX ==> r == Err::<(), ModuleError>(ModuleError::TooManyValues),
            old(self).spec_reachable() && !old(self).insts_full() && old(self).spec_stack().len()
                < u32::MAX ==> {
                &&& r is Ok
                &&& old(self).emits(
                    *final(self),
                    Instruction::I32Const(value),
                    old(self).spec_stack().push(ValueType::I32),
                )
                &&& final(self).spec_reachable()
            },
            r is Err ==> *final(self) == *old(self),
    {
        let ghost prev = *self;
        let r = self.lower(0, Some(ValueType::I32), Instruction::I32Const(value));
        proof {
            assert(prev.stack_after(0, Some(ValueType::I32)) =~= prev.spec_stack().push(ValueType::I32));
        }
        r
    }

    /// Translates `i32.add`: pops two values and leaves an `i32`.
    pub fn translate_i32_add(&mut self) -> (r: Result<(), ModuleError>)
        requires
            old(self).wf(),
        ensures
            final(self).wf(),
            final(self).spec_func() == old(self).spec_func(),
            final(self).spec_results() == old(self).spec_results(),
            !old(self).spec_reachable() ==> r is Ok && *final(self) == *old(self),
            old(self).spec_reachable() && old(self).spec_stack().len() < old(self).floor() + 2 ==> r
                == Err::<(), ModuleError>(ModuleError::StackUnderflow),
            old(self).spec_reachable() && old(self).spec_stack().len() >= old(self).floor() + 2
                && old(self).insts_full() ==> r == Err::<(), ModuleError>(ModuleError::TooManyInstructions),
            old(self).spec_reachable() && old(self).spec_stack().len() >= old(self).floor() + 2
                && !old(self).insts_full() ==> {
                let stack = old(self).spec_stack();
                &&& r is Ok
                &&& old(self).emits(
                    *final(self),
                    Instruction::I32Add,
                    stack.subrange(0, stack.len() - 2).push(ValueType::I32),
                )
                &&& final(self).spec_reachable()
            },
            r is Err ==> *final(self) == *old(self),
    {
        self.lower(2, Some(ValueType::I32), Instruction::I32Add)
    }
    /// The keep flag and drop count of a branch that leaves a stack of height
    /// `len` for `frame`: the frame's branch values are kept, the values
    /// between them and the frame's height dropped.
    pub open spec fn branch_drop(frame: ControlFrame, len: nat) -> int {
        len - frame.spec_height() - frame.branch_arity()
    }

    /// Translates `return`: keeps the function's results, drops the values
    /// under them, and makes the code unreachable.
    pub fn translate_return(&mut self) -> (r: Result<(), ModuleError>)
        requires
            old(self).wf(),
        ensures
            final(self).wf(),
            final(self).spec_func() == old(self).spec_func(),
            final(self).spec_results() == old(self).spec_results(),
            !old(self).spec_reachable() ==> r is Ok && *final(self) == *old(self),
            old(self).spec_reachable() && old(self).spec_stack().len() < old(self).spec_results().arity()
                ==> r == Err::<(), ModuleError>(ModuleError::StackUnderflow),
            old(self).spec_reachable() && old(self).spec_stack().len() >= old(self).spec_results().arity()
                && old(self).insts_full() ==> r == Err::<(), ModuleError>(ModuleError::TooManyInstructions),
            old(self).spec_reachable() && old(self).spec_stack().len() >= old(self).spec_results().arity()
                && !old(self).insts_full() ==> {
                let arity = old(self).spec_results().arity();
                &&& r is Ok
                &&& old(self).emits(
                    *final(self),
                    Instruction::Return {
                        keep: arity == 1,
                        drop: (old(self).spec_stack().len() - arity) as u32,
                    },
                    old(self).spec_stack(),
                )
                &&& !final(self).spec_reachable()
            },
            r is Err ==> *final(self) == *old(self),
    {
        if !self.reachable {
            return Ok(());
        }
        let arity = self.results.len_results();
        let len = self.value_stack.len();
        if len < arity {
            return Err(ModuleError::StackUnderflow);
        }
        if self.inst_builder.current_pc() == u32::MAX {
            return Err(ModuleError::TooManyInstructions);
        }
        self.emit(Instruction::Return { keep: arity == 1, drop: len - arity });
        self.reachable = false;
        Ok(())
    }

    /// Translates `br depth`: branches to the frame `depth` levels out, or
    /// returns when `depth` names the function itself, and makes the code
    /// unreachable.
    pub fn translate_br(&mut self, depth: u32) -> (r: Result<(), ModuleError>)
        requires
            old(self).wf(),
        ensures
            final(self).wf(),
            final(self).spec_func() == old(self).spec_func(),
            final(self).spec_results() == old(self).spec_results(),
            !old(self).spec_reachable() ==> r is Ok && *final(self) == *old(self),
            old(self).spec_reachable() && depth > old(self).spec_frames().len() ==> r == Err::<
                (),
                ModuleError,
            >(ModuleError::InvalidBranchDepth),
            old(self).spec_reachable() && depth < old(self).spec_frames().len() ==> {
                let frames = old(self).spec_frames();
                let frame = frames[frames.len() - 1 - depth];
                let len = old(self).spec_stack().len();
                &&& Self::branch_drop(frame, len) < 0 ==> r == Err::<(), ModuleError>(ModuleError::StackUnderflow)
                &&& Self::branch_drop(frame, len) >= 0 && old(self).insts_full() ==> r == Err::<(), ModuleError>(
                    ModuleError::TooManyInstructions,
                )
                &&& Self::branch_drop(frame, len) >= 0 && !old(self).insts_full() ==> {
                    &&& r is Ok
                    &&& old(self).emits_branch(
                        *final(self),
                        BranchKind::Br,
                        frame.spec_branch_label(),
                        frame.branch_arity() == 1,
                        Self::branch_drop(frame, len) as u32,
                        old(self).spec_stack(),
                    )
                    &&& !final(self).spec_reachable()
                }
            },
            old(self).spec_reachable() && depth == old(self).spec_frames().len() ==> {
                let arity = old(self).spec_results().arity();
                &&& old(self).spec_stack().len() < arity ==> r == Err::<(), ModuleError>(ModuleError::StackUnderflow)
                &&& old(self).spec_stack().len() >= arity && old(self).insts_full() ==> r == Err::<(), ModuleError>(
                    ModuleError::TooManyInstructions,
                )
                &&& old(self).spec_stack().len() >= arity && !old(self).insts_full() ==> {
                    &&& r is Ok
                    &&& old(self).emits(
                        *final(self),
                        Instruction::Return {
                            keep: arity == 1,
                            drop: (old(self).spec_stack().len() - arity) as u32,
                        },
                        old(self).spec_stack(),
                    )
                    &&& !final(self).spec_reachable()
                }
            },
            r is Err ==> *final(self) == *old(self),
    {
        if !self.reachable {
            return Ok(());
        }
        let len_frames = self.control_frames.len();
        if depth as usize > len_frames {
            return Err(ModuleError::InvalidBranchDepth);
        }
        if depth as usize == len_frames {
            return self.translate_return();
        }
        let frame = self.control_frames.nth_back(depth as usize);
        let height = frame.height();
        let keep = frame.len_branch_values();
        let len = self.value_stack.len();
        if (len as u64) < height as u64 + keep as u64 {
            return Err(ModuleError::StackUnderflow);
        }
        if self.inst_builder.current_pc() == u32::MAX {
            return Err(ModuleError::TooManyInstructions);
        }
        let label = frame.branch_label();
        proof {
            let frames = self.spec_frames();
            assert(frames[frames.len() - 1 - depth].last_label() < self.spec_builder().spec_labels().len());
        }
        self.emit_branch(BranchKind::Br, label, keep == 1, len - height - keep);
        self.reachable = false;
        Ok(())
    }

    /// Translates `br_if depth`: pops the condition and branches, when it is
    /// not zero, to the frame `depth` levels out. A conditional return to the
    /// function itself is not lowered.
    pub fn translate_br_if(&mut self, depth: u32) -> (r: Result<(), ModuleError>)
        requires
            old(self).wf(),
        ensures
            final(self).wf(),
            final(self).spec_func() == old(self).spec_func(),
            final(self).spec_results() == old(self).spec_results(),
            !old(self).spec_reachable() ==> r is Ok && *final(self) == *old(self),
            old(self).spec_reachable() && depth > old(self).spec_frames().len() ==> r == Err::<
                (),
                ModuleError,
            >(ModuleError::InvalidBranchDepth),
            old(self).spec_reachable() && depth == old(self).spec_frames().len() ==> r == Err::<
                (),
                ModuleError,
            >(ModuleError::UnsupportedOperator),
            old(self).spec_reachable() && depth < old(self).spec_frames().len() ==> {
                let frames = old(self).spec_frames();
                let frame = frames[frames.len() - 1 - depth];
                let len = old(self).spec_stack().len();
                &&& len <= old(self).floor() ==> r == Err::<(), ModuleError>(ModuleError::StackUnderflow)
                &&& len > old(self).floor() && Self::branch_drop(frame, (len - 1) as nat) < 0 ==> r == Err::<
                    (),
                    ModuleError,
                >(ModuleError::StackUnderflow)
                &&& len > old(self).floor() && Self::branch_drop(frame, (len - 1) as nat) >= 0
                    && old(self).insts_full() ==> r == Err::<(), ModuleError>(ModuleError::TooManyInstructions)
                &&& len > old(self).floor() && Self::branch_drop(frame, (len - 1) as nat) >= 0
                    && !old(self).insts_full() ==> {
                    &&& r is Ok
                    &&& old(self).emits_branch(
                        *final(self),
                        BranchKind::BrIfNez,
                        frame.spec_branch_label(),
                        frame.branch_arity() == 1,
                        Self::branch_drop(frame, (len - 1) as nat) as u32,
                        old(self).spec_stack().drop_last(),
                    )
                    &&& final(self).spec_reachable()
                }
            },
            r is Err ==> *final(self) == *old(self),
    {
        if !self.reachable {
            return Ok(());
        }
        let len_frames = self.control_frames.len();
        if depth as usize > len_frames {
            return Err(ModuleError::InvalidBranchDepth);
        }
        if depth as usize == len_frames {
            return Err(ModuleError::UnsupportedOperator);
        }
        let len = self.value_stack.len();
        if len <= self.floor_height() {
            return Err(ModuleError::StackUnderflow);
        }
        let frame = self.control_frames.nth_back(depth as usize);
        let height = frame.height();
        let keep = frame.len_branch_values();
        if ((len - 1) as u64) < height as u64 + keep as u64 {
            return Err(ModuleError::StackUnderflow);
        }
        if self.inst_builder.current_pc() == u32::MAX {
            return Err(ModuleError::TooManyInstructions);
        }
        let label = frame.branch_label();
        proof {
            let frames = self.spec_frames();
            assert(frames[frames.len() - 1 - depth].last_label() < self.spec_builder().spec_labels().len());
        }
        let ghost prev = *self;
        self.value_stack.pop1();
        proof {
            self.lemma_stack_popped(prev);
        }
        self.emit_branch(BranchKind::BrIfNez, label, keep == 1, len - 1 - height - keep);
        Ok(())
    }
    /// Translates `if`: pops the condition, emits a branch to the new else
    /// label taken when it is zero, and opens the frame. In unreachable code
    /// only the labels are minted and the frame opened.
    pub fn translate_if(&mut self, block_type: BlockType) -> (r: Result<(), ModuleError>)
        requires
            old(self).wf(),
        ensures
            final(self).wf(),
            final(self).spec_func() == old(self).spec_func(),
            final(self).spec_results() == old(self).spec_results(),
            final(self).spec_max_stack_height() == old(self).spec_max_stack_height(),
            final(self).spec_len_locals() == old(self).spec_len_locals(),
            final(self).spec_local_runs() == old(self).spec_local_runs(),
            final(self).spec_reachable() == old(self).spec_reachable(),
            old(self).spec_reachable() && old(self).spec_stack().len() <= old(self).floor() ==> r == Err::<
                (),
                ModuleError,
            >(ModuleError::StackUnderflow),
            old(self).spec_reachable() && old(self).spec_stack().len() > old(self).floor()
                && old(self).insts_full() ==> r == Err::<(), ModuleError>(ModuleError::TooManyInstructions),
            r is Err ==> *final(self) == *old(self),
            !old(self).spec_reachable() || (old(self).spec_stack().len() > old(self).floor()
                && !old(self).insts_full()) ==> {
                let labels = old(self).spec_builder().spec_labels();
                let insts = old(self).spec_builder().spec_insts();
                let else_label = LabelIdx(labels.len() as usize);
                let end_label = LabelIdx((labels.len() + 1) as usize);
                let stack = if old(self).spec_reachable() {
                    old(self).spec_stack().drop_last()
                } else {
                    old(self).spec_stack()
                };
                &&& r is Ok
                &&& final(self).spec_frames() == old(self).spec_frames().push(
                    ControlFrame::If {
                        else_label,
                        end_label,
                        has_else: false,
                        block_type,
                        height: stack.len() as u32,
                    },
                )
                &&& final(self).spec_builder().spec_labels() == labels.push(None).push(None)
                &&& final(self).spec_stack() == stack
                &&& old(self).spec_reachable() ==> {
                    &&& final(self).spec_builder().spec_insts() == insts.push(
                        Instruction::BrIfEqz { dst_pc: PLACEHOLDER_PC, keep: false, drop: 0 },
                    )
                    &&& final(self).spec_builder().spec_relocs() == old(self).spec_builder().spec_relocs().push(
                        Reloc { inst: InstructionIdx(insts.len() as usize), label: else_label },
                    )
                }
                &&& !old(self).spec_reachable() ==> {
                    &&& final(self).spec_builder().spec_insts() == insts
                    &&& final(self).spec_builder().spec_relocs() == old(self).spec_builder().spec_relocs()
                }
            },
    {
        if self.reachable {
            if self.value_stack.len() <= self.floor_height() {
                return Err(ModuleError::StackUnderflow);
            }
            if self.inst_builder.current_pc() == u32::MAX {
                return Err(ModuleError::TooManyInstructions);
            }
            let ghost prev = *self;
            self.value_stack.pop1();
            proof {
                self.lemma_stack_popped(prev);
            }
        }
        let ghost prev = *self;
        let else_label = self.inst_builder.new_label();
        let end_label = self.inst_builder.new_label();
        if self.reachable {
            self.inst_builder.push_br(BranchKind::BrIfEqz, else_label, false, 0);
        }
        let height = self.value_stack.len();
        let frame = ControlFrame::If { else_label, end_label, has_else: false, block_type, height };
        self.control_frames.push_frame(frame);
        proof {
            self.lemma_open_frame(prev, frame);
        }
        Ok(())
    }

    /// Translates `else`: reachable code of the `then` arm branches to the
    /// end; the else label is resolved to the current PC, the stack goes back
    /// to the frame's height and the code becomes reachable.
    pub fn translate_else(&mut self) -> (r: Result<(), ModuleError>)
        requires
            old(self).wf(),
        ensures
            final(self).wf(),
            final(self).spec_func() == old(self).spec_func(),
            final(self).spec_results() == old(self).spec_results(),
            final(self).spec_max_stack_height() == old(self).spec_max_stack_height(),
            final(self).spec_len_locals() == old(self).spec_len_locals(),
            final(self).spec_local_runs() == old(self).spec_local_runs(),
            r is Err ==> *final(self) == *old(self),
            old(self).spec_frames().len() == 0 || !(old(self).spec_frames().last() is If)
                || old(self).spec_frames().last()->If_has_else ==> r == Err::<(), ModuleError>(
                ModuleError::ElseWithoutIf,
            ),
            old(self).spec_frames().len() > 0 && old(self).spec_frames().last() is If
                && !old(self).spec_frames().last()->If_has_else ==> {
                let top = old(self).spec_frames().last();
                let height = top.spec_height() as nat;
                let arity = top.spec_block_type().arity();
                let labels = old(self).spec_builder().spec_labels();
                let insts = old(self).spec_builder().spec_insts();
                &&& old(self).spec_reachable() && old(self).spec_stack().len() != height + arity ==> r
                    == Err::<(), ModuleError>(ModuleError::StackHeightMismatch)
                &&& old(self).spec_reachable() && old(self).spec_stack().len() == height + arity
                    && old(self).insts_full() ==> r == Err::<(), ModuleError>(ModuleError::TooManyInstructions)
                &&& !old(self).spec_reachable() || (old(self).spec_stack().len() == height + arity
                    && !old(self).insts_full()) ==> {
                    let pc = if old(self).spec_reachable() {
                        insts.len() + 1
                    } else {
                        insts.len()
                    };
                    &&& r is Ok
                    &&& final(self).spec_frames() == old(self).spec_frames().drop_last().push(
                        ControlFrame::If {
                            else_label: top->If_else_label,
                            end_label: top->If_end_label,
                            has_else: true,
                            block_type: top->If_block_type,
                            height: top->If_height,
                        },
                    )
                    &&& final(self).spec_stack() == old(self).spec_stack().subrange(0, height as int)
                    &&& final(self).spec_reachable()
                    &&& final(self).spec_builder().spec_labels() == labels.update(
                        top->If_else_label.0 as int,
                        Some(pc as u32),
                    )
                    &&& final(self).spec_builder().spec_insts().len() == pc
                    &&& forall|i: int| 0 <= i < insts.len() ==> #[trigger] final(self).spec_builder().spec_insts()[i]
                        == if old(self).spec_builder().spec_targets().contains_key(i)
                            && old(self).spec_builder().spec_targets()[i] == top->If_else_label.0 {
                            with_target(insts[i], pc as u32)
                        } else {
                            insts[i]
                        }
                    &&& old(self).spec_reachable() ==> final(self).spec_builder().spec_relocs() == without_label(
                        old(self).spec_builder().spec_relocs().push(
                            Reloc { inst: InstructionIdx(insts.len() as usize), label: top->If_end_label },
                        ),
                        top->If_else_label,
                    )
                    &&& !old(self).spec_reachable() ==> final(self).spec_builder().spec_relocs() == without_label(
                        old(self).spec_builder().spec_relocs(),
                        top->If_else_label,
                    )
                    &&& old(self).spec_reachable() ==> final(self).spec_builder().spec_insts()[insts.len() as int]
                        == Instruction::Br { dst_pc: PLACEHOLDER_PC, keep: arity == 1, drop: 0 }
                }
            },
    {
        if self.control_frames.is_empty() {
            return Err(ModuleError::ElseWithoutIf);
        }
        let frame = self.control_frames.nth_back(0);
        let (else_label, end_label, block_type, height) = match frame {
            ControlFrame::If { else_label, end_label, has_else, block_type, height } => {
                if has_else {
                    return Err(ModuleError::ElseWithoutIf);
                }
                (else_label, end_label, block_type, height)
            },
            _ => {
                return Err(ModuleError::ElseWithoutIf);
            },
        };
        let arity = block_type.len_results();
        let ghost prev = *self;
        proof {
            let n = prev.spec_frames().len() - 1;
            assert(prev.spec_frames()[n].holds_open_label(else_label.0 as nat));
            assert(prev.spec_frames()[n].holds_open_label(end_label.0 as nat));
        }
        if self.reachable {
            if self.value_stack.len() as u64 != height as u64 + arity as u64 {
                return Err(ModuleError::StackHeightMismatch);
            }
            if self.inst_builder.current_pc() == u32::MAX {
                return Err(ModuleError::TooManyInstructions);
            }
            self.inst_builder.push_br(BranchKind::Br, end_label, arity == 1, 0);
        }
        let ghost mid = self.inst_builder.spec_insts();
        self.inst_builder.resolve_label(else_label);
        proof {
            if prev.reachable {
                let i = prev.inst_builder.spec_insts().len() as int;
                assert(self.inst_builder.spec_targets().contains_key(i));
                assert(self.inst_builder.spec_targets()[i] == end_label.0);
                assert(self.inst_builder.spec_insts()[i] == mid[i]);
            }
        }
        self.value_stack.shrink_to(height);
        self.control_frames.pop_frame();
        let frame = ControlFrame::If { else_label, end_label, has_else: true, block_type, height };
        self.control_frames.push_frame(frame);
        self.reachable = true;
        proof {
            let frames = self.spec_frames();
            let old_frames = prev.spec_frames();
            let labels = self.spec_builder().spec_labels();
            let old_labels = prev.spec_builder().spec_labels();
            let n = old_frames.len() - 1;
            assert forall|f: int| 0 <= f < frames.len() implies {
                &&& (#[trigger] frames[f]).last_label() < labels.len()
                &&& frames[f].first_label() <= frames[f].last_label()
                &&& frames[f] is If ==> frames[f].first_label() < frames[f].last_label()
                &&& frames[f].spec_height() <= self.spec_stack().len()
            } by {
                if f < n {
                    assert(frames[f] == old_frames[f]);
                    assert(old_frames[f].spec_height() <= old_frames[n].spec_height());
                }
            }
            assert forall|f1: int, f2: int| 0 <= f1 < f2 < frames.len() implies {
                &&& (#[trigger] frames[f1]).last_label() < (#[trigger] frames[f2]).first_label()
                &&& frames[f1].spec_height() <= frames[f2].spec_height()
            } by {
                assert(frames[f1] == old_frames[f1]);
                assert(old_frames[f1].last_label() < old_frames[n].first_label());
                assert(old_frames[f1].spec_height() <= old_frames[n].spec_height());
                if f2 < n {
                    assert(frames[f2] == old_frames[f2]);
                }
            }
            assert forall|f: int, l: nat| 0 <= f < frames.len() && (#[trigger] frames[f].holds_open_label(l))
                implies labels[l as int] is None by {
                if f < n {
                    assert(frames[f] == old_frames[f]);
                    assert(old_frames[f].holds_open_label(l));
                    assert(old_frames[f].last_label() < old_frames[n].first_label());
                } else {
                    assert(old_frames[n].holds_open_label(l));
                }
            }
            assert forall|l: int| 0 <= l < labels.len() && (#[trigger] labels[l]) is None implies exists|f: int|
                0 <= f < frames.len() && (#[trigger] frames[f].holds_open_label(l as nat)) by {
                assert(old_labels[l] is None);
                let f = choose|f: int| 0 <= f < old_frames.len() && (#[trigger] old_frames[f].holds_open_label(l as nat));
                if f < n {
                    assert(frames[f] == old_frames[f]);
                } else {
                    assert(frames[n].holds_open_label(l as nat));
                }
            }
        }
        Ok(())
    }
    /// The index of the function under construction.
    pub fn func(&self) -> (r: u32)
        ensures
            r == self.spec_func(),
    {
        self.func
    }

    /// The instructions, labels and relocations built so far.
    pub fn inst_builder(&self) -> (r: &InstructionsBuilder)
        ensures
            *r == self.spec_builder(),
    {
        &self.inst_builder
    }

    /// The emulated value stack.
    pub fn value_stack(&self) -> (r: &ValueStack)
        ensures
            r@ == self.spec_stack(),
    {
        &self.value_stack
    }

    /// The open control frames.
    pub fn control_frames(&self) -> (r: &ControlFlowStack)
        ensures
            r@ == self.spec_frames(),
    {
        &self.control_frames
    }

    /// The number of local variables declared so far.
    pub fn len_locals(&self) -> (r: usize)
        ensures
            r == self.spec_len_locals(),
    {
        self.len_locals
    }

    /// The largest height the emulated value stack has reached.
    pub fn max_stack_height(&self) -> (r: u32)
        ensures
            r == self.spec_max_stack_height(),
    {
        self.max_stack_height
    }

    /// Whether the code being translated is reachable.
    pub fn is_reachable(&self) -> (r: bool)
        ensures
            r == self.spec_reachable(),
    {
        self.reachable
    }
    /// The stack after `pops` values were popped and `push` pushed.
    pub open spec fn stack_after(self, pops: nat, push: Option<ValueType>) -> Seq<ValueType> {
        let kept = self.spec_stack().subrange(0, self.spec_stack().len() - pops);
        match push {
            Some(t) => kept.push(t),
            None => kept,
        }
    }

    /// What lowering an operator that pops `pops` values and pushes `push`
    /// returns in reachable code: the innermost frame must hold the popped
    /// values, an instruction must fit, and so must a pushed value.
    pub open spec fn lower_outcome(self, pops: nat, push: Option<ValueType>) -> Result<(), ModuleError> {
        if self.spec_stack().len() < self.floor() + pops {
            Err(ModuleError::StackUnderflow)
        } else if self.insts_full() {
            Err(ModuleError::TooManyInstructions)
        } else if push is Some && self.spec_stack().len() - pops >= u32::MAX {
            Err(ModuleError::TooManyValues)
        } else {
            Ok(())
        }
    }

    /// Lowers an operator that pops `pops` values, pushes `push` and emits
    /// `inst`; unreachable code is skipped.
    fn lower(&mut self, pops: u32, push: Option<ValueType>, inst: Instruction) -> (r: Result<(), ModuleError>)
        requires
            old(self).wf(),
            !is_branch(inst),
        ensures
            final(self).wf(),
            final(self).spec_func() == old(self).spec_func(),
            final(self).spec_results() == old(self).spec_results(),
            !old(self).spec_reachable() ==> r is Ok && *final(self) == *old(self),
            old(self).spec_reachable() ==> r == old(self).lower_outcome(pops as nat, push),
            old(self).spec_reachable() && r is Ok ==> old(self).emits(
                *final(self),
                inst,
                old(self).stack_after(pops as nat, push),
            ) && final(self).spec_reachable(),
            r is Err ==> *final(self) == *old(self),
    {
        if !self.reachable {
            return Ok(());
        }
        let len = self.value_stack.len();
        if (len as u64) < self.floor_height() as u64 + pops as u64 {
            return Err(ModuleError::StackUnderflow);
        }
        if self.inst_builder.current_pc() == u32::MAX {
            return Err(ModuleError::TooManyInstructions);
        }
        if push.is_some() && len - pops == u32::MAX {
            return Err(ModuleError::TooManyValues);
        }
        let ghost prev = *self;
        self.value_stack.shrink_to(len - pops);
        proof {
            self.lemma_stack_popped(prev);
        }
        match push {
            Some(value_type) => self.push_value(value_type),
            None => {},
        }
        self.emit(inst);
        proof {
            assert(self.spec_stack() =~= prev.stack_after(pops as nat, push));
        }
        Ok(())
    }

    /// Translates `i32.load offset`: pops the address and leaves an `i32`.
    pub fn translate_i32_load(&mut self, offset: u32) -> (r: Result<(), ModuleError>)
        requires
            old(self).wf(),
        ensures
            final(self).wf(),
            final(self).spec_func() == old(self).spec_func(),
            final(self).spec_results() == old(self).spec_results(),
            !old(self).spec_reachable() ==> r is Ok && *final(self) == *old(self),
            old(self).spec_reachable() ==> r == old(self).lower_outcome(1, Some(ValueType::I32)),
            old(self).spec_reachable() && r is Ok ==> old(self).emits(
                *final(self),
                Instruction::I32Load { offset },
                old(self).stack_after(1, Some(ValueType::I32)),
            ) && final(self).spec_reachable(),
            r is Err ==> *final(self) == *old(self),
    {
        self.lower(1, Some(ValueType::I32), Instruction::I32Load { offset })
    }

    /// Translates `i32.store offset`: pops the address and the value.
    pub fn translate_i32_store(&mut self, offset: u32) -> (r: Result<(), ModuleError>)
        requires
            old(self).wf(),
        ensures
            final(self).wf(),
            final(self).spec_func() == old(self).spec_func(),
            final(self).spec_results() == old(self).spec_results(),
            !old(self).spec_reachable() ==> r is Ok && *final(self) == *old(self),
            old(self).spec_reachable() ==> r == old(self).lower_outcome(2, None),
            old(self).spec_reachable() && r is Ok ==> old(self).emits(
                *final(self),
                Instruction::I32Store { offset },
                old(self).stack_after(2, None),
            ) && final(self).spec_reachable(),
            r is Err ==> *final(self) == *old(self),
    {
        self.lower(2, None, Instruction::I32Store { offset })
    }

    /// Translates `memory.size`: leaves the page count as an `i32`.
    pub fn translate_memory_size(&mut self) -> (r: Result<(), ModuleError>)
        requires
            old(self).wf(),
        ensures
            final(self).wf(),
            final(self).spec_func() == old(self).spec_func(),
            final(self).spec_results() == old(self).spec_results(),
            !old(self).spec_reachable() ==> r is Ok && *final(self) == *old(self),
            old(self).spec_reachable() ==> r == old(self).lower_outcome(0, Some(ValueType::I32)),
            old(self).spec_reachable() && r is Ok ==> old(self).emits(
                *final(self),
                Instruction::CurrentMemory,
                old(self).stack_after(0, Some(ValueType::I32)),
            ) && final(self).spec_reachable(),
            r is Err ==> *final(self) == *old(self),
    {
        self.lower(0, Some(ValueType::I32), Instruction::CurrentMemory)
    }

    /// Translates `memory.grow`: pops the number of pages and leaves the
    /// previous page count, or -1, as an `i32`.
    pub fn translate_memory_grow(&mut self) -> (r: Result<(), ModuleError>)
        requires
            old(self).wf(),
        ensures
            final(self).wf(),
            final(self).spec_func() == old(self).spec_func(),
            final(self).spec_results() == old(self).spec_results(),
            !old(self).spec_reachable() ==> r is Ok && *final(self) == *old(self),
            old(self).spec_reachable() ==> r == old(self).lower_outcome(1, Some(ValueType::I32)),
            old(self).spec_reachable() && r is Ok ==> old(self).emits(
                *final(self),
                Instruction::GrowMemory,
                old(self).stack_after(1, Some(ValueType::I32)),
            ) && final(self).spec_reachable(),
            r is Err ==> *final(self) == *old(self),
    {
        self.lower(1, Some(ValueType::I32), Instruction::GrowMemory)
    }

    /// Translates `global.get index` of a global of type `global_type`, as
    /// the module's resources give it: leaves a value of that type.
    pub fn translate_get_global(&mut self, index: u32, global_type: ValueType) -> (r: Result<(), ModuleError>)
        requires
            old(self).wf(),
        ensures
            final(self).wf(),
            final(self).spec_func() == old(self).spec_func(),
            final(self).spec_results() == old(self).spec_results(),
            !old(self).spec_reachable() ==> r is Ok && *final(self) == *old(self),
            old(self).spec_reachable() ==> r == old(self).lower_outcome(0, Some(global_type)),
            old(self).spec_reachable() && r is Ok ==> old(self).emits(
                *final(self),
                Instruction::GetGlobal { index },
                old(self).stack_after(0, Some(global_type)),
            ) && final(self).spec_reachable(),
            r is Err ==> *final(self) == *old(self),
    {
        self.lower(0, Some(global_type), Instruction::GetGlobal { index })
    }

    /// Translates `global.set index`: pops the value.
    pub fn translate_set_global(&mut self, index: u32) -> (r: Result<(), ModuleError>)
        requires
            old(self).wf(),
        ensures
            final(self).wf(),
            final(self).spec_func() == old(self).spec_func(),
            final(self).spec_results() == old(self).spec_results(),
            !old(self).spec_reachable() ==> r is Ok && *final(self) == *old(self),
            old(self).spec_reachable() ==> r == old(self).lower_outcome(1, None),
            old(self).spec_reachable() && r is Ok ==> old(self).emits(
                *final(self),
                Instruction::SetGlobal { index },
                old(self).stack_after(1, None),
            ) && final(self).spec_reachable(),
            r is Err ==> *final(self) == *old(self),
    {
        self.lower(1, None, Instruction::SetGlobal { index })
    }
    /// The distance from the top of the stack, at height `height`, to local
    /// variable `index`: the locals lie under the operands, the last on top.
    pub open spec fn local_depth(self, index: u32, height: nat) -> int {
        height + self.spec_len_locals() - index
    }

    /// What an access to local variable `index`, made at stack height
    /// `height`, returns before the operator itself is lowered.
    pub open spec fn local_access_outcome(self, index: u32, height: nat) -> Option<ModuleError> {
        if index >= self.spec_len_locals() || local_type(self.spec_local_runs(), index as int) is None {
            Some(ModuleError::InvalidLocalIndex)
        } else if self.local_depth(index, height) > u32::MAX {
            Some(ModuleError::TooManyLocals)
        } else {
            None
        }
    }

    fn local_access(&self, index: u32, height: u32) -> (r: Result<(u32, ValueType), ModuleError>)
        ensures
            r is Err <==> self.local_access_outcome(index, height as nat) is Some,
            r is Err ==> r->Err_0 == self.local_access_outcome(index, height as nat)->Some_0,
            r is Ok ==> r->Ok_0.0 == self.local_depth(index, height as nat) && Some(r->Ok_0.1) == local_type(
                self.spec_local_runs(),
                index as int,
            ),
    {
        if index as usize >= self.len_locals {
            return Err(ModuleError::InvalidLocalIndex);
        }
        let value_type = match self.local_type_of(index) {
            Some(value_type) => value_type,
            None => {
                return Err(ModuleError::InvalidLocalIndex);
            },
        };
        let below = self.len_locals - index as usize;
        if below > u32::MAX as usize || height as usize > u32::MAX as usize - below {
            return Err(ModuleError::TooManyLocals);
        }
        Ok(((height as usize + below) as u32, value_type))
    }

    /// Translates `local.get index`: leaves a value of the local's type.
    pub fn translate_get_local(&mut self, index: u32) -> (r: Result<(), ModuleError>)
        requires
            old(self).wf(),
        ensures
            final(self).wf(),
            final(self).spec_func() == old(self).spec_func(),
            final(self).spec_results() == old(self).spec_results(),
            !old(self).spec_reachable() ==> r is Ok && *final(self) == *old(self),
            r is Err ==> *final(self) == *old(self),
            old(self).spec_reachable() ==> {
                let height = old(self).spec_stack().len();
                let t = local_type(old(self).spec_local_runs(), index as int)->Some_0;
                &&& old(self).local_access_outcome(index, height) is Some ==> r == Err::<(), ModuleError>(
                    old(self).local_access_outcome(index, height)->Some_0,
                )
                &&& old(self).local_access_outcome(index, height) is None ==> {
                    &&& r == old(self).lower_outcome(0, Some(t))
                    &&& r is Ok ==> old(self).emits(
                        *final(self),
                        Instruction::GetLocal { depth: old(self).local_depth(index, height) as u32 },
                        old(self).stack_after(0, Some(t)),
                    ) && final(self).spec_reachable()
                }
            },
    {
        if !self.reachable {
            return Ok(());
        }
        let (depth, value_type) = match self.local_access(index, self.value_stack.len()) {
            Ok(access) => access,
            Err(error) => {
                return Err(error);
            },
        };
        self.lower(0, Some(value_type), Instruction::GetLocal { depth })
    }

    /// Translates `local.set index`: pops the value. The depth is taken once
    /// the value is popped.
    pub fn translate_set_local(&mut self, index: u32) -> (r: Result<(), ModuleError>)
        requires
            old(self).wf(),
        ensures
            final(self).wf(),
            final(self).spec_func() == old(self).spec_func(),
            final(self).spec_results() == old(self).spec_results(),
            !old(self).spec_reachable() ==> r is Ok && *final(self) == *old(self),
            r is Err ==> *final(self) == *old(self),
            old(self).spec_reachable() && old(self).spec_stack().len() <= old(self).floor() ==> r == Err::<
                (),
                ModuleError,
            >(ModuleError::StackUnderflow),
            old(self).spec_reachable() && old(self).spec_stack().len() > old(self).floor() ==> {
                let height = (old(self).spec_stack().len() - 1) as nat;
                &&& old(self).local_access_outcome(index, height) is Some ==> r == Err::<(), ModuleError>(
                    old(self).local_access_outcome(index, height)->Some_0,
                )
                &&& old(self).local_access_outcome(index, height) is None ==> {
                    &&& r == old(self).lower_outcome(1, None)
                    &&& r is Ok ==> old(self).emits(
                        *final(self),
                        Instruction::SetLocal { depth: old(self).local_depth(index, height) as u32 },
                        old(self).stack_after(1, None),
                    ) && final(self).spec_reachable()
                }
            },
    {
        if !self.reachable {
            return Ok(());
        }
        let len = self.value_stack.len();
        if len <= self.floor_height() {
            return Err(ModuleError::StackUnderflow);
        }
        let (depth, _value_type) = match self.local_access(index, len - 1) {
            Ok(access) => access,
            Err(error) => {
                return Err(error);
            },
        };
        self.lower(1, None, Instruction::SetLocal { depth })
    }

    /// Translates `local.tee index`: stores the top value in the local and
    /// leaves it, typed as the local, on the stack.
    pub fn translate_tee_local(&mut self, index: u32) -> (r: Result<(), ModuleError>)
        requires
            old(self).wf(),
        ensures
            final(self).wf(),
            final(self).spec_func() == old(self).spec_func(),
            final(self).spec_results() == old(self).spec_results(),
            !old(self).spec_reachable() ==> r is Ok && *final(self) == *old(self),
            r is Err ==> *final(self) == *old(self),
            old(self).spec_reachable() ==> {
                let height = old(self).spec_stack().len();
                let t = local_type(old(self).spec_local_runs(), index as int)->Some_0;
                &&& old(self).local_access_outcome(index, height) is Some ==> r == Err::<(), ModuleError>(
                    old(self).local_access_outcome(index, height)->Some_0,
                )
                &&& old(self).local_access_outcome(index, height) is None ==> {
                    &&& r == old(self).lower_outcome(1, Some(t))
                    &&& r is Ok ==> old(self).emits(
                        *final(self),
                        Instruction::TeeLocal { depth: old(self).local_depth(index, height) as u32 },
                        old(self).stack_after(1, Some(t)),
                    ) && final(self).spec_reachable()
                }
            },
    {
        if !self.reachable {
            return Ok(());
        }
        let (depth, value_type) = match self.local_access(index, self.value_stack.len()) {
            Ok(access) => access,
            Err(error) => {
                return Err(error);
            },
        };
        self.lower(1, Some(value_type), Instruction::TeeLocal { depth })
    }

    /// Translates `call index` of a function that takes `len_params` values
    /// and returns `results`, as the module's resources give its signature.
    pub fn translate_call(&mut self, index: u32, len_params: u32, results: BlockType) -> (r: Result<(), ModuleError>)
        requires
            old(self).wf(),
        ensures
            final(self).wf(),
            final(self).spec_func() == old(self).spec_func(),
            final(self).spec_results() == old(self).spec_results(),
            !old(self).spec_reachable() ==> r is Ok && *final(self) == *old(self),
            r is Err ==> *final(self) == *old(self),
            old(self).spec_reachable() ==> r == old(self).lower_outcome(len_params as nat, Self::pushed(results)),
            old(self).spec_reachable() && r is Ok ==> old(self).emits(
                *final(self),
                Instruction::Call { index },
                old(self).stack_after(len_params as nat, Self::pushed(results)),
            ) && final(self).spec_reachable(),
    {
        let push = match results {
            BlockType::Empty => None,
            BlockType::Returns(value_type) => Some(value_type),
        };
        self.lower(len_params, push, Instruction::Call { index })
    }

    /// The value a construct with these results pushes.
    pub open spec fn pushed(results: BlockType) -> Option<ValueType> {
        match results {
            BlockType::Empty => None,
            BlockType::Returns(t) => Some(t),
        }
    }
    /// Why a branch to depth `depth`, leaving a stack of height `height`,
    /// cannot be lowered, if it cannot.
    pub open spec fn branch_error(self, depth: u32, height: nat) -> Option<ModuleError> {
        let frames = self.spec_frames();
        if depth > frames.len() {
            Some(ModuleError::InvalidBranchDepth)
        } else if depth == frames.len() {
            Some(ModuleError::UnsupportedOperator)
        } else if Self::branch_drop(frames[frames.len() - 1 - depth], height) < 0 {
            Some(ModuleError::StackUnderflow)
        } else {
            None
        }
    }

    /// The first error among the branches to `depths`, in order.
    pub open spec fn table_error(self, depths: Seq<u32>, height: nat) -> Option<ModuleError>
        decreases depths.len(),
    {
        if depths.len() == 0 {
            None
        } else if self.branch_error(depths[0], height) is Some {
            self.branch_error(depths[0], height)
        } else {
            self.table_error(depths.drop_first(), height)
        }
    }

    /// `entry` holds the label, keep flag and drop count of a branch to depth
    /// `depth` that leaves a stack of height `height`.
    pub open spec fn entry_matches(self, depth: u32, entry: (LabelIdx, bool, u32), height: nat) -> bool {
        let frames = self.spec_frames();
        let frame = frames[frames.len() - 1 - depth];
        &&& depth < frames.len()
        &&& entry.0 == frame.spec_branch_label()
        &&& entry.1 == (frame.branch_arity() == 1)
        &&& entry.2 == Self::branch_drop(frame, height)
        &&& frame.last_label() < self.spec_builder().spec_labels().len()
    }

    /// The branch instruction that a table entry to depth `depth` lowers to.
    pub open spec fn table_entry(self, depth: u32, height: nat) -> Instruction {
        let frames = self.spec_frames();
        let frame = frames[frames.len() - 1 - depth];
        let label = frame.spec_branch_label().0;
        let labels = self.spec_builder().spec_labels();
        branch_inst(
            BranchKind::Br,
            if labels[label as int] is Some {
                labels[label as int]->Some_0
            } else {
                PLACEHOLDER_PC
            },
            frame.branch_arity() == 1,
            Self::branch_drop(frame, height) as u32,
        )
    }

    /// Translates `br_table`: pops the index and emits a table header
    /// followed by one branch for each of `targets` and then `default`; the
    /// code becomes unreachable.
    pub fn translate_br_table(&mut self, targets: &Vec<u32>, default: u32) -> (r: Result<(), ModuleError>)
        requires
            old(self).wf(),
        ensures
            final(self).wf(),
            final(self).spec_func() == old(self).spec_func(),
            final(self).spec_results() == old(self).spec_results(),
            final(self).spec_len_locals() == old(self).spec_len_locals(),
            final(self).spec_local_runs() == old(self).spec_local_runs(),
            final(self).spec_max_stack_height() == old(self).spec_max_stack_height(),
            !old(self).spec_reachable() ==> r is Ok && *final(self) == *old(self),
            r is Err ==> *final(self) == *old(self),
            old(self).spec_reachable() ==> {
                let len = old(self).spec_stack().len();
                let depths = targets@.push(default);
                let insts = old(self).spec_builder().spec_insts();
                &&& len <= old(self).floor() ==> r == Err::<(), ModuleError>(ModuleError::StackUnderflow)
                &&& len > old(self).floor() && insts.len() + 1 + depths.len() > u32::MAX ==> r == Err::<
                    (),
                    ModuleError,
                >(ModuleError::TooManyInstructions)
                &&& len > old(self).floor() && insts.len() + 1 + depths.len() <= u32::MAX && old(self).table_error(
                    depths,
                    (len - 1) as nat,
                ) is Some ==> r == Err::<(), ModuleError>(old(self).table_error(depths, (len - 1) as nat)->Some_0)
                &&& len > old(self).floor() && old(self).table_error(depths, (len - 1) as nat) is None
                    && insts.len() + 1 + depths.len() <= u32::MAX ==> {
                    &&& r is Ok
                    &&& !final(self).spec_reachable()
                    &&& final(self).spec_frames() == old(self).spec_frames()
                    &&& final(self).spec_stack() == old(self).spec_stack().drop_last()
                    &&& final(self).spec_builder().spec_labels() == old(self).spec_builder().spec_labels()
                    &&& final(self).spec_builder().spec_insts().len() == insts.len() + 1 + depths.len()
                    &&& final(self).spec_builder().spec_insts()[insts.len() as int] == Instruction::BrTable {
                        len_targets: depths.len() as u32,
                    }
                    &&& forall|k: int| 0 <= k < depths.len() ==> #[trigger] final(self).spec_builder().spec_insts()[insts.len() + 1 + k]
                        == old(self).table_entry(depths[k], (len - 1) as nat)
                    &&& forall|i: int| 0 <= i < insts.len() ==> #[trigger] final(self).spec_builder().spec_insts()[i] == insts[i]
                }
            },
    {
        if !self.reachable {
            return Ok(());
        }
        let len = self.value_stack.len();
        if len <= self.floor_height() {
            return Err(ModuleError::StackUnderflow);
        }
        let count = targets.len();
        if count >= u32::MAX as usize || self.inst_builder.current_pc() as u64 + count as u64 + 2 > u32::MAX as u64 {
            return Err(ModuleError::TooManyInstructions);
        }
        let height = len - 1;
        let ghost depths = targets@.push(default);
        let mut entries: Vec<(LabelIdx, bool, u32)> = Vec::new();
        let mut k: usize = 0;
        proof {
            assert(depths.subrange(0, depths.len() as int) =~= depths);
        }
        while k <= count
            invariant
                self.wf(),
                self.spec_reachable(),
                count == targets@.len(),
                count < u32::MAX,
                self.spec_builder().spec_insts().len() + count + 2 <= u32::MAX,
                depths == targets@.push(default),
                len == self.spec_stack().len(),
                height == len - 1,
                len > self.floor(),
                0 <= k <= count + 1,
                self.table_error(depths, height as nat) == self.table_error(
                    depths.subrange(k as int, depths.len() as int),
                    height as nat,
                ),
                entries@.len() == k,
                forall|j: int| 0 <= j < k ==> self.entry_matches(depths[j], #[trigger] entries@[j], height as nat),
            decreases count + 1 - k,
        {
            let depth = if k < count {
                targets[k]
            } else {
                default
            };
            proof {
                let tail = depths.subrange(k as int, depths.len() as int);
                assert(tail[0] == depths[k as int]);
                assert(tail.drop_first() =~= depths.subrange(k + 1, depths.len() as int));
            }
            let len_frames = self.control_frames.len();
            if depth as usize > len_frames {
                return Err(ModuleError::InvalidBranchDepth);
            }
            if depth as usize == len_frames {
                return Err(ModuleError::UnsupportedOperator);
            }
            let frame = self.control_frames.nth_back(depth as usize);
            let frame_height = frame.height();
            let keep = frame.len_branch_values();
            if (height as u64) < frame_height as u64 + keep as u64 {
                return Err(ModuleError::StackUnderflow);
            }
            proof {
                let frames = self.spec_frames();
                assert(frames[frames.len() - 1 - depth].last_label() < self.spec_builder().spec_labels().len());
            }
            let ghost before = entries@;
            entries.push((frame.branch_label(), keep == 1, height - frame_height - keep));
            proof {
                assert(depths[k as int] == depth);
                assert(self.entry_matches(depths[k as int], entries@[k as int], height as nat));
                assert forall|j: int| 0 <= j < k + 1 implies self.entry_matches(depths[j], #[trigger] entries@[j], height as nat) by {
                    if j < k {
                        assert(entries@[j] == before[j]);
                    }
                }
            }
            k = k + 1;
        }
        let ghost prev = *self;
        self.value_stack.pop1();
        proof {
            self.lemma_stack_popped(prev);
        }
        self.emit(Instruction::BrTable { len_targets: (count + 1) as u32 });
        let ghost start = *self;
        let ghost base = self.spec_builder().spec_insts().len();
        let mut e: usize = 0;
        while e < entries.len()
            invariant
                self.wf(),
                start.wf(),
                0 <= e <= entries@.len(),
                entries@.len() == depths.len(),
                base == start.spec_builder().spec_insts().len(),
                base + depths.len() <= u32::MAX,
                self.spec_builder().spec_insts().len() == base + e,
                self.spec_frames() == start.spec_frames(),
                self.spec_frames() == prev.spec_frames(),
                self.spec_stack() == start.spec_stack(),
                self.spec_builder().spec_labels() == start.spec_builder().spec_labels(),
                start.spec_builder().spec_labels() == prev.spec_builder().spec_labels(),
                self.spec_max_stack_height() == start.spec_max_stack_height(),
                self.spec_len_locals() == start.spec_len_locals(),
                self.spec_local_runs() == start.spec_local_runs(),
                self.func == start.func,
                self.results == start.results,
                self.spec_reachable() == start.spec_reachable(),
                forall|i: int| 0 <= i < base ==> #[trigger] self.spec_builder().spec_insts()[i]
                    == start.spec_builder().spec_insts()[i],
                forall|j: int| 0 <= j < e ==> #[trigger] self.spec_builder().spec_insts()[base + j]
                    == prev.table_entry(depths[j], height as nat),
                forall|j: int| 0 <= j < entries@.len() ==> prev.entry_matches(depths[j], #[trigger] entries@[j], height as nat),
            decreases entries@.len() - e,
        {
            let (label, keep, drop) = entries[e];
            proof {
                assert(entries@[e as int] == (label, keep, drop));
                assert(prev.entry_matches(depths[e as int], entries@[e as int], height as nat));
            }
            self.emit_branch(BranchKind::Br, label, keep, drop);
            e = e + 1;
        }
        self.reachable = false;
        Ok(())
    }
}

/// Once no control frame is open, every label is resolved and no relocation
/// is pending; every branch carries the PC of the label it targets.
pub proof fn lemma_closed_translation(fb: &FunctionBuilder)
    requires
        fb.wf(),
        fb.spec_frames().len() == 0,
    ensures
        fb.spec_builder().all_resolved(),
        fb.spec_builder().spec_relocs().len() == 0,
        forall|i: int| #[trigger] fb.spec_builder().spec_targets().contains_key(i) ==> crate::inst_builder::target_of(
            fb.spec_builder().spec_insts()[i],
        ) == fb.spec_builder().spec_labels()[fb.spec_builder().spec_targets()[i] as int]->Some_0,
{
    let b = fb.spec_builder();
    let labels = b.spec_labels();
    assert forall|l: int| 0 <= l < labels.len() implies (#[trigger] labels[l]) is Some by {
        if labels[l] is None {
            let f = choose|f: int| 0 <= f < fb.spec_frames().len() && (#[trigger] fb.spec_frames()[f].holds_open_label(l as nat));
        }
    }
    lemma_branches_pinned(&b, 0);
    assert forall|i: int| #[trigger] b.spec_targets().contains_key(i) implies crate::inst_builder::target_of(
        b.spec_insts()[i],
    ) == labels[b.spec_targets()[i] as int]->Some_0 by {
        lemma_branches_pinned(&b, i);
    }
}

/// The largest stack height never decreases: a step that emits an
/// instruction records at least the maximum it had before.
pub proof fn lemma_max_stack_height_grows(
    prev: FunctionBuilder,
    next: FunctionBuilder,
    inst: Instruction,
    stack: Seq<ValueType>,
)
    requires
        prev.emits(next, inst, stack),
    ensures
        next.spec_max_stack_height() >= prev.spec_max_stack_height(),
        next.spec_max_stack_height() >= stack.len(),
{
}

} // verus!
