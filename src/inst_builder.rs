//! The buffer of lowered instructions, with labels and forward-reference
//! relocations.

use vstd::prelude::*;

verus! {

/// A label minted by the instructions builder: an index into its labels.
#[derive(Clone, Copy, Debug, PartialEq, Eq, Structural)]
pub struct LabelIdx(pub usize);

/// The position of an instruction in the buffer.
#[derive(Clone, Copy, Debug, PartialEq, Eq, Structural)]
pub struct InstructionIdx(pub usize);

/// The kinds of branching instructions that target a label.
#[derive(Clone, Copy, Debug, PartialEq, Eq, Structural)]
pub enum BranchKind {
    Br,
    BrIfEqz,
    BrIfNez,
}

/// A lowered instruction of the interpreter.
#[derive(Clone, Copy, Debug, PartialEq, Eq, Structural)]
pub enum Instruction {
    Br { dst_pc: u32, keep: bool, drop: u32 },
    BrIfEqz { dst_pc: u32, keep: bool, drop: u32 },
    BrIfNez { dst_pc: u32, keep: bool, drop: u32 },
    Return { keep: bool, drop: u32 },
    Unreachable,
    Drop,
    Select,
    I32Const(i32),
    I32Add,
    I32Load { offset: u32 },
    I32Store { offset: u32 },
    CurrentMemory,
    GrowMemory,
    GetLocal { depth: u32 },
    SetLocal { depth: u32 },
    TeeLocal { depth: u32 },
    GetGlobal { index: u32 },
    SetGlobal { index: u32 },
    Call { index: u32 },
    /// Branches to the entry chosen by the popped index among the `len_targets`
    /// branches that follow it; the last one is the default.
    BrTable { len_targets: u32 },
}

/// The target written into a branch before its label is resolved.
pub const PLACEHOLDER_PC: u32 = 0;

/// `true` for the instructions that branch to a label.
pub open spec fn is_branch(inst: Instruction) -> bool {
    inst is Br || inst is BrIfEqz || inst is BrIfNez
}

/// The target of a branching instruction.
pub open spec fn target_of(inst: Instruction) -> u32 {
    match inst {
        Instruction::Br { dst_pc, .. } => dst_pc,
        Instruction::BrIfEqz { dst_pc, .. } => dst_pc,
        Instruction::BrIfNez { dst_pc, .. } => dst_pc,
        _ => 0,
    }
}

/// The branch of the given kind to `dst_pc`.
pub open spec fn branch_inst(kind: BranchKind, dst_pc: u32, keep: bool, drop: u32) -> Instruction {
    match kind {
        BranchKind::Br => Instruction::Br { dst_pc, keep, drop },
        BranchKind::BrIfEqz => Instruction::BrIfEqz { dst_pc, keep, drop },
        BranchKind::BrIfNez => Instruction::BrIfNez { dst_pc, keep, drop },
    }
}

/// The instruction with its branch target replaced by `dst_pc`; other
/// instructions are left as they are.
pub open spec fn with_target(inst: Instruction, dst_pc: u32) -> Instruction {
    match inst {
        Instruction::Br { keep, drop, .. } => Instruction::Br { dst_pc, keep, drop },
        Instruction::BrIfEqz { keep, drop, .. } => Instruction::BrIfEqz { dst_pc, keep, drop },
        Instruction::BrIfNez { keep, drop, .. } => Instruction::BrIfNez { dst_pc, keep, drop },
        _ => inst,
    }
}

fn retarget(inst: Instruction, dst_pc: u32) -> (r: Instruction)
    ensures
        r == with_target(inst, dst_pc),
{
    match inst {
        Instruction::Br { keep, drop, .. } => Instruction::Br { dst_pc, keep, drop },
        Instruction::BrIfEqz { keep, drop, .. } => Instruction::BrIfEqz { dst_pc, keep, drop },
        Instruction::BrIfNez { keep, drop, .. } => Instruction::BrIfNez { dst_pc, keep, drop },
        _ => inst,
    }
}

/// A branch emitted before its target label was resolved: the position of the
/// branch, whose target slot is patched when the label resolves.
#[derive(Clone, Copy, Debug, PartialEq, Eq, Structural)]
pub struct Reloc {
    pub inst: InstructionIdx,
    pub label: LabelIdx,
}

/// The relocations of `relocs` that are not recorded against `label`, in
/// their order.
pub open spec fn without_label(relocs: Seq<Reloc>, label: LabelIdx) -> Seq<Reloc>
    decreases relocs.len(),
{
    if relocs.len() == 0 {
        relocs
    } else {
        let rest = without_label(relocs.drop_last(), label);
        if relocs.last().label == label {
            rest
        } else {
            rest.push(relocs.last())
        }
    }
}

/// Builds the instructions of a function one after another.
pub struct InstructionsBuilder {
    insts: Vec<Instruction>,
    labels: Vec<Option<u32>>,
    relocs: Vec<Reloc>,
    /// The label that each emitted branch targets, by position.
    targets: Ghost<Map<int, nat>>,
}

impl InstructionsBuilder {
    /// The instructions emitted so far.
    pub closed spec fn spec_insts(&self) -> Seq<Instruction> {
        self.insts@
    }

    /// For each label, its target PC once it is resolved.
    pub closed spec fn spec_labels(&self) -> Seq<Option<u32>> {
        self.labels@
    }

    /// The pending relocations, oldest first.
    pub closed spec fn spec_relocs(&self) -> Seq<Reloc> {
        self.relocs@
    }

    /// The label that each emitted branch targets, by position.
    pub closed spec fn spec_targets(&self) -> Map<int, nat> {
        self.targets@
    }

    /// `true` when the label exists and is resolved.
    pub open spec fn resolved(&self, label: nat) -> bool {
        label < self.spec_labels().len() && self.spec_labels()[label as int] is Some
    }

    /// `true` when every label minted so far is resolved.
    pub open spec fn all_resolved(&self) -> bool {
        forall|l: int| 0 <= l < self.spec_labels().len() ==> (#[trigger] self.spec_labels()[l]) is Some
    }

    /// The invariant of the builder: the PCs fit in a `u32`; each pending
    /// relocation names an emitted branch and an unresolved label; each branch
    /// to a resolved label carries that label's PC, and each branch to an
    /// unresolved label has a pending relocation.
    pub open spec fn wf(&self) -> bool {
        let insts = self.spec_insts();
        let labels = self.spec_labels();
        let relocs = self.spec_relocs();
        let targets = self.spec_targets();
        &&& insts.len() <= u32::MAX
        &&& forall|l: int| 0 <= l < labels.len() && (#[trigger] labels[l]) is Some ==> labels[l]->Some_0 <= insts.len()
        &&& forall|j: int| 0 <= j < relocs.len() ==> {
            let r = #[trigger] relocs[j];
            &&& r.inst.0 < insts.len()
            &&& r.label.0 < labels.len()
            &&& labels[r.label.0 as int] is None
            &&& targets.contains_key(r.inst.0 as int)
            &&& targets[r.inst.0 as int] == r.label.0
        }
        &&& forall|i: int| #[trigger] targets.contains_key(i) ==> {
            &&& 0 <= i < insts.len()
            &&& is_branch(insts[i])
            &&& targets[i] < labels.len()
            &&& labels[targets[i] as int] is Some ==> target_of(insts[i]) == labels[targets[i] as int]->Some_0
            &&& labels[targets[i] as int] is None ==> exists|j: int| 0 <= j < relocs.len() && (#[trigger] relocs[j]).inst.0 == i
        }
    }

    /// An empty builder: no instruction, label or relocation.
    pub fn new() -> (r: Self)
        ensures
            r.wf(),
            r.spec_insts() == Seq::<Instruction>::empty(),
            r.spec_labels() == Seq::<Option<u32>>::empty(),
            r.spec_relocs() == Seq::<Reloc>::empty(),
    {
        InstructionsBuilder {
            insts: Vec::new(),
            labels: Vec::new(),
            relocs: Vec::new(),
            targets: Ghost(Map::empty()),
        }
    }

    /// The PC of the next instruction: the number of instructions emitted so far.
    pub fn current_pc(&self) -> (r: u32)
        requires
            self.wf(),
        ensures
            r == self.spec_insts().len(),
    {
        self.insts.len() as u32
    }

    /// Mints a fresh unresolved label.
    pub fn new_label(&mut self) -> (r: LabelIdx)
        requires
            old(self).wf(),
        ensures
            final(self).wf(),
            r.0 == old(self).spec_labels().len(),
            final(self).spec_labels() == old(self).spec_labels().push(None),
            final(self).spec_insts() == old(self).spec_insts(),
            final(self).spec_relocs() == old(self).spec_relocs(),
    {
        let label = LabelIdx(self.labels.len());
        self.labels.push(None);
        assert forall|i: int| #[trigger] self.targets@.contains_key(i) && self.labels@[self.targets@[i] as int] is None
            implies exists|j: int| 0 <= j < self.relocs@.len() && (#[trigger] self.relocs@[j]).inst.0 == i by {
            assert(old(self).spec_targets().contains_key(i));
            assert(self.labels@[self.targets@[i] as int] == old(self).labels@[self.targets@[i] as int]);
            let j = choose|j: int| 0 <= j < old(self).relocs@.len() && (#[trigger] old(self).relocs@[j]).inst.0 == i;
            assert(self.relocs@[j].inst.0 == i);
        }
        label
    }

    /// Emits an instruction that does not branch to a label.
    pub fn push_inst(&mut self, inst: Instruction) -> (r: InstructionIdx)
        requires
            old(self).wf(),
            !is_branch(inst),
            old(self).spec_insts().len() < u32::MAX,
        ensures
            final(self).wf(),
            r.0 == old(self).spec_insts().len(),
            final(self).spec_insts() == old(self).spec_insts().push(inst),
            final(self).spec_labels() == old(self).spec_labels(),
            final(self).spec_relocs() == old(self).spec_relocs(),
            final(self).spec_targets() == old(self).spec_targets(),
    {
        let idx = InstructionIdx(self.insts.len());
        self.insts.push(inst);
        assert forall|i: int| #[trigger] self.targets@.contains_key(i) implies is_branch(self.insts@[i]) && target_of(self.insts@[i]) == target_of(old(self).insts@[i]) by {
            assert(self.insts@[i] == old(self).insts@[i]);
        }
        idx
    }

    /// Emits a branch to `label`: its target is the label's PC when the label
    /// is resolved; otherwise a placeholder, with a relocation recorded.
    pub fn push_br(&mut self, kind: BranchKind, label: LabelIdx, keep: bool, drop: u32) -> (r: InstructionIdx)
        requires
            old(self).wf(),
            label.0 < old(self).spec_labels().len(),
            old(self).spec_insts().len() < u32::MAX,
        ensures
            final(self).wf(),
            r.0 == old(self).spec_insts().len(),
            final(self).spec_labels() == old(self).spec_labels(),
            final(self).spec_targets() == old(self).spec_targets().insert(r.0 as int, label.0 as nat),
            old(self).resolved(label.0 as nat) ==> {
                &&& final(self).spec_insts() == old(self).spec_insts().push(
                    branch_inst(kind, old(self).spec_labels()[label.0 as int]->Some_0, keep, drop))
                &&& final(self).spec_relocs() == old(self).spec_relocs()
            },
            !old(self).resolved(label.0 as nat) ==> {
                &&& final(self).spec_insts() == old(self).spec_insts().push(
                    branch_inst(kind, PLACEHOLDER_PC, keep, drop))
                &&& final(self).spec_relocs() == old(self).spec_relocs().push(Reloc { inst: r, label })
            },
    {
        let idx = InstructionIdx(self.insts.len());
        let dst_pc = match self.labels[label.0] {
            Some(pc) => pc,
            None => PLACEHOLDER_PC,
        };
        let inst = match kind {
            BranchKind::Br => Instruction::Br { dst_pc, keep, drop },
            BranchKind::BrIfEqz => Instruction::BrIfEqz { dst_pc, keep, drop },
            BranchKind::BrIfNez => Instruction::BrIfNez { dst_pc, keep, drop },
        };
        self.insts.push(inst);
        if self.labels[label.0].is_none() {
            self.relocs.push(Reloc { inst: idx, label });
        }
        self.targets = Ghost(self.targets@.insert(idx.0 as int, label.0 as nat));
        proof {
            let n = old(self).relocs@.len();
            assert forall|i: int| #[trigger] self.targets@.contains_key(i) implies {
                &&& 0 <= i < self.insts@.len()
                &&& is_branch(self.insts@[i])
                &&& self.targets@[i] < self.labels@.len()
                &&& self.labels@[self.targets@[i] as int] is Some ==> target_of(self.insts@[i]) == self.labels@[self.targets@[i] as int]->Some_0
                &&& self.labels@[self.targets@[i] as int] is None ==> exists|j: int| 0 <= j < self.relocs@.len() && (#[trigger] self.relocs@[j]).inst.0 == i
            } by {
                if i == idx.0 {
                    if self.labels@[label.0 as int] is None {
                        assert(self.relocs@[n as int].inst.0 == i);
                    }
                } else {
                    assert(old(self).targets@.contains_key(i));
                    assert(self.insts@[i] == old(self).insts@[i]);
                    if self.labels@[self.targets@[i] as int] is None {
                        let j = choose|j: int| 0 <= j < old(self).relocs@.len() && (#[trigger] old(self).relocs@[j]).inst.0 == i;
                        assert(self.relocs@[j] == old(self).relocs@[j]);
                    }
                }
            }
            assert forall|j: int| 0 <= j < self.relocs@.len() implies {
                let r = #[trigger] self.relocs@[j];
                &&& r.inst.0 < self.insts@.len()
                &&& r.label.0 < self.labels@.len()
                &&& self.labels@[r.label.0 as int] is None
                &&& self.targets@.contains_key(r.inst.0 as int)
                &&& self.targets@[r.inst.0 as int] == r.label.0
            } by {
                if j < n {
                    assert(self.relocs@[j] == old(self).relocs@[j]);
                }
            }
        }
        idx
    }
    /// Pins `label` to the current PC and patches every branch recorded
    /// against it; the relocations of `label` are removed and the others kept
    /// in their order. A label is resolved only once.
    pub fn resolve_label(&mut self, label: LabelIdx)
        requires
            old(self).wf(),
            label.0 < old(self).spec_labels().len(),
            !old(self).resolved(label.0 as nat),
        ensures
            final(self).wf(),
            final(self).spec_labels() == old(self).spec_labels().update(
                label.0 as int,
                Some(old(self).spec_insts().len() as u32),
            ),
            final(self).spec_targets() == old(self).spec_targets(),
            final(self).spec_relocs() == without_label(old(self).spec_relocs(), label),
            final(self).spec_insts().len() == old(self).spec_insts().len(),
            forall|i: int| 0 <= i < old(self).spec_insts().len() ==> #[trigger] final(self).spec_insts()[i]
                == if old(self).spec_targets().contains_key(i) && old(self).spec_targets()[i] == label.0 {
                    with_target(old(self).spec_insts()[i], old(self).spec_insts().len() as u32)
                } else {
                    old(self).spec_insts()[i]
                },
    {
        let pc = self.insts.len() as u32;
        self.labels[label.0] = Some(pc);
        let ghost old_insts = self.insts@;
        let ghost old_relocs = self.relocs@;
        let ghost old_labels = old(self).labels@;
        let ghost targets = self.targets@;
        let mut kept: Vec<Reloc> = Vec::new();
        let mut k: usize = 0;
        while k < self.relocs.len()
            invariant
                old(self).wf(),
                self.relocs@ == old_relocs,
                self.labels@ == old_labels.update(label.0 as int, Some(pc)),
                self.targets@ == targets,
                old_insts == old(self).insts@,
                old_relocs == old(self).relocs@,
                old_labels == old(self).labels@,
                targets == old(self).targets@,
                pc == old_insts.len(),
                label.0 < old_labels.len(),
                old_labels[label.0 as int] is None,
                0 <= k <= old_relocs.len(),
                self.insts@.len() == old_insts.len(),
                kept@ == without_label(old_relocs.subrange(0, k as int), label),
                forall|i: int| 0 <= i < old_insts.len() ==> #[trigger] self.insts@[i] == old_insts[i] || (
                    targets.contains_key(i) && targets[i] == label.0 && self.insts@[i] == with_target(old_insts[i], pc)),
                forall|j: int| 0 <= j < k && (#[trigger] old_relocs[j]).label == label ==>
                    self.insts@[old_relocs[j].inst.0 as int] == with_target(old_insts[old_relocs[j].inst.0 as int], pc),
                forall|m: int| 0 <= m < kept@.len() ==> {
                    let r = #[trigger] kept@[m];
                    &&& r.label != label
                    &&& r.inst.0 < old_insts.len()
                    &&& r.label.0 < old_labels.len()
                    &&& old_labels[r.label.0 as int] is None
                    &&& targets.contains_key(r.inst.0 as int)
                    &&& targets[r.inst.0 as int] == r.label.0
                },
                forall|j: int| 0 <= j < k && (#[trigger] old_relocs[j]).label != label ==>
                    exists|m: int| 0 <= m < kept@.len() && (#[trigger] kept@[m]).inst == old_relocs[j].inst,
            decreases old_relocs.len() - k,
        {
            let r = self.relocs[k];
            proof {
                assert(old_relocs.subrange(0, k + 1).drop_last() =~= old_relocs.subrange(0, k as int));
                assert(old_relocs.subrange(0, k + 1).last() == r);
            }
            if r.label == label {
                let patched = retarget(self.insts[r.inst.0], pc);
                self.insts[r.inst.0] = patched;
            } else {
                let ghost before = kept@;
                kept.push(r);
                proof {
                    assert(kept@[kept@.len() - 1] == r);
                    assert forall|j: int| 0 <= j < k + 1 && (#[trigger] old_relocs[j]).label != label implies
                        exists|m: int| 0 <= m < kept@.len() && (#[trigger] kept@[m]).inst == old_relocs[j].inst by {
                        if j < k {
                            let m = choose|m: int| 0 <= m < before.len() && (#[trigger] before[m]).inst == old_relocs[j].inst;
                            assert(kept@[m] == before[m]);
                        } else {
                            assert(kept@[kept@.len() - 1].inst == old_relocs[j].inst);
                        }
                    }
                }
            }
            k = k + 1;
        }
        proof {
            assert(old_relocs.subrange(0, k as int) =~= old_relocs);
        }
        self.relocs = kept;
        proof {
            assert forall|i: int| #[trigger] self.targets@.contains_key(i) implies {
                &&& 0 <= i < self.insts@.len()
                &&& is_branch(self.insts@[i])
                &&& self.targets@[i] < self.labels@.len()
                &&& self.labels@[self.targets@[i] as int] is Some ==> target_of(self.insts@[i]) == self.labels@[self.targets@[i] as int]->Some_0
                &&& self.labels@[self.targets@[i] as int] is None ==> exists|j: int| 0 <= j < self.relocs@.len() && (#[trigger] self.relocs@[j]).inst.0 == i
            } by {
                assert(old(self).spec_targets().contains_key(i));
                if targets[i] == label.0 {
                    let j = choose|j: int| 0 <= j < old_relocs.len() && (#[trigger] old_relocs[j]).inst.0 == i;
                    assert(old_relocs[j].label.0 == label.0);
                    assert(self.insts@[old_relocs[j].inst.0 as int] == with_target(old_insts[i], pc));
                } else if old_labels[targets[i] as int] is None {
                    let j = choose|j: int| 0 <= j < old_relocs.len() && (#[trigger] old_relocs[j]).inst.0 == i;
                    assert(old_relocs[j].label.0 == targets[i]);
                    assert(old_relocs[j].label != label);
                    let m = choose|m: int| 0 <= m < kept@.len() && (#[trigger] kept@[m]).inst == old_relocs[j].inst;
                    assert(self.relocs@[m].inst.0 == i);
                }
            }
            assert forall|i: int| 0 <= i < old_insts.len() implies #[trigger] self.insts@[i]
                == if targets.contains_key(i) && targets[i] == label.0 {
                    with_target(old_insts[i], pc)
                } else {
                    old_insts[i]
                } by {
                if targets.contains_key(i) && targets[i] == label.0 {
                    assert(old(self).spec_targets().contains_key(i));
                    let j = choose|j: int| 0 <= j < old_relocs.len() && (#[trigger] old_relocs[j]).inst.0 == i;
                    assert(old_relocs[j].label.0 == label.0);
                }
            }
        }
    }
    /// The instructions emitted so far.
    pub fn instructions(&self) -> (r: &Vec<Instruction>)
        ensures
            r@ == self.spec_insts(),
    {
        &self.insts
    }

    /// The number of labels minted so far.
    pub fn len_labels(&self) -> (r: usize)
        ensures
            r == self.spec_labels().len(),
    {
        self.labels.len()
    }

    /// The PC that `label` is pinned to, or `None` while it is unresolved or
    /// was never minted.
    pub fn resolved_pc(&self, label: LabelIdx) -> (r: Option<u32>)
        ensures
            label.0 < self.spec_labels().len() ==> r == self.spec_labels()[label.0 as int],
            label.0 >= self.spec_labels().len() ==> r is None,
    {
        if label.0 < self.labels.len() {
            self.labels[label.0]
        } else {
            None
        }
    }

    /// The pending relocations, oldest first.
    pub fn relocs(&self) -> (r: &Vec<Reloc>)
        ensures
            r@ == self.spec_relocs(),
    {
        &self.relocs
    }
}

/// Every branch emitted against a resolved label carries that label's PC, and
/// once every label is resolved no relocation is pending.
pub proof fn lemma_branches_pinned(b: &InstructionsBuilder, i: int)
    requires
        b.wf(),
    ensures
        b.spec_targets().contains_key(i) && b.resolved(b.spec_targets()[i]) ==> target_of(b.spec_insts()[i])
            == b.spec_labels()[b.spec_targets()[i] as int]->Some_0,
        b.all_resolved() ==> b.spec_relocs().len() == 0,
{
    if b.all_resolved() && b.spec_relocs().len() > 0 {
        let r = b.spec_relocs()[0];
        assert(b.spec_labels()[r.label.0 as int] is Some);
    }
}

} // verus!
