//! The per-step trace of an execution: contexts, derivation records and outcome.

use vstd::prelude::*;
use wasmi_core::TrapCode;
use crate::isa::{shares_fields, InstructionDerivationPost, InstructionDerivationPre};

verus! {

/// The size of a page of linear memory, in bytes.
pub const PAGE_SIZE: usize = 65536;

/// The machine state around a step: linear-memory size in bytes and the
/// operand-stack pointer.
#[derive(Clone, Copy, Debug, PartialEq, Eq, Structural)]
pub struct Context {
    pub memory_size: usize,
    pub sp: usize,
}

/// The outcome of a step: normal completion or a trap with its code.
#[derive(Clone, Copy, Debug)]
pub enum ExecutionResult {
    Normal,
    Trap(TrapCode),
}

impl ExecutionResult {
    /// Folds the interpreter's result of a step into its outcome, copying the
    /// trap code on error.
    pub fn from<T>(ret: &Result<T, TrapCode>) -> (r: ExecutionResult)
        ensures
            ret is Ok ==> r is Normal,
            ret is Err ==> r == ExecutionResult::Trap(ret->Err_0),
    {
        match ret {
            Ok(_) => ExecutionResult::Normal,
            Err(trap_code) => ExecutionResult::Trap(*trap_code),
        }
    }
}

/// `true` when the context after a step is one that the step's outcome allows:
/// after a normal step memory has not shrunk, and a memory that grew holds
/// whole pages; after a trap the context is the one before.
pub open spec fn step_consistent(before: Context, after: Context, result: ExecutionResult) -> bool {
    match result {
        ExecutionResult::Normal => after.memory_size >= before.memory_size && (after.memory_size
            > before.memory_size ==> after.memory_size % PAGE_SIZE == 0),
        ExecutionResult::Trap(_) => after == before,
    }
}

/// Tells whether a step with these contexts and this outcome can be recorded.
pub fn is_step_consistent(before: Context, after: Context, result: &ExecutionResult) -> (r: bool)
    ensures
        r == step_consistent(before, after, *result),
{
    match result {
        ExecutionResult::Normal => after.memory_size >= before.memory_size && (after.memory_size
            <= before.memory_size || after.memory_size % PAGE_SIZE == 0),
        ExecutionResult::Trap(_) => after == before,
    }
}

/// The record of one executed step. It is not changed after construction.
pub struct StepTrace<Value> {
    before: Context,
    after: Context,
    pre: Option<InstructionDerivationPre<Value>>,
    post: Option<InstructionDerivationPost<Value>>,
    execution_result: ExecutionResult,
}

impl<Value> StepTrace<Value> {
    pub closed spec fn spec_before(&self) -> Context {
        self.before
    }

    pub closed spec fn spec_after(&self) -> Context {
        self.after
    }

    pub closed spec fn spec_pre(&self) -> Option<InstructionDerivationPre<Value>> {
        self.pre
    }

    pub closed spec fn spec_post(&self) -> Option<InstructionDerivationPost<Value>> {
        self.post
    }

    pub closed spec fn spec_result(&self) -> ExecutionResult {
        self.execution_result
    }

    /// Every step record holds: the contexts fit the outcome, and where both
    /// derivation records are present they agree on their shared fields.
    pub open spec fn wf(&self) -> bool {
        &&& step_consistent(self.spec_before(), self.spec_after(), self.spec_result())
        &&& (self.spec_pre() is Some && self.spec_post() is Some) ==> shares_fields(
            self.spec_pre()->Some_0,
            self.spec_post()->Some_0,
        )
    }

    /// Records a step by its contexts and outcome alone.
    pub fn new(before: Context, after: Context, execution_result: ExecutionResult) -> (r: Self)
        requires
            step_consistent(before, after, execution_result),
        ensures
            r.spec_before() == before,
            r.spec_after() == after,
            r.spec_result() == execution_result,
            r.spec_pre() is None,
            r.spec_post() is None,
            r.wf(),
    {
        StepTrace { before, after, pre: None, post: None, execution_result }
    }

    /// Records a step together with its derivation records.
    pub fn with_derivations(
        before: Context,
        after: Context,
        pre: Option<InstructionDerivationPre<Value>>,
        post: Option<InstructionDerivationPost<Value>>,
        execution_result: ExecutionResult,
    ) -> (r: Self)
        requires
            step_consistent(before, after, execution_result),
            (pre is Some && post is Some) ==> shares_fields(pre->Some_0, post->Some_0),
        ensures
            r.spec_before() == before,
            r.spec_after() == after,
            r.spec_pre() == pre,
            r.spec_post() == post,
            r.spec_result() == execution_result,
            r.wf(),
    {
        StepTrace { before, after, pre, post, execution_result }
    }

    /// The context before the step.
    pub fn before(&self) -> (r: Context)
        ensures
            r == self.spec_before(),
    {
        self.before
    }

    /// The context after the step.
    pub fn after(&self) -> (r: Context)
        ensures
            r == self.spec_after(),
    {
        self.after
    }

    /// The pre record of the step, if any.
    pub fn pre(&self) -> (r: &Option<InstructionDerivationPre<Value>>)
        ensures
            *r == self.spec_pre(),
    {
        &self.pre
    }

    /// The post record of the step, if any.
    pub fn post(&self) -> (r: &Option<InstructionDerivationPost<Value>>)
        ensures
            *r == self.spec_post(),
    {
        &self.post
    }

    /// The outcome of the step.
    pub fn execution_result(&self) -> (r: &ExecutionResult)
        ensures
            *r == self.spec_result(),
    {
        &self.execution_result
    }
}

/// The steps of an execution, in the order they were executed.
pub struct StepsTrace<Value> {
    steps: Vec<StepTrace<Value>>,
}

impl<Value> View for StepsTrace<Value> {
    type V = Seq<StepTrace<Value>>;

    closed spec fn view(&self) -> Seq<StepTrace<Value>> {
        self.steps@
    }
}

impl<Value> StepsTrace<Value> {
    /// Every recorded step is well formed.
    pub open spec fn wf(&self) -> bool {
        forall|i: int| 0 <= i < self@.len() ==> (#[trigger] self@[i]).wf()
    }

    /// An empty trace.
    pub fn new() -> (r: Self)
        ensures
            r@ == Seq::<StepTrace<Value>>::empty(),
            r.wf(),
    {
        StepsTrace { steps: Vec::new() }
    }

    /// Appends a step at the end of the trace.
    pub fn push(&mut self, step: StepTrace<Value>)
        requires
            old(self).wf(),
            step.wf(),
        ensures
            final(self)@ == old(self)@.push(step),
            final(self).wf(),
    {
        self.steps.push(step);
        assert forall|i: int| 0 <= i < self@.len() implies (#[trigger] self@[i]).wf() by {
            if i < old(self)@.len() {
                assert(self@[i] == old(self)@[i]);
            }
        }
    }

    /// The number of recorded steps.
    pub fn len(&self) -> (r: usize)
        ensures
            r == self@.len(),
    {
        self.steps.len()
    }

    /// Returns `true` if no step is recorded.
    pub fn is_empty(&self) -> (r: bool)
        ensures
            r == (self@.len() == 0),
    {
        self.steps.len() == 0
    }

    /// The step recorded at `index`, counted from the first.
    pub fn get(&self, index: usize) -> (r: Option<&StepTrace<Value>>)
        ensures
            index < self@.len() ==> r == Some(&self@[index as int]),
            index >= self@.len() ==> r is None,
    {
        if index < self.steps.len() {
            Some(&self.steps[index])
        } else {
            None
        }
    }
}

/// What a trace holds after the steps of `items` were pushed onto `start` one
/// after another.
pub open spec fn pushed_all<T>(start: Seq<T>, items: Seq<T>) -> Seq<T>
    decreases items.len(),
{
    if items.len() == 0 {
        start
    } else {
        pushed_all(start, items.drop_last()).push(items.last())
    }
}

/// Pushing steps one after another keeps every step, in insertion order:
/// the trace holds what it held before, followed by the pushed steps.
pub proof fn lemma_push_keeps_order<T>(start: Seq<T>, items: Seq<T>)
    ensures
        pushed_all(start, items) == start + items,
    decreases items.len(),
{
    if items.len() > 0 {
        lemma_push_keeps_order(start, items.drop_last());
        assert(start + items =~= (start + items.drop_last()).push(items.last()));
    } else {
        assert(start + items =~= start);
    }
}

/// Every step of a well-formed trace fits its outcome: after a normal step
/// memory has not shrunk and a grown memory holds whole pages, after a trap the
/// context is unchanged, and paired derivation records agree.
pub proof fn lemma_recorded_steps_consistent<Value>(trace: &StepsTrace<Value>, i: int)
    requires
        trace.wf(),
        0 <= i < trace@.len(),
    ensures
        trace@[i].spec_result() is Trap ==> trace@[i].spec_after() == trace@[i].spec_before(),
        trace@[i].spec_result() is Normal ==> trace@[i].spec_after().memory_size
            >= trace@[i].spec_before().memory_size,
        trace@[i].spec_result() is Normal && trace@[i].spec_after().memory_size
            > trace@[i].spec_before().memory_size ==> trace@[i].spec_after().memory_size % PAGE_SIZE == 0,
        trace@[i].spec_pre() is Some && trace@[i].spec_post() is Some ==> shares_fields(
            trace@[i].spec_pre()->Some_0,
            trace@[i].spec_post()->Some_0,
        ),
{
    assert(trace@[i].wf());
}

} // verus!
