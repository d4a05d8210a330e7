use wasmi_core::TrapCode;
use wasmi_trace::isa::{InstructionDerivationPost, InstructionDerivationPre, Load, Store};
use wasmi_trace::tracer::{is_step_consistent, Context, ExecutionResult, StepTrace, StepsTrace};

#[test]
fn tracer_captures_trap() {
    let ret: Result<(), TrapCode> = Err(TrapCode::DivisionByZero);
    let result = ExecutionResult::from(&ret);
    assert!(matches!(result, ExecutionResult::Trap(TrapCode::DivisionByZero)));
    let before = Context { memory_size: 65536, sp: 2 };
    assert!(is_step_consistent(before, before, &result));
    let step: StepTrace<i32> = StepTrace::new(before, before, result);
    assert_eq!(step.before(), before);
    assert_eq!(step.after(), before);
    assert!(matches!(step.execution_result(), ExecutionResult::Trap(TrapCode::DivisionByZero)));
}

#[test]
fn normal_result_from_ok() {
    let ret: Result<u8, TrapCode> = Ok(3);
    assert!(matches!(ExecutionResult::from(&ret), ExecutionResult::Normal));
    let ret: Result<u8, TrapCode> = Err(TrapCode::Unreachable);
    assert!(matches!(ExecutionResult::from(&ret), ExecutionResult::Trap(TrapCode::Unreachable)));
}

#[test]
fn step_consistency_rules() {
    let before = Context { memory_size: 65536, sp: 2 };
    let grown = Context { memory_size: 131072, sp: 2 };
    let odd = Context { memory_size: 70000, sp: 2 };
    let shrunk = Context { memory_size: 0, sp: 2 };
    let moved = Context { memory_size: 65536, sp: 3 };
    assert!(is_step_consistent(before, grown, &ExecutionResult::Normal));
    assert!(is_step_consistent(before, moved, &ExecutionResult::Normal));
    assert!(!is_step_consistent(before, odd, &ExecutionResult::Normal));
    assert!(!is_step_consistent(before, shrunk, &ExecutionResult::Normal));
    assert!(!is_step_consistent(before, moved, &ExecutionResult::Trap(TrapCode::DivisionByZero)));
}

#[test]
fn steps_keep_insertion_order() {
    let mut trace: StepsTrace<i32> = StepsTrace::new();
    assert!(trace.is_empty());
    for sp in 0..3usize {
        let before = Context { memory_size: 0, sp };
        let after = Context { memory_size: 0, sp: sp + 1 };
        trace.push(StepTrace::new(before, after, ExecutionResult::Normal));
    }
    assert_eq!(trace.len(), 3);
    for i in 0..3usize {
        assert_eq!(trace.get(i).unwrap().before().sp, i);
        assert_eq!(trace.get(i).unwrap().after().sp, i + 1);
    }
    assert!(trace.get(3).is_none());
}

#[test]
fn step_carries_derivations() {
    let pre = InstructionDerivationPre::<i32>::I32Add { lhs: 3, rhs: 4 };
    let post = pre.into_post(None, 0, false);
    let ctx = Context { memory_size: 0, sp: 2 };
    let after = Context { memory_size: 0, sp: 1 };
    let step = StepTrace::with_derivations(ctx, after, Some(pre), Some(post.clone()), ExecutionResult::Normal);
    assert_eq!(*step.pre(), Some(pre));
    assert_eq!(*step.post(), Some(post));
}

#[test]
fn memory_grow_success_and_failure() {
    let pre = InstructionDerivationPre::<i32>::GrowMemory { pages: 1 };
    assert_eq!(
        pre.into_post(None, 4, true),
        InstructionDerivationPost::GrowMemory { pages: 1, new_size: 5 }
    );
    assert_eq!(
        pre.into_post(None, 4, false),
        InstructionDerivationPost::GrowMemory { pages: 1, new_size: 4 }
    );
}

#[test]
fn i32_add_determinism() {
    let pre = InstructionDerivationPre::<i32>::I32Add { lhs: 3, rhs: 4 };
    assert_eq!(
        pre.into_post(None, 0, false),
        InstructionDerivationPost::I32Add { lhs: 3, rhs: 4, output: 7 }
    );
    let pre = InstructionDerivationPre::<i32>::I32Add { lhs: i32::MAX, rhs: 1 };
    assert_eq!(
        pre.into_post(None, 0, false),
        InstructionDerivationPost::I32Add { lhs: i32::MAX, rhs: 1, output: i32::MIN }
    );
}

#[test]
fn branch_records_share_fields() {
    let pre = InstructionDerivationPre::<i64>::BrIfNez { cond: true, dst_pc: 9, keep: true, drop: 2 };
    assert_eq!(
        pre.into_post(Some(42), 0, false),
        InstructionDerivationPost::BrIfNez { cond: true, dst_pc: 9, keep: true, drop: 2, return_value: Some(42) }
    );
    let pre = InstructionDerivationPre::<i64>::Select { left: 1, mid: 2, right: 0 };
    assert_eq!(
        pre.into_post(Some(2), 0, false),
        InstructionDerivationPost::Select { left: 1, mid: 2, right: 0, output: 2 }
    );
    let pre = InstructionDerivationPre::<i64>::SetLocal { depth: 3, value: 8 };
    assert_eq!(pre.into_post(None, 0, false), InstructionDerivationPost::SetLocal { depth: 3, value: 8 });
}

#[test]
fn store_and_load_records() {
    let pre = <i32 as Store<u64>>::new_store_pre(8, 100, 7);
    let post = <i32 as Store<u64>>::new_store_post(8, 100, 7);
    assert_eq!(pre, InstructionDerivationPre::I32Store { offset: 8, raw_address: 100, value: 7 });
    assert_eq!(post, InstructionDerivationPost::I32Store { offset: 8, raw_address: 100, value: 7 });
    assert_eq!(pre.into_post(None, 0, false), post);
    let load = <i32 as Load<u64>>::new_load_post(4, 12, 99);
    assert_eq!(load, InstructionDerivationPost::I32Load { offset: 4, raw_address: 12, value: 99 });
}
