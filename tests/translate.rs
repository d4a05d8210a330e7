use wasmi_core::ValueType;
use wasmi_trace::control_stack::BlockType;
use wasmi_trace::func_builder::{FunctionBuilder, ModuleError};
use wasmi_trace::inst_builder::{Instruction, LabelIdx};
use wasmi_trace::value_stack::ValueStack;

#[test]
fn empty_function() {
    let mut fb = FunctionBuilder::new(0, BlockType::Empty);
    assert_eq!(fb.finish(), Ok(()));
    assert_eq!(fb.inst_builder().instructions().len(), 0);
    assert!(fb.value_stack().is_empty());
    assert!(fb.control_frames().is_empty());
    assert_eq!(fb.max_stack_height(), 0);
    assert_eq!(fb.func(), 0);
}

#[test]
fn loop_entry_resolves_immediately() {
    let mut fb = FunctionBuilder::new(1, BlockType::Empty);
    assert_eq!(fb.translate_loop(BlockType::Empty), Ok(()));
    assert_eq!(fb.inst_builder().resolved_pc(LabelIdx(0)), Some(0));
    assert_eq!(fb.translate_end(), Ok(()));
    assert!(fb.control_frames().is_empty());
    assert!(fb.inst_builder().relocs().is_empty());
    assert_eq!(fb.finish(), Ok(()));
}

#[test]
fn forward_block_branch() {
    let mut fb = FunctionBuilder::new(2, BlockType::Empty);
    fb.translate_block(BlockType::Empty).unwrap();
    fb.translate_br(0).unwrap();
    assert_eq!(
        fb.inst_builder().instructions()[0],
        Instruction::Br { dst_pc: 0, keep: false, drop: 0 }
    );
    assert_eq!(fb.inst_builder().relocs().len(), 1);
    assert_eq!(fb.inst_builder().relocs()[0].label, LabelIdx(0));
    assert!(!fb.is_reachable());
    fb.translate_end().unwrap();
    assert_eq!(
        fb.inst_builder().instructions()[0],
        Instruction::Br { dst_pc: 1, keep: false, drop: 0 }
    );
    assert!(fb.inst_builder().relocs().is_empty());
    assert!(fb.is_reachable());
    assert_eq!(fb.finish(), Ok(()));
}

#[test]
fn backward_branch_needs_no_reloc() {
    let mut fb = FunctionBuilder::new(3, BlockType::Empty);
    fb.translate_i32_const(5).unwrap();
    fb.translate_drop().unwrap();
    fb.translate_loop(BlockType::Empty).unwrap();
    fb.translate_br(0).unwrap();
    assert!(fb.inst_builder().relocs().is_empty());
    assert_eq!(
        fb.inst_builder().instructions()[2],
        Instruction::Br { dst_pc: 2, keep: false, drop: 0 }
    );
    fb.translate_end().unwrap();
    assert_eq!(fb.finish(), Ok(()));
}

#[test]
fn nested_blocks_resolve_every_label() {
    let mut fb = FunctionBuilder::new(4, BlockType::Returns(ValueType::I32));
    fb.translate_block(BlockType::Returns(ValueType::I32)).unwrap();
    fb.translate_block(BlockType::Empty).unwrap();
    fb.translate_i32_const(1).unwrap();
    fb.translate_br_if(0).unwrap();
    fb.translate_i32_const(2).unwrap();
    fb.translate_br(1).unwrap();
    fb.translate_end().unwrap();
    fb.translate_i32_const(3).unwrap();
    fb.translate_end().unwrap();
    assert_eq!(fb.finish(), Ok(()));
    let insts = fb.inst_builder().instructions();
    assert_eq!(insts[1], Instruction::BrIfNez { dst_pc: 4, keep: false, drop: 0 });
    assert_eq!(insts[3], Instruction::Br { dst_pc: 5, keep: true, drop: 0 });
    assert!(fb.inst_builder().relocs().is_empty());
    for l in 0..fb.inst_builder().len_labels() {
        assert!(fb.inst_builder().resolved_pc(LabelIdx(l)).is_some());
    }
    assert_eq!(fb.value_stack().len(), 1);
}

#[test]
fn result_arity_after_translation() {
    let mut fb = FunctionBuilder::new(5, BlockType::Returns(ValueType::I32));
    fb.translate_i32_const(1).unwrap();
    fb.translate_i32_const(2).unwrap();
    fb.translate_i32_add().unwrap();
    assert_eq!(fb.finish(), Ok(()));
    assert_eq!(fb.value_stack().len(), 1);
    assert_eq!(
        fb.inst_builder().instructions().as_slice(),
        &[Instruction::I32Const(1), Instruction::I32Const(2), Instruction::I32Add]
    );
}

#[test]
fn max_stack_height_never_decreases() {
    let mut fb = FunctionBuilder::new(6, BlockType::Empty);
    fb.translate_i32_const(1).unwrap();
    assert_eq!(fb.max_stack_height(), 1);
    fb.translate_i32_const(2).unwrap();
    assert_eq!(fb.max_stack_height(), 2);
    fb.translate_i32_add().unwrap();
    assert_eq!(fb.max_stack_height(), 2);
    fb.translate_drop().unwrap();
    assert_eq!(fb.max_stack_height(), 2);
    assert_eq!(fb.value_stack().len(), 0);
}

#[test]
fn if_else_branches_are_patched() {
    let mut fb = FunctionBuilder::new(7, BlockType::Returns(ValueType::I32));
    fb.translate_i32_const(1).unwrap();
    fb.translate_if(BlockType::Returns(ValueType::I32)).unwrap();
    fb.translate_i32_const(10).unwrap();
    fb.translate_else().unwrap();
    fb.translate_i32_const(20).unwrap();
    fb.translate_end().unwrap();
    assert_eq!(fb.finish(), Ok(()));
    let insts = fb.inst_builder().instructions();
    assert_eq!(insts[1], Instruction::BrIfEqz { dst_pc: 4, keep: false, drop: 0 });
    assert_eq!(insts[3], Instruction::Br { dst_pc: 5, keep: true, drop: 0 });
    assert_eq!(fb.value_stack().len(), 1);
}

#[test]
fn return_keeps_results() {
    let mut fb = FunctionBuilder::new(8, BlockType::Returns(ValueType::I32));
    fb.translate_i32_const(1).unwrap();
    fb.translate_i32_const(2).unwrap();
    fb.translate_return().unwrap();
    assert!(!fb.is_reachable());
    fb.translate_i32_const(3).unwrap();
    assert_eq!(fb.inst_builder().instructions().len(), 3);
    assert_eq!(
        fb.inst_builder().instructions()[2],
        Instruction::Return { keep: true, drop: 1 }
    );
    assert_eq!(fb.finish(), Ok(()));
    assert_eq!(fb.value_stack().len(), 1);
}

#[test]
fn unreachable_code_is_skipped() {
    let mut fb = FunctionBuilder::new(9, BlockType::Empty);
    fb.translate_block(BlockType::Empty).unwrap();
    fb.translate_unreachable().unwrap();
    fb.translate_i32_const(1).unwrap();
    fb.translate_i32_add().unwrap();
    assert_eq!(fb.inst_builder().instructions().len(), 1);
    fb.translate_end().unwrap();
    assert!(fb.is_reachable());
    assert_eq!(fb.finish(), Ok(()));
}

#[test]
fn select_keeps_first_operand_type() {
    let mut fb = FunctionBuilder::new(10, BlockType::Returns(ValueType::I32));
    fb.translate_i32_const(1).unwrap();
    fb.translate_i32_const(2).unwrap();
    fb.translate_i32_const(0).unwrap();
    fb.translate_select().unwrap();
    assert_eq!(fb.value_stack().len(), 1);
    assert_eq!(fb.inst_builder().instructions()[3], Instruction::Select);
    assert_eq!(fb.finish(), Ok(()));
}

#[test]
fn locals_are_counted() {
    let mut fb = FunctionBuilder::new(11, BlockType::Empty);
    fb.translate_locals(3, ValueType::I32).unwrap();
    fb.translate_locals(2, ValueType::I64).unwrap();
    assert_eq!(fb.len_locals(), 5);
}

#[test]
fn error_unbalanced_end() {
    let mut fb = FunctionBuilder::new(0, BlockType::Empty);
    assert_eq!(fb.translate_end(), Err(ModuleError::UnbalancedEnd));
}

#[test]
fn error_else_without_if() {
    let mut fb = FunctionBuilder::new(0, BlockType::Empty);
    assert_eq!(fb.translate_else(), Err(ModuleError::ElseWithoutIf));
    fb.translate_block(BlockType::Empty).unwrap();
    assert_eq!(fb.translate_else(), Err(ModuleError::ElseWithoutIf));
}

#[test]
fn error_invalid_branch_depth() {
    let mut fb = FunctionBuilder::new(0, BlockType::Empty);
    fb.translate_block(BlockType::Empty).unwrap();
    assert_eq!(fb.translate_br(2), Err(ModuleError::InvalidBranchDepth));
    assert_eq!(fb.control_frames().len(), 1);
}

#[test]
fn error_unsupported_conditional_return() {
    let mut fb = FunctionBuilder::new(0, BlockType::Empty);
    fb.translate_i32_const(1).unwrap();
    assert_eq!(fb.translate_br_if(0), Err(ModuleError::UnsupportedOperator));
}

#[test]
fn error_stack_underflow() {
    let mut fb = FunctionBuilder::new(0, BlockType::Empty);
    fb.translate_i32_const(1).unwrap();
    fb.translate_block(BlockType::Empty).unwrap();
    assert_eq!(fb.translate_drop(), Err(ModuleError::StackUnderflow));
    assert_eq!(fb.translate_i32_add(), Err(ModuleError::StackUnderflow));
    assert_eq!(fb.value_stack().len(), 1);
}

#[test]
fn error_stack_height_mismatch() {
    let mut fb = FunctionBuilder::new(0, BlockType::Returns(ValueType::I32));
    assert_eq!(fb.finish(), Err(ModuleError::StackHeightMismatch));
    fb.translate_block(BlockType::Empty).unwrap();
    fb.translate_i32_const(1).unwrap();
    assert_eq!(fb.translate_end(), Err(ModuleError::StackHeightMismatch));
}

#[test]
fn error_unclosed_blocks() {
    let mut fb = FunctionBuilder::new(0, BlockType::Empty);
    fb.translate_block(BlockType::Empty).unwrap();
    assert_eq!(fb.finish(), Err(ModuleError::UnclosedBlocks));
}

#[test]
fn value_stack_pops_in_order() {
    let mut vs = ValueStack::default();
    vs.push(ValueType::I32);
    vs.push(ValueType::I64);
    vs.push(ValueType::F32);
    vs.push(ValueType::F64);
    assert_eq!(vs.pop1(), ValueType::F64);
    assert_eq!(vs.pop3(), (ValueType::I32, ValueType::I64, ValueType::F32));
    vs.push(ValueType::I32);
    vs.push(ValueType::I64);
    assert_eq!(vs.pop2(), (ValueType::I32, ValueType::I64));
    assert!(vs.is_empty());
}

#[test]
fn shrink_to_current_height_is_noop() {
    let mut vs = ValueStack::default();
    vs.push(ValueType::I32);
    vs.push(ValueType::I64);
    vs.shrink_to(2);
    assert_eq!(vs.len(), 2);
    assert_eq!(vs.pop1(), ValueType::I64);
}

#[test]
fn shrink_to_zero_empties() {
    let mut vs = ValueStack::default();
    vs.push(ValueType::I32);
    vs.push(ValueType::I64);
    vs.shrink_to(0);
    assert!(vs.is_empty());
    assert_eq!(vs.len(), 0);
}

#[test]
fn memory_operators() {
    let mut fb = FunctionBuilder::new(12, BlockType::Returns(ValueType::I32));
    fb.translate_i32_const(16).unwrap();
    fb.translate_i32_const(7).unwrap();
    fb.translate_i32_store(4).unwrap();
    fb.translate_i32_const(16).unwrap();
    fb.translate_i32_load(4).unwrap();
    fb.translate_drop().unwrap();
    fb.translate_memory_size().unwrap();
    fb.translate_memory_grow().unwrap();
    assert_eq!(fb.finish(), Ok(()));
    assert_eq!(
        fb.inst_builder().instructions().as_slice(),
        &[
            Instruction::I32Const(16),
            Instruction::I32Const(7),
            Instruction::I32Store { offset: 4 },
            Instruction::I32Const(16),
            Instruction::I32Load { offset: 4 },
            Instruction::Drop,
            Instruction::CurrentMemory,
            Instruction::GrowMemory,
        ]
    );
    assert_eq!(fb.max_stack_height(), 2);
}

#[test]
fn global_operators() {
    let mut fb = FunctionBuilder::new(13, BlockType::Empty);
    fb.translate_get_global(3, ValueType::I64).unwrap();
    assert_eq!(fb.value_stack().len(), 1);
    fb.translate_set_global(4).unwrap();
    assert!(fb.value_stack().is_empty());
    assert_eq!(
        fb.inst_builder().instructions().as_slice(),
        &[Instruction::GetGlobal { index: 3 }, Instruction::SetGlobal { index: 4 }]
    );
    assert_eq!(fb.translate_set_global(4), Err(ModuleError::StackUnderflow));
}

#[test]
fn local_operators_use_depth_from_top() {
    let mut fb = FunctionBuilder::new(14, BlockType::Returns(ValueType::I64));
    fb.translate_locals(2, ValueType::I32).unwrap();
    fb.translate_locals(1, ValueType::I64).unwrap();
    assert_eq!(fb.local_type_of(0), Some(ValueType::I32));
    assert_eq!(fb.local_type_of(1), Some(ValueType::I32));
    assert_eq!(fb.local_type_of(2), Some(ValueType::I64));
    assert_eq!(fb.local_type_of(3), None);
    fb.translate_get_local(2).unwrap();
    fb.translate_tee_local(2).unwrap();
    fb.translate_get_local(0).unwrap();
    fb.translate_set_local(1).unwrap();
    assert_eq!(
        fb.inst_builder().instructions().as_slice(),
        &[
            Instruction::GetLocal { depth: 1 },
            Instruction::TeeLocal { depth: 2 },
            Instruction::GetLocal { depth: 4 },
            Instruction::SetLocal { depth: 3 },
        ]
    );
    assert_eq!(fb.value_stack().len(), 1);
    assert_eq!(fb.translate_get_local(3), Err(ModuleError::InvalidLocalIndex));
    assert_eq!(fb.finish(), Ok(()));
}

#[test]
fn call_pops_params_and_pushes_results() {
    let mut fb = FunctionBuilder::new(15, BlockType::Returns(ValueType::I32));
    fb.translate_i32_const(1).unwrap();
    fb.translate_i32_const(2).unwrap();
    fb.translate_call(7, 2, BlockType::Returns(ValueType::I32)).unwrap();
    assert_eq!(fb.value_stack().len(), 1);
    assert_eq!(fb.inst_builder().instructions()[2], Instruction::Call { index: 7 });
    assert_eq!(
        fb.translate_call(8, 3, BlockType::Empty),
        Err(ModuleError::StackUnderflow)
    );
    assert_eq!(fb.finish(), Ok(()));
}

#[test]
fn br_table_emits_one_branch_per_entry() {
    let mut fb = FunctionBuilder::new(16, BlockType::Empty);
    fb.translate_block(BlockType::Empty).unwrap();
    fb.translate_loop(BlockType::Empty).unwrap();
    fb.translate_i32_const(0).unwrap();
    fb.translate_br_table(&vec![0, 1], 1).unwrap();
    assert!(!fb.is_reachable());
    assert_eq!(fb.inst_builder().relocs().len(), 2);
    fb.translate_end().unwrap();
    fb.translate_end().unwrap();
    assert_eq!(fb.finish(), Ok(()));
    assert_eq!(
        fb.inst_builder().instructions().as_slice(),
        &[
            Instruction::I32Const(0),
            Instruction::BrTable { len_targets: 3 },
            Instruction::Br { dst_pc: 0, keep: false, drop: 0 },
            Instruction::Br { dst_pc: 5, keep: false, drop: 0 },
            Instruction::Br { dst_pc: 5, keep: false, drop: 0 },
        ]
    );
    assert!(fb.inst_builder().relocs().is_empty());
}

#[test]
fn br_table_rejects_bad_depth() {
    let mut fb = FunctionBuilder::new(17, BlockType::Empty);
    fb.translate_block(BlockType::Empty).unwrap();
    fb.translate_i32_const(0).unwrap();
    assert_eq!(fb.translate_br_table(&vec![0], 5), Err(ModuleError::InvalidBranchDepth));
    assert_eq!(fb.inst_builder().instructions().len(), 1);
}
