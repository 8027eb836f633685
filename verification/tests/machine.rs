use rvm::vm::{run, Context, Effect};
use rvm::VMError;

fn machine_with(bytecode: Vec<u16>, presets: &[(usize, u8)]) -> Context {
    let mut context = Context::new(bytecode);
    for (register, value) in presets.iter() {
        context.registers[*register] = *value;
    }
    context
}

#[test]
fn add_program_halts_with_sum() {
    // set r0 5; set r1 3; add r0 r1; int (halt: RS is still zero)
    let outcome = run(vec![0x1005, 0x1103, 0x4001, 0x0000], &vec![], 100);
    assert_eq!(outcome.fault, VMError::VMHaltError);
    assert_eq!(outcome.context.registers[0], 8);
    assert_eq!(outcome.context.registers[1], 3);
}

#[test]
fn add_overflow_leaves_registers_as_before_the_op() {
    let mut context = machine_with(vec![0x4001], &[(0, 250), (1, 10)]);
    let result = context.step();
    assert!(matches!(result, Err(VMError::VMRegisterOverflowError)));
    assert_eq!(context.registers[0], 250);
    assert_eq!(context.registers[1], 10);
    // only the instruction pointer moved, during the fetch
    assert_eq!(context.registers[8], 1);
    assert!(context.stack.is_empty());
}

#[test]
fn push_past_capacity_faults_with_stack_overflow() {
    // each `psh r0 rs` pushes all thirteen registers; twenty of them would
    // push 260 values, more than the 8-bit depth counter can count
    let outcome = run(vec![0x200C; 20], &vec![], 1000);
    assert_eq!(outcome.fault, VMError::VMStackOverflowError);
    assert_eq!(outcome.context.registers[9], 255);
}

#[test]
fn push_keeps_depth_counter_equal_to_stack_length() {
    // psh r0 rs; int (halt)
    let outcome = run(vec![0x200C, 0x0000], &vec![], 100);
    assert_eq!(outcome.fault, VMError::VMHaltError);
    assert_eq!(outcome.context.registers[9] as usize, outcome.context.stack.len());
    assert_eq!(outcome.context.stack.len(), 13);
    // the counter and the instruction pointer are pushed at their live values
    assert_eq!(outcome.context.stack[8], 1);
    assert_eq!(outcome.context.stack[9], 9);
}

#[test]
fn fetch_past_end_faults_with_fetch_invalid() {
    let outcome = run(vec![0x1005], &vec![], 10);
    assert_eq!(outcome.fault, VMError::VMContextFetchInvalidError);
    assert_eq!(outcome.context.registers[8], 1);
}

#[test]
fn empty_bytecode_faults_at_once() {
    let outcome = run(vec![], &vec![], 10);
    assert_eq!(outcome.fault, VMError::VMContextFetchInvalidError);
}

#[test]
fn pointer_overflow_without_rn_target_faults_with_fetch_next() {
    // 256 instructions, none of which targets RN: the increment past 255
    // cannot be represented
    let outcome = run(vec![0x1005; 256], &vec![], 1000);
    assert_eq!(outcome.fault, VMError::VMContextFetchNextError);
    assert_eq!(outcome.context.registers[8], 255);
}

#[test]
fn pointer_overflow_with_rn_target_is_allowed() {
    // the instruction at index 255 is `set rn 0`, so the overflow passes
    // through and the program loops until the step budget runs out
    let mut bytecode = vec![0x1005; 256];
    bytecode[255] = 0x1800;
    let outcome = run(bytecode, &vec![], 1000);
    assert_eq!(outcome.fault, VMError::VMRunError);
}

#[test]
fn writing_rn_redirects_the_next_fetch() {
    // set rn 0: a one-instruction loop that never terminates
    let outcome = run(vec![0x1800], &vec![], 50);
    assert_eq!(outcome.fault, VMError::VMRunError);
    assert_eq!(outcome.context.registers[8], 0);
}

#[test]
fn sub_below_zero_faults() {
    let mut context = machine_with(vec![0x5001], &[(0, 5), (1, 10)]);
    assert!(matches!(context.step(), Err(VMError::VMRegisterOverflowError)));
    assert_eq!(context.registers[0], 5);
}

#[test]
fn sub_computes_difference() {
    let outcome = run(vec![0x100A, 0x1103, 0x5001, 0x0000], &vec![], 100);
    assert_eq!(outcome.fault, VMError::VMHaltError);
    assert_eq!(outcome.context.registers[0], 7);
}

#[test]
fn mul_computes_product_and_faults_past_255() {
    let mut context = machine_with(vec![0x6001], &[(0, 15), (1, 16)]);
    assert!(matches!(context.step(), Ok((0x6001, Effect::Tick))));
    assert_eq!(context.registers[0], 240);

    let mut overflowing = machine_with(vec![0x6001], &[(0, 16), (1, 16)]);
    assert!(matches!(overflowing.step(), Err(VMError::VMRegisterOverflowError)));
    assert_eq!(overflowing.registers[0], 16);
}

#[test]
fn div_computes_quotient_and_faults_on_zero() {
    let mut context = machine_with(vec![0x7001], &[(0, 9), (1, 2)]);
    assert!(matches!(context.step(), Ok(_)));
    assert_eq!(context.registers[0], 4);

    let mut by_zero = machine_with(vec![0x7001], &[(0, 9)]);
    assert!(matches!(by_zero.step(), Err(VMError::VMRegisterOverflowError)));
    assert_eq!(by_zero.registers[0], 9);
}

#[test]
fn chk_sets_the_comparison_flag() {
    let mut equal = machine_with(vec![0x8001], &[(0, 4), (1, 4)]);
    assert!(matches!(equal.step(), Ok(_)));
    assert_eq!(equal.registers[10], 0);

    let mut less = machine_with(vec![0x8001], &[(0, 3), (1, 4)]);
    assert!(matches!(less.step(), Ok(_)));
    assert_eq!(less.registers[10], 1);

    let mut greater = machine_with(vec![0x8001], &[(0, 5), (1, 4)]);
    assert!(matches!(greater.step(), Ok(_)));
    assert_eq!(greater.registers[10], 2);
}

#[test]
fn cns_moves_only_when_flag_matches_compare_target() {
    // RF and RC both start at zero, so the move happens
    let mut moving = machine_with(vec![0x9001], &[(1, 7)]);
    assert!(matches!(moving.step(), Ok(_)));
    assert_eq!(moving.registers[0], 7);

    // with RC set to 1 the flag no longer matches and nothing moves
    let mut frozen = machine_with(vec![0x9001], &[(1, 7), (11, 1)]);
    assert!(matches!(frozen.step(), Ok(_)));
    assert_eq!(frozen.registers[0], 0);
}

#[test]
fn lpt_loads_a_stack_cell_indirectly() {
    let mut context = machine_with(vec![0xA001], &[(1, 1)]);
    context.stack = vec![7, 9];
    context.registers[9] = 2;
    assert!(matches!(context.step(), Ok(_)));
    assert_eq!(context.registers[0], 9);

    let mut out_of_range = machine_with(vec![0xA001], &[(1, 5)]);
    out_of_range.stack = vec![7, 9];
    assert!(matches!(out_of_range.step(), Err(VMError::VMStackInvalidAccessError)));
}

#[test]
fn bitwise_ops_work_in_place() {
    let mut shift_left = machine_with(vec![0xB001], &[(0, 3), (1, 2)]);
    assert!(matches!(shift_left.step(), Ok(_)));
    assert_eq!(shift_left.registers[0], 12);

    let mut shift_right = machine_with(vec![0xC001], &[(0, 12), (1, 2)]);
    assert!(matches!(shift_right.step(), Ok(_)));
    assert_eq!(shift_right.registers[0], 3);

    // shifting an 8-bit cell by eight or more clears it and never faults
    let mut shift_far = machine_with(vec![0xB001], &[(0, 255), (1, 9)]);
    assert!(matches!(shift_far.step(), Ok(_)));
    assert_eq!(shift_far.registers[0], 0);

    let mut and_op = machine_with(vec![0xD001], &[(0, 0b1100), (1, 0b1010)]);
    assert!(matches!(and_op.step(), Ok(_)));
    assert_eq!(and_op.registers[0], 0b1000);

    let mut or_op = machine_with(vec![0xE001], &[(0, 0b1100), (1, 0b1010)]);
    assert!(matches!(or_op.step(), Ok(_)));
    assert_eq!(or_op.registers[0], 0b1110);

    let mut xor_op = machine_with(vec![0xF001], &[(0, 0b1100), (1, 0b1010)]);
    assert!(matches!(xor_op.step(), Ok(_)));
    assert_eq!(xor_op.registers[0], 0b0110);
}

#[test]
fn pop_on_empty_stack_faults_with_underflow() {
    // the pop side reports a distinct underflow fault, kept apart from the
    // push side's overflow fault
    let mut context = machine_with(vec![0x3001], &[]);
    assert!(matches!(context.step(), Err(VMError::VMStackUnderflowError)));
}

#[test]
fn pop_moves_values_in_reverse_order() {
    let mut context = machine_with(vec![0x3001], &[(9, 2)]);
    context.stack = vec![5, 6];
    assert!(matches!(context.step(), Ok(_)));
    assert_eq!(context.registers[0], 5);
    assert_eq!(context.registers[1], 6);
    assert_eq!(context.registers[9], 0);
    assert!(context.stack.is_empty());
}

#[test]
fn print_interrupt_emits_stack_from_r0() {
    // set r0 'H'; set r1 'i'; set r2 '!'; psh r0 r2; set r0 0; set rs 1;
    // int (print); set rs 0; int (halt)
    let bytecode = vec![0x1048, 0x1169, 0x1221, 0x2002, 0x1000, 0x1C01, 0x0000, 0x1C00, 0x0000];
    let outcome = run(bytecode, &vec![], 100);
    assert_eq!(outcome.fault, VMError::VMHaltError);
    assert_eq!(outcome.prints, vec![vec![0x48, 0x69, 0x21]]);
}

#[test]
fn print_interrupt_past_stack_top_emits_nothing() {
    // set r0 9; set rs 1; int (print); set rs 0; int (halt)
    let outcome = run(vec![0x1009, 0x1C01, 0x0000, 0x1C00, 0x0000], &vec![], 100);
    assert_eq!(outcome.fault, VMError::VMHaltError);
    assert_eq!(outcome.prints, vec![Vec::<u8>::new()]);
}

#[test]
fn read_interrupt_pushes_an_input_line() {
    // set r0 3; set rs 2; int (read); set rs 0; int (halt)
    let bytecode = vec![0x1003, 0x1C02, 0x0000, 0x1C00, 0x0000];
    let inputs = vec![b"hey".to_vec()];
    let outcome = run(bytecode, &inputs, 100);
    assert_eq!(outcome.fault, VMError::VMHaltError);
    assert_eq!(outcome.context.stack, vec![0x68, 0x65, 0x79]);
    assert_eq!(outcome.context.registers[0], 3);
    assert_eq!(outcome.context.registers[9], 3);
}

#[test]
fn read_interrupt_takes_at_most_r0_bytes() {
    let bytecode = vec![0x1002, 0x1C02, 0x0000, 0x1C00, 0x0000];
    let inputs = vec![b"hello".to_vec()];
    let outcome = run(bytecode, &inputs, 100);
    assert_eq!(outcome.fault, VMError::VMHaltError);
    assert_eq!(outcome.context.stack, vec![0x68, 0x65]);
    assert_eq!(outcome.context.registers[0], 2);
}

#[test]
fn read_interrupt_without_input_faults() {
    let bytecode = vec![0x1003, 0x1C02, 0x0000];
    let outcome = run(bytecode, &vec![], 100);
    assert_eq!(outcome.fault, VMError::VMInterruptError);
}

#[test]
fn read_effect_is_served_by_read_input() {
    let mut context = machine_with(vec![0x0000], &[(0, 2), (12, 2)]);
    match context.step() {
        Ok((word, Effect::Read)) => assert_eq!(word, 0x0000),
        _ => panic!("expected the read effect"),
    }
    assert!(context.read_input(b"ab").is_ok());
    assert_eq!(context.stack, vec![0x61, 0x62]);
    assert_eq!(context.registers[0], 2);
}

#[test]
fn unknown_interrupt_selector_is_unimplemented() {
    // set rs 5; int
    let outcome = run(vec![0x1C05, 0x0000], &vec![], 100);
    assert_eq!(outcome.fault, VMError::VMUnimplementedError);
}

#[test]
fn invalid_target_field_faults() {
    // a set instruction whose target field is 0xD, past the register table
    let mut context = machine_with(vec![0x1D00], &[]);
    assert!(matches!(context.step(), Err(VMError::VMInvalidTargetError)));
}

#[test]
fn invalid_value_field_faults() {
    // an add instruction whose value field is 0xD, past the register table
    let mut context = machine_with(vec![0x400D], &[]);
    assert!(matches!(context.step(), Err(VMError::VMInvalidValueError)));
}

#[test]
fn exhausted_step_budget_reports_run_error() {
    let outcome = run(vec![0x1800], &vec![], 3);
    assert_eq!(outcome.fault, VMError::VMRunError);
}

#[test]
fn fetch_reads_and_advances_the_pointer() {
    let mut context = Context::new(vec![0x1005, 0x1103]);
    assert_eq!(context.fetch(), Ok(0x1005));
    assert_eq!(context.registers[8], 1);
    assert_eq!(context.fetch(), Ok(0x1103));
    assert_eq!(context.registers[8], 2);
    assert_eq!(context.fetch(), Err(VMError::VMContextFetchInvalidError));
    assert_eq!(context.registers[8], 2);
}

#[test]
fn assembled_program_runs_end_to_end() {
    let source = b"# sum two numbers\nset r0 5\nset r1 3\nadd r0 r1\nint\n";
    let bytecode = rvm::parser::assemble_source(source).unwrap();
    let outcome = run(bytecode, &vec![], 100);
    assert_eq!(outcome.fault, VMError::VMHaltError);
    assert_eq!(outcome.context.registers[0], 8);
}
