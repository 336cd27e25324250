use stackvm::decode::tokenize;
use stackvm::exec::run_program;
use stackvm::instr::Instr;

const FUEL: u64 = 10_000;

#[test]
fn decode_empty_input() {
    let tokens = tokenize(b"");
    assert_eq!(tokens, vec![]);
}

#[test]
fn decode_digits_only_dropped() {
    // A digit run that reaches the end of input is never closed and never
    // emitted.
    let tokens = tokenize(b"12345");
    assert_eq!(tokens, vec![]);
}

#[test]
fn decode_every_symbol() {
    let tokens = tokenize(b"><^:.?;~+-_\"@");
    assert_eq!(
        tokens,
        vec![
            Instr::CpushV,
            Instr::VpushC,
            Instr::Vswap,
            Instr::Vdup,
            Instr::Vdrop,
            Instr::VswapIf,
            Instr::CswapIp,
            Instr::IsNegative,
            Instr::Add,
            Instr::Sub,
            Instr::Read,
            Instr::Print,
            Instr::Mswap,
        ]
    );
}

#[test]
fn decode_ignores_unrecognized_bytes() {
    let tokens = tokenize(b"hello, world! 42 (prose)\n");
    assert_eq!(tokens, vec![Instr::PushImmediate(42)]);
}

#[test]
fn decode_literal_closed_by_symbol_keeps_symbol() {
    // The byte that closes a literal is still inspected as a symbol in the
    // same pass.
    let tokens = tokenize(b"1+2");
    assert_eq!(tokens, vec![Instr::PushImmediate(1), Instr::Add]);
}

#[test]
fn literal_narrowing_65536_wraps_to_zero() {
    let tokens = tokenize(b"65536+");
    assert_eq!(tokens, vec![Instr::PushImmediate(0), Instr::Add]);
}

#[test]
fn literal_narrowing_65537_wraps_to_one() {
    let tokens = tokenize(b"65537X");
    assert_eq!(tokens, vec![Instr::PushImmediate(1)]);
}

#[test]
fn literal_narrowing_negative_range() {
    // 32768 narrows into the negative half of the 16-bit range.
    let tokens = tokenize(b"32768 ");
    assert_eq!(tokens, vec![Instr::PushImmediate(-32768)]);
}

#[test]
fn literal_narrowing_huge_run() {
    // 10 * 2^64: far beyond any machine word, still wraps modulo 2^16.
    let tokens = tokenize(b"184467440737095516160 ");
    assert_eq!(tokens, vec![Instr::PushImmediate(0)]);
}

#[test]
fn underflow_vdrop_on_empty_stack() {
    let vm = run_program(&tokenize(b"."), FUEL);
    assert!(!vm.fault);
    assert_eq!(vm.vstack, vec![]);
}

#[test]
fn underflow_add_on_empty_stack_pushes_zero() {
    let vm = run_program(&tokenize(b"+"), FUEL);
    assert!(!vm.fault);
    assert_eq!(vm.vstack, vec![0]);
}

#[test]
fn underflow_vswap_on_empty_stack() {
    let vm = run_program(&tokenize(b"^"), FUEL);
    assert!(!vm.fault);
    assert_eq!(vm.vstack, vec![0, 0]);
}

#[test]
fn arithmetic_wraparound_add() {
    let vm = run_program(&tokenize(b"32767 1 +"), FUEL);
    assert!(!vm.fault);
    assert_eq!(vm.vstack, vec![-32768]);
}

#[test]
fn sub_pop_order_and_exact_result() {
    // The second popped value is the left operand: 5 - 3.
    let vm = run_program(&tokenize(b"5 3 -"), FUEL);
    assert_eq!(vm.vstack, vec![2]);
}

#[test]
fn sub_wraps_below_range() {
    // 0 - (-32768) would be 32768; it wraps back to -32768.
    let vm = run_program(&tokenize(b"0 32768>< -"), FUEL);
    assert_eq!(vm.vstack, vec![-32768]);
}

#[test]
fn memory_round_trip() {
    // Store 100 at address 5, drop the previous value, then exchange a
    // sentinel 200 at address 5: the stored 100 comes back, not the
    // sentinel.
    let vm = run_program(&tokenize(b"5 100 @.5 200 @"), FUEL);
    assert!(!vm.fault);
    assert_eq!(vm.vstack, vec![100]);
    assert_eq!(vm.mem[5], 200);
}

#[test]
fn memory_negative_address_wraps() {
    // Address -1 denotes word 65535.
    let vm = run_program(&tokenize(b"0 1- 7 @"), FUEL);
    assert_eq!(vm.vstack, vec![0]);
    assert_eq!(vm.mem[65535], 7);
}

#[test]
fn control_transfer_round_trip() {
    // Jump from index 2 to index 4, recover the saved pointer with
    // VpushC/CpushV, jump back to index 3, and finally run off the end.
    let tokens = tokenize(b"4>;77 99<>;");
    assert_eq!(
        tokens,
        vec![
            Instr::PushImmediate(4),
            Instr::CpushV,
            Instr::CswapIp,
            Instr::PushImmediate(77),
            Instr::PushImmediate(99),
            Instr::VpushC,
            Instr::CpushV,
            Instr::CswapIp,
        ]
    );
    let vm = run_program(&tokens, FUEL);
    assert!(!vm.fault);
    assert!(vm.halted(&tokens));
    // 99 is pushed before 77: execution continued at the jump target first
    // and only then returned to the instruction after the jump.
    assert_eq!(vm.vstack, vec![99, 77, 99]);
}

#[test]
fn jump_past_end_terminates() {
    let tokens = tokenize(b"100>;5 ");
    let vm = run_program(&tokens, FUEL);
    assert!(!vm.fault);
    assert!(vm.halted(&tokens));
    // The trailing PushImmediate(5) is never reached.
    assert_eq!(vm.vstack, vec![]);
}

#[test]
fn fatal_fault_stops_execution() {
    // 'H' is printed, then Read faults; the later Print never runs.
    let tokens = tokenize(b"72\"_73\"");
    let vm = run_program(&tokens, FUEL);
    assert!(vm.fault);
    assert_eq!(vm.output, vec![72]);
    assert_eq!(vm.vstack, vec![]);
}

#[test]
fn fatal_fault_on_bare_read() {
    let tokens = tokenize(b"_");
    let vm = run_program(&tokens, FUEL);
    assert!(vm.fault);
    assert!(vm.halted(&tokens));
    assert_eq!(vm.output, vec![]);
}

#[test]
fn print_scenario_emits_h() {
    let tokens = tokenize(b"72\"");
    let vm = run_program(&tokens, FUEL);
    assert!(!vm.fault);
    assert!(vm.halted(&tokens));
    assert_eq!(vm.output, b"H".to_vec());
}

#[test]
fn print_truncates_to_low_byte() {
    // 328 mod 256 = 72, and -72 has low byte 184.
    let vm = run_program(&tokenize(b"328\"0 72-\""), FUEL);
    assert_eq!(vm.output, vec![72, 184]);
}

#[test]
fn vdup_duplicates_top() {
    let vm = run_program(&tokenize(b"7:"), FUEL);
    assert_eq!(vm.vstack, vec![7, 7]);
}

#[test]
fn vdup_on_empty_pushes_zero() {
    let vm = run_program(&tokenize(b":"), FUEL);
    assert_eq!(vm.vstack, vec![0]);
}

#[test]
fn vswap_swaps_top_two() {
    let vm = run_program(&tokenize(b"1 2^"), FUEL);
    assert_eq!(vm.vstack, vec![2, 1]);
}

#[test]
fn vswapif_swaps_on_nonzero() {
    let vm = run_program(&tokenize(b"1 2 3?"), FUEL);
    assert_eq!(vm.vstack, vec![2, 1]);
}

#[test]
fn vswapif_leaves_stack_on_zero() {
    let vm = run_program(&tokenize(b"1 2 0?"), FUEL);
    assert_eq!(vm.vstack, vec![1, 2]);
}

#[test]
fn is_negative_on_negative_and_positive() {
    let vm = run_program(&tokenize(b"0 1-~"), FUEL);
    assert_eq!(vm.vstack, vec![1]);
    let vm2 = run_program(&tokenize(b"1~"), FUEL);
    assert_eq!(vm2.vstack, vec![0]);
}

#[test]
fn stacks_move_values_both_ways() {
    let vm = run_program(&tokenize(b"5>"), FUEL);
    assert_eq!(vm.vstack, vec![]);
    assert_eq!(vm.cstack, vec![5]);
    let vm2 = run_program(&tokenize(b"5><"), FUEL);
    assert_eq!(vm2.vstack, vec![5]);
    assert_eq!(vm2.cstack, vec![]);
}

#[test]
fn fuel_runs_out_on_endless_loop() {
    // Jump to index 0 forever: the machine neither halts nor faults within
    // the given number of steps.
    let tokens = tokenize(b"0>;");
    let vm = run_program(&tokens, 1000);
    assert!(!vm.fault);
    assert!(!vm.halted(&tokens));
}
