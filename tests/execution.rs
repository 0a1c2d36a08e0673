use olavm::assembler::{asm_relocate, encode_to_binary, handle_mem_operand, AsmError, AsmLine, OlaAsmInstruction, OlaAsmOperand};
use olavm::parser::parse_line;
use olavm::field::{field_add, field_inverse, field_mul, field_neg, field_sub, ORDER};
use olavm::hardware::{OlaRegister, OlaSpecialRegister};
use olavm::instruction::{decode_instruction, encode_instruction, BinaryInstruction, BinaryOperand, OlaOpcode};
use olavm::memory::{ECDSA_START_ADDR, PSP_START_ADDR};
use olavm::process::{Process, ProcessorError};
use olavm::program::{OlaProphet, OlaProphetInput};
use olavm::prophet::ProphetOutput;
use olavm::services::HashResult;
use olavm::storage::{gen_storage_table, storage_hash_rows, HashLayer};
use olavm::runner::{IntermediateTraceCollector, OlaRunner, ProgramError, RunStatus, StepOutcome};

fn line(text: &str) -> AsmLine {
    parse_line(text).unwrap().unwrap()
}

fn assemble(lines: &[&str]) -> Vec<BinaryInstruction> {
    let lines: Vec<AsmLine> = lines.iter().map(|l| line(l)).collect();
    let bundle = asm_relocate(lines).unwrap();
    encode_to_binary(bundle).unwrap().instructions
}

fn program_text(instrs: &[BinaryInstruction]) -> String {
    let mut out = String::new();
    for ins in instrs {
        for w in encode_instruction(ins) {
            out.push_str(&format!("{:#x}\n", w));
        }
    }
    out
}

/// Runs a program to its end; returns the runner, or the fault.
fn run(lines: &[&str]) -> Result<OlaRunner, ProcessorError> {
    let text = program_text(&assemble(lines));
    let mut runner = OlaRunner::new_from_program_file(&text).unwrap();
    loop {
        match runner.run_one_step()? {
            StepOutcome::Ended => return Ok(runner),
            _ => {}
        }
    }
}

#[test]
fn fibonacci_loop() {
    let r = run(&[
        "mov r0 8",
        "mov r1 1",
        "mov r2 1",
        "mov r3 0",
        ".LBL0_0:",
        "eq r4 r0 r3",
        "cjmp r4 .LBL0_1",
        "add r4 r1 r2",
        "mov r1 r2",
        "mov r2 r4",
        "mov r4 1",
        "add r3 r3 r4",
        "jmp .LBL0_0",
        ".LBL0_1:",
        "end",
    ])
    .unwrap();
    // eight passes of the loop: R1 ends on fib(9) and R2 on fib(10)
    assert_eq!(r.process.registers[1], 34);
    assert_eq!(r.process.registers[2], 55);
    assert_eq!(r.process.registers[3], 8);
}

#[test]
fn memory_round_trip() {
    let r = run(&["mov r0 8", "mstore [r8,0] r0", "mov r0 0", "mload r0 [r8,0]", "end"]).unwrap();
    assert_eq!(r.process.registers[0], 8);
    let table = r.process.gen_memory_table().unwrap();
    assert_eq!(table.rows.len(), 2);
    assert_eq!(table.rows[0].addr, 0);
    assert!(table.rows[0].is_write);
    assert!(!table.rows[1].is_write);
    assert_eq!(table.rows[1].value, 8);
    assert_eq!(table.rows[1].diff_clk, 2);
    assert_eq!(table.range_check.len(), 2);
    assert_eq!(table.range_check[1].value, 2);
}

#[test]
fn range_check_fault() {
    let r = run(&["mov r0 4294967296", "range r0", "end"]);
    assert!(matches!(r, Err(ProcessorError::U32RangeCheckFail)));
    let ok = run(&["mov r0 4294967295", "range r0", "end"]).unwrap();
    assert_eq!(ok.trace_collector.range_check.len(), 1);
    assert_eq!(ok.trace_collector.range_check[0].value, 4294967295);
}

#[test]
fn call_and_return() {
    let r = run(&[
        "jmp 7",
        "mul r4 r0 10",
        "add r4 r4 r1",
        "mov r0 r4",
        "ret",
        "mov r0 8",
        "mov r1 2",
        "mov r8 0x100010000",
        "add r7 r8 -2",
        "mov r6 0x100000000",
        "mstore [r7,0] r6",
        "call 2",
        "add r0 r0 r1",
        "end",
    ])
    .unwrap();
    assert_eq!(r.process.registers[0], 84);
    assert_eq!(r.process.registers[8], 0x100000000);
    // jmp, 6 setup steps, call, mul, add, mov, ret, add, end
    assert_eq!(r.trace_collector.cpu.len(), 14);
    assert_eq!(r.trace_collector.cpu.len() as u32, r.process.clk + 1);
}

#[test]
fn write_once_violation() {
    let r = run(&["mstore [psp,0] r0", "mov r0 1", "mstore [psp,0] r0", "end"]);
    assert!(matches!(r, Err(ProcessorError::WriteOnceViolation)));
    let ok = run(&["mov r0 9", "mstore [psp,2] r0", "mload r1 [psp,2]", "end"]).unwrap();
    assert_eq!(ok.process.registers[1], 9);
}

#[test]
fn assert_passes_and_fails() {
    assert!(run(&["mov r0 3", "mov r1 3", "assert r0 r1", "end"]).is_ok());
    let r = run(&["mov r0 3", "mov r1 4", "assert r0 r1", "end"]);
    assert!(matches!(r, Err(ProcessorError::AssertFail)));
}

#[test]
fn eq_records_inverse_of_difference() {
    let r = run(&["mov r0 5", "mov r1 3", "eq r2 r0 r1", "neq r3 r0 r1", "end"]).unwrap();
    assert_eq!(r.process.registers[2], 0);
    assert_eq!(r.process.registers[3], 1);
    let aux0 = r.trace_collector.cpu[2].aux0;
    assert_eq!(((aux0 as u128 * 2) % ORDER as u128) as u64, 1);
}

#[test]
fn bitwise_and_comparison_rows() {
    let r = run(&[
        "mov r0 12",
        "mov r1 10",
        "and r2 r0 r1",
        "or r3 r0 r1",
        "xor r4 r0 r1",
        "not r5 r0",
        "gte r6 r0 r1",
        "gte r7 r1 r0",
        "end",
    ])
    .unwrap();
    assert_eq!(r.process.registers[2], 8);
    assert_eq!(r.process.registers[3], 14);
    assert_eq!(r.process.registers[4], 6);
    assert_eq!(r.process.registers[5], ORDER - 1 - 12);
    assert_eq!(r.process.registers[6], 1);
    assert_eq!(r.process.registers[7], 0);
    assert_eq!(r.trace_collector.bitwise.len(), 3);
    assert_eq!(r.trace_collector.comparison.len(), 2);
    assert_eq!(r.trace_collector.range_check[0].value, 2);
    assert_eq!(r.trace_collector.range_check[1].value, 2);
}

#[test]
fn cpu_rows_carry_register_selectors() {
    let r = run(&["mov r3 5", "add r4 r3 r3", "mstore [r8,1] r4", "end"]).unwrap();
    let sel = olavm::trace::register_selectors(&r.trace_collector.cpu[1].instruction);
    assert_eq!(sel.op0, 1 << 3);
    assert_eq!(sel.op1, 1 << 3);
    assert_eq!(sel.dst, 1 << 4);
    let st = olavm::trace::register_selectors(&r.trace_collector.cpu[2].instruction);
    assert_eq!(st.op0, 1 << 8);
    assert_eq!(st.op1, 0);
    assert_eq!(st.dst, 1 << 4);
    assert_eq!(r.trace_collector.cpu[1].registers[3], 5);
    assert_eq!(r.trace_collector.cpu[1].pc, 2);
}

#[test]
fn field_arithmetic_wraps() {
    let r = run(&["mov r0 -1", "add r1 r0 2", "mul r2 r0 r0", "end"]).unwrap();
    assert_eq!(r.process.registers[0], ORDER - 1);
    assert_eq!(r.process.registers[1], 1);
    assert_eq!(r.process.registers[2], 1);
}

#[test]
fn cjmp_flag_must_be_binary() {
    let r = run(&["mov r0 2", "cjmp r0 0", "end"]);
    assert!(matches!(r, Err(ProcessorError::FlagNotBinary)));
}

#[test]
fn uninitialized_read_fails() {
    let r = run(&["mload r0 [r1,5]", "end"]);
    assert!(matches!(r, Err(ProcessorError::UninitializedRead)));
}

#[test]
fn jump_to_nowhere_fails() {
    let r = run(&["jmp 100", "end"]);
    assert!(matches!(r, Err(ProcessorError::UnresolvedPC)));
}

#[test]
fn run_after_end_fails() {
    let mut r = run(&["end"]).unwrap();
    assert!(matches!(r.run_one_step(), Err(ProcessorError::RunAfterEnded)));
}

#[test]
fn poseidon_waits_for_its_hash() {
    let instrs = assemble(&["mov r1 1", "mov r2 2", "poseidon", "end"]);
    let mut runner = OlaRunner::new_from_instruction_vec(instrs, Vec::new());
    assert_eq!(runner.run_one_step(), Ok(StepOutcome::Continue));
    assert_eq!(runner.run_one_step(), Ok(StepOutcome::Continue));
    assert_eq!(runner.run_one_step(), Ok(StepOutcome::HashDue));
    assert_eq!(runner.process.clk, 2);
    let ins = runner.program.instructions[2];
    let input = runner.process.hash_input(&ins);
    assert_eq!(input, vec![1, 2, 0, 0, 0, 0, 0, 0]);
    let res = HashResult { output: [11, 12, 13, 14], stored: None };
    assert_eq!(runner.complete_hash_step(&res), Ok(StepOutcome::Continue));
    assert_eq!(&runner.process.registers[1..5], &[11, 12, 13, 14]);
    assert_eq!(runner.hash_rows.len(), 1);
    assert_eq!(runner.hash_rows[0].output, [11, 12, 13, 14]);
    assert_eq!(runner.trace_collector.cpu.len(), 3);
    assert_eq!(runner.run_one_step(), Ok(StepOutcome::Ended));
    let bad = HashResult { output: [ORDER, 0, 0, 0], stored: None };
    let mut again = OlaRunner::new_from_instruction_vec(assemble(&["poseidon", "end"]), Vec::new());
    assert_eq!(again.run_one_step(), Ok(StepOutcome::HashDue));
    assert_eq!(again.complete_hash_step(&bad), Err(ProcessorError::FieldOverflow));
}

#[test]
fn storage_store_then_load() {
    let instrs = assemble(&[
        "mov r5 50", "mov r6 60", "mov r7 70", "mov r8 80", "sstore", "mov r1 0", "sload", "sload", "end",
    ]);
    let mut runner = OlaRunner::new_from_instruction_vec(instrs, Vec::new());
    let key = [9, 9, 9, 9];
    let other = [1, 2, 3, 4];
    let mut served = 0;
    loop {
        match runner.run_one_step().unwrap() {
            StepOutcome::Ended => break,
            StepOutcome::HashDue => {
                let res = match served {
                    0 | 1 => HashResult { output: key, stored: None },
                    _ => HashResult { output: other, stored: None },
                };
                served += 1;
                if served == 2 {
                    runner.complete_hash_step(&res).unwrap();
                    assert_eq!(&runner.process.registers[1..5], &[50, 60, 70, 80]);
                } else {
                    runner.complete_hash_step(&res).unwrap();
                }
            }
            _ => {}
        }
    }
    assert_eq!(&runner.process.registers[1..5], &[0, 0, 0, 0]);
    assert_eq!(runner.process.storage_log.len(), 3);
    let roots = vec![[1, 1, 1, 1], [2, 2, 2, 2], [3, 3, 3, 3]];
    let (rows, rc) = gen_storage_table(&runner.process.storage_log, &roots).unwrap();
    assert_eq!(rows.len(), 3);
    assert_eq!(rows[0].diff_clk, 0);
    assert_eq!(rows[1].diff_clk, 2);
    assert_eq!(rows[2].diff_clk, 1);
    assert_eq!(rows[1].root, [2, 2, 2, 2]);
    assert_eq!(rc[1].value, 2);
    assert!(gen_storage_table(&runner.process.storage_log, &vec![[0; 4]]).is_none());
}

#[test]
fn sload_falls_back_to_account_tree() {
    let mut runner = OlaRunner::new_from_instruction_vec(assemble(&["sload", "end"]), Vec::new());
    assert_eq!(runner.run_one_step(), Ok(StepOutcome::HashDue));
    let res = HashResult { output: [5, 5, 5, 5], stored: Some([7, 8, 9, 10]) };
    runner.complete_hash_step(&res).unwrap();
    assert_eq!(&runner.process.registers[1..5], &[7, 8, 9, 10]);
}

#[test]
fn storage_hash_rows_from_layers() {
    let key = [0x8000_0000_0000_0001u64, 0, 0, 1];
    let mut layers = Vec::new();
    for k in 0..256u64 {
        layers.push(HashLayer { paths: [k, 0, 0, 0], siblings: [k + 5, 1, 1, 1], output: [k, k, k, k] });
    }
    let (rows, roots) = storage_hash_rows(&vec![key], &layers).unwrap();
    assert_eq!(rows.len(), 256);
    assert_eq!(roots, vec![[255, 255, 255, 255]]);
    // layer 1 takes the top bit of key[0] and the last layer of the path
    assert_eq!(rows[0].layer, 1);
    assert_eq!(rows[0].layer_bit, 1);
    assert_eq!(rows[0].paths, [255, 0, 0, 0]);
    assert_eq!(rows[0].deltas, [5, 1, 1, 1]);
    assert_eq!(rows[1].layer_bit, 0);
    assert_eq!(rows[1].deltas, [0, 0, 0, 0]);
    assert_eq!(rows[1].addr_acc, 2);
    assert_eq!(rows[63].addr_acc, (1u64 << 63) + 1 - 0);
    assert!(rows[63].is_layer64);
    assert_eq!(rows[64].addr_acc, 0);
    assert_eq!(rows[255].layer_bit, 1);
    assert_eq!(rows[0].idx_storage, 1);
    assert!(storage_hash_rows(&vec![key], &layers[..10].to_vec()).is_none());
}

#[test]
fn bad_operand_shape() {
    let ins = BinaryInstruction {
        opcode: OlaOpcode::MOV,
        op0: None,
        op1: Some(BinaryOperand::SpecialReg {
            special_reg: OlaSpecialRegister::PC,
        }),
        dst: Some(BinaryOperand::Register {
            register: OlaRegister::R0,
        }),
    };
    let mut p = Process::new();
    assert!(matches!(p.execute_instruction(&ins), Err(ProcessorError::BadOperandShape)));
}

#[test]
fn encode_decode_round_trip() {
    let instrs = assemble(&[
        "mov r0 8",
        "add r4 r1 r2",
        "mstore [r8,-2] r0",
        "mload r3 [r7,5]",
        "mov r1 psp",
        "cjmp r4 3",
        "end",
    ]);
    for ins in &instrs {
        let words = encode_instruction(ins);
        assert!(words.len() == ins.binary_length() as usize);
        let next = if words.len() == 2 { Some(words[1]) } else { None };
        assert_eq!(decode_instruction(words[0], next), Some(*ins));
    }
    // the layout of `mov r0 8` and `add r4 r1 r2`
    assert_eq!(encode_instruction(&instrs[0]), vec![0x4000000840000000, 0x8]);
    assert_eq!(encode_instruction(&instrs[1]), vec![0x0040408400000000]);
}

#[test]
fn program_round_trip() {
    let instrs = assemble(&[
        "mov r0 8",
        "mov r8 0x100010000",
        "add r7 r8 -2",
        "mstore [r7,0] r0",
        "call 0",
        "ret",
        "end",
    ]);
    let words = olavm::program::encode_program(&instrs).unwrap();
    assert_eq!(words.len(), 12);
    assert_eq!(olavm::program::decode_program(&words), Some(instrs));
    assert_eq!(olavm::program::decode_program(&vec![0x4000000840000000]), None);
    assert_eq!(olavm::program::decode_program(&vec![0x3]), None);
}

#[test]
fn memory_operand_slots() {

    let load = OlaAsmInstruction {
        source: "mload r3 [r8,5]".to_string(),
        opcode: OlaOpcode::MLOAD,
        op0: None,
        op1: Some(OlaAsmOperand::RegisterWithFactoredRegOffset {
            register: OlaRegister::R8,
            offset_register: OlaRegister::R2,
            factor: olavm::operands::ImmediateValue::from_str("4").unwrap(),
        }),
        dst: Some(OlaAsmOperand::RegisterOperand { register: OlaRegister::R3 }),
    };
    let (op0, op1, dst) = handle_mem_operand(&load).unwrap();
    assert_eq!(op0, Some(BinaryOperand::Register { register: OlaRegister::R8 }));
    assert_eq!(
        op1,
        Some(BinaryOperand::RegisterWithFactor {
            register: OlaRegister::R2,
            factor: 4
        })
    );
    assert_eq!(dst, Some(BinaryOperand::Register { register: OlaRegister::R3 }));
    let store = assemble(&["mstore [r7,-2] r1"])[0];
    assert_eq!(store.op0, Some(BinaryOperand::Register { register: OlaRegister::R7 }));
    assert_eq!(store.op1, Some(BinaryOperand::Immediate { value: ORDER - 2 }));
    assert_eq!(store.dst, Some(BinaryOperand::Register { register: OlaRegister::R1 }));
}

#[test]
fn factored_offset_addresses_memory() {
    let mut instrs = assemble(&["mov r8 100", "mov r2 3", "mov r1 42", "mstore [r8,12] r1"]);
    let load = BinaryInstruction {
        opcode: OlaOpcode::MLOAD,
        op0: Some(BinaryOperand::Register { register: OlaRegister::R8 }),
        op1: Some(BinaryOperand::RegisterWithFactor {
            register: OlaRegister::R2,
            factor: 4,
        }),
        dst: Some(BinaryOperand::Register { register: OlaRegister::R5 }),
    };
    instrs.push(load);
    instrs.extend(assemble(&["end"]));
    let words = olavm::program::encode_program(&instrs).unwrap();
    assert_eq!(olavm::program::decode_program(&words), Some(instrs.clone()));
    let mut runner = OlaRunner::new_from_instruction_vec(instrs, Vec::new());
    while runner.run_one_step().unwrap() != StepOutcome::Ended {}
    assert_eq!(runner.process.registers[5], 42);
}

#[test]
fn relocation_shifts_labels() {
    let body = [".LBL0_0:", "mov r0 1", ".LBL0_1:", "end"];
    let plain: Vec<AsmLine> = body.iter().map(|l| line(l)).collect();
    let b1 = asm_relocate(plain).unwrap();
    let mut shifted: Vec<AsmLine> = vec![line("mov r1 7"), line("mov r2 r1")];
    shifted.extend(body.iter().map(|l| line(l)));
    let b2 = asm_relocate(shifted).unwrap();
    assert_eq!(b1.mapper_label_jmp.len(), 2);
    for (a, b) in b1.mapper_label_jmp.iter().zip(b2.mapper_label_jmp.iter()) {
        assert_eq!(a.0, b.0);
        assert_eq!(a.1 + 3, b.1);
    }
}

#[test]
fn duplicate_and_unresolved_labels() {
    let dup: Vec<AsmLine> = [".LBL0_0:", "end", ".LBL0_0:"].iter().map(|l| line(l)).collect();
    assert!(matches!(asm_relocate(dup), Err(AsmError::DuplicateLabel)));
    let missing: Vec<AsmLine> = ["jmp .LBL9_9", "end"].iter().map(|l| line(l)).collect();
    let bundle = asm_relocate(missing).unwrap();
    assert!(matches!(encode_to_binary(bundle), Err(AsmError::UnresolvedLabel)));
}

#[test]
fn execution_is_deterministic() {
    let prog = [
        "mov r0 5",
        "mov r8 100",
        "mstore [r8,1] r0",
        "mload r1 [r8,1]",
        "gte r2 r1 r0",
        "xor r3 r1 r0",
        "end",
    ];
    let a = run(&prog).unwrap();
    let b = run(&prog).unwrap();
    assert_eq!(format!("{:?}", a.trace_collector), format!("{:?}", b.trace_collector));
    assert_eq!(
        format!("{:?}", a.process.gen_memory_table().unwrap()),
        format!("{:?}", b.process.gen_memory_table().unwrap())
    );
}

#[test]
fn memory_trace_sorted_and_write_once() {
    let r = run(&[
        "mov r8 200",
        "mov r0 9",
        "mstore [r8,5] r0",
        "mstore [r8,0] r0",
        "mov r1 psp",
        "mstore [r1,0] r0",
        "mload r2 [r1,0]",
        "mload r3 [r8,5]",
        "mstore [r8,5] r2",
        "end",
    ])
    .unwrap();
    let t = r.process.gen_memory_table().unwrap();
    for i in 1..t.rows.len() {
        assert!(t.rows[i - 1].addr <= t.rows[i].addr);
        if t.rows[i - 1].addr == t.rows[i].addr {
            assert!(t.rows[i - 1].clk < t.rows[i].clk);
        }
    }
    let psp_writes = t.rows.iter().filter(|x| x.addr == PSP_START_ADDR && x.is_write).count();
    assert_eq!(psp_writes, 1);
    for rc in &t.range_check {
        assert!(rc.value < 1 << 32);
    }
    let last = t.rows.last().unwrap();
    assert!(last.region_prophet);
    assert_eq!(last.diff_addr_cond, ORDER - 1 - PSP_START_ADDR);
    let second = &t.rows[1];
    assert_eq!(second.addr, 205);
    assert_eq!(second.diff_addr, 5);
    assert_eq!(((second.diff_addr_inv as u128 * 5) % ORDER as u128) as u64, 1);
}

#[test]
fn execute_until_end() {
    let instrs = assemble(&["mov r0 2", "mul r0 r0 r0", "end"]);
    let program = olavm::program::BinaryProgram {
        instructions: instrs,
        prophets: Vec::new(),
        source: Vec::new(),
    };
    let mut p = Process::new();
    let mut trace = IntermediateTraceCollector::new();
    assert_eq!(p.execute(&program, &mut trace), Ok(RunStatus::Ended));
    assert_eq!(p.registers[0], 4);
    assert_eq!(trace.cpu.len(), 3);
    assert_eq!(p.psp, PSP_START_ADDR);
    assert_eq!(p.hp, ECDSA_START_ADDR);
}

#[test]
fn prophet_inputs_and_outputs() {
    let instrs = assemble(&["mov r1 7", "mov r8 50", "mload r2 [r1,0]", "end"]);
    let prophet = OlaProphet {
        host: 0,
        code: "%{ entry() { } %}".to_string(),
        inputs: vec![OlaProphetInput {
            anchor: "r1".to_string(),
            length: 1,
            is_ref: false,
            stored_in: "reg".to_string(),
        }],
        outputs: vec!["y".to_string()],
    };
    let mut runner = OlaRunner::new_from_instruction_vec(instrs, vec![prophet]);
    let outcome = runner.run_one_step().unwrap();
    assert_eq!(outcome, StepOutcome::ProphetDue { index: 0 });
    let inputs = runner.process.prophet_inputs(&runner.program.prophets[0]).unwrap();
    assert_eq!(inputs, vec![7]);
    let body = olavm::prophet::prophet_code_body(&runner.program.prophets[0].code).unwrap();
    assert_eq!(body, " entry() { } ");
    runner
        .process
        .apply_prophet_outputs(ProphetOutput::Multiple(vec![49, 1234]))
        .unwrap();
    assert_eq!(runner.process.hp, 1234);
    assert_eq!(runner.process.psp, PSP_START_ADDR + 1);
    assert!(matches!(
        runner.process.apply_prophet_outputs(ProphetOutput::Single(3)),
        Err(ProcessorError::ProphetReturnTypeMismatch)
    ));
    assert!(matches!(
        runner.process.apply_prophet_outputs(ProphetOutput::Multiple(vec![ORDER, 1])),
        Err(ProcessorError::FieldOverflow)
    ));
}

#[test]
fn register_and_value_text() {
    let mut p = Process::new();
    p.registers[3] = 42;
    assert_eq!(p.get_reg_index("r3"), Some(3));
    assert_eq!(p.get_reg_index("r9"), None);
    assert_eq!(p.get_reg_index("x1"), None);
    assert_eq!(
        p.get_index_value("r3"),
        Some((42, olavm::process::ImmediateOrRegName::RegName(3)))
    );
    assert_eq!(
        p.get_index_value("17"),
        Some((17, olavm::process::ImmediateOrRegName::Immediate(17)))
    );
    assert_eq!(
        p.get_index_value("psp"),
        Some((PSP_START_ADDR, olavm::process::ImmediateOrRegName::Psp))
    );
    assert_eq!(p.get_index_value("18446744069414584321"), None);
}

#[test]
fn execute_stops_at_hash_step() {
    let instrs = assemble(&["mov r1 1", "poseidon", "end"]);
    let program = olavm::program::BinaryProgram {
        instructions: instrs,
        prophets: Vec::new(),
        source: Vec::new(),
    };
    let mut p = Process::new();
    let mut trace = IntermediateTraceCollector::new();
    assert_eq!(p.execute(&program, &mut trace), Ok(RunStatus::HashDue));
    assert_eq!(p.pc, 2);
    assert_eq!(trace.cpu.len(), 1);
}

#[test]
fn clock_overflow() {
    let ins = assemble(&["mov r0 1"])[0];
    let mut p = Process::new();
    p.clk = u32::MAX;
    assert!(matches!(p.execute_instruction(&ins), Err(ProcessorError::ClockOverflow)));
}

#[test]
fn program_text_errors() {
    assert!(matches!(OlaRunner::new_from_program_file("0x12 zz"), Err(ProgramError::BadText)));
    assert!(matches!(OlaRunner::new_from_program_file("0x3"), Err(ProgramError::BadEncoding)));
    assert!(matches!(
        OlaRunner::new_from_program_file("0xffffffff00000001"),
        Err(ProgramError::BadText)
    ));
    let ok = OlaRunner::new_from_program_file("  0x4000000840000000\n0x8\n\n0x800000 ").unwrap();
    assert_eq!(ok.program.instructions.len(), 2);
}

#[test]
fn field_inverse_and_arithmetic() {
    assert_eq!(field_add(ORDER - 1, 2), 1);
    assert_eq!(field_sub(1, 2), ORDER - 1);
    assert_eq!(field_neg(0), 0);
    assert_eq!(field_mul(ORDER - 1, ORDER - 1), 1);
    assert_eq!(field_inverse(0), None);
    let inv = field_inverse(7).unwrap();
    assert_eq!(field_mul(7, inv), 1);
    assert_eq!(field_inverse(1), Some(1));
    assert_eq!(field_inverse(ORDER - 1), Some(ORDER - 1));
}
