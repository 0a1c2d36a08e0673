use olavm::assembler::{asm_relocate, encode_to_binary, AsmError, AsmLine, OlaAsmOperand};
use olavm::hardware::OlaRegister;
use olavm::instruction::{encode_instruction, OlaOpcode};
use olavm::parser::{parse_line, parse_operand_token, parse_opcode, parse_program, split_tokens};
use olavm::program::OlaProphet;
use olavm::runner::{OlaRunner, StepOutcome};

#[test]
fn tokens_split_on_whitespace() {
    let t = split_tokens("  add r4\tr1   r2 \n");
    assert_eq!(t, vec!["add", "r4", "r1", "r2"]);
    assert!(split_tokens("   ").is_empty());
}

#[test]
fn mnemonics() {
    assert_eq!(parse_opcode("mov"), Some(OlaOpcode::MOV));
    assert_eq!(parse_opcode("range"), Some(OlaOpcode::RC));
    assert_eq!(parse_opcode("sub"), None);
}

#[test]
fn operand_tokens() {
    assert!(matches!(parse_operand_token(".LBL0_1"), Ok(OlaAsmOperand::Label { .. })));
    assert!(matches!(parse_operand_token("main"), Ok(OlaAsmOperand::Identifier { .. })));
    assert!(matches!(
        parse_operand_token("r5"),
        Ok(OlaAsmOperand::RegisterOperand { register: OlaRegister::R5 })
    ));
    match parse_operand_token("0x100010000") {
        Ok(OlaAsmOperand::ImmediateOperand { value }) => assert_eq!(value.hex, "0x100010000"),
        _ => panic!("expected an immediate"),
    }
    assert!(matches!(parse_operand_token("0xffffffff00000001"), Err(AsmError::ImmediateOverflow)));
    assert!(matches!(parse_operand_token("-x"), Err(AsmError::BadOperandShape)));
    match parse_operand_token("[psp,-3]") {
        Ok(OlaAsmOperand::SpecialRegWithOffset { offset, .. }) => assert_eq!(offset.hex, "0xfffffffefffffffe"),
        _ => panic!("expected a psp operand"),
    }
    assert!(matches!(parse_operand_token("[psp,x]"), Err(AsmError::BadOperandShape)));
}

#[test]
fn lines() {
    assert!(matches!(parse_line("   "), Ok(None)));
    match parse_line("main:") {
        Ok(Some(AsmLine::Label { name })) => assert_eq!(name, "main"),
        _ => panic!("expected a label"),
    }
    match parse_line("mstore [r8,-2] r0") {
        Ok(Some(AsmLine::Instruction { instruction })) => {
            assert_eq!(instruction.opcode, OlaOpcode::MSTORE);
            assert!(matches!(instruction.op0, Some(OlaAsmOperand::RegisterWithOffset { .. })));
            assert!(matches!(instruction.op1, Some(OlaAsmOperand::RegisterOperand { .. })));
            assert!(instruction.dst.is_none());
        }
        _ => panic!("expected an instruction"),
    }
    assert!(matches!(parse_line("frob r1"), Err(AsmError::UnknownOpcode)));
    assert!(matches!(parse_line("add r1 r2"), Err(AsmError::BadOperandShape)));
}

fn run_text(src: &str) -> OlaRunner {
    let lines: Vec<String> = src.lines().map(String::from).collect();
    let asm_lines = parse_program(&lines, Vec::new()).unwrap();
    let program = encode_to_binary(asm_relocate(asm_lines).unwrap()).unwrap();
    assert_eq!(program.source.len(), program.instructions.len());
    let mut text = String::new();
    for ins in &program.instructions {
        for w in encode_instruction(ins) {
            text.push_str(&format!("{:#x}\n", w));
        }
    }
    let mut runner = OlaRunner::new_from_program_file(&text).unwrap();
    while runner.run_one_step().unwrap() != StepOutcome::Ended {}
    runner
}

#[test]
fn assembled_text_runs() {
    let src = "main:
.LBL0_0:
  add r8 r8 4
  mov r4 100
  mstore [r8,-3] r4
  mov r4 1
  mstore [r8,-2] r4
  mov r4 2
  mstore [r8,-1] r4
  mload r4 [r8,-2]
  mload r1 [r8,-1]
  mload r0 [r8,-3]
  add r4 r4 r1
  mul r4 r4 r0
  mstore [r8,-3] r4
  mload r0 [r8,-3]
  add r8 r8 -4
  end";
    let r = run_text(src);
    assert_eq!(r.process.registers[0], 300);
    assert_eq!(r.process.registers[8], 0);
    let lines: Vec<String> = src.lines().map(String::from).collect();
    let program = encode_to_binary(asm_relocate(parse_program(&lines, Vec::new()).unwrap()).unwrap()).unwrap();
    assert_eq!(program.source[0], "  add r8 r8 4");
    assert_eq!(program.source.last().unwrap(), "  end");
}

#[test]
fn prophet_marker_hosts_next_instruction() {
    let lines: Vec<String> = ["mov r1 3", ".PROPHET0_0:", "mov r2 4", "end"]
        .iter()
        .map(|s| s.to_string())
        .collect();
    let p = OlaProphet {
        host: 99,
        code: "%{ %}".to_string(),
        inputs: Vec::new(),
        outputs: Vec::new(),
    };
    let asm_lines = parse_program(&lines, vec![(".PROPHET0_0".to_string(), p)]).unwrap();
    let bundle = asm_relocate(asm_lines).unwrap();
    assert_eq!(bundle.prophets.len(), 1);
    assert_eq!(bundle.prophets[0].host, 2);
    let missing = parse_program(&lines, Vec::new());
    assert!(matches!(missing, Err(AsmError::UnresolvedLabel)));
}
