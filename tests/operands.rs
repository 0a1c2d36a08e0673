use olavm::hardware::{OlaRegister, OlaSpecialRegister};
use olavm::operands::{ImmediateValue, OlaOperand};

#[test]
fn test_immediate_parse() {
    let overflow_upper = ImmediateValue::from_str("0xffffffff00000002");
    let err_str = "wtf".to_string();
    assert!(matches!(overflow_upper, Err(_)));
    assert!(!err_str.is_empty());
    let immediate_999 = ImmediateValue::from_str("999").unwrap();
    assert_eq!(
        immediate_999,
        ImmediateValue {
            hex: "0x3e7".to_string()
        }
    );

    let value_u64 = immediate_999.to_u64().unwrap();
    assert_eq!(value_u64, 999);

    let hex_value = ImmediateValue::from_str("0xffffffff00000000").unwrap();
    assert_eq!(
        hex_value,
        ImmediateValue {
            hex: String::from("0xffffffff00000000")
        }
    );
}

#[test]
fn test_operand_parse() {
    let oper_reg = OlaOperand::from_str("r6").unwrap();
    assert_eq!(
        oper_reg,
        OlaOperand::RegisterOperand {
            register: OlaRegister::R6
        }
    );

    let oper_reg_offset = OlaOperand::from_str("[r0,-7]").unwrap();
    assert_eq!(
        oper_reg_offset,
        OlaOperand::RegisterWithOffset {
            register: OlaRegister::R0,
            offset: ImmediateValue::from_str("-7").unwrap()
        }
    );

    let oper_imm = OlaOperand::from_str("-999").unwrap();
    assert_eq!(
        oper_imm,
        OlaOperand::ImmediateOperand {
            value: ImmediateValue::from_str("-999").unwrap()
        }
    );

    let oper_psp = OlaOperand::from_str("psp").unwrap();
    assert_eq!(
        oper_psp,
        OlaOperand::SpecialReg {
            special_reg: OlaSpecialRegister::PSP
        }
    )
}

#[test]
fn negative_immediate_is_order_minus_value() {
    let v = ImmediateValue::from_str("-2").unwrap();
    assert_eq!(v.hex, "0xfffffffeffffffff");
    assert_eq!(v.to_u64().unwrap(), 0xffff_fffe_ffff_ffff);
    let zero = ImmediateValue::from_str("-0").unwrap();
    assert_eq!(zero.hex, "0x0");
}

#[test]
fn immediate_overflow_and_garbage_rejected() {
    assert!(ImmediateValue::from_str("18446744069414584321").is_err());
    assert!(ImmediateValue::from_str("-18446744069414584321").is_err());
    assert!(ImmediateValue::from_str("18446744069414584320").is_ok());
    assert!(ImmediateValue::from_str("0x").is_err());
    assert!(ImmediateValue::from_str("12a").is_err());
    assert!(ImmediateValue::from_str("").is_err());
    let bad = ImmediateValue {
        hex: "0xzz".to_string(),
    };
    assert!(bad.to_u64().is_err());
}

#[test]
fn operand_tokens_round_trip() {
    let cases = ["r3", "[r8,0x5]", "psp", "pc", "0x2a"];
    let expected = ["r3", "[r8,0x5]", "psp", "pc", "0x2a"];
    for (i, c) in cases.iter().enumerate() {
        let op = if c.starts_with("[") {
            OlaOperand::RegisterWithOffset {
                register: OlaRegister::R8,
                offset: ImmediateValue::from_str("5").unwrap(),
            }
        } else if c.starts_with("0x") {
            OlaOperand::ImmediateOperand {
                value: ImmediateValue::from_str(c).unwrap(),
            }
        } else {
            OlaOperand::from_str(c).unwrap()
        };
        assert_eq!(op.get_asm_token(), expected[i]);
    }
    let factor = OlaOperand::RegisterWithFactor {
        register: OlaRegister::R2,
        factor: ImmediateValue::from_str("3").unwrap(),
    };
    assert_eq!(factor.get_asm_token(), "0x3*r2");
}

#[test]
fn invalid_operands_rejected() {
    assert!(OlaOperand::from_str("r9").is_err());
    assert!(OlaOperand::from_str("[r9,1]").is_err());
    assert!(OlaOperand::from_str("[r1,x]").is_err());
    assert!(OlaOperand::from_str("hello").is_err());
    assert!(OlaOperand::from_str("[r1,99999999999999999999]").is_err());
}
