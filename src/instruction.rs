//! Opcodes and the bit-exact encoding of binary instructions into field elements.
use vstd::prelude::*;
use crate::field::ORDER;
use crate::hardware::{OlaRegister, OlaSpecialRegister};

verus! {

#[derive(Debug, Clone, Copy, PartialEq, Eq, Structural)]
pub enum OlaOpcode {
    ADD,
    MUL,
    EQ,
    ASSERT,
    MOV,
    JMP,
    CJMP,
    CALL,
    RET,
    MLOAD,
    MSTORE,
    END,
    RC,
    AND,
    OR,
    XOR,
    NOT,
    NEQ,
    GTE,
    POSEIDON,
    SLOAD,
    SSTORE,
}

impl OlaOpcode {
    /// The bit of the opcode element that selects this opcode.
    pub open spec fn spec_bit(self) -> nat {
        match self {
            OlaOpcode::ADD => 34,
            OlaOpcode::MUL => 33,
            OlaOpcode::EQ => 32,
            OlaOpcode::ASSERT => 31,
            OlaOpcode::MOV => 30,
            OlaOpcode::JMP => 29,
            OlaOpcode::CJMP => 28,
            OlaOpcode::CALL => 27,
            OlaOpcode::RET => 26,
            OlaOpcode::MLOAD => 25,
            OlaOpcode::MSTORE => 24,
            OlaOpcode::END => 23,
            OlaOpcode::RC => 22,
            OlaOpcode::AND => 21,
            OlaOpcode::OR => 20,
            OlaOpcode::XOR => 19,
            OlaOpcode::NOT => 18,
            OlaOpcode::NEQ => 17,
            OlaOpcode::GTE => 16,
            OlaOpcode::POSEIDON => 15,
            OlaOpcode::SLOAD => 14,
            OlaOpcode::SSTORE => 13,
        }
    }

    /// The one-hot mask of this opcode, `2^bit`.
    pub open spec fn spec_mask(self) -> u64 {
        match self {
            OlaOpcode::ADD => 0x400000000,
            OlaOpcode::MUL => 0x200000000,
            OlaOpcode::EQ => 0x100000000,
            OlaOpcode::ASSERT => 0x80000000,
            OlaOpcode::MOV => 0x40000000,
            OlaOpcode::JMP => 0x20000000,
            OlaOpcode::CJMP => 0x10000000,
            OlaOpcode::CALL => 0x8000000,
            OlaOpcode::RET => 0x4000000,
            OlaOpcode::MLOAD => 0x2000000,
            OlaOpcode::MSTORE => 0x1000000,
            OlaOpcode::END => 0x800000,
            OlaOpcode::RC => 0x400000,
            OlaOpcode::AND => 0x200000,
            OlaOpcode::OR => 0x100000,
            OlaOpcode::XOR => 0x80000,
            OlaOpcode::NOT => 0x40000,
            OlaOpcode::NEQ => 0x20000,
            OlaOpcode::GTE => 0x10000,
            OlaOpcode::POSEIDON => 0x8000,
            OlaOpcode::SLOAD => 0x4000,
            OlaOpcode::SSTORE => 0x2000,
        }
    }

    pub open spec fn spec_from_mask(m: u64) -> Option<OlaOpcode> {
        if m == 0x400000000 {
            Some(OlaOpcode::ADD)
        } else if m == 0x200000000 {
            Some(OlaOpcode::MUL)
        } else if m == 0x100000000 {
            Some(OlaOpcode::EQ)
        } else if m == 0x80000000 {
            Some(OlaOpcode::ASSERT)
        } else if m == 0x40000000 {
            Some(OlaOpcode::MOV)
        } else if m == 0x20000000 {
            Some(OlaOpcode::JMP)
        } else if m == 0x10000000 {
            Some(OlaOpcode::CJMP)
        } else if m == 0x8000000 {
            Some(OlaOpcode::CALL)
        } else if m == 0x4000000 {
            Some(OlaOpcode::RET)
        } else if m == 0x2000000 {
            Some(OlaOpcode::MLOAD)
        } else if m == 0x1000000 {
            Some(OlaOpcode::MSTORE)
        } else if m == 0x800000 {
            Some(OlaOpcode::END)
        } else if m == 0x400000 {
            Some(OlaOpcode::RC)
        } else if m == 0x200000 {
            Some(OlaOpcode::AND)
        } else if m == 0x100000 {
            Some(OlaOpcode::OR)
        } else if m == 0x80000 {
            Some(OlaOpcode::XOR)
        } else if m == 0x40000 {
            Some(OlaOpcode::NOT)
        } else if m == 0x20000 {
            Some(OlaOpcode::NEQ)
        } else if m == 0x10000 {
            Some(OlaOpcode::GTE)
        } else if m == 0x8000 {
            Some(OlaOpcode::POSEIDON)
        } else if m == 0x4000 {
            Some(OlaOpcode::SLOAD)
        } else if m == 0x2000 {
            Some(OlaOpcode::SSTORE)
        } else {
            None
        }
    }

    pub fn binary_bit_shift(&self) -> (r: u64)
        ensures
            r == self.spec_bit(),
    {
        match self {
            OlaOpcode::ADD => 34,
            OlaOpcode::MUL => 33,
            OlaOpcode::EQ => 32,
            OlaOpcode::ASSERT => 31,
            OlaOpcode::MOV => 30,
            OlaOpcode::JMP => 29,
            OlaOpcode::CJMP => 28,
            OlaOpcode::CALL => 27,
            OlaOpcode::RET => 26,
            OlaOpcode::MLOAD => 25,
            OlaOpcode::MSTORE => 24,
            OlaOpcode::END => 23,
            OlaOpcode::RC => 22,
            OlaOpcode::AND => 21,
            OlaOpcode::OR => 20,
            OlaOpcode::XOR => 19,
            OlaOpcode::NOT => 18,
            OlaOpcode::NEQ => 17,
            OlaOpcode::GTE => 16,
            OlaOpcode::POSEIDON => 15,
            OlaOpcode::SLOAD => 14,
            OlaOpcode::SSTORE => 13,
        }
    }

    pub fn binary_bit_mask(&self) -> (r: u64)
        ensures
            r == self.spec_mask(),
    {
        match self {
            OlaOpcode::ADD => 0x400000000,
            OlaOpcode::MUL => 0x200000000,
            OlaOpcode::EQ => 0x100000000,
            OlaOpcode::ASSERT => 0x80000000,
            OlaOpcode::MOV => 0x40000000,
            OlaOpcode::JMP => 0x20000000,
            OlaOpcode::CJMP => 0x10000000,
            OlaOpcode::CALL => 0x8000000,
            OlaOpcode::RET => 0x4000000,
            OlaOpcode::MLOAD => 0x2000000,
            OlaOpcode::MSTORE => 0x1000000,
            OlaOpcode::END => 0x800000,
            OlaOpcode::RC => 0x400000,
            OlaOpcode::AND => 0x200000,
            OlaOpcode::OR => 0x100000,
            OlaOpcode::XOR => 0x80000,
            OlaOpcode::NOT => 0x40000,
            OlaOpcode::NEQ => 0x20000,
            OlaOpcode::GTE => 0x10000,
            OlaOpcode::POSEIDON => 0x8000,
            OlaOpcode::SLOAD => 0x4000,
            OlaOpcode::SSTORE => 0x2000,
        }
    }

    pub fn from_mask(m: u64) -> (r: Option<OlaOpcode>)
        ensures
            r == OlaOpcode::spec_from_mask(m),
    {
        match m {
            0x400000000 => Some(OlaOpcode::ADD),
            0x200000000 => Some(OlaOpcode::MUL),
            0x100000000 => Some(OlaOpcode::EQ),
            0x80000000 => Some(OlaOpcode::ASSERT),
            0x40000000 => Some(OlaOpcode::MOV),
            0x20000000 => Some(OlaOpcode::JMP),
            0x10000000 => Some(OlaOpcode::CJMP),
            0x8000000 => Some(OlaOpcode::CALL),
            0x4000000 => Some(OlaOpcode::RET),
            0x2000000 => Some(OlaOpcode::MLOAD),
            0x1000000 => Some(OlaOpcode::MSTORE),
            0x800000 => Some(OlaOpcode::END),
            0x400000 => Some(OlaOpcode::RC),
            0x200000 => Some(OlaOpcode::AND),
            0x100000 => Some(OlaOpcode::OR),
            0x80000 => Some(OlaOpcode::XOR),
            0x40000 => Some(OlaOpcode::NOT),
            0x20000 => Some(OlaOpcode::NEQ),
            0x10000 => Some(OlaOpcode::GTE),
            0x8000 => Some(OlaOpcode::POSEIDON),
            0x4000 => Some(OlaOpcode::SLOAD),
            0x2000 => Some(OlaOpcode::SSTORE),
            _ => None,
        }
    }
}

pub proof fn lemma_opcode_mask_round_trip(op: OlaOpcode)
    ensures
        OlaOpcode::spec_from_mask(op.spec_mask()) == Some(op),
        op.spec_mask() < 0x8_0000_0000,
{
}

/// The one-hot selector of a register in a nine-bit field.
pub open spec fn reg_onehot(r: OlaRegister) -> u64 {
    match r {
        OlaRegister::R0 => 1,
        OlaRegister::R1 => 2,
        OlaRegister::R2 => 4,
        OlaRegister::R3 => 8,
        OlaRegister::R4 => 16,
        OlaRegister::R5 => 32,
        OlaRegister::R6 => 64,
        OlaRegister::R7 => 128,
        OlaRegister::R8 => 256,
    }
}

pub open spec fn reg_from_onehot(f: u64) -> Option<OlaRegister> {
    if f == 1 {
        Some(OlaRegister::R0)
    } else if f == 2 {
        Some(OlaRegister::R1)
    } else if f == 4 {
        Some(OlaRegister::R2)
    } else if f == 8 {
        Some(OlaRegister::R3)
    } else if f == 16 {
        Some(OlaRegister::R4)
    } else if f == 32 {
        Some(OlaRegister::R5)
    } else if f == 64 {
        Some(OlaRegister::R6)
    } else if f == 128 {
        Some(OlaRegister::R7)
    } else if f == 256 {
        Some(OlaRegister::R8)
    } else {
        None
    }
}

fn reg_onehot_exec(r: OlaRegister) -> (f: u64)
    ensures
        f == reg_onehot(r),
{
    match r {
        OlaRegister::R0 => 1,
        OlaRegister::R1 => 2,
        OlaRegister::R2 => 4,
        OlaRegister::R3 => 8,
        OlaRegister::R4 => 16,
        OlaRegister::R5 => 32,
        OlaRegister::R6 => 64,
        OlaRegister::R7 => 128,
        OlaRegister::R8 => 256,
    }
}

fn reg_from_onehot_exec(f: u64) -> (r: Option<OlaRegister>)
    ensures
        r == reg_from_onehot(f),
{
    match f {
        1 => Some(OlaRegister::R0),
        2 => Some(OlaRegister::R1),
        4 => Some(OlaRegister::R2),
        8 => Some(OlaRegister::R3),
        16 => Some(OlaRegister::R4),
        32 => Some(OlaRegister::R5),
        64 => Some(OlaRegister::R6),
        128 => Some(OlaRegister::R7),
        256 => Some(OlaRegister::R8),
        _ => None,
    }
}

/// An operand of a binary instruction, with immediates as field elements.
#[derive(Debug, Clone, Copy, PartialEq, Eq, Structural)]
pub enum BinaryOperand {
    Register { register: OlaRegister },
    Immediate { value: u64 },
    /// `factor * register`: the offset of a memory instruction taken from a register.
    RegisterWithFactor { register: OlaRegister, factor: u64 },
    SpecialReg { special_reg: OlaSpecialRegister },
}

/// A decoded instruction: opcode and up to three operand slots.
#[derive(Debug, Clone, Copy, PartialEq, Eq, Structural)]
pub struct BinaryInstruction {
    pub opcode: OlaOpcode,
    pub op0: Option<BinaryOperand>,
    pub op1: Option<BinaryOperand>,
    pub dst: Option<BinaryOperand>,
}

/// What the op0 slot can hold: a register, or PSP (the anchor of a memory operand).
pub open spec fn is_op0_slot(o: Option<BinaryOperand>) -> bool {
    match o {
        None => true,
        Some(BinaryOperand::Register { .. }) => true,
        Some(BinaryOperand::SpecialReg { special_reg }) => special_reg == OlaSpecialRegister::PSP,
        _ => false,
    }
}

/// A slot that can hold only a register (dst).
pub open spec fn is_reg_slot(o: Option<BinaryOperand>) -> bool {
    match o {
        None => true,
        Some(BinaryOperand::Register { .. }) => true,
        _ => false,
    }
}

/// What the op1 slot can hold: a register, a canonical immediate, a register with a
/// canonical factor, or PSP.
pub open spec fn is_op1_slot(o: Option<BinaryOperand>) -> bool {
    match o {
        None => true,
        Some(BinaryOperand::Register { .. }) => true,
        Some(BinaryOperand::Immediate { value }) => value < ORDER,
        Some(BinaryOperand::RegisterWithFactor { factor, .. }) => factor < ORDER,
        Some(BinaryOperand::SpecialReg { special_reg }) => special_reg == OlaSpecialRegister::PSP,
    }
}

/// Whether op1 carries an immediate in the element that follows the opcode element.
pub open spec fn has_immediate(o: Option<BinaryOperand>) -> bool {
    match o {
        Some(BinaryOperand::Immediate { .. }) => true,
        Some(BinaryOperand::RegisterWithFactor { .. }) => true,
        _ => false,
    }
}

pub open spec fn immediate_of(o: Option<BinaryOperand>) -> u64 {
    match o {
        Some(BinaryOperand::Immediate { value }) => value,
        Some(BinaryOperand::RegisterWithFactor { factor, .. }) => factor,
        _ => 0,
    }
}

/// The one-hot register field of a slot, zero when the slot holds no register.
pub open spec fn slot_field(o: Option<BinaryOperand>) -> u64 {
    match o {
        Some(BinaryOperand::Register { register }) => reg_onehot(register),
        Some(BinaryOperand::RegisterWithFactor { register, .. }) => reg_onehot(register),
        _ => 0,
    }
}

pub open spec fn psp_flag(o: Option<BinaryOperand>) -> u64 {
    if o matches Some(BinaryOperand::SpecialReg { .. }) {
        1
    } else {
        0
    }
}

pub open spec fn imm_flag(o: Option<BinaryOperand>) -> u64 {
    if has_immediate(o) {
        1
    } else {
        0
    }
}

/// The opcode element: bit 63 marks PSP as op1, bit 62 an immediate, bits 53..61 select
/// the op0 register, bits 44..52 the op1 register, bits 35..43 the dst register, bits
/// 13..34 hold the opcode's one-hot mask, and bit 12 marks PSP as op0.
pub open spec fn pack_word(f63: u64, f62: u64, a: u64, b: u64, c: u64, d: u64) -> u64 {
    (f63 << 63u64) | (f62 << 62u64) | (a << 53u64) | (b << 44u64) | (c << 35u64) | d
}

impl BinaryInstruction {
    pub open spec fn encodable(self) -> bool {
        is_op0_slot(self.op0) && is_op1_slot(self.op1) && is_reg_slot(self.dst)
    }

    pub open spec fn spec_binary_length(self) -> nat {
        if has_immediate(self.op1) {
            2
        } else {
            1
        }
    }

    pub open spec fn opcode_word(self) -> u64 {
        pack_word(
            psp_flag(self.op1),
            imm_flag(self.op1),
            slot_field(self.op0),
            slot_field(self.op1),
            slot_field(self.dst),
            self.opcode.spec_mask() | (psp_flag(self.op0) << 12u64),
        )
    }

    /// The field elements of the instruction.
    pub open spec fn encode_spec(self) -> Seq<u64> {
        if has_immediate(self.op1) {
            seq![self.opcode_word(), immediate_of(self.op1)]
        } else {
            seq![self.opcode_word()]
        }
    }

    /// Whether the instruction has an encoding: a register or PSP in op0, a register in dst,
    /// and in op1 a
    /// register, a canonical immediate, a register with a canonical factor, or PSP.
    pub fn is_encodable(&self) -> (r: bool)
        ensures
            r == self.encodable(),
    {
        let op0_ok = match self.op0 {
            None => true,
            Some(BinaryOperand::Register { .. }) => true,
            Some(BinaryOperand::SpecialReg { special_reg }) => special_reg == OlaSpecialRegister::PSP,
            _ => false,
        };
        let dst_ok = match self.dst {
            None => true,
            Some(BinaryOperand::Register { .. }) => true,
            _ => false,
        };
        let op1_ok = match self.op1 {
            None => true,
            Some(BinaryOperand::Register { .. }) => true,
            Some(BinaryOperand::Immediate { value }) => value < ORDER,
            Some(BinaryOperand::RegisterWithFactor { factor, .. }) => factor < ORDER,
            Some(BinaryOperand::SpecialReg { special_reg }) => special_reg == OlaSpecialRegister::PSP,
        };
        op0_ok && op1_ok && dst_ok
    }

    /// Number of field elements the instruction occupies.
    pub fn binary_length(&self) -> (r: u64)
        ensures
            r == self.spec_binary_length(),
    {
        match self.op1 {
            Some(BinaryOperand::Immediate { .. }) => 2,
            Some(BinaryOperand::RegisterWithFactor { .. }) => 2,
            _ => 1,
        }
    }
}

/// Decodes a register slot field: zero is an empty slot.
pub open spec fn reg_slot_decode(f: u64) -> Option<Option<BinaryOperand>> {
    if f == 0 {
        Some(None)
    } else {
        match reg_from_onehot(f) {
            Some(r) => Some(Some(BinaryOperand::Register { register: r })),
            None => None,
        }
    }
}

/// Decodes the op1 slot from the two flags, its register field and the next element.
pub open spec fn op1_decode(f63: u64, f62: u64, b: u64, next: Option<u64>) -> Option<
    Option<BinaryOperand>,
> {
    if f63 == 1 {
        if f62 == 0 && b == 0 {
            Some(Some(BinaryOperand::SpecialReg { special_reg: OlaSpecialRegister::PSP }))
        } else {
            None
        }
    } else if f62 == 1 {
        match next {
            Some(v) => if v >= ORDER {
                None
            } else if b == 0 {
                Some(Some(BinaryOperand::Immediate { value: v }))
            } else {
                match reg_from_onehot(b) {
                    Some(r) => Some(Some(BinaryOperand::RegisterWithFactor { register: r, factor: v })),
                    None => None,
                }
            },
            None => None,
        }
    } else {
        reg_slot_decode(b)
    }
}

/// Decodes the op0 slot from its PSP flag and register field.
pub open spec fn op0_decode(f12: u64, a: u64) -> Option<Option<BinaryOperand>> {
    if f12 == 1 {
        if a == 0 {
            Some(Some(BinaryOperand::SpecialReg { special_reg: OlaSpecialRegister::PSP }))
        } else {
            None
        }
    } else {
        reg_slot_decode(a)
    }
}

proof fn lemma_opcode_field(m: u64, f: u64)
    by (bit_vector)
    requires
        m % 8192 == 0,
        m < 0x8_0000_0000,
        f <= 1,
    ensures
        (m | (f << 12u64)) & 0x7_FFFF_EFFFu64 == m,
        ((m | (f << 12u64)) >> 12u64) & 1u64 == f,
        (m | (f << 12u64)) < 0x8_0000_0000,
{
}

/// The instruction an opcode element (and, when it flags one, the immediate element
/// after it) denotes.
pub open spec fn decode_spec(w: u64, next: Option<u64>) -> Option<BinaryInstruction> {
    let f63 = w >> 63u64;
    let f62 = (w >> 62u64) & 1u64;
    let a = (w >> 53u64) & 511u64;
    let b = (w >> 44u64) & 511u64;
    let c = (w >> 35u64) & 511u64;
    let d = w & 0x7_FFFF_FFFFu64;
    match (OlaOpcode::spec_from_mask(d & 0x7_FFFF_EFFFu64), op0_decode((d >> 12u64) & 1u64, a), op1_decode(f63, f62, b, next), reg_slot_decode(c)) {
        (Some(opcode), Some(op0), Some(op1), Some(dst)) => Some(
            BinaryInstruction { opcode, op0, op1, dst },
        ),
        _ => None,
    }
}

proof fn lemma_pack_fields(f63: u64, f62: u64, a: u64, b: u64, c: u64, d: u64)
    by (bit_vector)
    requires
        f63 <= 1,
        f62 <= 1,
        f63 == 0 || f62 == 0,
        a < 512,
        b < 512,
        c < 512,
        d < 0x8_0000_0000,
    ensures
        ((f63 << 63u64) | (f62 << 62u64) | (a << 53u64) | (b << 44u64) | (c << 35u64) | d) >> 63u64
            == f63,
        (((f63 << 63u64) | (f62 << 62u64) | (a << 53u64) | (b << 44u64) | (c << 35u64) | d)
            >> 62u64) & 1u64 == f62,
        (((f63 << 63u64) | (f62 << 62u64) | (a << 53u64) | (b << 44u64) | (c << 35u64) | d)
            >> 53u64) & 511u64 == a,
        (((f63 << 63u64) | (f62 << 62u64) | (a << 53u64) | (b << 44u64) | (c << 35u64) | d)
            >> 44u64) & 511u64 == b,
        (((f63 << 63u64) | (f62 << 62u64) | (a << 53u64) | (b << 44u64) | (c << 35u64) | d)
            >> 35u64) & 511u64 == c,
        ((f63 << 63u64) | (f62 << 62u64) | (a << 53u64) | (b << 44u64) | (c << 35u64) | d)
            & 0x7_FFFF_FFFFu64 == d,
        ((f63 << 63u64) | (f62 << 62u64) | (a << 53u64) | (b << 44u64) | (c << 35u64) | d)
            < 0xFFFF_FFFF_0000_0001u64,
{
}

proof fn lemma_reg_onehot(r: OlaRegister)
    ensures
        reg_onehot(r) < 512,
        reg_onehot(r) != 0,
        reg_from_onehot(reg_onehot(r)) == Some(r),
{
}

/// Decoding the elements of an encodable instruction gives that instruction back.
pub proof fn lemma_encode_decode_round_trip(ins: BinaryInstruction)
    requires
        ins.encodable(),
    ensures
        ins.opcode_word() < ORDER,
        decode_spec(
            ins.encode_spec()[0],
            if ins.encode_spec().len() == 2 {
                Some(ins.encode_spec()[1])
            } else {
                None
            },
        ) == Some(ins),
        ins.encode_spec().len() == ins.spec_binary_length(),
{
    lemma_opcode_mask_round_trip(ins.opcode);
    if let Some(BinaryOperand::Register { register }) = ins.op0 {
        lemma_reg_onehot(register);
    }
    if let Some(BinaryOperand::Register { register }) = ins.dst {
        lemma_reg_onehot(register);
    }
    match ins.op1 {
        Some(BinaryOperand::Register { register }) => lemma_reg_onehot(register),
        Some(BinaryOperand::RegisterWithFactor { register, .. }) => lemma_reg_onehot(register),
        _ => {},
    }
    lemma_opcode_field(ins.opcode.spec_mask(), psp_flag(ins.op0));
    lemma_pack_fields(
        psp_flag(ins.op1),
        imm_flag(ins.op1),
        slot_field(ins.op0),
        slot_field(ins.op1),
        slot_field(ins.dst),
        ins.opcode.spec_mask() | (psp_flag(ins.op0) << 12u64),
    );
}

fn slot_field_exec(o: Option<BinaryOperand>) -> (f: u64)
    ensures
        f == slot_field(o),
{
    match o {
        Some(BinaryOperand::Register { register }) => reg_onehot_exec(register),
        Some(BinaryOperand::RegisterWithFactor { register, .. }) => reg_onehot_exec(register),
        _ => 0,
    }
}

/// Encodes an instruction into one field element, or two when op1 carries an immediate.
pub fn encode_instruction(ins: &BinaryInstruction) -> (r: Vec<u64>)
    requires
        ins.encodable(),
    ensures
        r@ == ins.encode_spec(),
        forall|k: int| 0 <= k < r.len() ==> r[k] < ORDER,
{
    proof {
        lemma_encode_decode_round_trip(*ins);
    }
    let f63: u64 = match ins.op1 {
        Some(BinaryOperand::SpecialReg { .. }) => 1,
        _ => 0,
    };
    let has_imm = match ins.op1 {
        Some(BinaryOperand::Immediate { .. }) => true,
        Some(BinaryOperand::RegisterWithFactor { .. }) => true,
        _ => false,
    };
    let f62: u64 = if has_imm { 1 } else { 0 };
    let a = slot_field_exec(ins.op0);
    let b = slot_field_exec(ins.op1);
    let c = slot_field_exec(ins.dst);
    let f12: u64 = match ins.op0 {
        Some(BinaryOperand::SpecialReg { .. }) => 1,
        _ => 0,
    };
    let d = ins.opcode.binary_bit_mask() | (f12 << 12u64);
    let w = (f63 << 63u64) | (f62 << 62u64) | (a << 53u64) | (b << 44u64) | (c << 35u64) | d;
    let mut r: Vec<u64> = Vec::new();
    r.push(w);
    match ins.op1 {
        Some(BinaryOperand::Immediate { value }) => r.push(value),
        Some(BinaryOperand::RegisterWithFactor { factor, .. }) => r.push(factor),
        _ => {},
    }
    assert(r@ =~= ins.encode_spec());
    r
}

fn reg_slot_decode_exec(f: u64) -> (r: Option<Option<BinaryOperand>>)
    ensures
        r == reg_slot_decode(f),
{
    if f == 0 {
        Some(None)
    } else {
        match reg_from_onehot_exec(f) {
            Some(reg) => Some(Some(BinaryOperand::Register { register: reg })),
            None => None,
        }
    }
}

fn op1_decode_exec(f63: u64, f62: u64, b: u64, next: Option<u64>) -> (r: Option<
    Option<BinaryOperand>,
>)
    ensures
        r == op1_decode(f63, f62, b, next),
{
    if f63 == 1 {
        if f62 == 0 && b == 0 {
            Some(Some(BinaryOperand::SpecialReg { special_reg: OlaSpecialRegister::PSP }))
        } else {
            None
        }
    } else if f62 == 1 {
        match next {
            Some(v) => {
                if v >= ORDER {
                    None
                } else if b == 0 {
                    Some(Some(BinaryOperand::Immediate { value: v }))
                } else {
                    match reg_from_onehot_exec(b) {
                        Some(reg) => Some(
                            Some(BinaryOperand::RegisterWithFactor { register: reg, factor: v }),
                        ),
                        None => None,
                    }
                }
            },
            None => None,
        }
    } else {
        reg_slot_decode_exec(b)
    }
}

/// Decodes an opcode element, given the element after it when there is one.
pub fn decode_instruction(w: u64, next: Option<u64>) -> (r: Option<BinaryInstruction>)
    ensures
        r == decode_spec(w, next),
        r matches Some(ins) ==> ins.encodable(),
{
    let f63 = w >> 63u64;
    let f62 = (w >> 62u64) & 1u64;
    let a = (w >> 53u64) & 511u64;
    let b = (w >> 44u64) & 511u64;
    let c = (w >> 35u64) & 511u64;
    let d = w & 0x7_FFFF_FFFFu64;
    let opcode = OlaOpcode::from_mask(d & 0x7_FFFF_EFFFu64);
    let f12 = (d >> 12u64) & 1u64;
    let op0 = if f12 == 1 {
        if a == 0 {
            Some(Some(BinaryOperand::SpecialReg { special_reg: OlaSpecialRegister::PSP }))
        } else {
            None
        }
    } else {
        reg_slot_decode_exec(a)
    };
    let op1 = op1_decode_exec(f63, f62, b, next);
    let dst = reg_slot_decode_exec(c);
    match (opcode, op0, op1, dst) {
        (Some(opcode), Some(op0), Some(op1), Some(dst)) => Some(
            BinaryInstruction { opcode, op0, op1, dst },
        ),
        _ => None,
    }
}

} // verus!
