//! Rows of the trace tables that execution fills.
use vstd::prelude::*;
use crate::instruction::{slot_field, BinaryInstruction, BinaryOperand};
use crate::hardware::OlaRegister;

verus! {

#[derive(Debug, Clone, Copy, PartialEq, Eq, Structural)]
pub enum RangeCheckRequester {
    Cpu,
    Memory,
    Comparison,
    Storage,
}

/// A value that the range-check table must find below 2^32.
#[derive(Debug, Clone, Copy, PartialEq, Eq, Structural)]
pub struct RangeCheckRow {
    pub value: u64,
    pub requester: RangeCheckRequester,
}

#[derive(Debug, Clone, Copy, PartialEq, Eq, Structural)]
pub struct BitwiseRow {
    pub opcode: u64,
    pub op0: u64,
    pub op1: u64,
    pub res: u64,
}

#[derive(Debug, Clone, Copy, PartialEq, Eq, Structural)]
pub struct ComparisonRow {
    pub op0: u64,
    pub op1: u64,
    pub is_gte: bool,
}

/// One executed step: the state before it and the values on the operand buses.
#[derive(Debug)]
pub struct CpuRow {
    pub clk: u32,
    pub pc: u64,
    pub psp: u64,
    pub registers: Vec<u64>,
    pub instruction: BinaryInstruction,
    pub op0: u64,
    pub op1: u64,
    pub dst: u64,
    pub aux0: u64,
    pub aux1: u64,
}

/// A CPU row with its register snapshot as a sequence.
pub struct CpuRowModel {
    pub clk: u32,
    pub pc: u64,
    pub psp: u64,
    pub registers: Seq<u64>,
    pub instruction: BinaryInstruction,
    pub op0: u64,
    pub op1: u64,
    pub dst: u64,
    pub aux0: u64,
    pub aux1: u64,
}

impl CpuRow {
    pub open spec fn view(&self) -> CpuRowModel {
        CpuRowModel {
            clk: self.clk,
            pc: self.pc,
            psp: self.psp,
            registers: self.registers@,
            instruction: self.instruction,
            op0: self.op0,
            op1: self.op1,
            dst: self.dst,
            aux0: self.aux0,
            aux1: self.aux1,
        }
    }
}

/// Which register supplied each operand bus of a CPU row, as nine-bit one-hot masks
/// (bit `i` for `ri`; zero when no register did).
#[derive(Debug, Clone, Copy, PartialEq, Eq, Structural)]
pub struct RegisterSelector {
    pub op0: u64,
    pub op1: u64,
    pub dst: u64,
}

fn onehot(r: OlaRegister) -> (m: u64)
    ensures
        m == crate::instruction::reg_onehot(r),
{
    match r {
        OlaRegister::R0 => 1,
        OlaRegister::R1 => 2,
        OlaRegister::R2 => 4,
        OlaRegister::R3 => 8,
        OlaRegister::R4 => 16,
        OlaRegister::R5 => 32,
        OlaRegister::R6 => 64,
        OlaRegister::R7 => 128,
        OlaRegister::R8 => 256,
    }
}

fn slot_mask(o: Option<BinaryOperand>) -> (m: u64)
    ensures
        m == slot_field(o),
{
    match o {
        Some(BinaryOperand::Register { register }) => onehot(register),
        Some(BinaryOperand::RegisterWithFactor { register, .. }) => onehot(register),
        _ => 0,
    }
}

/// The register selectors of an instruction: the same one-hot fields its opcode element
/// carries.
pub fn register_selectors(ins: &BinaryInstruction) -> (r: RegisterSelector)
    ensures
        r.op0 == slot_field(ins.op0),
        r.op1 == slot_field(ins.op1),
        r.dst == slot_field(ins.dst),
{
    RegisterSelector { op0: slot_mask(ins.op0), op1: slot_mask(ins.op1), dst: slot_mask(ins.dst) }
}

} // verus!
