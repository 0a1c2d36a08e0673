//! The interpreter: machine state, the semantics of one step, and its execution.
use vstd::prelude::*;
use vstd::string::StrSliceExecFns;
use crate::field::{
    add_spec, checked_inverse, field_add, field_mul, field_sub, from_noncanonical_u64,
    inverse_spec, mul_spec, sub_spec, NEG_ONE, ORDER,
};
use crate::hardware::{OlaSpecialRegister, FP_REG_INDEX, NUM_GENERAL_PURPOSE_REGISTER};
use crate::instruction::{BinaryInstruction, BinaryOperand, OlaOpcode};
use crate::memory::{
    clk_bound, lookup, record, HistoryModel, MemoryCell, MemoryError, MemoryTree,
    ECDSA_START_ADDR, PSP_START_ADDR,
};
use crate::text::{digits_value, is_numeral, parse_digits, unsigned_body};
use crate::trace::{
    BitwiseRow, ComparisonRow, CpuRow, CpuRowModel, RangeCheckRequester, RangeCheckRow,
};

verus! {

/// Largest value a range check accepts, plus one.
pub const RANGE_CHECK_BOUND: u64 = 0x1_0000_0000;

#[derive(Debug, Clone, Copy, PartialEq, Eq, Structural)]
pub enum ProcessorError {
    /// `assert` found its operands different.
    AssertFail,
    /// `range` found its operand at or above 2^32.
    U32RangeCheckFail,
    /// A second write to an address of a write-once region.
    WriteOnceViolation,
    /// A read of an address that was never written.
    UninitializedRead,
    /// No instruction starts at the program counter, or the next one would lie beyond p.
    UnresolvedPC,
    /// An operand slot holds nothing, or something its opcode cannot use.
    BadOperandShape,
    /// `cjmp` found a flag other than 0 or 1.
    FlagNotBinary,
    /// A difference that needed an inverse has none.
    NotInvertible,
    /// A value handed in from outside is not a canonical field element.
    FieldOverflow,
    /// A prophet returned a single value where a list was expected.
    ProphetReturnTypeMismatch,
    /// A step was asked for after `end`.
    RunAfterEnded,
    /// The clock would pass its largest value.
    ClockOverflow,
    /// `poseidon`, `sload` and `sstore` need a Poseidon hash from outside: they are not
    /// plain steps, and run through `complete_hash_step` once the hash is supplied.
    HashServiceDue,
}

/// The machine state as mathematical values.
pub struct MachineState {
    pub clk: u32,
    pub pc: u64,
    pub registers: Seq<u64>,
    pub psp: u64,
    pub hp: u64,
    pub memory: Seq<HistoryModel>,
}

/// What one step leaves behind: the next state and the rows it adds to the traces.
pub struct StepOutput {
    pub state: MachineState,
    pub cpu: CpuRowModel,
    pub range_check: Seq<RangeCheckRow>,
    pub bitwise: Seq<BitwiseRow>,
    pub comparison: Seq<ComparisonRow>,
    pub ended: bool,
}

/// The rows one executed step adds to the traces.
#[derive(Debug)]
pub struct StepRecord {
    pub cpu: CpuRow,
    pub range_check: Vec<RangeCheckRow>,
    pub bitwise: Vec<BitwiseRow>,
    pub comparison: Vec<ComparisonRow>,
    pub ended: bool,
}

#[derive(Debug)]
pub struct Process {
    pub clk: u32,
    pub pc: u64,
    pub registers: Vec<u64>,
    pub psp: u64,
    pub hp: u64,
    pub memory: MemoryTree,
    /// Every storage access, in execution order.
    pub storage_log: Vec<StorageAccess>,
}

/// One storage access: the opcode that made it, its tree key and the value read or written.
#[derive(Debug, Clone, Copy)]
pub struct StorageAccess {
    pub clk: u32,
    pub op: u64,
    pub tree_key: [u64; 4],
    pub value: [u64; 4],
}

/// Every value in the storage log is canonical.
pub open spec fn log_canonical(log: Seq<StorageAccess>) -> bool {
    forall|i: int|
        0 <= i < log.len() ==> (#[trigger] log[i]).value[0] < ORDER && log[i].value[1] < ORDER
            && log[i].value[2] < ORDER && log[i].value[3] < ORDER
}

pub open spec fn fp_index() -> int {
    FP_REG_INDEX as int
}

/// The value an operand supplies: a register, a canonical immediate, or PSP.
pub open spec fn operand_value(s: MachineState, o: Option<BinaryOperand>) -> Option<u64> {
    match o {
        Some(BinaryOperand::Register { register }) => Some(s.registers[register.spec_index() as int]),
        Some(BinaryOperand::Immediate { value }) => if value < ORDER {
            Some(value)
        } else {
            None
        },
        Some(BinaryOperand::SpecialReg { special_reg }) => if special_reg
            == OlaSpecialRegister::PSP {
            Some(s.psp)
        } else {
            None
        },
        _ => None,
    }
}

/// The register a destination operand names.
pub open spec fn dst_reg(o: Option<BinaryOperand>) -> Option<int> {
    match o {
        Some(BinaryOperand::Register { register }) => Some(register.spec_index() as int),
        _ => None,
    }
}

/// The anchor and the offset of a memory instruction: op0 names the anchor (a register or
/// PSP), and op1 is an immediate offset or `factor * register`.
pub open spec fn mem_operand(s: MachineState, ins: BinaryInstruction) -> Option<(u64, u64)> {
    let anchor = match ins.op0 {
        Some(BinaryOperand::Register { register }) => Some(s.registers[register.spec_index() as int]),
        Some(BinaryOperand::SpecialReg { special_reg }) => if special_reg == OlaSpecialRegister::PSP {
            Some(s.psp)
        } else {
            None
        },
        _ => None,
    };
    let offset = match ins.op1 {
        Some(BinaryOperand::Immediate { value }) => if value < ORDER {
            Some(value)
        } else {
            None
        },
        Some(BinaryOperand::RegisterWithFactor { register, factor }) => if factor < ORDER {
            Some(mul_spec(s.registers[register.spec_index() as int] as int, factor as int) as u64)
        } else {
            None
        },
        _ => None,
    };
    match (anchor, offset) {
        (Some(a), Some(o)) => Some((a, o)),
        _ => None,
    }
}

pub open spec fn with_pc(s: MachineState, pc: u64) -> MachineState {
    MachineState { clk: (s.clk + 1) as u32, pc, registers: s.registers, psp: s.psp, hp: s.hp, memory: s.memory }
}

pub open spec fn with_reg(s: MachineState, d: int, v: u64) -> MachineState {
    MachineState { clk: s.clk, pc: s.pc, registers: s.registers.update(d, v), psp: s.psp, hp: s.hp, memory: s.memory }
}

pub open spec fn with_mem(s: MachineState, m: Seq<HistoryModel>) -> MachineState {
    MachineState { clk: s.clk, pc: s.pc, registers: s.registers, psp: s.psp, hp: s.hp, memory: m }
}

pub open spec fn cpu_row(
    s: MachineState,
    ins: BinaryInstruction,
    op0: u64,
    op1: u64,
    dst: u64,
    aux0: u64,
    aux1: u64,
) -> CpuRowModel {
    CpuRowModel { clk: s.clk, pc: s.pc, psp: s.psp, registers: s.registers, instruction: ins, op0, op1, dst, aux0, aux1 }
}

pub open spec fn output(
    state: MachineState,
    cpu: CpuRowModel,
    range_check: Seq<RangeCheckRow>,
    bitwise: Seq<BitwiseRow>,
    comparison: Seq<ComparisonRow>,
    ended: bool,
) -> Result<StepOutput, ProcessorError> {
    Ok(StepOutput { state, cpu, range_check, bitwise, comparison, ended })
}

/// The cell a read by the CPU records.
pub open spec fn read_cell(s: MachineState, op: OlaOpcode, v: u64) -> MemoryCell {
    MemoryCell { clk: s.clk, op: op.spec_mask(), is_write: false, filter_looked_for_main: true, value: v }
}

/// The cell a write by the CPU records.
pub open spec fn write_cell(s: MachineState, op: OlaOpcode, v: u64) -> MemoryCell {
    MemoryCell { clk: s.clk, op: op.spec_mask(), is_write: true, filter_looked_for_main: true, value: v }
}

pub open spec fn read_value(m: Seq<HistoryModel>, a: u64) -> Option<u64> {
    match lookup(m, a) {
        Some(h) => Some(h.last().value),
        None => None,
    }
}

pub open spec fn write_fails(m: Seq<HistoryModel>, a: u64) -> bool {
    a >= ECDSA_START_ADDR && lookup(m, a) is Some
}

/// Results of the two-operand arithmetic, comparison and bitwise opcodes. Bitwise results
/// are reduced mod p so that registers stay canonical.
pub open spec fn binary_op_spec(
    s: MachineState,
    ins: BinaryInstruction,
    a: u64,
    b: u64,
    d: int,
) -> Result<StepOutput, ProcessorError> {
    let next = with_pc(s, (s.pc + ins.spec_binary_length()) as u64);
    let none_rc = Seq::<RangeCheckRow>::empty();
    let none_bw = Seq::<BitwiseRow>::empty();
    let none_cmp = Seq::<ComparisonRow>::empty();
    match ins.opcode {
        OlaOpcode::ADD => {
            let r = add_spec(a as int, b as int) as u64;
            output(with_reg(next, d, r), cpu_row(s, ins, a, b, r, 0, 0), none_rc, none_bw, none_cmp, false)
        },
        OlaOpcode::MUL => {
            let r = mul_spec(a as int, b as int) as u64;
            output(with_reg(next, d, r), cpu_row(s, ins, a, b, r, 0, 0), none_rc, none_bw, none_cmp, false)
        },
        OlaOpcode::EQ | OlaOpcode::NEQ => {
            let same = a == b;
            let r: u64 = if (ins.opcode == OlaOpcode::EQ) == same { 1 } else { 0 };
            if same {
                output(with_reg(next, d, r), cpu_row(s, ins, a, b, r, 0, 0), none_rc, none_bw, none_cmp, false)
            } else {
                match inverse_spec(sub_spec(a as int, b as int)) {
                    Some(inv) => output(
                        with_reg(next, d, r),
                        cpu_row(s, ins, a, b, r, inv, 0),
                        none_rc,
                        none_bw,
                        none_cmp,
                        false,
                    ),
                    None => Err(ProcessorError::NotInvertible),
                }
            }
        },
        OlaOpcode::AND | OlaOpcode::OR | OlaOpcode::XOR => {
            let raw: u64 = if ins.opcode == OlaOpcode::AND {
                a & b
            } else if ins.opcode == OlaOpcode::OR {
                a | b
            } else {
                a ^ b
            };
            let r = (raw as int % (ORDER as int)) as u64;
            output(
                with_reg(next, d, r),
                cpu_row(s, ins, a, b, r, 0, 0),
                none_rc,
                seq![BitwiseRow { opcode: ins.opcode.spec_mask(), op0: a, op1: b, res: r }],
                none_cmp,
                false,
            )
        },
        _ => {
            // GTE
            let r: u64 = if a >= b { 1 } else { 0 };
            let diff: u64 = if a >= b { (a - b) as u64 } else { (b - a) as u64 };
            output(
                with_reg(next, d, r),
                cpu_row(s, ins, a, b, r, 0, 0),
                seq![RangeCheckRow { value: diff, requester: RangeCheckRequester::Comparison }],
                none_bw,
                seq![ComparisonRow { op0: a, op1: b, is_gte: true }],
                false,
            )
        },
    }
}

pub open spec fn is_binary_op(op: OlaOpcode) -> bool {
    op == OlaOpcode::ADD || op == OlaOpcode::MUL || op == OlaOpcode::EQ || op == OlaOpcode::NEQ
        || op == OlaOpcode::AND || op == OlaOpcode::OR || op == OlaOpcode::XOR || op == OlaOpcode::GTE
}

/// The effect of executing `ins` in state `s`.
#[verifier::opaque]
pub open spec fn step_spec(s: MachineState, ins: BinaryInstruction) -> Result<StepOutput, ProcessorError> {
    let len = ins.spec_binary_length();
    let next_pc = s.pc + len;
    let none_rc = Seq::<RangeCheckRow>::empty();
    let none_bw = Seq::<BitwiseRow>::empty();
    let none_cmp = Seq::<ComparisonRow>::empty();
    let fp = s.registers[fp_index()];
    if s.clk == u32::MAX {
        Err(ProcessorError::ClockOverflow)
    } else if ins.opcode == OlaOpcode::END {
        output(s, cpu_row(s, ins, 0, 0, 0, 0, 0), none_rc, none_bw, none_cmp, true)
    } else if ins.opcode == OlaOpcode::POSEIDON || ins.opcode == OlaOpcode::SLOAD || ins.opcode
        == OlaOpcode::SSTORE {
        Err(ProcessorError::HashServiceDue)
    } else if next_pc >= ORDER {
        Err(ProcessorError::UnresolvedPC)
    } else if is_binary_op(ins.opcode) {
        match (operand_value(s, ins.op0), operand_value(s, ins.op1), dst_reg(ins.dst)) {
            (Some(a), Some(b), Some(d)) => binary_op_spec(s, ins, a, b, d),
            _ => Err(ProcessorError::BadOperandShape),
        }
    } else {
        match ins.opcode {
            OlaOpcode::MOV | OlaOpcode::NOT => match (operand_value(s, ins.op1), dst_reg(ins.dst)) {
                (Some(v), Some(d)) => {
                    let r: u64 = if ins.opcode == OlaOpcode::MOV { v } else { (NEG_ONE - v) as u64 };
                    output(
                        with_reg(with_pc(s, next_pc as u64), d, r),
                        cpu_row(s, ins, 0, v, r, 0, 0),
                        none_rc,
                        none_bw,
                        none_cmp,
                        false,
                    )
                },
                _ => Err(ProcessorError::BadOperandShape),
            },
            OlaOpcode::ASSERT => match (operand_value(s, ins.op0), operand_value(s, ins.op1)) {
                (Some(a), Some(b)) => if a != b {
                    Err(ProcessorError::AssertFail)
                } else {
                    output(with_pc(s, next_pc as u64), cpu_row(s, ins, a, b, 0, 0, 0), none_rc, none_bw, none_cmp, false)
                },
                _ => Err(ProcessorError::BadOperandShape),
            },
            OlaOpcode::JMP => match operand_value(s, ins.op1) {
                Some(t) => output(with_pc(s, t), cpu_row(s, ins, 0, t, 0, 0, 0), none_rc, none_bw, none_cmp, false),
                None => Err(ProcessorError::BadOperandShape),
            },
            OlaOpcode::CJMP => match (operand_value(s, ins.op0), operand_value(s, ins.op1)) {
                (Some(f), Some(t)) => if f == 1 {
                    output(with_pc(s, t), cpu_row(s, ins, f, t, 0, 0, 0), none_rc, none_bw, none_cmp, false)
                } else if f == 0 {
                    output(with_pc(s, next_pc as u64), cpu_row(s, ins, f, t, 0, 0, 0), none_rc, none_bw, none_cmp, false)
                } else {
                    Err(ProcessorError::FlagNotBinary)
                },
                _ => Err(ProcessorError::BadOperandShape),
            },
            OlaOpcode::CALL => match operand_value(s, ins.op1) {
                Some(t) => {
                    let a1 = sub_spec(fp as int, 1) as u64;
                    let a2 = sub_spec(fp as int, 2) as u64;
                    match read_value(s.memory, a2) {
                        None => Err(ProcessorError::UninitializedRead),
                        Some(saved) => {
                            let m1 = record(s.memory, a2, read_cell(s, OlaOpcode::CALL, saved));
                            if write_fails(m1, a1) {
                                Err(ProcessorError::WriteOnceViolation)
                            } else {
                                let m2 = record(m1, a1, write_cell(s, OlaOpcode::CALL, next_pc as u64));
                                output(
                                    with_mem(with_pc(s, t), m2),
                                    cpu_row(s, ins, a1, t, next_pc as u64, a2, saved),
                                    none_rc,
                                    none_bw,
                                    none_cmp,
                                    false,
                                )
                            }
                        },
                    }
                },
                None => Err(ProcessorError::BadOperandShape),
            },
            OlaOpcode::RET => {
                let a1 = sub_spec(fp as int, 1) as u64;
                let a2 = sub_spec(fp as int, 2) as u64;
                match read_value(s.memory, a1) {
                    None => Err(ProcessorError::UninitializedRead),
                    Some(ret) => {
                        let m1 = record(s.memory, a1, read_cell(s, OlaOpcode::RET, ret));
                        match read_value(m1, a2) {
                            None => Err(ProcessorError::UninitializedRead),
                            Some(saved) => {
                                let m2 = record(m1, a2, read_cell(s, OlaOpcode::RET, saved));
                                output(
                                    with_reg(with_mem(with_pc(s, ret), m2), fp_index(), saved),
                                    cpu_row(s, ins, a1, 0, ret, a2, saved),
                                    none_rc,
                                    none_bw,
                                    none_cmp,
                                    false,
                                )
                            },
                        }
                    },
                }
            },
            OlaOpcode::MLOAD => match (mem_operand(s, ins), dst_reg(ins.dst)) {
                (Some((anchor, off)), Some(d)) => {
                    let addr = add_spec(anchor as int, off as int) as u64;
                    match read_value(s.memory, addr) {
                        None => Err(ProcessorError::UninitializedRead),
                        Some(v) => output(
                            with_reg(
                                with_mem(
                                    with_pc(s, next_pc as u64),
                                    record(s.memory, addr, read_cell(s, OlaOpcode::MLOAD, v)),
                                ),
                                d,
                                v,
                            ),
                            cpu_row(s, ins, anchor, off, v, 0, addr),
                            none_rc,
                            none_bw,
                            none_cmp,
                            false,
                        ),
                    }
                },
                _ => Err(ProcessorError::BadOperandShape),
            },
            OlaOpcode::MSTORE => match (mem_operand(s, ins), dst_reg(ins.dst)) {
                (Some((anchor, off)), Some(d)) => {
                    let v = s.registers[d];
                    let addr = add_spec(anchor as int, off as int) as u64;
                    if write_fails(s.memory, addr) {
                        Err(ProcessorError::WriteOnceViolation)
                    } else {
                        output(
                            with_mem(
                                with_pc(s, next_pc as u64),
                                record(s.memory, addr, write_cell(s, OlaOpcode::MSTORE, v)),
                            ),
                            cpu_row(s, ins, anchor, off, v, 0, addr),
                            none_rc,
                            none_bw,
                            none_cmp,
                            false,
                        )
                    }
                },
                _ => Err(ProcessorError::BadOperandShape),
            },
            _ => match operand_value(s, ins.op1) {
                // RC
                Some(v) => if v >= RANGE_CHECK_BOUND {
                    Err(ProcessorError::U32RangeCheckFail)
                } else {
                    output(
                        with_pc(s, next_pc as u64),
                        cpu_row(s, ins, 0, v, 0, 0, 0),
                        seq![RangeCheckRow { value: v, requester: RangeCheckRequester::Cpu }],
                        none_bw,
                        none_cmp,
                        false,
                    )
                },
                None => Err(ProcessorError::BadOperandShape),
            },
        }
    }
}

pub open spec fn all_canonical(s: Seq<u64>) -> bool {
    forall|i: int| 0 <= i < s.len() ==> #[trigger] s[i] < ORDER
}

impl Process {
    pub open spec fn model(&self) -> MachineState {
        MachineState {
            clk: self.clk,
            pc: self.pc,
            registers: self.registers@,
            psp: self.psp,
            hp: self.hp,
            memory: self.memory@,
        }
    }

    pub open spec fn wf(&self) -> bool {
        &&& self.registers@.len() == NUM_GENERAL_PURPOSE_REGISTER
        &&& all_canonical(self.registers@)
        &&& self.psp < ORDER
        &&& self.pc < ORDER
        &&& self.memory.wf()
        &&& clk_bound(self.memory@, self.clk)
        &&& log_canonical(self.storage_log@)
    }

    /// A fresh machine: registers zero, PSP at the prophet region, HP at the ecdsa region.
    pub fn new() -> (p: Process)
        ensures
            p.wf(),
            p.clk == 0,
            p.pc == 0,
            p.registers@ == Seq::new(NUM_GENERAL_PURPOSE_REGISTER as nat, |i: int| 0u64),
            p.psp == PSP_START_ADDR,
            p.hp == ECDSA_START_ADDR,
            p.memory@ == Seq::<HistoryModel>::empty(),
            p.storage_log@.len() == 0,
    {
        let mut registers: Vec<u64> = Vec::new();
        let mut i: usize = 0;
        while i < NUM_GENERAL_PURPOSE_REGISTER
            invariant
                i <= NUM_GENERAL_PURPOSE_REGISTER,
                registers@ == Seq::new(i as nat, |k: int| 0u64),
            decreases NUM_GENERAL_PURPOSE_REGISTER - i,
        {
            registers.push(0);
            i = i + 1;
            assert(registers@ =~= Seq::new(i as nat, |k: int| 0u64));
        }
        let p = Process {
            clk: 0,
            pc: 0,
            registers,
            psp: PSP_START_ADDR,
            hp: ECDSA_START_ADDR,
            memory: MemoryTree::new(),
            storage_log: Vec::new(),
        };
        p
    }

    fn operand(&self, o: Option<BinaryOperand>) -> (r: Option<u64>)
        requires
            self.wf(),
        ensures
            r == operand_value(self.model(), o),
            r matches Some(v) ==> v < ORDER,
    {
        match o {
            Some(BinaryOperand::Register { register }) => Some(self.registers[register.index()]),
            Some(BinaryOperand::Immediate { value }) => if value < ORDER {
                Some(value)
            } else {
                None
            },
            Some(BinaryOperand::SpecialReg { special_reg }) => match special_reg {
                OlaSpecialRegister::PSP => Some(self.psp),
                OlaSpecialRegister::PC => None,
            },
            _ => None,
        }
    }

    fn mem_operand(&self, ins: &BinaryInstruction) -> (r: Option<(u64, u64)>)
        requires
            self.wf(),
        ensures
            r == mem_operand(self.model(), *ins),
            r matches Some((x, y)) ==> x < ORDER && y < ORDER,
    {
        let anchor = match ins.op0 {
            Some(BinaryOperand::Register { register }) => Some(self.registers[register.index()]),
            Some(BinaryOperand::SpecialReg { special_reg }) => match special_reg {
                OlaSpecialRegister::PSP => Some(self.psp),
                OlaSpecialRegister::PC => None,
            },
            _ => None,
        };
        let offset = match ins.op1 {
            Some(BinaryOperand::Immediate { value }) => if value < ORDER {
                Some(value)
            } else {
                None
            },
            Some(BinaryOperand::RegisterWithFactor { register, factor }) => if factor < ORDER {
                Some(field_mul(self.registers[register.index()], factor))
            } else {
                None
            },
            _ => None,
        };
        match (anchor, offset) {
            (Some(a), Some(o)) => Some((a, o)),
            _ => None,
        }
    }

    fn registers_snapshot(&self) -> (r: Vec<u64>)
        ensures
            r@ == self.registers@,
    {
        let mut r: Vec<u64> = Vec::new();
        let mut i: usize = 0;
        while i < self.registers.len()
            invariant
                i <= self.registers.len(),
                r@ == self.registers@.subrange(0, i as int),
            decreases self.registers.len() - i,
        {
            r.push(self.registers[i]);
            i = i + 1;
            assert(r@ =~= self.registers@.subrange(0, i as int));
        }
        assert(r@ =~= self.registers@);
        r
    }

    pub(crate) fn row(&self, ins: &BinaryInstruction, op0: u64, op1: u64, dst: u64, aux0: u64, aux1: u64) -> (r:
        CpuRow)
        ensures
            r@ == cpu_row(self.model(), *ins, op0, op1, dst, aux0, aux1),
    {
        CpuRow {
            clk: self.clk,
            pc: self.pc,
            psp: self.psp,
            registers: self.registers_snapshot(),
            instruction: *ins,
            op0,
            op1,
            dst,
            aux0,
            aux1,
        }
    }

    fn record(cpu: CpuRow, rc: Option<RangeCheckRow>, bw: Option<BitwiseRow>, cmp: Option<ComparisonRow>, ended: bool) -> (r: StepRecord)
        ensures
            r.cpu == cpu,
            r.range_check@ == (match rc { Some(x) => seq![x], None => Seq::empty() }),
            r.bitwise@ == (match bw { Some(x) => seq![x], None => Seq::empty() }),
            r.comparison@ == (match cmp { Some(x) => seq![x], None => Seq::empty() }),
            r.ended == ended,
    {
        let mut range_check: Vec<RangeCheckRow> = Vec::new();
        let mut bitwise: Vec<BitwiseRow> = Vec::new();
        let mut comparison: Vec<ComparisonRow> = Vec::new();
        if let Some(x) = rc {
            range_check.push(x);
        }
        if let Some(x) = bw {
            bitwise.push(x);
        }
        if let Some(x) = cmp {
            comparison.push(x);
        }
        assert(range_check@ =~= (match rc { Some(x) => seq![x], None => Seq::empty() }));
        assert(bitwise@ =~= (match bw { Some(x) => seq![x], None => Seq::empty() }));
        assert(comparison@ =~= (match cmp { Some(x) => seq![x], None => Seq::empty() }));
        StepRecord { cpu, range_check, bitwise, comparison, ended }
    }

    fn set_register(&mut self, d: usize, v: u64)
        requires
            old(self).wf(),
            d < NUM_GENERAL_PURPOSE_REGISTER,
            v < ORDER,
        ensures
            final(self).wf(),
            final(self).model() == with_reg(old(self).model(), d as int, v),
    {
        self.registers[d] = v;
        assert(self.registers@ =~= old(self).registers@.update(d as int, v));
    }

    /// Moves to `pc` and the next clock cycle.
    pub(crate) fn advance(&mut self, pc: u64)
        requires
            old(self).wf(),
            pc < ORDER,
            old(self).clk < u32::MAX,
        ensures
            final(self).wf(),
            final(self).model() == with_pc(old(self).model(), pc),
            final(self).storage_log == old(self).storage_log,
    {
        self.pc = pc;
        self.clk = self.clk + 1;
    }
}

/// The two frame slots below the frame pointer are distinct canonical addresses.
pub proof fn lemma_frame_slots_distinct(fp: u64)
    requires
        fp < ORDER,
    ensures
        sub_spec(fp as int, 1) != sub_spec(fp as int, 2),
        0 <= sub_spec(fp as int, 1) < ORDER,
        0 <= sub_spec(fp as int, 2) < ORDER,
{
    let p = ORDER as int;
    if fp >= 2 {
        vstd::arithmetic::div_mod::lemma_small_mod((fp - 1) as nat, p as nat);
        vstd::arithmetic::div_mod::lemma_small_mod((fp - 2) as nat, p as nat);
    } else if fp == 1 {
        vstd::arithmetic::div_mod::lemma_small_mod(0, p as nat);
        vstd::arithmetic::div_mod::lemma_fundamental_div_mod_converse(-1, p, -1, p - 1);
    } else {
        vstd::arithmetic::div_mod::lemma_fundamental_div_mod_converse(-1, p, -1, p - 1);
        vstd::arithmetic::div_mod::lemma_fundamental_div_mod_converse(-2, p, -1, p - 2);
    }
}

fn map_memory_error(e: MemoryError) -> (r: ProcessorError)
    ensures
        e == MemoryError::WriteOnceViolation ==> r == ProcessorError::WriteOnceViolation,
        e == MemoryError::UninitializedRead ==> r == ProcessorError::UninitializedRead,
{
    match e {
        MemoryError::WriteOnceViolation => ProcessorError::WriteOnceViolation,
        MemoryError::UninitializedRead => ProcessorError::UninitializedRead,
    }
}

/// The step outcome that an executed step's result and the state after it describe.
pub open spec fn outcome_of(state: MachineState, r: Result<StepRecord, ProcessorError>) -> Result<
    StepOutput,
    ProcessorError,
> {
    match r {
        Ok(rec) => Ok(
            StepOutput {
                state,
                cpu: rec.cpu@,
                range_check: rec.range_check@,
                bitwise: rec.bitwise@,
                comparison: rec.comparison@,
                ended: rec.ended,
            },
        ),
        Err(e) => Err(e),
    }
}

impl Process {
    fn exec_binary(&mut self, ins: &BinaryInstruction, a: u64, b: u64, d: usize) -> (r: Result<
        StepRecord,
        ProcessorError,
    >)
        requires
            old(self).wf(),
            old(self).clk < u32::MAX,
            old(self).pc + ins.spec_binary_length() < ORDER,
            is_binary_op(ins.opcode),
            a < ORDER,
            b < ORDER,
            d < NUM_GENERAL_PURPOSE_REGISTER,
        ensures
            final(self).wf(),
            outcome_of(final(self).model(), r) == binary_op_spec(
                old(self).model(),
                *ins,
                a,
                b,
                d as int,
            ),
            r is Err ==> final(self).model() == old(self).model(),
    {
        let next_pc = self.pc + ins.binary_length();
        match ins.opcode {
            OlaOpcode::ADD | OlaOpcode::MUL => {
                let r = if ins.opcode == OlaOpcode::ADD {
                    field_add(a, b)
                } else {
                    field_mul(a, b)
                };
                let row = self.row(ins, a, b, r, 0, 0);
                self.advance(next_pc);
                self.set_register(d, r);
                Ok(Process::record(row, None, None, None, false))
            },
            OlaOpcode::EQ | OlaOpcode::NEQ => {
                let same = a == b;
                let r: u64 = if (ins.opcode == OlaOpcode::EQ) == same {
                    1
                } else {
                    0
                };
                let mut aux0: u64 = 0;
                if !same {
                    match checked_inverse(field_sub(a, b)) {
                        Some(inv) => {
                            aux0 = inv;
                        },
                        None => {
                            return Err(ProcessorError::NotInvertible);
                        },
                    }
                }
                let row = self.row(ins, a, b, r, aux0, 0);
                self.advance(next_pc);
                self.set_register(d, r);
                Ok(Process::record(row, None, None, None, false))
            },
            OlaOpcode::AND | OlaOpcode::OR | OlaOpcode::XOR => {
                let raw: u64 = if ins.opcode == OlaOpcode::AND {
                    a & b
                } else if ins.opcode == OlaOpcode::OR {
                    a | b
                } else {
                    a ^ b
                };
                let r = from_noncanonical_u64(raw);
                let row = self.row(ins, a, b, r, 0, 0);
                let bw = BitwiseRow { opcode: ins.opcode.binary_bit_mask(), op0: a, op1: b, res: r };
                self.advance(next_pc);
                self.set_register(d, r);
                Ok(Process::record(row, None, Some(bw), None, false))
            },
            _ => {
                let r: u64 = if a >= b {
                    1
                } else {
                    0
                };
                let diff: u64 = if a >= b {
                    a - b
                } else {
                    b - a
                };
                let row = self.row(ins, a, b, r, 0, 0);
                let rc = RangeCheckRow { value: diff, requester: RangeCheckRequester::Comparison };
                let cmp = ComparisonRow { op0: a, op1: b, is_gte: true };
                self.advance(next_pc);
                self.set_register(d, r);
                Ok(Process::record(row, Some(rc), None, Some(cmp), false))
            },
        }
    }
}

impl Process {
    #[verifier::rlimit(40)]
    fn exec_call(&mut self, ins: &BinaryInstruction, t: u64, ret: u64) -> (r: Result<
        StepRecord,
        ProcessorError,
    >)
        requires
            old(self).wf(),
            old(self).clk < u32::MAX,
            ins.opcode == OlaOpcode::CALL,
            operand_value(old(self).model(), ins.op1) == Some(t),
            t < ORDER,
            ret == old(self).pc + ins.spec_binary_length(),
            ret < ORDER,
        ensures
            final(self).wf(),
            outcome_of(final(self).model(), r) == step_spec(old(self).model(), *ins),
            r is Err ==> final(self).model() == old(self).model(),
    {
        reveal(step_spec);
        let fp = self.registers[FP_REG_INDEX];
        let a1 = field_sub(fp, 1);
        let a2 = field_sub(fp, 2);
        let ghost m0 = self.memory@;
        proof {
            lemma_frame_slots_distinct(fp);
        }
        // check both accesses before recording either, so that a fault changes nothing
        let peek = match self.memory.value_at(a2) {
            Some(v) => v,
            None => {
                return Err(ProcessorError::UninitializedRead);
            },
        };
        proof {
            let c = read_cell(self.model(), OlaOpcode::CALL, peek);
            crate::memory::lemma_pos_of_bounds(m0, a2);
            assert(crate::memory::history_wf(m0[crate::memory::pos_of(m0, a2) - 1].0, m0[crate::memory::pos_of(m0, a2) - 1].1));
            crate::memory::lemma_record_wf(m0, a2, c, self.clk);
            crate::memory::lemma_record_other(m0, a2, c, a1);
        }
        if a1 >= ECDSA_START_ADDR && self.memory.value_at(a1).is_some() {
            return Err(ProcessorError::WriteOnceViolation);
        }
        let saved = match self.memory.read(a2, self.clk, OlaOpcode::CALL.binary_bit_mask(), true) {
            Ok(v) => v,
            Err(e) => {
                return Err(map_memory_error(e));
            },
        };
        let row = self.row(ins, a1, t, ret, a2, saved);
        match self.memory.write(a1, self.clk, OlaOpcode::CALL.binary_bit_mask(), true, ret) {
            Ok(()) => {},
            Err(e) => {
                return Err(map_memory_error(e));
            },
        }
        self.advance(t);
        Ok(Process::record(row, None, None, None, false))
    }

    #[verifier::rlimit(60)]
    fn exec_ret(&mut self, ins: &BinaryInstruction) -> (r: Result<StepRecord, ProcessorError>)
        requires
            old(self).wf(),
            old(self).clk < u32::MAX,
            ins.opcode == OlaOpcode::RET,
            old(self).pc + ins.spec_binary_length() < ORDER,
        ensures
            final(self).wf(),
            outcome_of(final(self).model(), r) == step_spec(old(self).model(), *ins),
            r is Err ==> final(self).model() == old(self).model(),
    {
        reveal(step_spec);
        let fp = self.registers[FP_REG_INDEX];
        let a1 = field_sub(fp, 1);
        let a2 = field_sub(fp, 2);
        let ghost m0 = self.memory@;
        proof {
            lemma_frame_slots_distinct(fp);
        }
        // check both reads before recording either, so that a fault changes nothing
        let peek = match self.memory.value_at(a1) {
            Some(v) => v,
            None => {
                return Err(ProcessorError::UninitializedRead);
            },
        };
        proof {
            let c = read_cell(self.model(), OlaOpcode::RET, peek);
            crate::memory::lemma_pos_of_bounds(m0, a1);
            assert(crate::memory::history_wf(m0[crate::memory::pos_of(m0, a1) - 1].0, m0[crate::memory::pos_of(m0, a1) - 1].1));
            crate::memory::lemma_record_wf(m0, a1, c, self.clk);
            crate::memory::lemma_record_other(m0, a1, c, a2);
        }
        if self.memory.value_at(a2).is_none() {
            return Err(ProcessorError::UninitializedRead);
        }
        let ret = match self.memory.read(a1, self.clk, OlaOpcode::RET.binary_bit_mask(), true) {
            Ok(v) => v,
            Err(e) => {
                return Err(map_memory_error(e));
            },
        };
        proof {
            assert(lookup(m0, a1) is Some);
            let h = lookup(m0, a1).unwrap();
            crate::memory::lemma_pos_of_bounds(m0, a1);
            assert(crate::memory::history_wf(m0[crate::memory::pos_of(m0, a1) - 1].0, h));
            assert(h[h.len() - 1].value < ORDER);
        }
        let saved = match self.memory.read(a2, self.clk, OlaOpcode::RET.binary_bit_mask(), true) {
            Ok(v) => v,
            Err(e) => {
                return Err(map_memory_error(e));
            },
        };
        proof {
            let m1 = record(m0, a1, read_cell(old(self).model(), OlaOpcode::RET, ret));
            assert(lookup(m1, a2) is Some);
            let h = lookup(m1, a2).unwrap();
            crate::memory::lemma_pos_of_bounds(m1, a2);
            assert(crate::memory::history_wf(m1[crate::memory::pos_of(m1, a2) - 1].0, h));
            assert(h[h.len() - 1].value < ORDER);
        }
        let ghost before = self.model();
        let row = CpuRow {
            clk: self.clk,
            pc: self.pc,
            psp: self.psp,
            registers: self.registers_snapshot(),
            instruction: *ins,
            op0: a1,
            op1: 0,
            dst: ret,
            aux0: a2,
            aux1: saved,
        };
        self.advance(ret);
        self.set_register(FP_REG_INDEX, saved);
        Ok(Process::record(row, None, None, None, false))
    }

    fn exec_binary_op(&mut self, ins: &BinaryInstruction) -> (r: Result<StepRecord, ProcessorError>)
        requires
            old(self).wf(),
            old(self).clk < u32::MAX,
            is_binary_op(ins.opcode),
            old(self).pc + ins.spec_binary_length() < ORDER,
        ensures
            final(self).wf(),
            outcome_of(final(self).model(), r) == step_spec(old(self).model(), *ins),
            r is Err ==> final(self).model() == old(self).model(),
    {
        reveal(step_spec);
        let a = self.operand(ins.op0);
        let b = self.operand(ins.op1);
        match (a, b, ins.dst) {
            (Some(a), Some(b), Some(BinaryOperand::Register { register })) => {
                self.exec_binary(ins, a, b, register.index())
            },
            _ => Err(ProcessorError::BadOperandShape),
        }
    }

    fn exec_move(&mut self, ins: &BinaryInstruction) -> (r: Result<StepRecord, ProcessorError>)
        requires
            old(self).wf(),
            old(self).clk < u32::MAX,
            ins.opcode == OlaOpcode::MOV || ins.opcode == OlaOpcode::NOT,
            old(self).pc + ins.spec_binary_length() < ORDER,
        ensures
            final(self).wf(),
            outcome_of(final(self).model(), r) == step_spec(old(self).model(), *ins),
            r is Err ==> final(self).model() == old(self).model(),
    {
        reveal(step_spec);
        let next_pc = self.pc + ins.binary_length();
        let v = self.operand(ins.op1);
        match (v, ins.dst) {
            (Some(v), Some(BinaryOperand::Register { register })) => {
                let r = if ins.opcode == OlaOpcode::MOV {
                    v
                } else {
                    NEG_ONE - v
                };
                let row = self.row(ins, 0, v, r, 0, 0);
                self.advance(next_pc);
                self.set_register(register.index(), r);
                Ok(Process::record(row, None, None, None, false))
            },
            _ => Err(ProcessorError::BadOperandShape),
        }
    }

    fn exec_control(&mut self, ins: &BinaryInstruction) -> (r: Result<StepRecord, ProcessorError>)
        requires
            old(self).wf(),
            old(self).clk < u32::MAX,
            ins.opcode == OlaOpcode::ASSERT || ins.opcode == OlaOpcode::JMP || ins.opcode
                == OlaOpcode::CJMP,
            old(self).pc + ins.spec_binary_length() < ORDER,
        ensures
            final(self).wf(),
            outcome_of(final(self).model(), r) == step_spec(old(self).model(), *ins),
            r is Err ==> final(self).model() == old(self).model(),
    {
        reveal(step_spec);
        let next_pc = self.pc + ins.binary_length();
        match ins.opcode {
            OlaOpcode::ASSERT => match (self.operand(ins.op0), self.operand(ins.op1)) {
                (Some(a), Some(b)) => {
                    if a != b {
                        Err(ProcessorError::AssertFail)
                    } else {
                        let row = self.row(ins, a, b, 0, 0, 0);
                        self.advance(next_pc);
                        Ok(Process::record(row, None, None, None, false))
                    }
                },
                _ => Err(ProcessorError::BadOperandShape),
            },
            OlaOpcode::JMP => match self.operand(ins.op1) {
                Some(t) => {
                    let row = self.row(ins, 0, t, 0, 0, 0);
                    self.advance(t);
                    Ok(Process::record(row, None, None, None, false))
                },
                None => Err(ProcessorError::BadOperandShape),
            },
            _ => match (self.operand(ins.op0), self.operand(ins.op1)) {
                (Some(f), Some(t)) => {
                    if f == 1 {
                        let row = self.row(ins, f, t, 0, 0, 0);
                        self.advance(t);
                        Ok(Process::record(row, None, None, None, false))
                    } else if f == 0 {
                        let row = self.row(ins, f, t, 0, 0, 0);
                        self.advance(next_pc);
                        Ok(Process::record(row, None, None, None, false))
                    } else {
                        Err(ProcessorError::FlagNotBinary)
                    }
                },
                _ => Err(ProcessorError::BadOperandShape),
            },
        }
    }

    #[verifier::rlimit(60)]
    fn exec_mload(&mut self, ins: &BinaryInstruction) -> (r: Result<StepRecord, ProcessorError>)
        requires
            old(self).wf(),
            old(self).clk < u32::MAX,
            ins.opcode == OlaOpcode::MLOAD,
            old(self).pc + ins.spec_binary_length() < ORDER,
        ensures
            final(self).wf(),
            outcome_of(final(self).model(), r) == step_spec(old(self).model(), *ins),
            r is Err ==> final(self).model() == old(self).model(),
    {
        reveal(step_spec);
        let next_pc = self.pc + ins.binary_length();
        match (self.mem_operand(ins), ins.dst) {
            (Some((anchor, off)), Some(BinaryOperand::Register { register })) => {
                let addr = field_add(anchor, off);
                let ghost m0 = self.memory@;
                let v = match self.memory.read(addr, self.clk, OlaOpcode::MLOAD.binary_bit_mask(), true) {
                    Ok(v) => v,
                    Err(e) => {
                        return Err(map_memory_error(e));
                    },
                };
                proof {
                    let h = lookup(m0, addr).unwrap();
                    crate::memory::lemma_pos_of_bounds(m0, addr);
                    assert(crate::memory::history_wf(m0[crate::memory::pos_of(m0, addr) - 1].0, h));
                    assert(h[h.len() - 1].value < ORDER);
                }
                let row = CpuRow {
                    clk: self.clk,
                    pc: self.pc,
                    psp: self.psp,
                    registers: self.registers_snapshot(),
                    instruction: *ins,
                    op0: anchor,
                    op1: off,
                    dst: v,
                    aux0: 0,
                    aux1: addr,
                };
                self.advance(next_pc);
                self.set_register(register.index(), v);
                Ok(Process::record(row, None, None, None, false))
            },
            _ => Err(ProcessorError::BadOperandShape),
        }
    }

    #[verifier::rlimit(60)]
    fn exec_mstore(&mut self, ins: &BinaryInstruction) -> (r: Result<StepRecord, ProcessorError>)
        requires
            old(self).wf(),
            old(self).clk < u32::MAX,
            ins.opcode == OlaOpcode::MSTORE,
            old(self).pc + ins.spec_binary_length() < ORDER,
        ensures
            final(self).wf(),
            outcome_of(final(self).model(), r) == step_spec(old(self).model(), *ins),
            r is Err ==> final(self).model() == old(self).model(),
    {
        reveal(step_spec);
        let next_pc = self.pc + ins.binary_length();
        match (self.mem_operand(ins), ins.dst) {
            (Some((anchor, off)), Some(BinaryOperand::Register { register })) => {
                let v = self.registers[register.index()];
                let addr = field_add(anchor, off);
                let row = self.row(ins, anchor, off, v, 0, addr);
                match self.memory.write(addr, self.clk, OlaOpcode::MSTORE.binary_bit_mask(), true, v) {
                    Ok(()) => {},
                    Err(e) => {
                        return Err(map_memory_error(e));
                    },
                }
                self.advance(next_pc);
                Ok(Process::record(row, None, None, None, false))
            },
            _ => Err(ProcessorError::BadOperandShape),
        }
    }

    fn exec_range(&mut self, ins: &BinaryInstruction) -> (r: Result<StepRecord, ProcessorError>)
        requires
            old(self).wf(),
            old(self).clk < u32::MAX,
            ins.opcode == OlaOpcode::RC,
            old(self).pc + ins.spec_binary_length() < ORDER,
        ensures
            final(self).wf(),
            outcome_of(final(self).model(), r) == step_spec(old(self).model(), *ins),
            r is Err ==> final(self).model() == old(self).model(),
    {
        reveal(step_spec);
        let next_pc = self.pc + ins.binary_length();
        match self.operand(ins.op1) {
            Some(v) => {
                if v >= RANGE_CHECK_BOUND {
                    Err(ProcessorError::U32RangeCheckFail)
                } else {
                    let row = self.row(ins, 0, v, 0, 0, 0);
                    let rc = RangeCheckRow { value: v, requester: RangeCheckRequester::Cpu };
                    self.advance(next_pc);
                    Ok(Process::record(row, Some(rc), None, None, false))
                }
            },
            None => Err(ProcessorError::BadOperandShape),
        }
    }

    /// Executes one instruction: checks its operands, updates registers, PC, clock and
    /// memory, and returns the rows it adds to the traces.
    pub fn execute_instruction(&mut self, ins: &BinaryInstruction) -> (r: Result<
        StepRecord,
        ProcessorError,
    >)
        requires
            old(self).wf(),
        ensures
            final(self).wf(),
            outcome_of(final(self).model(), r) == step_spec(old(self).model(), *ins),
            r is Err ==> final(self).model() == old(self).model(),
    {
        reveal(step_spec);
        if self.clk == u32::MAX {
            return Err(ProcessorError::ClockOverflow);
        }
        match ins.opcode {
            OlaOpcode::END => {
                let row = self.row(ins, 0, 0, 0, 0, 0);
                return Ok(Process::record(row, None, None, None, true));
            },
            OlaOpcode::POSEIDON | OlaOpcode::SLOAD | OlaOpcode::SSTORE => {
                return Err(ProcessorError::HashServiceDue);
            },
            _ => {},
        }
        let len = ins.binary_length();
        if self.pc >= ORDER - len {
            return Err(ProcessorError::UnresolvedPC);
        }
        match ins.opcode {
            OlaOpcode::ADD | OlaOpcode::MUL | OlaOpcode::EQ | OlaOpcode::NEQ | OlaOpcode::AND
            | OlaOpcode::OR | OlaOpcode::XOR | OlaOpcode::GTE => self.exec_binary_op(ins),
            OlaOpcode::MOV | OlaOpcode::NOT => self.exec_move(ins),
            OlaOpcode::ASSERT | OlaOpcode::JMP | OlaOpcode::CJMP => self.exec_control(ins),
            OlaOpcode::CALL => match self.operand(ins.op1) {
                Some(t) => self.exec_call(ins, t, self.pc + len),
                None => Err(ProcessorError::BadOperandShape),
            },
            OlaOpcode::RET => self.exec_ret(ins),
            OlaOpcode::MLOAD => self.exec_mload(ins),
            OlaOpcode::MSTORE => self.exec_mstore(ins),
            _ => self.exec_range(ins),
        }
    }
}

/// Where an operand written in text takes its value from.
#[derive(Debug, Clone, Copy, PartialEq, Eq, Structural)]
pub enum ImmediateOrRegName {
    Immediate(u64),
    RegName(usize),
    Psp,
}

/// The register index that `r` followed by a decimal numeral names, if below nine.
pub open spec fn reg_index_spec(s: Seq<char>) -> Option<usize> {
    let digits = s.subrange(1, s.len() as int);
    if s.len() >= 2 && s[0] == 'r' && is_numeral(digits, 10) && digits_value(digits, 10) < 9 {
        Some(digits_value(digits, 10) as usize)
    } else {
        None
    }
}

/// The value an operand text supplies: a decimal immediate, a register, or `psp`.
pub open spec fn index_value_spec(s: MachineState, t: Seq<char>) -> Option<(u64, ImmediateOrRegName)> {
    let body = unsigned_body(t);
    if is_numeral(body, 10) && digits_value(body, 10) < 0x1_0000_0000_0000_0000int {
        let v = digits_value(body, 10);
        if v < ORDER {
            Some((v as u64, ImmediateOrRegName::Immediate(v as u64)))
        } else {
            None
        }
    } else {
        match reg_index_spec(t) {
            Some(i) => Some((s.registers[i as int], ImmediateOrRegName::RegName(i))),
            None => if t == seq!['p', 's', 'p'] {
                Some((s.psp, ImmediateOrRegName::Psp))
            } else {
                None
            },
        }
    }
}

impl Process {
    /// The index of the register `reg_str` names (`r0` .. `r8`).
    pub fn get_reg_index(&self, reg_str: &str) -> (r: Option<usize>)
        ensures
            r == reg_index_spec(reg_str@),
    {
        let n = reg_str.unicode_len();
        if n < 2 || reg_str.get_char(0) != 'r' {
            return None;
        }
        match parse_digits(reg_str, 1, 10, 9) {
            Some(v) => Some(v as usize),
            None => None,
        }
    }

    /// The value an operand text supplies and where it comes from.
    pub fn get_index_value(&self, op_str: &str) -> (r: Option<(u64, ImmediateOrRegName)>)
        requires
            self.wf(),
        ensures
            r == index_value_spec(self.model(), op_str@),
    {
        let n = op_str.unicode_len();
        let from: usize = if n > 0 && op_str.get_char(0) == '+' {
            1
        } else {
            0
        };
        assert(unsigned_body(op_str@) == op_str@.subrange(from as int, n as int)) by {
            if from == 0 {
                assert(op_str@.subrange(0, n as int) =~= op_str@);
            }
        }
        match parse_digits(op_str, from, 10, 0x1_0000_0000_0000_0000u128) {
            Some(v) => {
                if v < ORDER {
                    Some((v, ImmediateOrRegName::Immediate(v)))
                } else {
                    None
                }
            },
            None => match self.get_reg_index(op_str) {
                Some(i) => Some((self.registers[i], ImmediateOrRegName::RegName(i))),
                None => {
                    if n == 3 && op_str.get_char(0) == 'p' && op_str.get_char(1) == 's' && op_str.get_char(2) == 'p' {
                        assert(op_str@ =~= seq!['p', 's', 'p']);
                        Some((self.psp, ImmediateOrRegName::Psp))
                    } else {
                        assert(op_str@ != seq!['p', 's', 'p']) by {
                            if op_str@ == seq!['p', 's', 'p'] {
                                assert(op_str@[0] == 'p' && op_str@[1] == 's' && op_str@[2] == 'p');
                            }
                        }
                        None
                    }
                },
            },
        }
    }
}

} // verus!
