//! Assembly instructions, the relocator that resolves their labels to program counters,
//! and the encoder that turns them into binary instructions.
use vstd::prelude::*;
use vstd::string::StrSliceExecFns;
use crate::field::ORDER;
use crate::hardware::{OlaRegister, OlaSpecialRegister};
use crate::instruction::{BinaryInstruction, BinaryOperand, OlaOpcode};
use crate::operands::{hex_text_value, ImmediateValue};
use crate::program::{BinaryProgram, OlaProphet};

verus! {

#[derive(Debug, Clone, Copy, PartialEq, Eq, Structural)]
pub enum AsmError {
    /// An operand does not have the shape its opcode and position need.
    BadOperandShape,
    /// An immediate is not a canonical field element.
    ImmediateOverflow,
    /// A label or identifier that no line defines.
    UnresolvedLabel,
    /// A label defined twice.
    DuplicateLabel,
    /// A mnemonic that names no opcode.
    UnknownOpcode,
}

#[derive(Debug)]
pub enum OlaAsmOperand {
    ImmediateOperand { value: ImmediateValue },
    RegisterOperand { register: OlaRegister },
    RegisterWithOffset { register: OlaRegister, offset: ImmediateValue },
    RegisterWithFactoredRegOffset {
        register: OlaRegister,
        offset_register: OlaRegister,
        factor: ImmediateValue,
    },
    SpecialReg { special_reg: OlaSpecialRegister },
    /// `[psp, offset]`: a memory operand anchored at a special register.
    SpecialRegWithOffset { special_reg: OlaSpecialRegister, offset: ImmediateValue },
    /// A jump target.
    Label { value: String },
    /// A call target.
    Identifier { value: String },
}

#[derive(Debug)]
pub struct OlaAsmInstruction {
    /// The source line.
    pub source: String,
    pub opcode: OlaOpcode,
    pub op0: Option<OlaAsmOperand>,
    pub op1: Option<OlaAsmOperand>,
    pub dst: Option<OlaAsmOperand>,
}

/// Instructions with their labels resolved: call identifiers and jump labels map to
/// program counters, and prophets are keyed by their host program counter.
#[derive(Debug)]
pub struct RelocatedAsmBundle {
    pub instructions: Vec<OlaAsmInstruction>,
    pub mapper_label_call: Vec<(String, u64)>,
    pub mapper_label_jmp: Vec<(String, u64)>,
    pub prophets: Vec<OlaProphet>,
}

pub type LabelMap = Seq<(Seq<char>, u64)>;

/// The program counter the first entry named `name` maps to.
pub open spec fn lookup_label(m: LabelMap, name: Seq<char>) -> Option<u64>
    decreases m.len(),
{
    if m.len() == 0 {
        None
    } else if m[0].0 == name {
        Some(m[0].1)
    } else {
        lookup_label(m.subrange(1, m.len() as int), name)
    }
}

pub open spec fn label_map_view(v: Seq<(String, u64)>) -> LabelMap {
    v.map_values(|e: (String, u64)| (e.0@, e.1))
}

/// An immediate as a canonical field element.
pub open spec fn immediate_spec(v: ImmediateValue) -> Result<u64, AsmError> {
    match hex_text_value(v.hex@) {
        Some(x) => if x < ORDER {
            Ok(x)
        } else {
            Err(AsmError::ImmediateOverflow)
        },
        None => Err(AsmError::ImmediateOverflow),
    }
}

/// The binary form of an operand outside memory instructions: labels and identifiers
/// become the immediates of their program counters.
pub open spec fn operand_spec(op: Option<OlaAsmOperand>, call: LabelMap, jmp: LabelMap) -> Result<
    Option<BinaryOperand>,
    AsmError,
> {
    match op {
        None => Ok(None),
        Some(OlaAsmOperand::ImmediateOperand { value }) => match immediate_spec(value) {
            Ok(x) => Ok(Some(BinaryOperand::Immediate { value: x })),
            Err(e) => Err(e),
        },
        Some(OlaAsmOperand::RegisterOperand { register }) => Ok(Some(BinaryOperand::Register { register })),
        Some(OlaAsmOperand::SpecialReg { special_reg }) => Ok(Some(BinaryOperand::SpecialReg { special_reg })),
        Some(OlaAsmOperand::Label { value }) => match lookup_label(jmp, value@) {
            Some(pc) => if pc < ORDER {
                Ok(Some(BinaryOperand::Immediate { value: pc }))
            } else {
                Err(AsmError::ImmediateOverflow)
            },
            None => Err(AsmError::UnresolvedLabel),
        },
        Some(OlaAsmOperand::Identifier { value }) => match lookup_label(call, value@) {
            Some(pc) => if pc < ORDER {
                Ok(Some(BinaryOperand::Immediate { value: pc }))
            } else {
                Err(AsmError::ImmediateOverflow)
            },
            None => Err(AsmError::UnresolvedLabel),
        },
        _ => Err(AsmError::BadOperandShape),
    }
}

/// The anchor and offset slots of a memory operand: `[r, off]` gives the anchor register
/// and an immediate offset, `[psp, off]` the special register and the offset, and
/// `[r, factor * ro]` the anchor register and the factored offset register.
pub open spec fn mem_address_spec(op: Option<OlaAsmOperand>) -> Result<(BinaryOperand, BinaryOperand), AsmError> {
    match op {
        Some(OlaAsmOperand::RegisterWithOffset { register, offset }) => match immediate_spec(offset) {
            Ok(x) => Ok((BinaryOperand::Register { register }, BinaryOperand::Immediate { value: x })),
            Err(e) => Err(e),
        },
        Some(OlaAsmOperand::SpecialRegWithOffset { special_reg, offset }) => match immediate_spec(offset) {
            Ok(x) => Ok((BinaryOperand::SpecialReg { special_reg }, BinaryOperand::Immediate { value: x })),
            Err(e) => Err(e),
        },
        Some(OlaAsmOperand::RegisterWithFactoredRegOffset { register, offset_register, factor }) => match immediate_spec(factor) {
            Ok(x) => Ok(
                (
                    BinaryOperand::Register { register },
                    BinaryOperand::RegisterWithFactor { register: offset_register, factor: x },
                ),
            ),
            Err(e) => Err(e),
        },
        _ => Err(AsmError::BadOperandShape),
    }
}

pub open spec fn register_spec(op: Option<OlaAsmOperand>) -> Result<BinaryOperand, AsmError> {
    match op {
        Some(OlaAsmOperand::RegisterOperand { register }) => Ok(BinaryOperand::Register { register }),
        _ => Err(AsmError::BadOperandShape),
    }
}

/// Whether the opcode takes a memory operand.
pub open spec fn is_adjusted_spec(op: OlaOpcode) -> bool {
    op == OlaOpcode::MLOAD || op == OlaOpcode::MSTORE
}

/// The operand slots of a memory instruction, `mload dst [r,off]` or `mstore [r,off] src`:
/// op0 holds the anchor register, op1 the offset (an immediate, or a factored offset
/// register), and dst the value register.
pub open spec fn mem_operands_spec(ins: OlaAsmInstruction) -> Result<
    (Option<BinaryOperand>, Option<BinaryOperand>, Option<BinaryOperand>),
    AsmError,
> {
    if ins.opcode == OlaOpcode::MLOAD {
        match (mem_address_spec(ins.op1), register_spec(ins.dst)) {
            (Ok((a, o)), Ok(d)) => Ok((Some(a), Some(o), Some(d))),
            (Err(e), _) => Err(e),
            (_, Err(e)) => Err(e),
        }
    } else {
        match (mem_address_spec(ins.op0), register_spec(ins.op1)) {
            (Ok((a, o)), Ok(v)) => Ok((Some(a), Some(o), Some(v))),
            (Err(e), _) => Err(e),
            (_, Err(e)) => Err(e),
        }
    }
}

/// The binary instruction of an assembly instruction.
pub open spec fn instruction_spec(ins: OlaAsmInstruction, call: LabelMap, jmp: LabelMap) -> Result<
    BinaryInstruction,
    AsmError,
> {
    if is_adjusted_spec(ins.opcode) {
        match mem_operands_spec(ins) {
            Ok((op0, op1, dst)) => Ok(BinaryInstruction { opcode: ins.opcode, op0, op1, dst }),
            Err(e) => Err(e),
        }
    } else {
        match (operand_spec(ins.op0, call, jmp), operand_spec(ins.op1, call, jmp), operand_spec(ins.dst, call, jmp)) {
            (Ok(op0), Ok(op1), Ok(dst)) => Ok(BinaryInstruction { opcode: ins.opcode, op0, op1, dst }),
            (Err(e), _, _) => Err(e),
            (_, Err(e), _) => Err(e),
            (_, _, Err(e)) => Err(e),
        }
    }
}

fn immediate_value(v: &ImmediateValue) -> (r: Result<u64, AsmError>)
    ensures
        r == immediate_spec(*v),
{
    match v.to_u64() {
        Ok(x) => if x < ORDER {
            Ok(x)
        } else {
            Err(AsmError::ImmediateOverflow)
        },
        Err(_) => Err(AsmError::ImmediateOverflow),
    }
}

/// Looks a label up in a label map.
pub fn find_label(m: &Vec<(String, u64)>, name: &String) -> (r: Option<u64>)
    ensures
        r == lookup_label(label_map_view(m@), name@),
{
    let mut i: usize = 0;
    let n = m.len();
    assert(label_map_view(m@).subrange(0, n as int) =~= label_map_view(m@));
    while i < n
        invariant
            i <= n,
            n == m@.len(),
            lookup_label(label_map_view(m@), name@) == lookup_label(
                label_map_view(m@).subrange(i as int, n as int),
                name@,
            ),
        decreases n - i,
    {
        let ghost sub = label_map_view(m@).subrange(i as int, n as int);
        assert(sub[0] == (m@[i as int].0@, m@[i as int].1));
        if m[i].0 == *name {
            return Some(m[i].1);
        }
        assert(sub.subrange(1, sub.len() as int) =~= label_map_view(m@).subrange(i + 1, n as int));
        i = i + 1;
    }
    None
}

/// Whether the opcode takes a memory operand.
pub fn is_adjusted_operand(instr: &OlaAsmInstruction) -> (r: bool)
    ensures
        r == is_adjusted_spec(instr.opcode),
{
    instr.opcode == OlaOpcode::MLOAD || instr.opcode == OlaOpcode::MSTORE
}

fn mem_address(op: &Option<OlaAsmOperand>) -> (r: Result<(BinaryOperand, BinaryOperand), AsmError>)
    ensures
        r == mem_address_spec(*op),
{
    match op {
        Some(OlaAsmOperand::RegisterWithOffset { register, offset }) => match immediate_value(offset) {
            Ok(x) => Ok((BinaryOperand::Register { register: *register }, BinaryOperand::Immediate { value: x })),
            Err(e) => Err(e),
        },
        Some(OlaAsmOperand::SpecialRegWithOffset { special_reg, offset }) => match immediate_value(offset) {
            Ok(x) => Ok((BinaryOperand::SpecialReg { special_reg: *special_reg }, BinaryOperand::Immediate { value: x })),
            Err(e) => Err(e),
        },
        Some(OlaAsmOperand::RegisterWithFactoredRegOffset { register, offset_register, factor }) => {
            match immediate_value(factor) {
                Ok(x) => Ok(
                    (
                        BinaryOperand::Register { register: *register },
                        BinaryOperand::RegisterWithFactor { register: *offset_register, factor: x },
                    ),
                ),
                Err(e) => Err(e),
            }
        },
        _ => Err(AsmError::BadOperandShape),
    }
}

fn register_operand(op: &Option<OlaAsmOperand>) -> (r: Result<BinaryOperand, AsmError>)
    ensures
        r == register_spec(*op),
{
    match op {
        Some(OlaAsmOperand::RegisterOperand { register }) => Ok(BinaryOperand::Register { register: *register }),
        _ => Err(AsmError::BadOperandShape),
    }
}

/// The binary operand slots of a memory instruction.
pub fn handle_mem_operand(instr: &OlaAsmInstruction) -> (r: Result<
    (Option<BinaryOperand>, Option<BinaryOperand>, Option<BinaryOperand>),
    AsmError,
>)
    requires
        is_adjusted_spec(instr.opcode),
    ensures
        r == mem_operands_spec(*instr),
{
    if instr.opcode == OlaOpcode::MLOAD {
        match (mem_address(&instr.op1), register_operand(&instr.dst)) {
            (Ok((a, o)), Ok(d)) => Ok((Some(a), Some(o), Some(d))),
            (Err(e), _) => Err(e),
            (_, Err(e)) => Err(e),
        }
    } else {
        match (mem_address(&instr.op0), register_operand(&instr.op1)) {
            (Ok((a, o)), Ok(v)) => Ok((Some(a), Some(o), Some(v))),
            (Err(e), _) => Err(e),
            (_, Err(e)) => Err(e),
        }
    }
}

/// The binary form of an operand outside memory instructions.
pub fn operand_asm_to_binary(
    option_asm_op: &Option<OlaAsmOperand>,
    mapper_label_call: &Vec<(String, u64)>,
    mapper_label_jmp: &Vec<(String, u64)>,
) -> (r: Result<Option<BinaryOperand>, AsmError>)
    ensures
        r == operand_spec(*option_asm_op, label_map_view(mapper_label_call@), label_map_view(mapper_label_jmp@)),
{
    match option_asm_op {
        None => Ok(None),
        Some(OlaAsmOperand::ImmediateOperand { value }) => match immediate_value(value) {
            Ok(x) => Ok(Some(BinaryOperand::Immediate { value: x })),
            Err(e) => Err(e),
        },
        Some(OlaAsmOperand::RegisterOperand { register }) => Ok(Some(BinaryOperand::Register { register: *register })),
        Some(OlaAsmOperand::SpecialReg { special_reg }) => Ok(Some(BinaryOperand::SpecialReg { special_reg: *special_reg })),
        Some(OlaAsmOperand::Label { value }) => match find_label(mapper_label_jmp, value) {
            Some(pc) => if pc < ORDER {
                Ok(Some(BinaryOperand::Immediate { value: pc }))
            } else {
                Err(AsmError::ImmediateOverflow)
            },
            None => Err(AsmError::UnresolvedLabel),
        },
        Some(OlaAsmOperand::Identifier { value }) => match find_label(mapper_label_call, value) {
            Some(pc) => if pc < ORDER {
                Ok(Some(BinaryOperand::Immediate { value: pc }))
            } else {
                Err(AsmError::ImmediateOverflow)
            },
            None => Err(AsmError::UnresolvedLabel),
        },
        _ => Err(AsmError::BadOperandShape),
    }
}

/// Encodes every instruction of a relocated bundle; the bundle's prophets come along.
pub fn encode_to_binary(bundle: RelocatedAsmBundle) -> (r: Result<BinaryProgram, AsmError>)
    ensures
        ({
            let call = label_map_view(bundle.mapper_label_call@);
            let jmp = label_map_view(bundle.mapper_label_jmp@);
            match r {
                Ok(p) => p.instructions@.len() == bundle.instructions@.len() && (forall|i: int|
                    0 <= i < p.instructions@.len() ==> instruction_spec(#[trigger] bundle.instructions@[i], call, jmp)
                        == Ok::<BinaryInstruction, AsmError>(p.instructions@[i])) && p.prophets@ == bundle.prophets@
                    && p.source@.len() == bundle.instructions@.len() && (forall|i: int|
                    0 <= i < p.source@.len() ==> (#[trigger] p.source@[i])@ == bundle.instructions@[i].source@),
                Err(e) => exists|i: int|
                    0 <= i < bundle.instructions@.len() && instruction_spec(#[trigger] bundle.instructions@[i], call, jmp)
                        == Err::<BinaryInstruction, AsmError>(e),
            }
        }),
{
    let ghost b_ins = bundle.instructions@;
    let ghost call = label_map_view(bundle.mapper_label_call@);
    let ghost jmp = label_map_view(bundle.mapper_label_jmp@);
    let RelocatedAsmBundle { instructions, mapper_label_call, mapper_label_jmp, prophets } = bundle;
    let mut out: Vec<BinaryInstruction> = Vec::new();
    let mut source: Vec<String> = Vec::new();
    let mut i: usize = 0;
    while i < instructions.len()
        invariant
            i <= instructions@.len(),
            source@.len() == i,
            forall|k: int| 0 <= k < i ==> (#[trigger] source@[k])@ == instructions@[k].source@,
            b_ins == instructions@,
            b_ins == bundle.instructions@,
            call == label_map_view(bundle.mapper_label_call@),
            jmp == label_map_view(bundle.mapper_label_jmp@),
            call == label_map_view(mapper_label_call@),
            jmp == label_map_view(mapper_label_jmp@),
            out@.len() == i,
            forall|k: int| 0 <= k < i ==> instruction_spec(#[trigger] instructions@[k], call, jmp)
                == Ok::<BinaryInstruction, AsmError>(out@[k]),
        decreases instructions.len() - i,
    {
        let instr = &instructions[i];
        let ops = if is_adjusted_operand(instr) {
            handle_mem_operand(instr)
        } else {
            let op0 = operand_asm_to_binary(&instr.op0, &mapper_label_call, &mapper_label_jmp);
            let op1 = operand_asm_to_binary(&instr.op1, &mapper_label_call, &mapper_label_jmp);
            let dst = operand_asm_to_binary(&instr.dst, &mapper_label_call, &mapper_label_jmp);
            match (op0, op1, dst) {
                (Ok(op0), Ok(op1), Ok(dst)) => Ok((op0, op1, dst)),
                (Err(e), _, _) => Err(e),
                (_, Err(e), _) => Err(e),
                (_, _, Err(e)) => Err(e),
            }
        };
        match ops {
            Ok((op0, op1, dst)) => {
                let ins = BinaryInstruction { opcode: instr.opcode, op0, op1, dst };
                assert(instruction_spec(instructions@[i as int], call, jmp) == Ok::<BinaryInstruction, AsmError>(ins));
                out.push(ins);
                source.push(instr.source.clone());
            },
            Err(e) => {
                assert(instruction_spec(b_ins[i as int], call, jmp) == Err::<BinaryInstruction, AsmError>(e));
                assert(instruction_spec(bundle.instructions@[i as int], label_map_view(bundle.mapper_label_call@), label_map_view(bundle.mapper_label_jmp@)) == Err::<BinaryInstruction, AsmError>(e));
                return Err(e);
            },
        }
        i = i + 1;
    }
    Ok(BinaryProgram { instructions: out, prophets, source })
}

/// A line of an assembly program after tokenising.
#[derive(Debug)]
pub enum AsmLine {
    /// `name:`; names starting with `.LBL` are jump targets, other names call targets.
    Label { name: String },
    /// A prophet marker; the prophet is hosted by the next instruction.
    Prophet { prophet: OlaProphet },
    Instruction { instruction: OlaAsmInstruction },
}

pub open spec fn is_jump_label(name: Seq<char>) -> bool {
    name.len() >= 4 && name[0] == '.' && name[1] == 'L' && name[2] == 'B' && name[3] == 'L'
}

pub open spec fn has_immediate_operand(op: Option<OlaAsmOperand>) -> bool {
    match op {
        Some(OlaAsmOperand::ImmediateOperand { .. }) => true,
        Some(OlaAsmOperand::RegisterWithOffset { .. }) => true,
        Some(OlaAsmOperand::RegisterWithFactoredRegOffset { .. }) => true,
        Some(OlaAsmOperand::SpecialRegWithOffset { .. }) => true,
        Some(OlaAsmOperand::Label { .. }) => true,
        Some(OlaAsmOperand::Identifier { .. }) => true,
        _ => false,
    }
}

impl OlaAsmInstruction {
    /// Two field elements when an operand carries an immediate, else one.
    pub open spec fn spec_binary_length(&self) -> nat {
        if has_immediate_operand(self.op0) || has_immediate_operand(self.op1) || has_immediate_operand(self.dst) {
            2
        } else {
            1
        }
    }

    pub fn binary_length(&self) -> (r: u64)
        ensures
            r == self.spec_binary_length(),
    {
        if has_immediate(&self.op0) || has_immediate(&self.op1) || has_immediate(&self.dst) {
            2
        } else {
            1
        }
    }
}

fn has_immediate(op: &Option<OlaAsmOperand>) -> (r: bool)
    ensures
        r == has_immediate_operand(*op),
{
    match op {
        Some(OlaAsmOperand::ImmediateOperand { .. }) => true,
        Some(OlaAsmOperand::RegisterWithOffset { .. }) => true,
        Some(OlaAsmOperand::RegisterWithFactoredRegOffset { .. }) => true,
        Some(OlaAsmOperand::SpecialRegWithOffset { .. }) => true,
        Some(OlaAsmOperand::Label { .. }) => true,
        Some(OlaAsmOperand::Identifier { .. }) => true,
        _ => false,
    }
}

pub open spec fn line_length(l: AsmLine) -> nat {
    match l {
        AsmLine::Instruction { instruction } => instruction.spec_binary_length(),
        _ => 0,
    }
}

/// Binary length of a run of lines.
pub open spec fn lines_length(lines: Seq<AsmLine>) -> nat
    decreases lines.len(),
{
    if lines.len() == 0 {
        0
    } else {
        line_length(lines[0]) + lines_length(lines.subrange(1, lines.len() as int))
    }
}

/// Every label with the program counter it marks, when the lines start at `base`.
pub open spec fn label_entries(lines: Seq<AsmLine>, base: int) -> Seq<(Seq<char>, int)>
    decreases lines.len(),
{
    if lines.len() == 0 {
        Seq::empty()
    } else {
        let rest = label_entries(lines.subrange(1, lines.len() as int), base + line_length(lines[0]));
        match lines[0] {
            AsmLine::Label { name } => seq![(name@, base)] + rest,
            _ => rest,
        }
    }
}

/// Relocation is stable: putting lines without labels of total binary length `k` in
/// front of a program shifts every label's program counter by `k`.
pub proof fn lemma_relocation_shift(prefix: Seq<AsmLine>, lines: Seq<AsmLine>, base: int)
    requires
        forall|i: int| 0 <= i < prefix.len() ==> !(prefix[i] is Label),
    ensures
        label_entries(prefix + lines, base) == label_entries(lines, base + lines_length(prefix)),
    decreases prefix.len(),
{
    if prefix.len() > 0 {
        let tail = prefix.subrange(1, prefix.len() as int);
        assert((prefix + lines).subrange(1, (prefix + lines).len() as int) =~= tail + lines);
        assert((prefix + lines)[0] == prefix[0]);
        lemma_relocation_shift(tail, lines, base + line_length(prefix[0]));
    } else {
        assert(prefix + lines =~= lines);
    }
}

/// The entries of a label kind, as a label map.
pub open spec fn entries_of_kind(e: Seq<(Seq<char>, int)>, jump: bool) -> LabelMap
    decreases e.len(),
{
    if e.len() == 0 {
        Seq::empty()
    } else {
        let rest = entries_of_kind(e.subrange(1, e.len() as int), jump);
        if is_jump_label(e[0].0) == jump {
            seq![(e[0].0, e[0].1 as u64)] + rest
        } else {
            rest
        }
    }
}

fn is_jump_label_exec(name: &String) -> (r: bool)
    ensures
        r == is_jump_label(name@),
{
    let s = name.as_str();
    s.unicode_len() >= 4 && s.get_char(0) == '.' && s.get_char(1) == 'L' && s.get_char(2) == 'B'
        && s.get_char(3) == 'L'
}

/// The instructions of a run of lines, in order.
pub open spec fn instructions_of(lines: Seq<AsmLine>) -> Seq<OlaAsmInstruction>
    decreases lines.len(),
{
    if lines.len() == 0 {
        Seq::empty()
    } else {
        let rest = instructions_of(lines.subrange(1, lines.len() as int));
        match lines[0] {
            AsmLine::Instruction { instruction } => seq![instruction] + rest,
            _ => rest,
        }
    }
}

/// The host of every prophet marker, when the lines start at `base`: the binary counter at
/// the marker, which is the program counter of the next instruction.
pub open spec fn prophet_hosts_of(lines: Seq<AsmLine>, base: int) -> Seq<u64>
    decreases lines.len(),
{
    if lines.len() == 0 {
        Seq::empty()
    } else {
        let rest = prophet_hosts_of(lines.subrange(1, lines.len() as int), base + line_length(lines[0]));
        match lines[0] {
            AsmLine::Prophet { .. } => seq![base as u64] + rest,
            _ => rest,
        }
    }
}

/// Resolves labels: each label marks the program counter of the instruction after it,
/// counting binary lengths from zero; prophet markers make the next instruction their
/// host. Fails on a label defined twice in its kind.
pub fn asm_relocate(program: Vec<AsmLine>) -> (r: Result<RelocatedAsmBundle, AsmError>)
    requires
        lines_length(program@) < ORDER,
    ensures
        r is Ok <==> no_duplicate_names(entries_of_kind(label_entries(program@, 0), true)) && no_duplicate_names(
            entries_of_kind(label_entries(program@, 0), false),
        ),
        match r {
            Ok(b) => label_map_view(b.mapper_label_jmp@) == entries_of_kind(label_entries(program@, 0), true)
                && label_map_view(b.mapper_label_call@) == entries_of_kind(label_entries(program@, 0), false)
                && b.instructions@ == instructions_of(program@) && b.prophets@.map_values(|p: OlaProphet| p.host)
                == prophet_hosts_of(program@, 0),
            Err(e) => e == AsmError::DuplicateLabel,
        },
{
    let ghost orig = program@;
    let mut lines = program;
    let mut instructions: Vec<OlaAsmInstruction> = Vec::new();
    let mut call: Vec<(String, u64)> = Vec::new();
    let mut jmp: Vec<(String, u64)> = Vec::new();
    let mut prophets: Vec<OlaProphet> = Vec::new();
    let mut counter: u64 = 0;
    let ghost mut done: Seq<AsmLine> = Seq::empty();
    proof {
        assert(orig =~= done + lines@);
    }
    while lines.len() > 0
        invariant
            orig == program@,
            orig == done + lines@,
            counter == lines_length(done),
            lines_length(done) + lines_length(lines@) < ORDER,
            label_map_view(jmp@) + entries_of_kind(label_entries(lines@, counter as int), true)
                == entries_of_kind(label_entries(orig, 0), true),
            label_map_view(call@) + entries_of_kind(label_entries(lines@, counter as int), false)
                == entries_of_kind(label_entries(orig, 0), false),
            no_duplicate_names(label_map_view(jmp@)),
            no_duplicate_names(label_map_view(call@)),
            instructions@ + instructions_of(lines@) == instructions_of(orig),
            prophets@.map_values(|p: OlaProphet| p.host) + prophet_hosts_of(lines@, counter as int)
                == prophet_hosts_of(orig, 0),
        decreases lines.len(),
    {
        let ghost before = lines@;
        let ghost ins0 = instructions@;
        let ghost hosts0 = prophets@.map_values(|p: OlaProphet| p.host);
        let line = lines.remove(0);
        proof {
            assert(before.subrange(1, before.len() as int) =~= lines@);
            assert(before[0] == line);
            lemma_lines_length_split(done, line);
        }
        match line {
            AsmLine::Label { name } => {
                let jump = is_jump_label_exec(&name);
                let ghost entries_rest = label_entries(lines@, counter as int);
                proof {
                    assert(label_entries(before, counter as int) == seq![(name@, counter as int)] + entries_rest);
                    let e = seq![(name@, counter as int)] + entries_rest;
                    assert(e.subrange(1, e.len() as int) =~= entries_rest);
                }
                if jump {
                    if find_label(&jmp, &name).is_some() {
                        proof {
                            lemma_lookup_found(label_map_view(jmp@), name@);
                            lemma_dup_in_concat(label_map_view(jmp@), name@, counter, entries_of_kind(entries_rest, true));
                            let e = seq![(name@, counter as int)] + entries_rest;
                            assert(entries_of_kind(e, true) == seq![(name@, counter)] + entries_of_kind(entries_rest, true));
                            assert(entries_of_kind(label_entries(orig, 0), true) == label_map_view(jmp@) + (seq![(name@, counter)] + entries_of_kind(entries_rest, true)));
                        }
                        return Err(AsmError::DuplicateLabel);
                    }
                    proof {
                        lemma_lookup_missing(label_map_view(jmp@), name@);
                    }
                    let ghost old_view = label_map_view(jmp@);
                    jmp.push((name, counter));
                    assert(label_map_view(jmp@) =~= old_view.push((name@, counter)));
                    assert(old_view.push((name@, counter)) + entries_of_kind(entries_rest, true) =~= old_view + (seq![(name@, counter)] + entries_of_kind(entries_rest, true)));
                } else {
                    if find_label(&call, &name).is_some() {
                        proof {
                            lemma_lookup_found(label_map_view(call@), name@);
                            lemma_dup_in_concat(label_map_view(call@), name@, counter, entries_of_kind(entries_rest, false));
                            let e = seq![(name@, counter as int)] + entries_rest;
                            assert(entries_of_kind(e, false) == seq![(name@, counter)] + entries_of_kind(entries_rest, false));
                            assert(entries_of_kind(label_entries(orig, 0), false) == label_map_view(call@) + (seq![(name@, counter)] + entries_of_kind(entries_rest, false)));
                        }
                        return Err(AsmError::DuplicateLabel);
                    }
                    proof {
                        lemma_lookup_missing(label_map_view(call@), name@);
                    }
                    let ghost old_view = label_map_view(call@);
                    call.push((name, counter));
                    assert(label_map_view(call@) =~= old_view.push((name@, counter)));
                    assert(old_view.push((name@, counter)) + entries_of_kind(entries_rest, false) =~= old_view + (seq![(name@, counter)] + entries_of_kind(entries_rest, false)));
                }
            },
            AsmLine::Prophet { prophet } => {
                let OlaProphet { host: _, code, inputs, outputs } = prophet;
                prophets.push(OlaProphet { host: counter, code, inputs, outputs });
                proof {
                    assert(prophets@.map_values(|p: OlaProphet| p.host) =~= hosts0.push(counter));
                    assert(hosts0.push(counter) + prophet_hosts_of(lines@, counter as int) =~= hosts0 + (seq![counter] + prophet_hosts_of(lines@, counter as int)));
                }
            },
            AsmLine::Instruction { instruction } => {
                let len = instruction.binary_length();
                counter = counter + len;
                let ghost ii = instruction;
                instructions.push(instruction);
                proof {
                    assert(ins0.push(ii) + instructions_of(lines@) =~= ins0 + (seq![ii] + instructions_of(lines@)));
                }
            },
        }
        proof {
            done = done.push(before[0]);
            assert(orig =~= done + lines@);
        }
    }
    assert(lines@ =~= Seq::<AsmLine>::empty());
    assert(instructions@ + Seq::empty() =~= instructions@);
    assert(prophets@.map_values(|p: OlaProphet| p.host) + Seq::empty() =~= prophets@.map_values(|p: OlaProphet| p.host));
    assert(label_map_view(jmp@) + Seq::empty() =~= label_map_view(jmp@));
    assert(label_map_view(call@) + Seq::empty() =~= label_map_view(call@));
    Ok(RelocatedAsmBundle { instructions, mapper_label_call: call, mapper_label_jmp: jmp, prophets })
}

proof fn lemma_lines_length_split(a: Seq<AsmLine>, l: AsmLine)
    ensures
        lines_length(a.push(l)) == lines_length(a) + line_length(l),
    decreases a.len(),
{
    if a.len() > 0 {
        assert(a.push(l).subrange(1, a.push(l).len() as int) =~= a.subrange(1, a.len() as int).push(l));
        lemma_lines_length_split(a.subrange(1, a.len() as int), l);
        assert(a.push(l)[0] == a[0]);
    } else {
        assert(a.push(l).subrange(1, 1) =~= Seq::<AsmLine>::empty());
        assert(a.push(l)[0] == l);
        assert(lines_length(Seq::<AsmLine>::empty()) == 0);
    }
}

/// No name is mapped twice.
pub open spec fn no_duplicate_names(m: LabelMap) -> bool {
    forall|i: int, j: int| 0 <= i < j < m.len() ==> m[i].0 != m[j].0
}

proof fn lemma_lookup_found(m: LabelMap, name: Seq<char>)
    requires
        lookup_label(m, name) is Some,
    ensures
        exists|k: int| 0 <= k < m.len() && m[k].0 == name,
    decreases m.len(),
{
    if m[0].0 != name {
        let t = m.subrange(1, m.len() as int);
        lemma_lookup_found(t, name);
        let k = choose|k: int| 0 <= k < t.len() && t[k].0 == name;
        assert(m[k + 1] == t[k]);
    }
}

proof fn lemma_lookup_missing(m: LabelMap, name: Seq<char>)
    requires
        lookup_label(m, name) is None,
    ensures
        forall|k: int| 0 <= k < m.len() ==> m[k].0 != name,
    decreases m.len(),
{
    if m.len() > 0 {
        let t = m.subrange(1, m.len() as int);
        lemma_lookup_missing(t, name);
        assert forall|k: int| 0 <= k < m.len() implies m[k].0 != name by {
            if k > 0 {
                assert(m[k] == t[k - 1]);
            }
        }
    }
}

proof fn lemma_dup_in_concat(m: LabelMap, name: Seq<char>, pc: u64, rest: LabelMap)
    requires
        exists|k: int| 0 <= k < m.len() && m[k].0 == name,
    ensures
        !no_duplicate_names(m + (seq![(name, pc)] + rest)),
{
    let k = choose|k: int| 0 <= k < m.len() && m[k].0 == name;
    let all = m + (seq![(name, pc)] + rest);
    assert(all[k] == m[k]);
    assert(all[m.len() as int] == (name, pc));
}

} // verus!
