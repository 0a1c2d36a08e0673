//! Prophets: gathering a script's inputs from registers and frame slots, and storing
//! its outputs in the write-once prophet region.
use vstd::prelude::*;
use vstd::string::StrSliceExecFns;
use crate::field::{add_spec, field_add, field_sub, sub_spec, ORDER};
use crate::hardware::{FP_REG_INDEX, NUM_GENERAL_PURPOSE_REGISTER};
use crate::memory::{record, MemoryCell};
use crate::process::{read_value, write_fails, MachineState, Process, ProcessorError};
use crate::program::{OlaProphet, OlaProphetInput};

verus! {

/// Registers that carry the first prophet inputs: R1 up to, not including, this index.
pub const PROPHET_INPUT_REG_END_INDEX: usize = 4;

/// First register that carries a prophet input.
pub const PROPHET_INPUT_REG_START_INDEX: usize = 1;

/// Inputs beyond the registers are read from `[fp - 3]`, `[fp - 4]`, ...
pub const PROPHET_INPUT_FP_START_OFFSET: u64 = 3;

/// What a prophet script hands back.
#[derive(Debug)]
pub enum ProphetOutput {
    Single(u64),
    Multiple(Vec<u64>),
}

/// The cell a prophet access records: no opcode, not looked up by the CPU table.
pub open spec fn prophet_cell(s: MachineState, is_write: bool, v: u64) -> MemoryCell {
    MemoryCell { clk: s.clk, op: 0, is_write, filter_looked_for_main: false, value: v }
}

pub open spec fn with_memory(s: MachineState, m: Seq<crate::memory::HistoryModel>) -> MachineState {
    MachineState { clk: s.clk, pc: s.pc, registers: s.registers, psp: s.psp, hp: s.hp, memory: m }
}

/// Reads `a` for a prophet.
pub open spec fn prophet_read(s: MachineState, a: u64) -> Result<(MachineState, u64), ProcessorError> {
    match read_value(s.memory, a) {
        None => Err(ProcessorError::UninitializedRead),
        Some(v) => Ok((with_memory(s, record(s.memory, a, prophet_cell(s, false, v))), v)),
    }
}

/// One prophet input value: the next of R1..R3 while `reg_index` has not reached
/// `reg_cnt`, else the next frame slot `[fp - fp_off]`; then dereferenced when `is_ref`.
/// Results: the state, the value, and the advanced register index and frame offset.
pub open spec fn prophet_input_spec(
    s: MachineState,
    is_ref: bool,
    reg_cnt: usize,
    reg_index: usize,
    fp_off: u64,
) -> Result<(MachineState, u64, usize, u64), ProcessorError> {
    let first = if reg_cnt != reg_index {
        Ok((s, s.registers[reg_index as int], (reg_index + 1) as usize, fp_off))
    } else {
        match prophet_read(s, sub_spec(s.registers[FP_REG_INDEX as int] as int, fp_off as int) as u64) {
            Err(e) => Err(e),
            Ok((s1, v)) => Ok((s1, v, reg_index, (fp_off + 1) as u64)),
        }
    };
    match first {
        Err(e) => Err(e),
        Ok((s1, v, ri, fo)) => if is_ref {
            match prophet_read(s1, v) {
                Err(e) => Err(e),
                Ok((s2, w)) => Ok((s2, w, ri, fo)),
            }
        } else {
            Ok((s1, v, ri, fo))
        },
    }
}

/// One `is_ref` flag per input value: each input repeated `length` times.
pub open spec fn input_refs(inputs: Seq<(u64, bool)>) -> Seq<bool>
    decreases inputs.len(),
{
    if inputs.len() == 0 {
        Seq::empty()
    } else {
        input_refs(inputs.drop_last()) + Seq::new(inputs.last().0 as nat, |k: int| inputs.last().1)
    }
}

/// All input values of a prophet, read in order.
pub open spec fn gather_spec(
    s: MachineState,
    refs: Seq<bool>,
    reg_cnt: usize,
    reg_index: usize,
    fp_off: u64,
) -> Result<(MachineState, Seq<u64>), ProcessorError>
    decreases refs.len(),
{
    if refs.len() == 0 {
        Ok((s, Seq::empty()))
    } else {
        match prophet_input_spec(s, refs[0], reg_cnt, reg_index, fp_off) {
            Err(e) => Err(e),
            Ok((s1, v, ri, fo)) => match gather_spec(s1, refs.subrange(1, refs.len() as int), reg_cnt, ri, fo) {
                Err(e) => Err(e),
                Ok((s2, rest)) => Ok((s2, seq![v] + rest)),
            },
        }
    }
}

/// Writes prophet outputs to consecutive addresses from PSP, advancing PSP past each.
pub open spec fn write_outputs_spec(s: MachineState, vals: Seq<u64>) -> Result<MachineState, ProcessorError>
    decreases vals.len(),
{
    if vals.len() == 0 {
        Ok(s)
    } else if write_fails(s.memory, s.psp) {
        Err(ProcessorError::WriteOnceViolation)
    } else {
        let m = record(s.memory, s.psp, prophet_cell(s, true, vals[0]));
        let next = MachineState {
            clk: s.clk,
            pc: s.pc,
            registers: s.registers,
            psp: add_spec(s.psp as int, 1) as u64,
            hp: s.hp,
            memory: m,
        };
        write_outputs_spec(next, vals.subrange(1, vals.len() as int))
    }
}

/// The effect of a prophet's result: every value but the last goes to the prophet region,
/// the last becomes HP.
pub open spec fn apply_outputs_spec(s: MachineState, vals: Seq<u64>) -> Result<MachineState, ProcessorError> {
    if vals.len() == 0 {
        Err(ProcessorError::ProphetReturnTypeMismatch)
    } else if exists|k: int| 0 <= k < vals.len() && vals[k] >= ORDER {
        Err(ProcessorError::FieldOverflow)
    } else {
        match write_outputs_spec(s, vals.drop_last()) {
            Err(e) => Err(e),
            Ok(s1) => Ok(MachineState { clk: s1.clk, pc: s1.pc, registers: s1.registers, psp: s1.psp, hp: vals.last(), memory: s1.memory }),
        }
    }
}

impl Process {
    fn prophet_read(&mut self, a: u64) -> (r: Result<u64, ProcessorError>)
        requires
            old(self).wf(),
        ensures
            final(self).wf(),
            match prophet_read(old(self).model(), a) {
                Err(e) => r == Err::<u64, ProcessorError>(e),
                Ok((s1, v)) => r == Ok::<u64, ProcessorError>(v) && final(self).model() == s1 && v < ORDER,
            },
    {
        let ghost m0 = self.memory@;
        match self.memory.read(a, self.clk, 0, false) {
            Ok(v) => {
                proof {
                    let h = crate::memory::lookup(m0, a).unwrap();
                    crate::memory::lemma_pos_of_bounds(m0, a);
                    assert(crate::memory::history_wf(m0[crate::memory::pos_of(m0, a) - 1].0, h));
                }
                Ok(v)
            },
            Err(_) => Err(ProcessorError::UninitializedRead),
        }
    }

    fn read_input_value(
        &mut self,
        is_ref: bool,
        reg_cnt: usize,
        reg_index: &mut usize,
        fp: &mut u64,
    ) -> (r: Result<u64, ProcessorError>)
        requires
            old(self).wf(),
            *old(reg_index) <= reg_cnt,
            reg_cnt < NUM_GENERAL_PURPOSE_REGISTER,
            *old(fp) < ORDER - 1,
        ensures
            final(self).wf(),
            *final(reg_index) <= reg_cnt,
            *final(fp) <= *old(fp) + 1,
            match prophet_input_spec(old(self).model(), is_ref, reg_cnt, *old(reg_index), *old(fp)) {
                Err(e) => r == Err::<u64, ProcessorError>(e),
                Ok((s1, v, ri, fo)) => r == Ok::<u64, ProcessorError>(v) && final(self).model() == s1
                    && *final(reg_index) == ri && *final(fp) == fo,
            },
    {
        let value = if reg_cnt != *reg_index {
            let v = self.registers[*reg_index];
            *reg_index = *reg_index + 1;
            v
        } else {
            let a = field_sub(self.registers[FP_REG_INDEX], *fp);
            let v = match self.prophet_read(a) {
                Ok(v) => v,
                Err(e) => {
                    return Err(e);
                },
            };
            *fp = *fp + 1;
            v
        };
        if is_ref {
            self.prophet_read(value)
        } else {
            Ok(value)
        }
    }

    /// Reads one value of a prophet input; see `prophet_input_spec`.
    pub fn read_prophet_input(
        &mut self,
        input: &OlaProphetInput,
        reg_cnt: usize,
        reg_index: &mut usize,
        fp: &mut u64,
    ) -> (r: Result<u64, ProcessorError>)
        requires
            old(self).wf(),
            *old(reg_index) <= reg_cnt,
            reg_cnt < NUM_GENERAL_PURPOSE_REGISTER,
            *old(fp) < ORDER - 1,
        ensures
            final(self).wf(),
            *final(reg_index) <= reg_cnt,
            *final(fp) <= *old(fp) + 1,
            match prophet_input_spec(old(self).model(), input.is_ref, reg_cnt, *old(reg_index), *old(fp)) {
                Err(e) => r == Err::<u64, ProcessorError>(e),
                Ok((s1, v, ri, fo)) => r == Ok::<u64, ProcessorError>(v) && final(self).model() == s1
                    && *final(reg_index) == ri && *final(fp) == fo,
            },
    {
        self.read_input_value(input.is_ref, reg_cnt, reg_index, fp)
    }
}

impl OlaProphet {
    pub open spec fn input_model(&self) -> Seq<(u64, bool)> {
        self.inputs@.map_values(|i: OlaProphetInput| (i.length, i.is_ref))
    }
}

/// One `is_ref` flag per input value of `prophet`.
pub fn prophet_input_refs(prophet: &OlaProphet) -> (r: Vec<bool>)
    ensures
        r@ == input_refs(prophet.input_model()),
{
    let mut out: Vec<bool> = Vec::new();
    let mut k: usize = 0;
    let n = prophet.inputs.len();
    while k < n
        invariant
            k <= n,
            n == prophet.inputs@.len(),
            out@ == input_refs(prophet.input_model().subrange(0, k as int)),
        decreases n - k,
    {
        let len = prophet.inputs[k].length;
        let is_ref = prophet.inputs[k].is_ref;
        let ghost base = out@;
        let mut j: u64 = 0;
        while j < len
            invariant
                j <= len,
                out@ == base + Seq::new(j as nat, |x: int| is_ref),
            decreases len - j,
        {
            out.push(is_ref);
            j = j + 1;
            assert(out@ =~= base + Seq::new(j as nat, |x: int| is_ref));
        }
        proof {
            let v = prophet.input_model().subrange(0, k + 1);
            assert(v.drop_last() =~= prophet.input_model().subrange(0, k as int));
            assert(v.last() == (len, is_ref));
        }
        k = k + 1;
    }
    assert(prophet.input_model().subrange(0, n as int) =~= prophet.input_model());
    out
}

impl Process {
    /// Reads every input value of `prophet`: the first from R1..R3, the rest from frame
    /// slots below the frame pointer, each dereferenced when the input is a reference.
    pub fn prophet_inputs(&mut self, prophet: &OlaProphet) -> (r: Result<Vec<u64>, ProcessorError>)
        requires
            old(self).wf(),
        ensures
            final(self).wf(),
            input_refs(prophet.input_model()).len() < ORDER - 1 - PROPHET_INPUT_FP_START_OFFSET ==> match gather_spec(
                old(self).model(),
                input_refs(prophet.input_model()),
                PROPHET_INPUT_REG_END_INDEX,
                PROPHET_INPUT_REG_START_INDEX,
                PROPHET_INPUT_FP_START_OFFSET,
            ) {
                Err(e) => r == Err::<Vec<u64>, ProcessorError>(e),
                Ok((s1, vals)) => r matches Ok(v) && v@ == vals && final(self).model() == s1,
            },
            input_refs(prophet.input_model()).len() >= ORDER - 1 - PROPHET_INPUT_FP_START_OFFSET ==> r
                == Err::<Vec<u64>, ProcessorError>(ProcessorError::FieldOverflow),
    {
        let refs = prophet_input_refs(prophet);
        if refs.len() as u64 >= ORDER - 1 - PROPHET_INPUT_FP_START_OFFSET {
            return Err(ProcessorError::FieldOverflow);
        }
        let ghost s0 = self.model();
        let mut values: Vec<u64> = Vec::new();
        let mut reg_index: usize = PROPHET_INPUT_REG_START_INDEX;
        let mut fp: u64 = PROPHET_INPUT_FP_START_OFFSET;
        let mut i: usize = 0;
        let n = refs.len();
        let reg_cnt = PROPHET_INPUT_REG_END_INDEX;
        assert(refs@.subrange(0, n as int) =~= refs@);
        while i < n
            invariant
                self.wf(),
                s0 == old(self).model(),
                refs@ == input_refs(prophet.input_model()),
                i <= n,
                n == refs@.len(),
                n < ORDER - 1 - PROPHET_INPUT_FP_START_OFFSET,
                reg_index <= reg_cnt,
                reg_cnt == PROPHET_INPUT_REG_END_INDEX,
                fp <= PROPHET_INPUT_FP_START_OFFSET + i,
                gather_spec(s0, refs@, reg_cnt, PROPHET_INPUT_REG_START_INDEX, PROPHET_INPUT_FP_START_OFFSET)
                    == match gather_spec(self.model(), refs@.subrange(i as int, n as int), reg_cnt, reg_index, fp) {
                    Err(e) => Err(e),
                    Ok((s2, rest)) => Ok((s2, values@ + rest)),
                },
            decreases n - i,
        {
            let ghost sub = refs@.subrange(i as int, n as int);
            let ghost s = self.model();
            let ghost ri0 = reg_index;
            let ghost fp0 = fp;
            assert(sub[0] == refs@[i as int]);
            let v = match self.read_input_value(refs[i], reg_cnt, &mut reg_index, &mut fp) {
                Ok(v) => v,
                Err(e) => {
                    return Err(e);
                },
            };
            proof {
                assert(sub.subrange(1, sub.len() as int) =~= refs@.subrange(i + 1, n as int));
                match gather_spec(self.model(), refs@.subrange(i + 1, n as int), reg_cnt, reg_index, fp) {
                    Err(e) => {},
                    Ok((s2, rest)) => {
                        assert(values@ + (seq![v] + rest) =~= values@.push(v) + rest);
                    },
                }
            }
            values.push(v);
            i = i + 1;
        }
        assert(refs@.subrange(n as int, n as int) =~= Seq::<bool>::empty());
        assert(values@ + Seq::<u64>::empty() =~= values@);
        Ok(values)
    }

    /// Writes `vals[..count]` from PSP on, PSP moving past each value.
    #[verifier::rlimit(40)]
    fn write_outputs(&mut self, vals: &Vec<u64>, count: usize) -> (r: Result<(), ProcessorError>)
        requires
            old(self).wf(),
            count <= vals@.len(),
            forall|j: int| 0 <= j < vals@.len() ==> vals@[j] < ORDER,
        ensures
            final(self).wf(),
            match write_outputs_spec(old(self).model(), vals@.subrange(0, count as int)) {
                Err(e) => r == Err::<(), ProcessorError>(e),
                Ok(s1) => r is Ok && final(self).model() == s1,
            },
    {
        let ghost s0 = self.model();
        let ghost init = vals@.subrange(0, count as int);
        let mut i: usize = 0;
        assert(init.subrange(0, count as int) =~= init);
        while i < count
            invariant
                self.wf(),
                s0 == old(self).model(),
                i <= count,
                count <= vals@.len(),
                init == vals@.subrange(0, count as int),
                forall|j: int| 0 <= j < vals@.len() ==> vals@[j] < ORDER,
                write_outputs_spec(s0, init) == write_outputs_spec(
                    self.model(),
                    init.subrange(i as int, count as int),
                ),
            decreases count - i,
        {
            let ghost sub = init.subrange(i as int, count as int);
            assert(sub[0] == vals@[i as int]);
            assert(sub.subrange(1, sub.len() as int) =~= init.subrange(i + 1, count as int));
            let psp = self.psp;
            match self.memory.write(psp, self.clk, 0, false, vals[i]) {
                Ok(()) => {},
                Err(_) => {
                    return Err(ProcessorError::WriteOnceViolation);
                },
            }
            self.psp = field_add(psp, 1);
            i = i + 1;
        }
        assert(init.subrange(count as int, count as int) =~= Seq::<u64>::empty());
        Ok(())
    }

    /// Applies a prophet's result: a single value is refused; of several, all but the last
    /// are written from PSP on, PSP moving past each, and the last becomes HP.
    pub fn apply_prophet_outputs(&mut self, out: ProphetOutput) -> (r: Result<(), ProcessorError>)
        requires
            old(self).wf(),
        ensures
            final(self).wf(),
            match out {
                ProphetOutput::Single(_) => r == Err::<(), ProcessorError>(
                    ProcessorError::ProphetReturnTypeMismatch,
                ),
                ProphetOutput::Multiple(vals) => match apply_outputs_spec(old(self).model(), vals@) {
                    Err(e) => r == Err::<(), ProcessorError>(e),
                    Ok(s1) => r is Ok && final(self).model() == s1,
                },
            },
    {
        let vals = match out {
            ProphetOutput::Single(_) => {
                return Err(ProcessorError::ProphetReturnTypeMismatch);
            },
            ProphetOutput::Multiple(vals) => vals,
        };
        let n = vals.len();
        if n == 0 {
            return Err(ProcessorError::ProphetReturnTypeMismatch);
        }
        if has_non_canonical(&vals) {
            return Err(ProcessorError::FieldOverflow);
        }
        assert(vals@.drop_last() =~= vals@.subrange(0, (n - 1) as int));
        match self.write_outputs(&vals, n - 1) {
            Ok(()) => {},
            Err(e) => {
                return Err(e);
            },
        }
        self.hp = vals[n - 1];
        Ok(())
    }
}

/// Whether some value is not a canonical field element.
fn has_non_canonical(vals: &Vec<u64>) -> (r: bool)
    ensures
        r == exists|k: int| 0 <= k < vals@.len() && vals@[k] >= ORDER,
{
    let mut k: usize = 0;
    while k < vals.len()
        invariant
            k <= vals@.len(),
            forall|j: int| 0 <= j < k ==> vals@[j] < ORDER,
        decreases vals.len() - k,
    {
        if vals[k] >= ORDER {
            return true;
        }
        k = k + 1;
    }
    false
}

/// The script between the `%{` and `%}` that enclose a prophet's code, if it has them.
pub open spec fn code_body_spec(code: Seq<char>) -> Option<Seq<char>> {
    if code.len() >= 4 && code[0] == '%' && code[1] == '{' && code[code.len() - 2] == '%'
        && code[code.len() - 1] == '}' {
        Some(code.subrange(2, code.len() - 2))
    } else {
        None
    }
}

/// Extracts the script body from a prophet's code.
pub fn prophet_code_body(code: &str) -> (r: Option<&str>)
    ensures
        match code_body_spec(code@) {
            Some(b) => r matches Some(x) && x@ == b,
            None => r is None,
        },
{
    let n = code.unicode_len();
    if n >= 4 && code.get_char(0) == '%' && code.get_char(1) == '{' && code.get_char(n - 2) == '%'
        && code.get_char(n - 1) == '}' {
        Some(code.substring_char(2, n - 2))
    } else {
        None
    }
}

} // verus!
