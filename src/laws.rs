//! Properties of execution as a whole, stated over the step and run specifications.
use vstd::prelude::*;
use crate::hardware::OlaRegister;
use crate::instruction::{BinaryInstruction, BinaryOperand, OlaOpcode};
use crate::process::{
    all_canonical, lemma_frame_slots_distinct, mem_operand, operand_value, read_cell, read_value, step_spec, write_cell, MachineState,
    ProcessorError, StepOutput, RANGE_CHECK_BOUND,
};
use crate::field::{add_spec, sub_spec, ORDER};
use crate::memory::{
    clk_bound, clocks_below, clocks_strict, history_wf, lemma_lookup_found,
    lemma_record_other, lemma_record_strict, lookup, model_wf, pos_of, record, MemoryCell,
};
use crate::runner::{run_spec, RunOutput};
use crate::program::{fetch, is_prophet_host};
use crate::memory_trace::{cells_flat, lemma_memory_trace_clk_strict, rows_match, MemoryTraceRow};
use crate::trace::RangeCheckRequester;

verus! {

/// Execution is a function of the starting state and the program: equal inputs give
/// equal results, with identical traces.
pub proof fn lemma_execution_deterministic(
    s1: MachineState,
    s2: MachineState,
    prog1: Seq<BinaryInstruction>,
    prog2: Seq<BinaryInstruction>,
    hosts1: Seq<u64>,
    hosts2: Seq<u64>,
    fuel: nat,
)
    requires
        s1 == s2,
        prog1 == prog2,
        hosts1 == hosts2,
    ensures
        run_spec(s1, prog1, hosts1, fuel) == run_spec(s2, prog2, hosts2, fuel),
{
}

/// `assert r0 r1`.
pub open spec fn assert_r0_r1() -> BinaryInstruction {
    BinaryInstruction {
        opcode: OlaOpcode::ASSERT,
        op0: Some(BinaryOperand::Register { register: OlaRegister::R0 }),
        op1: Some(BinaryOperand::Register { register: OlaRegister::R1 }),
        dst: None,
    }
}

/// `end`.
pub open spec fn end_instruction() -> BinaryInstruction {
    BinaryInstruction { opcode: OlaOpcode::END, op0: None, op1: None, dst: None }
}

/// An `assert r0 r1` step succeeds exactly when R0 equals R1.
pub proof fn lemma_assert_soundness(s: MachineState)
    requires
        s.registers.len() == 9,
        s.clk < u32::MAX,
        s.pc + 1 < ORDER,
    ensures
        step_spec(s, assert_r0_r1()) is Ok <==> s.registers[0] == s.registers[1],
        s.registers[0] != s.registers[1] ==> step_spec(s, assert_r0_r1()) == Err::<StepOutput, ProcessorError>(
            ProcessorError::AssertFail,
        ),
{
    reveal(step_spec);
}

/// The program `assert r0 r1; end`, run from its start, completes exactly when R0 equals
/// R1, and fails with `AssertFail` otherwise.
pub proof fn lemma_assert_program_soundness(s: MachineState, hosts: Seq<u64>, fuel: nat)
    requires
        s.registers.len() == 9,
        s.pc == 0,
        s.clk + 1 < u32::MAX,
        fuel >= 2,
        hosts.len() == 0,
    ensures
        run_spec(s, seq![assert_r0_r1(), end_instruction()], hosts, fuel) is Ok <==> s.registers[0]
            == s.registers[1],
        s.registers[0] != s.registers[1] ==> run_spec(s, seq![assert_r0_r1(), end_instruction()], hosts, fuel)
            == Err::<RunOutput, ProcessorError>(ProcessorError::AssertFail),
{
    reveal(step_spec);
    let prog = seq![assert_r0_r1(), end_instruction()];
    assert(crate::program::fetch(prog, 0) == Some(assert_r0_r1()));
    assert(prog.subrange(1, 2) =~= seq![end_instruction()]);
    assert(crate::program::fetch(prog, 1) == Some(end_instruction())) by {
        assert(crate::program::fetch(prog.subrange(1, 2), 0) == Some(end_instruction()));
    }
    if s.registers[0] == s.registers[1] {
        let o = step_spec(s, assert_r0_r1()).unwrap();
        assert(o.state.pc == 1);
        assert(!o.ended);
        assert(!crate::program::is_prophet_host(hosts, s.pc));
        assert(run_spec(o.state, prog, hosts, (fuel - 1) as nat) is Ok);
    }
}

/// Range-check rows of one step: those the CPU asks for are below 2^32; those a
/// comparison asks for hold the distance between its operands.
pub proof fn lemma_step_range_checks(s: MachineState, ins: BinaryInstruction)
    ensures
        step_spec(s, ins) matches Ok(o) ==> forall|k: int|
            0 <= k < o.range_check.len() ==> {
                let row = #[trigger] o.range_check[k];
                &&& row.requester == RangeCheckRequester::Cpu ==> row.value < RANGE_CHECK_BOUND
                &&& row.requester == RangeCheckRequester::Comparison ==> row.value == if o.cpu.op0
                    >= o.cpu.op1 {
                    o.cpu.op0 - o.cpu.op1
                } else {
                    o.cpu.op1 - o.cpu.op0
                }
                &&& row.requester != RangeCheckRequester::Memory
            },
{
    reveal(step_spec);
}

/// Every successful step records one CPU row holding the state before it; every step but
/// `END` moves the clock on by one, and only memory instructions change memory.
pub proof fn lemma_step_clock(s: MachineState, ins: BinaryInstruction)
    ensures
        step_spec(s, ins) matches Ok(o) ==> {
            &&& o.cpu.clk == s.clk
            &&& o.cpu.pc == s.pc
            &&& o.cpu.registers == s.registers
            &&& o.cpu.instruction == ins
            &&& o.ended <==> ins.opcode == OlaOpcode::END
            &&& !o.ended ==> o.state.clk == s.clk + 1
            &&& o.ended ==> o.state == s
            &&& !(ins.opcode == OlaOpcode::CALL || ins.opcode == OlaOpcode::RET || ins.opcode
                == OlaOpcode::MLOAD || ins.opcode == OlaOpcode::MSTORE) ==> o.state.memory == s.memory
        },
{
    reveal(step_spec);
}

/// The machine invariant, over mathematical values.
pub open spec fn state_wf(s: MachineState) -> bool {
    &&& s.registers.len() == 9
    &&& all_canonical(s.registers)
    &&& s.psp < ORDER
    &&& s.pc < ORDER
    &&& model_wf(s.memory)
    &&& clk_bound(s.memory, s.clk)
}

/// Memory whose histories have strictly increasing clocks, all before `clk`.
pub open spec fn clocks_fresh(m: Seq<crate::memory::HistoryModel>, clk: int) -> bool {
    clocks_strict(m) && clocks_below(m, clk)
}

proof fn lemma_read_value_canonical(m: Seq<crate::memory::HistoryModel>, a: u64)
    requires
        model_wf(m),
        read_value(m, a) is Some,
    ensures
        read_value(m, a).unwrap() < ORDER,
        lookup(m, a).unwrap().last().clk == lookup(m, a).unwrap()[lookup(m, a).unwrap().len() - 1].clk,
{
    lemma_lookup_found(m, a);
    assert(history_wf(m[pos_of(m, a) - 1].0, m[pos_of(m, a) - 1].1));
}

proof fn lemma_last_clock(m: Seq<crate::memory::HistoryModel>, a: u64, clk: int)
    requires
        model_wf(m),
        clocks_below(m, clk),
        lookup(m, a) is Some,
    ensures
        lookup(m, a).unwrap().last().clk < clk,
{
    lemma_lookup_found(m, a);
    let i = pos_of(m, a) - 1;
    let h = m[i].1;
    assert(history_wf(m[i].0, h));
    assert(h[h.len() - 1].clk < clk);
}

/// Recording one CPU access in a fresh-clock memory at clock `clk`.
proof fn lemma_access(m: Seq<crate::memory::HistoryModel>, a: u64, cell: MemoryCell, clk: u32, fresh: bool)
    requires
        model_wf(m),
        clk_bound(m, clk),
        cell.clk == clk,
        cell.value < ORDER,
        lookup(m, a) is None ==> cell.is_write,
        lookup(m, a) matches Some(h) ==> (cell.is_write ==> !crate::memory::is_write_once_addr(a)) && (
        !cell.is_write ==> cell.value == h.last().value),
        fresh ==> clocks_fresh(m, clk as int),
    ensures
        model_wf(record(m, a, cell)),
        clk_bound(record(m, a, cell), clk),
        fresh ==> clocks_strict(record(m, a, cell)) && clocks_below(record(m, a, cell), clk + 1),
{
    crate::memory::lemma_record_wf(m, a, cell, clk);
    if fresh {
        if lookup(m, a) is Some {
            lemma_last_clock(m, a, clk as int);
        }
        assert(clocks_below(m, clk + 1));
        lemma_record_strict(m, a, cell, clk as int);
    }
}

proof fn lemma_operand_canonical(s: MachineState, o: Option<BinaryOperand>, ins: BinaryInstruction)
    requires
        state_wf(s),
    ensures
        operand_value(s, o) matches Some(v) ==> v < ORDER,
        mem_operand(s, ins) matches Some((x, y)) ==> x < ORDER && y < ORDER,
{
}

/// One step keeps the machine invariant; when every recorded access lies before the
/// current clock and histories have strictly increasing clocks, a step that does not end
/// the run keeps that too.
#[verifier::rlimit(80)]
pub proof fn lemma_step_preserves(s: MachineState, ins: BinaryInstruction, fresh: bool)
    requires
        state_wf(s),
        fresh ==> clocks_fresh(s.memory, s.clk as int),
    ensures
        step_spec(s, ins) matches Ok(o) ==> {
            &&& state_wf(o.state)
            &&& fresh && !o.ended ==> clocks_fresh(o.state.memory, o.state.clk as int)
        },
{
    reveal(step_spec);
    lemma_operand_canonical(s, ins.op0, ins);
    lemma_operand_canonical(s, ins.op1, ins);
    let m = s.memory;
    let fp = s.registers[8];
    if let Ok(o) = step_spec(s, ins) {
        if ins.opcode == OlaOpcode::MLOAD {
            let (anchor, off) = mem_operand(s, ins).unwrap();
            let addr = add_spec(anchor as int, off as int) as u64;
            let v = read_value(m, addr).unwrap();
            lemma_read_value_canonical(m, addr);
            lemma_access(m, addr, read_cell(s, OlaOpcode::MLOAD, v), s.clk, fresh);
        } else if ins.opcode == OlaOpcode::MSTORE {
            let (anchor, off) = mem_operand(s, ins).unwrap();
            let addr = add_spec(anchor as int, off as int) as u64;
            let v = s.registers[crate::process::dst_reg(ins.dst).unwrap()];
            lemma_access(m, addr, write_cell(s, OlaOpcode::MSTORE, v), s.clk, fresh);
        } else if ins.opcode == OlaOpcode::CALL {
            lemma_frame_slots_distinct(fp);
            let a1 = sub_spec(fp as int, 1) as u64;
            let a2 = sub_spec(fp as int, 2) as u64;
            let saved = read_value(m, a2).unwrap();
            lemma_read_value_canonical(m, a2);
            let c1 = read_cell(s, OlaOpcode::CALL, saved);
            lemma_access(m, a2, c1, s.clk, fresh);
            let m1 = record(m, a2, c1);
            let ret = (s.pc + ins.spec_binary_length()) as u64;
            let c2 = write_cell(s, OlaOpcode::CALL, ret);
            lemma_record_other(m, a2, c1, a1);
            crate::memory::lemma_record_wf(m1, a1, c2, s.clk);
            if fresh {
                if lookup(m, a1) is Some {
                    lemma_last_clock(m, a1, s.clk as int);
                }
                lemma_record_strict(m1, a1, c2, s.clk as int);
            }
        } else if ins.opcode == OlaOpcode::RET {
            lemma_frame_slots_distinct(fp);
            let a1 = sub_spec(fp as int, 1) as u64;
            let a2 = sub_spec(fp as int, 2) as u64;
            let ret = read_value(m, a1).unwrap();
            lemma_read_value_canonical(m, a1);
            let c1 = read_cell(s, OlaOpcode::RET, ret);
            lemma_access(m, a1, c1, s.clk, fresh);
            let m1 = record(m, a1, c1);
            let saved = read_value(m1, a2).unwrap();
            lemma_read_value_canonical(m1, a2);
            let c2 = read_cell(s, OlaOpcode::RET, saved);
            lemma_record_other(m, a1, c1, a2);
            crate::memory::lemma_record_wf(m1, a2, c2, s.clk);
            if fresh {
                if lookup(m, a2) is Some {
                    lemma_last_clock(m, a2, s.clk as int);
                }
                lemma_record_strict(m1, a2, c2, s.clk as int);
            }
            assert(o.state.registers =~= s.registers.update(8, saved));
        } else {
            assert(o.state.memory == m);
            if fresh {
                assert(clocks_below(m, s.clk + 1));
            }
        }
    }
}

/// A run without prophets, from a state whose accesses all lie before its clock, keeps
/// the machine invariant and leaves histories with strictly increasing clocks.
pub proof fn lemma_run_clocks_strict(s: MachineState, prog: Seq<BinaryInstruction>, fuel: nat)
    requires
        state_wf(s),
        clocks_fresh(s.memory, s.clk as int),
    ensures
        run_spec(s, prog, Seq::<u64>::empty(), fuel) matches Ok(o) ==> state_wf(o.state) && clocks_strict(
            o.state.memory,
        ),
    decreases fuel,
{
    if fuel > 0 {
        if let Some(ins) = fetch(prog, s.pc as int) {
            lemma_step_preserves(s, ins, true);
            if let Ok(o1) = step_spec(s, ins) {
                lemma_step_clock(s, ins);
                assert(!is_prophet_host(Seq::<u64>::empty(), s.pc));
                if !o1.ended {
                    lemma_run_clocks_strict(o1.state, prog, (fuel - 1) as nat);
                }
            }
        }
    }
}

/// In the memory trace after a run without prophets from a fresh machine state, the
/// clocks of consecutive rows of one address strictly increase.
pub proof fn lemma_run_memory_trace_strict(
    s: MachineState,
    prog: Seq<BinaryInstruction>,
    fuel: nat,
    rows: Seq<MemoryTraceRow>,
)
    requires
        state_wf(s),
        clocks_fresh(s.memory, s.clk as int),
        run_spec(s, prog, Seq::<u64>::empty(), fuel) matches Ok(o) && rows_match(cells_flat(o.state.memory), rows),
    ensures
        forall|i: int|
            0 < i < rows.len() && rows[i - 1].addr == #[trigger] rows[i].addr ==> rows[i - 1].clk
                < rows[i].clk,
{
    lemma_run_clocks_strict(s, prog, fuel);
    let o = run_spec(s, prog, Seq::<u64>::empty(), fuel).unwrap();
    lemma_memory_trace_clk_strict(o.state.memory, rows);
}

/// In any program, reaching `assert r0 r1` with R0 different from R1 halts the run with
/// `AssertFail`; with R0 equal to R1 the step succeeds and the run goes on from the next
/// instruction.
pub proof fn lemma_assert_in_any_program(s: MachineState, prog: Seq<BinaryInstruction>, hosts: Seq<u64>, fuel: nat)
    requires
        fuel > 0,
        fetch(prog, s.pc as int) == Some(assert_r0_r1()),
        s.registers.len() == 9,
        s.clk < u32::MAX,
        s.pc + 1 < ORDER,
    ensures
        s.registers[0] != s.registers[1] ==> run_spec(s, prog, hosts, fuel) == Err::<RunOutput, ProcessorError>(
            ProcessorError::AssertFail,
        ),
        s.registers[0] == s.registers[1] ==> (step_spec(s, assert_r0_r1()) matches Ok(o) && o.state.pc == s.pc + 1
            && o.state.registers == s.registers && o.state.memory == s.memory && !o.ended),
{
    lemma_assert_soundness(s);
    reveal(step_spec);
}

} // verus!
