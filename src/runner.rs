//! Running programs: the trace collector, the execution loop and its specification,
//! and a step-by-step runner.
use vstd::prelude::*;
use crate::instruction::BinaryInstruction;
use crate::process::{step_spec, MachineState, Process, ProcessorError, StepOutput, StepRecord};
use crate::program::{decode_program, decode_words, fetch, is_prophet_host, BinaryProgram, OlaProphet};
use crate::text::{hex_words_from, parse_hex_words};
use crate::services::{hash_step_spec, HashResult, HashRow};
use crate::trace::{BitwiseRow, ComparisonRow, CpuRow, CpuRowModel, RangeCheckRow};

verus! {

/// Rows collected from executed steps, in execution order.
#[derive(Debug)]
pub struct IntermediateTraceCollector {
    pub cpu: Vec<CpuRow>,
    pub range_check: Vec<RangeCheckRow>,
    pub bitwise: Vec<BitwiseRow>,
    pub comparison: Vec<ComparisonRow>,
}

pub struct TraceModel {
    pub cpu: Seq<CpuRowModel>,
    pub range_check: Seq<RangeCheckRow>,
    pub bitwise: Seq<BitwiseRow>,
    pub comparison: Seq<ComparisonRow>,
}

pub open spec fn empty_trace() -> TraceModel {
    TraceModel { cpu: Seq::empty(), range_check: Seq::empty(), bitwise: Seq::empty(), comparison: Seq::empty() }
}

pub open spec fn concat_trace(a: TraceModel, b: TraceModel) -> TraceModel {
    TraceModel {
        cpu: a.cpu + b.cpu,
        range_check: a.range_check + b.range_check,
        bitwise: a.bitwise + b.bitwise,
        comparison: a.comparison + b.comparison,
    }
}

/// Why a run stopped without a fault.
#[derive(Debug, Clone, Copy, PartialEq, Eq, Structural)]
pub enum RunStatus {
    /// `END` was executed.
    Ended,
    /// The instruction at `host` carries a prophet, which must run before execution goes on.
    ProphetDue { host: u64 },
    /// The instruction at the PC is `poseidon`, `sload` or `sstore`; it has not run, and
    /// waits for its hash.
    HashDue,
}

pub struct RunOutput {
    pub status: RunStatus,
    pub state: MachineState,
    pub trace: TraceModel,
}

/// Executes from `s` until `END`, a fault, or a prophet host; `fuel` bounds the number of
/// steps.
pub open spec fn run_spec(s: MachineState, prog: Seq<BinaryInstruction>, hosts: Seq<u64>, fuel: nat) -> Result<
    RunOutput,
    ProcessorError,
>
    decreases fuel,
{
    if fuel == 0 {
        Err(ProcessorError::ClockOverflow)
    } else {
        match fetch(prog, s.pc as int) {
            None => Err(ProcessorError::UnresolvedPC),
            Some(ins) => match step_spec(s, ins) {
                Err(e) => if e == ProcessorError::HashServiceDue {
                    Ok(RunOutput { status: RunStatus::HashDue, state: s, trace: empty_trace() })
                } else {
                    Err(e)
                },
                Ok(o) => {
                    let rows = TraceModel {
                        cpu: seq![o.cpu],
                        range_check: o.range_check,
                        bitwise: o.bitwise,
                        comparison: o.comparison,
                    };
                    if o.ended {
                        Ok(RunOutput { status: RunStatus::Ended, state: o.state, trace: rows })
                    } else if is_prophet_host(hosts, s.pc) {
                        Ok(RunOutput { status: RunStatus::ProphetDue { host: s.pc }, state: o.state, trace: rows })
                    } else {
                        match run_spec(o.state, prog, hosts, (fuel - 1) as nat) {
                            Err(e) => Err(e),
                            Ok(rest) => Ok(
                                RunOutput { status: rest.status, state: rest.state, trace: concat_trace(rows, rest.trace) },
                            ),
                        }
                    }
                },
            },
        }
    }
}

/// The number of steps a run can take before the clock would overflow.
pub open spec fn clock_fuel(clk: u32) -> nat {
    (u32::MAX - clk + 1) as nat
}

impl IntermediateTraceCollector {
    pub open spec fn view(&self) -> TraceModel {
        TraceModel {
            cpu: self.cpu@.map_values(|r: CpuRow| r@),
            range_check: self.range_check@,
            bitwise: self.bitwise@,
            comparison: self.comparison@,
        }
    }

    pub fn new() -> (t: IntermediateTraceCollector)
        ensures
            t@ == empty_trace(),
    {
        let t = IntermediateTraceCollector {
            cpu: Vec::new(),
            range_check: Vec::new(),
            bitwise: Vec::new(),
            comparison: Vec::new(),
        };
        assert(t@.cpu =~= Seq::<CpuRowModel>::empty());
        t
    }

    /// Adds the rows of one step.
    pub fn append(&mut self, rec: StepRecord)
        ensures
            final(self)@ == concat_trace(
                old(self)@,
                TraceModel {
                    cpu: seq![rec.cpu@],
                    range_check: rec.range_check@,
                    bitwise: rec.bitwise@,
                    comparison: rec.comparison@,
                },
            ),
    {
        let StepRecord { cpu, mut range_check, mut bitwise, mut comparison, ended: _ } = rec;
        let ghost cpu_view = cpu@;
        self.cpu.push(cpu);
        self.range_check.append(&mut range_check);
        self.bitwise.append(&mut bitwise);
        self.comparison.append(&mut comparison);
        assert(self@.cpu =~= old(self)@.cpu + seq![cpu_view]);
        assert(self@.range_check =~= old(self)@.range_check + rec.range_check@);
        assert(self@.bitwise =~= old(self)@.bitwise + rec.bitwise@);
        assert(self@.comparison =~= old(self)@.comparison + rec.comparison@);
    }
}

proof fn lemma_concat_assoc(a: TraceModel, b: TraceModel, c: TraceModel)
    ensures
        concat_trace(concat_trace(a, b), c) == concat_trace(a, concat_trace(b, c)),
{
    assert(concat_trace(concat_trace(a, b), c).cpu =~= concat_trace(a, concat_trace(b, c)).cpu);
    assert(concat_trace(concat_trace(a, b), c).range_check =~= concat_trace(a, concat_trace(b, c)).range_check);
    assert(concat_trace(concat_trace(a, b), c).bitwise =~= concat_trace(a, concat_trace(b, c)).bitwise);
    assert(concat_trace(concat_trace(a, b), c).comparison =~= concat_trace(a, concat_trace(b, c)).comparison);
}

/// `r` with `acc` in front of its trace.
pub open spec fn prefixed(acc: TraceModel, r: Result<RunOutput, ProcessorError>) -> Result<
    RunOutput,
    ProcessorError,
> {
    match r {
        Err(e) => Err(e),
        Ok(o) => Ok(RunOutput { status: o.status, state: o.state, trace: concat_trace(acc, o.trace) }),
    }
}

proof fn lemma_run_unfold(
    s: MachineState,
    prog: Seq<BinaryInstruction>,
    hosts: Seq<u64>,
    fuel: nat,
    ins: BinaryInstruction,
    o: StepOutput,
)
    requires
        fuel > 0,
        fetch(prog, s.pc as int) == Some(ins),
        step_spec(s, ins) == Ok::<StepOutput, ProcessorError>(o),
    ensures
        ({
            let rows = TraceModel {
                cpu: seq![o.cpu],
                range_check: o.range_check,
                bitwise: o.bitwise,
                comparison: o.comparison,
            };
            run_spec(s, prog, hosts, fuel) == if o.ended {
                Ok(RunOutput { status: RunStatus::Ended, state: o.state, trace: rows })
            } else if is_prophet_host(hosts, s.pc) {
                Ok(RunOutput { status: RunStatus::ProphetDue { host: s.pc }, state: o.state, trace: rows })
            } else {
                prefixed(rows, run_spec(o.state, prog, hosts, (fuel - 1) as nat))
            }
        }),
{
}

impl Process {
    /// Runs `program` from the current state until `END`, a fault, or an instruction that
    /// carries a prophet, appending the rows of every step to `trace`.
    #[verifier::rlimit(60)]
    pub fn execute(&mut self, program: &BinaryProgram, trace: &mut IntermediateTraceCollector) -> (r:
        Result<RunStatus, ProcessorError>)
        requires
            old(self).wf(),
        ensures
            final(self).wf(),
            match run_spec(
                old(self).model(),
                program.instructions@,
                program.prophet_hosts(),
                clock_fuel(old(self).clk),
            ) {
                Err(e) => r == Err::<RunStatus, ProcessorError>(e),
                Ok(o) => r == Ok::<RunStatus, ProcessorError>(o.status) && final(self).model() == o.state
                    && final(trace)@ == concat_trace(old(trace)@, o.trace),
            },
            r is Err ==> exists|rows: TraceModel| final(trace)@ == concat_trace(old(trace)@, rows),
    {
        let ghost s0 = self.model();
        let ghost prog = program.instructions@;
        let ghost hosts = program.prophet_hosts();
        let ghost t0 = trace@;
        let mut fuel: u64 = (u32::MAX - self.clk) as u64 + 1;
        assert(concat_trace(t0, empty_trace()) == t0) by {
            assert(concat_trace(t0, empty_trace()).cpu =~= t0.cpu);
            assert(concat_trace(t0, empty_trace()).range_check =~= t0.range_check);
            assert(concat_trace(t0, empty_trace()).bitwise =~= t0.bitwise);
            assert(concat_trace(t0, empty_trace()).comparison =~= t0.comparison);
        }
        let ghost mut acc = empty_trace();
        assert(prefixed(empty_trace(), run_spec(s0, prog, hosts, fuel as nat)) == run_spec(s0, prog, hosts, fuel as nat)) by {
            match run_spec(s0, prog, hosts, fuel as nat) {
                Err(e) => {},
                Ok(o) => {
                    assert(concat_trace(empty_trace(), o.trace).cpu =~= o.trace.cpu);
                    assert(concat_trace(empty_trace(), o.trace).range_check =~= o.trace.range_check);
                    assert(concat_trace(empty_trace(), o.trace).bitwise =~= o.trace.bitwise);
                    assert(concat_trace(empty_trace(), o.trace).comparison =~= o.trace.comparison);
                },
            }
        }
        while fuel > 0
            invariant
                self.wf(),
                s0 == old(self).model(),
                t0 == old(trace)@,
                prog == program.instructions@,
                hosts == program.prophet_hosts(),
                run_spec(s0, prog, hosts, clock_fuel(s0.clk)) == prefixed(
                    acc,
                    run_spec(self.model(), prog, hosts, fuel as nat),
                ),
                trace@ == concat_trace(t0, acc),
            decreases fuel,
        {
            let ins = match program.instruction_at(self.pc) {
                Some(ins) => ins,
                None => {
                    assert(run_spec(self.model(), prog, hosts, fuel as nat) == Err::<
                        RunOutput,
                        ProcessorError,
                    >(ProcessorError::UnresolvedPC));
                    return Err(ProcessorError::UnresolvedPC);
                },
            };
            let ghost s = self.model();
            let host = self.pc;
            let rec = match self.execute_instruction(&ins) {
                Ok(rec) => rec,
                Err(e) => {
                    assert(step_spec(s, ins) == Err::<StepOutput, ProcessorError>(e));
                    if e == ProcessorError::HashServiceDue {
                        assert(concat_trace(acc, empty_trace()) == acc) by {
                            assert(concat_trace(acc, empty_trace()).cpu =~= acc.cpu);
                            assert(concat_trace(acc, empty_trace()).range_check =~= acc.range_check);
                            assert(concat_trace(acc, empty_trace()).bitwise =~= acc.bitwise);
                            assert(concat_trace(acc, empty_trace()).comparison =~= acc.comparison);
                        }
                        return Ok(RunStatus::HashDue);
                    }
                    assert(run_spec(s, prog, hosts, fuel as nat) == Err::<RunOutput, ProcessorError>(e));
                    return Err(e);
                },
            };
            let ended = rec.ended;
            proof {
                let o = StepOutput {
                    state: self.model(),
                    cpu: rec.cpu@,
                    range_check: rec.range_check@,
                    bitwise: rec.bitwise@,
                    comparison: rec.comparison@,
                    ended: rec.ended,
                };
                assert(step_spec(s, ins) == Ok::<StepOutput, ProcessorError>(o));
                lemma_run_unfold(s, prog, hosts, fuel as nat, ins, o);
            }
            let ghost rows = TraceModel {
                cpu: seq![rec.cpu@],
                range_check: rec.range_check@,
                bitwise: rec.bitwise@,
                comparison: rec.comparison@,
            };
            trace.append(rec);
            proof {
                lemma_concat_assoc(t0, acc, rows);
            }
            if ended {
                return Ok(RunStatus::Ended);
            }
            if program.has_prophet(host) {
                assert(is_prophet_host(hosts, s.pc));
                return Ok(RunStatus::ProphetDue { host });
            }
            proof {
                match run_spec(self.model(), prog, hosts, (fuel - 1) as nat) {
                    Err(e) => {},
                    Ok(o) => {
                        lemma_concat_assoc(acc, rows, o.trace);
                    },
                }
                acc = concat_trace(acc, rows);
            }
            fuel = fuel - 1;
        }
        Err(ProcessorError::ClockOverflow)
    }
}

/// What a single step of the runner leads to.
#[derive(Debug, Clone, Copy, PartialEq, Eq, Structural)]
pub enum StepOutcome {
    Continue,
    Ended,
    /// The executed instruction carries the prophet with this index; it must run next.
    ProphetDue { index: usize },
    /// The instruction at the PC is `poseidon`, `sload` or `sstore`: nothing was executed,
    /// and the step is completed by `complete_hash_step` with the hash of its input.
    HashDue,
}

#[derive(Debug, Clone, Copy, PartialEq, Eq, Structural)]
pub enum ProgramError {
    /// The text is not a sequence of `0x` field elements.
    BadText,
    /// The field elements do not decode to instructions.
    BadEncoding,
}

/// A program being executed one step at a time, with its collected trace.
#[derive(Debug)]
pub struct OlaRunner {
    pub program: BinaryProgram,
    pub process: Process,
    pub trace_collector: IntermediateTraceCollector,
    pub is_ended: bool,
    /// Rows of the completed hash steps, in execution order.
    pub hash_rows: Vec<HashRow>,
}

impl OlaRunner {
    pub open spec fn wf(&self) -> bool {
        self.process.wf()
    }

    /// A runner at the start of `instructions`, laid out from PC 0.
    pub fn new_from_instruction_vec(instructions: Vec<BinaryInstruction>, prophets: Vec<OlaProphet>) -> (r:
        OlaRunner)
        ensures
            r.wf(),
            r.program.instructions@ == instructions@,
            r.program.prophets@ == prophets@,
            r.process.clk == 0,
            r.process.pc == 0,
            r.process.registers@ == Seq::new(9, |i: int| 0u64),
            r.process.psp == crate::memory::PSP_START_ADDR,
            r.process.hp == crate::memory::ECDSA_START_ADDR,
            r.process.memory@ == Seq::<crate::memory::HistoryModel>::empty(),
            r.trace_collector@ == empty_trace(),
            !r.is_ended,
    {
        OlaRunner {
            program: BinaryProgram { instructions, prophets, source: Vec::new() },
            process: Process::new(),
            trace_collector: IntermediateTraceCollector::new(),
            is_ended: false,
            hash_rows: Vec::new(),
        }
    }

    /// A runner for a program text: field elements in `0x` hexadecimal, separated by
    /// spaces or line breaks.
    pub fn new_from_program_file(text: &str) -> (r: Result<OlaRunner, ProgramError>)
        ensures
            match hex_words_from(text@, 0) {
                None => r == Err::<OlaRunner, ProgramError>(ProgramError::BadText),
                Some(words) => match decode_words(words) {
                    None => r == Err::<OlaRunner, ProgramError>(ProgramError::BadEncoding),
                    Some(instrs) => r matches Ok(runner) && runner.wf() && runner.program.instructions@
                        == instrs && runner.program.prophets@.len() == 0 && runner.process.clk == 0
                        && runner.process.pc == 0 && !runner.is_ended,
                },
            },
    {
        let words = match parse_hex_words(text) {
            Some(w) => w,
            None => {
                return Err(ProgramError::BadText);
            },
        };
        match decode_program(&words) {
            Some(instrs) => Ok(OlaRunner::new_from_instruction_vec(instrs, Vec::new())),
            None => Err(ProgramError::BadEncoding),
        }
    }

    /// Executes the instruction at the current PC and collects its rows. Fails after `END`,
    /// when no instruction starts at the PC, or when the step faults.
    pub fn run_one_step(&mut self) -> (r: Result<StepOutcome, ProcessorError>)
        requires
            old(self).wf(),
        ensures
            final(self).wf(),
            final(self).program == old(self).program,
            (r is Err || r == Ok::<StepOutcome, ProcessorError>(StepOutcome::HashDue)) ==> final(self).process.model() == old(self).process.model()
                && final(self).trace_collector@ == old(self).trace_collector@
                && final(self).is_ended == old(self).is_ended,
            old(self).is_ended ==> r == Err::<StepOutcome, ProcessorError>(ProcessorError::RunAfterEnded)
                && final(self).process.model() == old(self).process.model() && final(self).trace_collector@
                == old(self).trace_collector@ && final(self).is_ended,
            !old(self).is_ended ==> match fetch(old(self).program.instructions@, old(self).process.pc as int) {
                None => r == Err::<StepOutcome, ProcessorError>(ProcessorError::UnresolvedPC),
                Some(ins) => match step_spec(old(self).process.model(), ins) {
                    Err(e) => if e == ProcessorError::HashServiceDue {
                        r == Ok::<StepOutcome, ProcessorError>(StepOutcome::HashDue)
                    } else {
                        r == Err::<StepOutcome, ProcessorError>(e)
                    },
                    Ok(o) => final(self).process.model() == o.state && final(self).trace_collector@
                        == concat_trace(
                        old(self).trace_collector@,
                        TraceModel {
                            cpu: seq![o.cpu],
                            range_check: o.range_check,
                            bitwise: o.bitwise,
                            comparison: o.comparison,
                        },
                    ) && final(self).is_ended == o.ended && (if o.ended {
                        r == Ok::<StepOutcome, ProcessorError>(StepOutcome::Ended)
                    } else if is_prophet_host(old(self).program.prophet_hosts(), old(self).process.pc) {
                        r matches Ok(StepOutcome::ProphetDue { index }) && index < old(self).program.prophets@.len()
                            && old(self).program.prophets@[index as int].host == old(self).process.pc
                    } else {
                        r == Ok::<StepOutcome, ProcessorError>(StepOutcome::Continue)
                    }),
                },
            },
    {
        if self.is_ended {
            return Err(ProcessorError::RunAfterEnded);
        }
        let pc = self.process.pc;
        let ins = match self.program.instruction_at(pc) {
            Some(ins) => ins,
            None => {
                return Err(ProcessorError::UnresolvedPC);
            },
        };
        let rec = match self.process.execute_instruction(&ins) {
            Ok(rec) => rec,
            Err(e) => {
                if e == ProcessorError::HashServiceDue {
                    return Ok(StepOutcome::HashDue);
                }
                return Err(e);
            },
        };
        let ended = rec.ended;
        self.trace_collector.append(rec);
        if ended {
            self.is_ended = true;
            return Ok(StepOutcome::Ended);
        }
        match self.program.prophet_index(pc) {
            Some(index) => {
                proof {
                    assert(self.program.prophet_hosts()[index as int] == pc);
                }
                Ok(StepOutcome::ProphetDue { index })
            },
            None => Ok(StepOutcome::Continue),
        }
    }
}

impl OlaRunner {
    /// Completes the `poseidon`, `sload` or `sstore` step at the PC with the hash the caller
    /// computed, collecting its CPU row and hash row.
    pub fn complete_hash_step(&mut self, res: &HashResult) -> (r: Result<StepOutcome, ProcessorError>)
        requires
            old(self).wf(),
        ensures
            final(self).wf(),
            final(self).program == old(self).program,
            old(self).is_ended ==> r == Err::<StepOutcome, ProcessorError>(ProcessorError::RunAfterEnded),
            !old(self).is_ended ==> match fetch(old(self).program.instructions@, old(self).process.pc as int) {
                None => r == Err::<StepOutcome, ProcessorError>(ProcessorError::UnresolvedPC),
                Some(ins) => match hash_step_spec(old(self).process.model(), old(self).process.storage_log@, ins, *res) {
                    Err(e) => r == Err::<StepOutcome, ProcessorError>(e) && final(self).process.model()
                        == old(self).process.model(),
                    Ok((s1, log1, row, hrow)) => final(self).process.model() == s1
                        && final(self).process.storage_log@ == log1 && final(self).trace_collector@
                        == concat_trace(
                        old(self).trace_collector@,
                        TraceModel {
                            cpu: seq![row],
                            range_check: Seq::empty(),
                            bitwise: Seq::empty(),
                            comparison: Seq::empty(),
                        },
                    ) && final(self).hash_rows@ == old(self).hash_rows@.push(hrow) && (if is_prophet_host(
                        old(self).program.prophet_hosts(),
                        old(self).process.pc,
                    ) {
                        r matches Ok(StepOutcome::ProphetDue { .. })
                    } else {
                        r == Ok::<StepOutcome, ProcessorError>(StepOutcome::Continue)
                    }),
                },
            },
    {
        if self.is_ended {
            return Err(ProcessorError::RunAfterEnded);
        }
        let pc = self.process.pc;
        let ins = match self.program.instruction_at(pc) {
            Some(ins) => ins,
            None => {
                return Err(ProcessorError::UnresolvedPC);
            },
        };
        let (cpu, hrow) = match self.process.complete_hash_step(&ins, res) {
            Ok(x) => x,
            Err(e) => {
                return Err(e);
            },
        };
        let range_check: Vec<RangeCheckRow> = Vec::new();
        let bitwise: Vec<BitwiseRow> = Vec::new();
        let comparison: Vec<ComparisonRow> = Vec::new();
        self.trace_collector.append(StepRecord { cpu, range_check, bitwise, comparison, ended: false });
        self.hash_rows.push(hrow);
        match self.program.prophet_index(pc) {
            Some(index) => {
                proof {
                    assert(self.program.prophet_hosts()[index as int] == pc);
                }
                Ok(StepOutcome::ProphetDue { index })
            },
            None => Ok(StepOutcome::Continue),
        }
    }
}

} // verus!
