//! Steps that need a Poseidon hash from outside: `poseidon`, `sload` and `sstore`. The
//! machine stops before such a step with its hash input; the caller computes the hash and
//! hands it back, and the step is then completed here.
use vstd::prelude::*;
use crate::field::ORDER;
use crate::instruction::{BinaryInstruction, OlaOpcode};
use crate::process::{cpu_row, log_canonical, with_pc, MachineState, Process, ProcessorError, StorageAccess};
use crate::trace::{CpuRow, CpuRowModel};

verus! {

/// What the caller computed for a hash step. For `poseidon`, `output` holds the first four
/// elements of the permutation of R1..R8; for `sload` and `sstore` it holds the tree key
/// of the slot R1..R4. For `sload`, `stored` is the value the account tree holds at that
/// key, if any.
#[derive(Debug, Clone, Copy)]
pub struct HashResult {
    pub output: [u64; 4],
    pub stored: Option<[u64; 4]>,
}

/// The hash row a completed hash step emits.
#[derive(Debug, Clone, Copy)]
pub struct HashRow {
    pub clk: u32,
    pub opcode: u64,
    pub output: [u64; 4],
}

pub open spec fn is_hash_op(op: OlaOpcode) -> bool {
    op == OlaOpcode::POSEIDON || op == OlaOpcode::SLOAD || op == OlaOpcode::SSTORE
}

pub open spec fn canonical4(a: [u64; 4]) -> bool {
    a[0] < ORDER && a[1] < ORDER && a[2] < ORDER && a[3] < ORDER
}

/// The value last written to or read from `key` in the storage log.
pub open spec fn latest_value(log: Seq<StorageAccess>, key: [u64; 4]) -> Option<[u64; 4]>
    decreases log.len(),
{
    if log.len() == 0 {
        None
    } else if log.last().tree_key@ == key@ {
        Some(log.last().value)
    } else {
        latest_value(log.drop_last(), key)
    }
}

/// R1..R4 set to `v`.
pub open spec fn with_r1_r4(s: MachineState, v: [u64; 4]) -> MachineState {
    MachineState {
        clk: s.clk,
        pc: s.pc,
        registers: s.registers.update(1, v[0]).update(2, v[1]).update(3, v[2]).update(4, v[3]),
        psp: s.psp,
        hp: s.hp,
        memory: s.memory,
    }
}

/// What a hash step yields for a given hash: the state after it, the storage log after it,
/// its CPU row and its hash row.
pub open spec fn hash_step_spec(
    s: MachineState,
    log: Seq<StorageAccess>,
    ins: BinaryInstruction,
    res: HashResult,
) -> Result<(MachineState, Seq<StorageAccess>, CpuRowModel, HashRow), ProcessorError> {
    let next_pc = s.pc + ins.spec_binary_length();
    let row = cpu_row(s, ins, 0, 0, 0, 0, 0);
    let hrow = HashRow { clk: s.clk, opcode: ins.opcode.spec_mask(), output: res.output };
    let next = with_pc(s, next_pc as u64);
    if !is_hash_op(ins.opcode) {
        Err(ProcessorError::BadOperandShape)
    } else if s.clk == u32::MAX {
        Err(ProcessorError::ClockOverflow)
    } else if next_pc >= ORDER {
        Err(ProcessorError::UnresolvedPC)
    } else if !canonical4(res.output) {
        Err(ProcessorError::FieldOverflow)
    } else if ins.opcode == OlaOpcode::POSEIDON {
        Ok((with_r1_r4(next, res.output), log, row, hrow))
    } else if ins.opcode == OlaOpcode::SSTORE {
        let value = [s.registers[5], s.registers[6], s.registers[7], s.registers[8]];
        Ok((next, log.push(StorageAccess { clk: s.clk, op: ins.opcode.spec_mask(), tree_key: res.output, value }), row, hrow))
    } else {
        let value = match latest_value(log, res.output) {
            Some(v) => Some(v),
            None => match res.stored {
                Some(v) => if canonical4(v) {
                    Some(v)
                } else {
                    None
                },
                None => Some([0u64, 0u64, 0u64, 0u64]),
            },
        };
        match value {
            None => Err(ProcessorError::FieldOverflow),
            Some(v) => Ok(
                (
                    with_r1_r4(next, v),
                    log.push(StorageAccess { clk: s.clk, op: ins.opcode.spec_mask(), tree_key: res.output, value: v }),
                    row,
                    hrow,
                ),
            ),
        }
    }
}

proof fn lemma_latest_canonical(log: Seq<StorageAccess>, key: [u64; 4])
    requires
        log_canonical(log),
    ensures
        latest_value(log, key) matches Some(v) ==> canonical4(v),
    decreases log.len(),
{
    if log.len() > 0 {
        assert(log_canonical(log.drop_last())) by {
            assert forall|i: int| 0 <= i < log.drop_last().len() implies #[trigger] log.drop_last()[i].value[0] < ORDER
                && log.drop_last()[i].value[1] < ORDER && log.drop_last()[i].value[2] < ORDER
                && log.drop_last()[i].value[3] < ORDER by {
                assert(log.drop_last()[i] == log[i]);
            }
        }
        assert(log[log.len() - 1] == log.last());
        lemma_latest_canonical(log.drop_last(), key);
    }
}

fn keys_equal(a: &[u64; 4], b: &[u64; 4]) -> (r: bool)
    ensures
        r == (a@ == b@),
{
    let r = a[0] == b[0] && a[1] == b[1] && a[2] == b[2] && a[3] == b[3];
    if r {
        assert(a@ =~= b@);
    } else {
        assert(a@ != b@) by {
            if a@ == b@ {
                assert(a@[0] == b@[0] && a@[1] == b@[1] && a@[2] == b@[2] && a@[3] == b@[3]);
            }
        }
    }
    r
}

fn canonical4_exec(a: &[u64; 4]) -> (r: bool)
    ensures
        r == canonical4(*a),
{
    a[0] < ORDER && a[1] < ORDER && a[2] < ORDER && a[3] < ORDER
}

impl Process {
    /// The input a hash step needs: R1..R8 for `poseidon`, the slot R1..R4 otherwise.
    pub fn hash_input(&self, ins: &BinaryInstruction) -> (r: Vec<u64>)
        requires
            self.wf(),
        ensures
            ins.opcode == OlaOpcode::POSEIDON ==> r@ == self.registers@.subrange(1, 9),
            ins.opcode != OlaOpcode::POSEIDON ==> r@ == self.registers@.subrange(1, 5),
    {
        let end: usize = if ins.opcode == OlaOpcode::POSEIDON {
            9
        } else {
            5
        };
        let mut r: Vec<u64> = Vec::new();
        let mut i: usize = 1;
        while i < end
            invariant
                1 <= i <= end,
                end <= 9,
                self.registers@.len() == 9,
                r@ == self.registers@.subrange(1, i as int),
            decreases end - i,
        {
            r.push(self.registers[i]);
            i = i + 1;
            assert(r@ =~= self.registers@.subrange(1, i as int));
        }
        r
    }

    fn latest_value(&self, key: &[u64; 4]) -> (r: Option<[u64; 4]>)
        ensures
            r == latest_value(self.storage_log@, *key),
    {
        let mut i = self.storage_log.len();
        assert(self.storage_log@.subrange(0, i as int) =~= self.storage_log@);
        while i > 0
            invariant
                i <= self.storage_log@.len(),
                latest_value(self.storage_log@, *key) == latest_value(self.storage_log@.subrange(0, i as int), *key),
            decreases i,
        {
            let ghost sub = self.storage_log@.subrange(0, i as int);
            if keys_equal(&self.storage_log[i - 1].tree_key, key) {
                return Some(self.storage_log[i - 1].value);
            }
            assert(sub.drop_last() =~= self.storage_log@.subrange(0, i - 1));
            i = i - 1;
        }
        None
    }

    fn set_r1_r4(&mut self, v: [u64; 4])
        requires
            old(self).wf(),
            canonical4(v),
        ensures
            final(self).wf(),
            final(self).model() == with_r1_r4(old(self).model(), v),
            final(self).storage_log == old(self).storage_log,
    {
        self.registers[1] = v[0];
        self.registers[2] = v[1];
        self.registers[3] = v[2];
        self.registers[4] = v[3];
        assert(self.registers@ =~= old(self).registers@.update(1, v[0]).update(2, v[1]).update(3, v[2]).update(4, v[3]));
    }

    /// Completes a `poseidon`, `sload` or `sstore` step with the hash the caller computed:
    /// `poseidon` puts the output in R1..R4; `sstore` logs R5..R8 under the tree key;
    /// `sload` puts in R1..R4 the value last logged under the key, else the account tree's
    /// value, else zero, and logs it.
    pub fn complete_hash_step(&mut self, ins: &BinaryInstruction, res: &HashResult) -> (r: Result<
        (CpuRow, HashRow),
        ProcessorError,
    >)
        requires
            old(self).wf(),
        ensures
            final(self).wf(),
            match hash_step_spec(old(self).model(), old(self).storage_log@, *ins, *res) {
                Err(e) => r matches Err(x) && x == e && final(self).model() == old(self).model()
                    && final(self).storage_log@ == old(self).storage_log@,
                Ok((s1, log1, row, hrow)) => r matches Ok((c, h)) && c@ == row && h == hrow
                    && final(self).model() == s1 && final(self).storage_log@ == log1,
            },
    {
        if !(ins.opcode == OlaOpcode::POSEIDON || ins.opcode == OlaOpcode::SLOAD || ins.opcode
            == OlaOpcode::SSTORE) {
            return Err(ProcessorError::BadOperandShape);
        }
        if self.clk == u32::MAX {
            return Err(ProcessorError::ClockOverflow);
        }
        let len = ins.binary_length();
        if self.pc >= ORDER - len {
            return Err(ProcessorError::UnresolvedPC);
        }
        if !canonical4_exec(&res.output) {
            return Err(ProcessorError::FieldOverflow);
        }
        let value: [u64; 4] = if ins.opcode == OlaOpcode::POSEIDON {
            res.output
        } else if ins.opcode == OlaOpcode::SSTORE {
            [self.registers[5], self.registers[6], self.registers[7], self.registers[8]]
        } else {
            match self.latest_value(&res.output) {
                Some(v) => v,
                None => match res.stored {
                    Some(v) => {
                        if canonical4_exec(&v) {
                            v
                        } else {
                            return Err(ProcessorError::FieldOverflow);
                        }
                    },
                    None => [0u64, 0u64, 0u64, 0u64],
                },
            }
        };
        let row = self.row(ins, 0, 0, 0, 0, 0);
        let hrow = HashRow { clk: self.clk, opcode: ins.opcode.binary_bit_mask(), output: res.output };
        let clk = self.clk;
        let ghost log0 = self.storage_log@;
        proof {
            lemma_latest_canonical(log0, res.output);
        }
        if ins.opcode != OlaOpcode::POSEIDON {
            self.storage_log.push(StorageAccess {
                clk,
                op: ins.opcode.binary_bit_mask(),
                tree_key: res.output,
                value,
            });
        }
        proof {
            assert forall|i: int| 0 <= i < self.storage_log@.len() implies #[trigger] self.storage_log@[i].value[0]
                < ORDER && self.storage_log@[i].value[1] < ORDER && self.storage_log@[i].value[2] < ORDER
                && self.storage_log@[i].value[3] < ORDER by {
                if i < log0.len() {
                    assert(self.storage_log@[i] == log0[i]);
                }
            }
        }
        let next_pc = self.pc + len;
        self.advance(next_pc);
        if ins.opcode != OlaOpcode::SSTORE {
            self.set_r1_r4(value);
        }
        proof {
            let s0 = old(self).model();
            assert(row@ == cpu_row(s0, *ins, 0, 0, 0, 0, 0));
            if ins.opcode == OlaOpcode::SSTORE {
                assert(value == [s0.registers[5], s0.registers[6], s0.registers[7], s0.registers[8]]);
                assert(self.model() == with_pc(s0, next_pc));
            } else if ins.opcode == OlaOpcode::POSEIDON {
                assert(self.model() == with_r1_r4(with_pc(s0, next_pc), res.output));
            } else {
                assert(self.model() == with_r1_r4(with_pc(s0, next_pc), value));
            }
            if ins.opcode != OlaOpcode::POSEIDON {
                assert(self.storage_log@ == log0.push(
                    StorageAccess { clk: s0.clk, op: ins.opcode.spec_mask(), tree_key: res.output, value },
                ));
            } else {
                assert(self.storage_log@ == log0);
            }
            assert(hrow == HashRow { clk: s0.clk, opcode: ins.opcode.spec_mask(), output: res.output });
        }
        Ok((row, hrow))
    }
}

} // verus!
