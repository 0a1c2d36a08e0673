//! Binary programs: decoded instructions laid out by program counter, and the prophet
//! records attached to them.
use vstd::prelude::*;
use crate::instruction::{
    decode_instruction, decode_spec, encode_instruction, has_immediate, lemma_encode_decode_round_trip,
    BinaryInstruction,
};

verus! {

/// One declared input of a prophet script.
#[derive(Debug)]
pub struct OlaProphetInput {
    /// Register name or frame slot the input was declared on.
    pub anchor: String,
    /// Number of consecutive values the input takes.
    pub length: u64,
    /// Whether each value is an address whose contents are the input.
    pub is_ref: bool,
    /// `reg` or `mem`.
    pub stored_in: String,
}

/// A non-deterministic hint: a script run after the instruction at `host`.
#[derive(Debug)]
pub struct OlaProphet {
    pub host: u64,
    pub code: String,
    pub inputs: Vec<OlaProphetInput>,
    pub outputs: Vec<String>,
}

#[derive(Debug)]
pub struct BinaryProgram {
    pub instructions: Vec<BinaryInstruction>,
    pub prophets: Vec<OlaProphet>,
    /// The assembly line of each instruction, where the program was assembled from text;
    /// the `k`-th entry belongs to the `k`-th instruction.
    pub source: Vec<String>,
}

/// The instruction that starts at `pc` when `instrs` are laid out from 0, each taking
/// its binary length.
pub open spec fn fetch(instrs: Seq<BinaryInstruction>, pc: int) -> Option<BinaryInstruction>
    decreases instrs.len(),
{
    if instrs.len() == 0 {
        None
    } else if pc == 0 {
        Some(instrs[0])
    } else {
        fetch(instrs.subrange(1, instrs.len() as int), pc - instrs[0].spec_binary_length())
    }
}

/// Whether a prophet is attached to `pc`.
pub open spec fn is_prophet_host(hosts: Seq<u64>, pc: u64) -> bool {
    exists|i: int| 0 <= i < hosts.len() && hosts[i] == pc
}

/// The instructions that a sequence of field elements encodes, read from the front.
pub open spec fn decode_words(words: Seq<u64>) -> Option<Seq<BinaryInstruction>>
    decreases words.len(),
{
    if words.len() == 0 {
        Some(Seq::empty())
    } else {
        let next = if words.len() >= 2 {
            Some(words[1])
        } else {
            None
        };
        match decode_spec(words[0], next) {
            None => None,
            Some(ins) => {
                let n = ins.spec_binary_length() as int;
                if n > words.len() {
                    None
                } else {
                    match decode_words(words.subrange(n, words.len() as int)) {
                        None => None,
                        Some(rest) => Some(seq![ins] + rest),
                    }
                }
            },
        }
    }
}

impl BinaryProgram {
    pub open spec fn prophet_hosts(&self) -> Seq<u64> {
        self.prophets@.map_values(|p: OlaProphet| p.host)
    }

    /// The instruction at `pc`, if one starts there.
    pub fn instruction_at(&self, pc: u64) -> (r: Option<BinaryInstruction>)
        ensures
            r == fetch(self.instructions@, pc as int),
    {
        let n = self.instructions.len();
        let mut k: usize = 0;
        let mut cur: u64 = 0;
        assert(self.instructions@.subrange(0, n as int) =~= self.instructions@);
        while k < n
            invariant
                k <= n,
                n == self.instructions@.len(),
                cur <= pc,
                fetch(self.instructions@, pc as int) == fetch(
                    self.instructions@.subrange(k as int, n as int),
                    pc - cur,
                ),
            decreases n - k,
        {
            let ghost sub = self.instructions@.subrange(k as int, n as int);
            if cur == pc {
                return Some(self.instructions[k]);
            }
            let len = self.instructions[k].binary_length();
            assert(sub.subrange(1, sub.len() as int) =~= self.instructions@.subrange(k + 1, n as int));
            if pc - cur < len {
                // the target lies inside this instruction
                proof {
                    lemma_fetch_negative(self.instructions@.subrange(k + 1, n as int), pc - cur - len);
                }
                return None;
            }
            cur = cur + len;
            k = k + 1;
        }
        None
    }

    /// Whether a prophet is attached to `pc`.
    pub fn has_prophet(&self, pc: u64) -> (r: bool)
        ensures
            r == is_prophet_host(self.prophet_hosts(), pc),
    {
        let mut i: usize = 0;
        while i < self.prophets.len()
            invariant
                i <= self.prophets.len(),
                forall|j: int| 0 <= j < i ==> self.prophet_hosts()[j] != pc,
            decreases self.prophets.len() - i,
        {
            if self.prophets[i].host == pc {
                assert(self.prophet_hosts()[i as int] == pc);
                return true;
            }
            i = i + 1;
        }
        false
    }

    /// The index of the prophet attached to `pc`.
    pub fn prophet_index(&self, pc: u64) -> (r: Option<usize>)
        ensures
            r matches Some(i) ==> i < self.prophets@.len() && self.prophets@[i as int].host == pc,
            r is None ==> !is_prophet_host(self.prophet_hosts(), pc),
    {
        let mut i: usize = 0;
        while i < self.prophets.len()
            invariant
                i <= self.prophets.len(),
                forall|j: int| 0 <= j < i ==> self.prophet_hosts()[j] != pc,
            decreases self.prophets.len() - i,
        {
            if self.prophets[i].host == pc {
                return Some(i);
            }
            i = i + 1;
        }
        None
    }
}

proof fn lemma_fetch_negative(instrs: Seq<BinaryInstruction>, pc: int)
    requires
        pc < 0,
    ensures
        fetch(instrs, pc) is None,
    decreases instrs.len(),
{
    if instrs.len() > 0 {
        lemma_fetch_negative(instrs.subrange(1, instrs.len() as int), pc - instrs[0].spec_binary_length());
    }
}

/// Decodes a sequence of field elements into instructions.
pub fn decode_program(words: &Vec<u64>) -> (r: Option<Vec<BinaryInstruction>>)
    ensures
        match r {
            Some(v) => decode_words(words@) == Some(v@),
            None => decode_words(words@) is None,
        },
{
    let n = words.len();
    let mut out: Vec<BinaryInstruction> = Vec::new();
    let mut i: usize = 0;
    assert(words@.subrange(0, n as int) =~= words@);
    while i < n
        invariant
            i <= n,
            n == words@.len(),
            decode_words(words@) == match decode_words(words@.subrange(i as int, n as int)) {
                None => None,
                Some(rest) => Some(out@ + rest),
            },
        decreases n - i,
    {
        let ghost sub = words@.subrange(i as int, n as int);
        let next = if n - i >= 2 {
            Some(words[i + 1])
        } else {
            None
        };
        assert(sub[0] == words@[i as int]);
        assert(sub.len() >= 2 ==> sub[1] == words@[i + 1]);
        match decode_instruction(words[i], next) {
            None => {
                return None;
            },
            Some(ins) => {
                let len = ins.binary_length() as usize;
                if len > n - i {
                    return None;
                }
                assert(sub.subrange(len as int, sub.len() as int) =~= words@.subrange(
                    i + len,
                    n as int,
                ));
                let ghost old_out = out@;
                out.push(ins);
                proof {
                    match decode_words(words@.subrange(i + len, n as int)) {
                        None => {},
                        Some(rest) => {
                            assert(old_out + (seq![ins] + rest) =~= out@ + rest);
                        },
                    }
                }
                i = i + len;
            },
        }
    }
    assert(words@.subrange(n as int, n as int) =~= Seq::<u64>::empty());
    assert(out@ + Seq::<BinaryInstruction>::empty() =~= out@);
    Some(out)
}

/// The field elements of a sequence of instructions, one encoding after another.
pub open spec fn encode_all(instrs: Seq<BinaryInstruction>) -> Seq<u64>
    decreases instrs.len(),
{
    if instrs.len() == 0 {
        Seq::empty()
    } else {
        instrs[0].encode_spec() + encode_all(instrs.subrange(1, instrs.len() as int))
    }
}

pub open spec fn all_encodable(instrs: Seq<BinaryInstruction>) -> bool {
    forall|i: int| 0 <= i < instrs.len() ==> (#[trigger] instrs[i]).encodable()
}

proof fn lemma_decode_ignores_next(ins: BinaryInstruction, next: Option<u64>)
    requires
        ins.encodable(),
        !has_immediate(ins.op1),
    ensures
        decode_spec(ins.opcode_word(), next) == Some(ins),
{
    lemma_encode_decode_round_trip(ins);
}

/// Decoding the encoding of a whole program gives the program back.
pub proof fn lemma_program_round_trip(instrs: Seq<BinaryInstruction>)
    requires
        all_encodable(instrs),
    ensures
        decode_words(encode_all(instrs)) == Some(instrs),
    decreases instrs.len(),
{
    if instrs.len() > 0 {
        let ins = instrs[0];
        let rest = instrs.subrange(1, instrs.len() as int);
        assert(all_encodable(rest)) by {
            assert forall|i: int| 0 <= i < rest.len() implies (#[trigger] rest[i]).encodable() by {
                assert(rest[i] == instrs[i + 1]);
            }
        }
        lemma_program_round_trip(rest);
        assert(ins.encodable());
        lemma_encode_decode_round_trip(ins);
        let w = encode_all(instrs);
        let e = ins.encode_spec();
        assert(w == e + encode_all(rest));
        let next = if w.len() >= 2 { Some(w[1]) } else { None };
        if has_immediate(ins.op1) {
            assert(w[0] == e[0] && w[1] == e[1]);
        } else {
            assert(w[0] == e[0]);
            lemma_decode_ignores_next(ins, next);
        }
        assert(decode_spec(w[0], next) == Some(ins));
        let n = ins.spec_binary_length() as int;
        assert(w.subrange(n, w.len() as int) =~= encode_all(rest));
        assert(seq![ins] + rest =~= instrs);
    } else {
        assert(encode_all(instrs) =~= Seq::<u64>::empty());
        assert(instrs =~= Seq::<BinaryInstruction>::empty());
    }
}

/// Encodes a program into its field elements, or `None` when an instruction has no
/// encoding.
pub fn encode_program(instrs: &Vec<BinaryInstruction>) -> (r: Option<Vec<u64>>)
    ensures
        match r {
            Some(w) => all_encodable(instrs@) && w@ == encode_all(instrs@) && decode_words(w@) == Some(
                instrs@,
            ),
            None => !all_encodable(instrs@),
        },
{
    let n = instrs.len();
    let mut out: Vec<u64> = Vec::new();
    let mut i: usize = 0;
    assert(instrs@.subrange(0, n as int) =~= instrs@);
    assert(out@ + encode_all(instrs@) =~= encode_all(instrs@));
    while i < n
        invariant
            i <= n,
            n == instrs@.len(),
            forall|k: int| 0 <= k < i ==> (#[trigger] instrs@[k]).encodable(),
            encode_all(instrs@) == out@ + encode_all(instrs@.subrange(i as int, n as int)),
        decreases n - i,
    {
        if !instrs[i].is_encodable() {
            return None;
        }
        let mut words = encode_instruction(&instrs[i]);
        proof {
            let sub = instrs@.subrange(i as int, n as int);
            assert(sub[0] == instrs@[i as int]);
            assert(sub.subrange(1, sub.len() as int) =~= instrs@.subrange(i + 1, n as int));
            assert(out@ + (words@ + encode_all(instrs@.subrange(i + 1, n as int))) =~= (out@ + words@) + encode_all(instrs@.subrange(i + 1, n as int)));
        }
        out.append(&mut words);
        i = i + 1;
    }
    assert(encode_all(instrs@.subrange(n as int, n as int)) =~= Seq::<u64>::empty());
    assert(out@ + Seq::<u64>::empty() =~= out@);
    proof {
        lemma_program_round_trip(instrs@);
    }
    Some(out)
}

} // verus!
