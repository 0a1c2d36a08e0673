//! The assembly text format: tokens, mnemonics, operands and lines.
use vstd::prelude::*;
use vstd::string::StrSliceExecFns;
use vstd::string::StringExecFns;
use crate::assembler::{AsmError, AsmLine, OlaAsmInstruction, OlaAsmOperand};
use crate::program::OlaProphet;
use crate::instruction::OlaOpcode;
use crate::operands::{
    is_signed_decimal, operand_accepted, operand_parses_to, parse_immediate_spec, ImmediateValue, OlaOperand,
};
use crate::hardware::OlaSpecialRegister;
use crate::text::{has_hex_prefix, hex_token, is_space, token_end};

verus! {

/// The whitespace-separated tokens of `s` from position `i`.
pub open spec fn tokens_from(s: Seq<char>, i: int) -> Seq<Seq<char>>
    decreases s.len() - i,
{
    if i < 0 || i >= s.len() {
        Seq::empty()
    } else if is_space(s[i]) {
        tokens_from(s, i + 1)
    } else {
        let j = token_end(s, i);
        if j <= i || j > s.len() {
            Seq::empty()
        } else {
            seq![s.subrange(i, j)] + tokens_from(s, j)
        }
    }
}

proof fn lemma_token_end_facts(s: Seq<char>, i: int)
    requires
        0 <= i <= s.len(),
    ensures
        i <= token_end(s, i) <= s.len(),
        forall|k: int| i <= k < token_end(s, i) ==> !is_space(#[trigger] s[k]),
        token_end(s, i) < s.len() ==> is_space(s[token_end(s, i)]),
    decreases s.len() - i,
{
    if i < s.len() && !is_space(s[i]) {
        lemma_token_end_facts(s, i + 1);
    }
}

pub open spec fn strings_view(v: Seq<String>) -> Seq<Seq<char>> {
    v.map_values(|t: String| t@)
}

/// Splits a line into its whitespace-separated tokens.
pub fn split_tokens(s: &str) -> (r: Vec<String>)
    ensures
        strings_view(r@) == tokens_from(s@, 0),
{
    let n = s.unicode_len();
    let mut out: Vec<String> = Vec::new();
    let mut i: usize = 0;
    assert(strings_view(out@) + tokens_from(s@, 0) =~= tokens_from(s@, 0));
    while i < n
        invariant
            i <= n,
            n == s@.len(),
            tokens_from(s@, 0) == strings_view(out@) + tokens_from(s@, i as int),
        decreases n - i,
    {
        let c = s.get_char(i);
        if c == ' ' || c == '\n' || c == '\t' || c == '\r' {
            i = i + 1;
        } else {
            let mut j = i;
            proof {
                lemma_token_end_facts(s@, i as int);
            }
            while j < n && !(s.get_char(j) == ' ' || s.get_char(j) == '\n' || s.get_char(j) == '\t' || s.get_char(j) == '\r')
                invariant
                    i <= j <= token_end(s@, i as int),
                    token_end(s@, i as int) <= n,
                    n == s@.len(),
                    forall|k: int| i <= k < token_end(s@, i as int) ==> !is_space(#[trigger] s@[k]),
                    token_end(s@, i as int) < n ==> is_space(s@[token_end(s@, i as int)]),
                decreases n - j,
            {
                j = j + 1;
            }
            let t = String::from_str(s.substring_char(i, j));
            let ghost old_out = out@;
            out.push(t);
            assert(strings_view(out@) =~= strings_view(old_out).push(t@));
            assert(strings_view(old_out) + (seq![t@] + tokens_from(s@, j as int)) =~= strings_view(out@) + tokens_from(s@, j as int));
            i = j;
        }
    }
    assert(tokens_from(s@, n as int) =~= Seq::<Seq<char>>::empty());
    assert(strings_view(out@) + Seq::<Seq<char>>::empty() =~= strings_view(out@));
    out
}

/// The opcode a mnemonic names.
pub open spec fn opcode_of(t: Seq<char>) -> Option<OlaOpcode> {
    if t == seq!['a', 'd', 'd'] {
        Some(OlaOpcode::ADD)
    } else if t == seq!['m', 'u', 'l'] {
        Some(OlaOpcode::MUL)
    } else if t == seq!['e', 'q'] {
        Some(OlaOpcode::EQ)
    } else if t == seq!['a', 's', 's', 'e', 'r', 't'] {
        Some(OlaOpcode::ASSERT)
    } else if t == seq!['m', 'o', 'v'] {
        Some(OlaOpcode::MOV)
    } else if t == seq!['j', 'm', 'p'] {
        Some(OlaOpcode::JMP)
    } else if t == seq!['c', 'j', 'm', 'p'] {
        Some(OlaOpcode::CJMP)
    } else if t == seq!['c', 'a', 'l', 'l'] {
        Some(OlaOpcode::CALL)
    } else if t == seq!['r', 'e', 't'] {
        Some(OlaOpcode::RET)
    } else if t == seq!['m', 'l', 'o', 'a', 'd'] {
        Some(OlaOpcode::MLOAD)
    } else if t == seq!['m', 's', 't', 'o', 'r', 'e'] {
        Some(OlaOpcode::MSTORE)
    } else if t == seq!['e', 'n', 'd'] {
        Some(OlaOpcode::END)
    } else if t == seq!['r', 'a', 'n', 'g', 'e'] {
        Some(OlaOpcode::RC)
    } else if t == seq!['a', 'n', 'd'] {
        Some(OlaOpcode::AND)
    } else if t == seq!['o', 'r'] {
        Some(OlaOpcode::OR)
    } else if t == seq!['x', 'o', 'r'] {
        Some(OlaOpcode::XOR)
    } else if t == seq!['n', 'o', 't'] {
        Some(OlaOpcode::NOT)
    } else if t == seq!['n', 'e', 'q'] {
        Some(OlaOpcode::NEQ)
    } else if t == seq!['g', 't', 'e'] {
        Some(OlaOpcode::GTE)
    } else if t == seq!['p', 'o', 's', 'e', 'i', 'd', 'o', 'n'] {
        Some(OlaOpcode::POSEIDON)
    } else if t == seq!['s', 'l', 'o', 'a', 'd'] {
        Some(OlaOpcode::SLOAD)
    } else if t == seq!['s', 's', 't', 'o', 'r', 'e'] {
        Some(OlaOpcode::SSTORE)
    } else {
        None
    }
}

/// Whether a whole string is a signed decimal numeral.
fn check_signed_decimal(s: &str) -> (r: bool)
    ensures
        r == is_signed_decimal(s@),
{
    let n = s.unicode_len();
    let mut i: usize = 0;
    if n > 0 && s.get_char(0) == '-' {
        i = 1;
    }
    let ghost digits = s@.subrange(i as int, n as int);
    assert(n > 0 && s@[0] == '-' ==> digits =~= s@.subrange(1, n as int));
    assert(!(n > 0 && s@[0] == '-') ==> digits =~= s@);
    if i >= n {
        assert(digits.len() == 0);
        return false;
    }
    let start = i;
    while i < n
        invariant
            start <= i <= n,
            n == s@.len(),
            digits == s@.subrange(start as int, n as int),
            is_signed_decimal(s@) == crate::text::is_numeral(digits, 10),
            crate::text::all_digits(s@.subrange(start as int, i as int), 10),
        decreases n - i,
    {
        let c = s.get_char(i);
        if !('0' <= c && c <= '9') {
            assert(digits[i - start] == c);
            assert(crate::text::digit_of(c) >= 10);
            return false;
        }
        assert(s@.subrange(start as int, i + 1) =~= s@.subrange(start as int, i as int).push(c));
        i = i + 1;
    }
    assert(s@.subrange(start as int, i as int) =~= digits);
    true
}

fn str_eq(a: &str, b: &str) -> (r: bool)
    ensures
        r == (a@ == b@),
{
    let n = a.unicode_len();
    if n != b.unicode_len() {
        return false;
    }
    let mut i: usize = 0;
    while i < n
        invariant
            i <= n,
            n == a@.len(),
            n == b@.len(),
            forall|k: int| 0 <= k < i ==> a@[k] == b@[k],
        decreases n - i,
    {
        if a.get_char(i) != b.get_char(i) {
            return false;
        }
        i = i + 1;
    }
    assert(a@ =~= b@);
    true
}

/// The opcode a mnemonic names.
pub fn parse_opcode(t: &str) -> (r: Option<OlaOpcode>)
    ensures
        r == opcode_of(t@),
{
    proof {
        reveal_strlit("add");
        reveal_strlit("mul");
        reveal_strlit("eq");
        reveal_strlit("assert");
        reveal_strlit("mov");
        reveal_strlit("jmp");
        reveal_strlit("cjmp");
        reveal_strlit("call");
        reveal_strlit("ret");
        reveal_strlit("mload");
        reveal_strlit("mstore");
        reveal_strlit("end");
        reveal_strlit("range");
        reveal_strlit("and");
        reveal_strlit("or");
        reveal_strlit("xor");
        reveal_strlit("not");
        reveal_strlit("neq");
        reveal_strlit("gte");
        reveal_strlit("poseidon");
        reveal_strlit("sload");
        reveal_strlit("sstore");
    }
    if str_eq(t, "add") {
        assert("add"@ =~= seq!['a', 'd', 'd']);
        return Some(OlaOpcode::ADD);
    }
    assert("add"@ =~= seq!['a', 'd', 'd']);
    if str_eq(t, "mul") {
        assert("mul"@ =~= seq!['m', 'u', 'l']);
        return Some(OlaOpcode::MUL);
    }
    assert("mul"@ =~= seq!['m', 'u', 'l']);
    if str_eq(t, "eq") {
        assert("eq"@ =~= seq!['e', 'q']);
        return Some(OlaOpcode::EQ);
    }
    assert("eq"@ =~= seq!['e', 'q']);
    if str_eq(t, "assert") {
        assert("assert"@ =~= seq!['a', 's', 's', 'e', 'r', 't']);
        return Some(OlaOpcode::ASSERT);
    }
    assert("assert"@ =~= seq!['a', 's', 's', 'e', 'r', 't']);
    if str_eq(t, "mov") {
        assert("mov"@ =~= seq!['m', 'o', 'v']);
        return Some(OlaOpcode::MOV);
    }
    assert("mov"@ =~= seq!['m', 'o', 'v']);
    if str_eq(t, "jmp") {
        assert("jmp"@ =~= seq!['j', 'm', 'p']);
        return Some(OlaOpcode::JMP);
    }
    assert("jmp"@ =~= seq!['j', 'm', 'p']);
    if str_eq(t, "cjmp") {
        assert("cjmp"@ =~= seq!['c', 'j', 'm', 'p']);
        return Some(OlaOpcode::CJMP);
    }
    assert("cjmp"@ =~= seq!['c', 'j', 'm', 'p']);
    if str_eq(t, "call") {
        assert("call"@ =~= seq!['c', 'a', 'l', 'l']);
        return Some(OlaOpcode::CALL);
    }
    assert("call"@ =~= seq!['c', 'a', 'l', 'l']);
    if str_eq(t, "ret") {
        assert("ret"@ =~= seq!['r', 'e', 't']);
        return Some(OlaOpcode::RET);
    }
    assert("ret"@ =~= seq!['r', 'e', 't']);
    if str_eq(t, "mload") {
        assert("mload"@ =~= seq!['m', 'l', 'o', 'a', 'd']);
        return Some(OlaOpcode::MLOAD);
    }
    assert("mload"@ =~= seq!['m', 'l', 'o', 'a', 'd']);
    if str_eq(t, "mstore") {
        assert("mstore"@ =~= seq!['m', 's', 't', 'o', 'r', 'e']);
        return Some(OlaOpcode::MSTORE);
    }
    assert("mstore"@ =~= seq!['m', 's', 't', 'o', 'r', 'e']);
    if str_eq(t, "end") {
        assert("end"@ =~= seq!['e', 'n', 'd']);
        return Some(OlaOpcode::END);
    }
    assert("end"@ =~= seq!['e', 'n', 'd']);
    if str_eq(t, "range") {
        assert("range"@ =~= seq!['r', 'a', 'n', 'g', 'e']);
        return Some(OlaOpcode::RC);
    }
    assert("range"@ =~= seq!['r', 'a', 'n', 'g', 'e']);
    if str_eq(t, "and") {
        assert("and"@ =~= seq!['a', 'n', 'd']);
        return Some(OlaOpcode::AND);
    }
    assert("and"@ =~= seq!['a', 'n', 'd']);
    if str_eq(t, "or") {
        assert("or"@ =~= seq!['o', 'r']);
        return Some(OlaOpcode::OR);
    }
    assert("or"@ =~= seq!['o', 'r']);
    if str_eq(t, "xor") {
        assert("xor"@ =~= seq!['x', 'o', 'r']);
        return Some(OlaOpcode::XOR);
    }
    assert("xor"@ =~= seq!['x', 'o', 'r']);
    if str_eq(t, "not") {
        assert("not"@ =~= seq!['n', 'o', 't']);
        return Some(OlaOpcode::NOT);
    }
    assert("not"@ =~= seq!['n', 'o', 't']);
    if str_eq(t, "neq") {
        assert("neq"@ =~= seq!['n', 'e', 'q']);
        return Some(OlaOpcode::NEQ);
    }
    assert("neq"@ =~= seq!['n', 'e', 'q']);
    if str_eq(t, "gte") {
        assert("gte"@ =~= seq!['g', 't', 'e']);
        return Some(OlaOpcode::GTE);
    }
    assert("gte"@ =~= seq!['g', 't', 'e']);
    if str_eq(t, "poseidon") {
        assert("poseidon"@ =~= seq!['p', 'o', 's', 'e', 'i', 'd', 'o', 'n']);
        return Some(OlaOpcode::POSEIDON);
    }
    assert("poseidon"@ =~= seq!['p', 'o', 's', 'e', 'i', 'd', 'o', 'n']);
    if str_eq(t, "sload") {
        assert("sload"@ =~= seq!['s', 'l', 'o', 'a', 'd']);
        return Some(OlaOpcode::SLOAD);
    }
    assert("sload"@ =~= seq!['s', 'l', 'o', 'a', 'd']);
    if str_eq(t, "sstore") {
        assert("sstore"@ =~= seq!['s', 's', 't', 'o', 'r', 'e']);
        return Some(OlaOpcode::SSTORE);
    }
    assert("sstore"@ =~= seq!['s', 's', 't', 'o', 'r', 'e']);
    None
}

pub open spec fn is_label_token(t: Seq<char>) -> bool {
    t.len() > 0 && t[0] == '.'
}

pub open spec fn is_identifier_token(t: Seq<char>) -> bool {
    t.len() > 0 && (('a' <= t[0] && t[0] <= 'z') || ('A' <= t[0] && t[0] <= 'Z') || t[0] == '_')
}

/// Whether a token has the shape `[psp,OFFSET]` with a signed decimal offset.
pub open spec fn is_psp_offset_shape(t: Seq<char>) -> bool {
    &&& t.len() >= 7
    &&& t.subrange(0, 5) == seq!['[', 'p', 's', 'p', ',']
    &&& t[t.len() - 1] == ']'
    &&& is_signed_decimal(t.subrange(5, t.len() - 1))
}

/// Whether a token can be read as an operand: a label (`.name`), an operand form of
/// `OlaOperand`, `[psp,OFFSET]`, a hexadecimal immediate, or an identifier.
pub open spec fn operand_token_valid(t: Seq<char>) -> bool {
    is_label_token(t) || operand_accepted(t) || (is_psp_offset_shape(t) && parse_immediate_spec(
        t.subrange(5, t.len() - 1),
    ) is Some) || (has_hex_prefix(t) && parse_immediate_spec(t) is Some) || is_identifier_token(t)
}

/// Whether `a` is the operand the token `t` denotes.
pub open spec fn token_operand_spec(t: Seq<char>, a: OlaAsmOperand) -> bool {
    if is_label_token(t) {
        a matches OlaAsmOperand::Label { value } && value@ == t
    } else if operand_accepted(t) {
        match a {
            OlaAsmOperand::ImmediateOperand { value } => operand_parses_to(t, OlaOperand::ImmediateOperand { value }),
            OlaAsmOperand::RegisterOperand { register } => operand_parses_to(t, OlaOperand::RegisterOperand { register }),
            OlaAsmOperand::RegisterWithOffset { register, offset } => operand_parses_to(
                t,
                OlaOperand::RegisterWithOffset { register, offset },
            ),
            OlaAsmOperand::SpecialReg { special_reg } => operand_parses_to(t, OlaOperand::SpecialReg { special_reg }),
            _ => false,
        }
    } else if is_psp_offset_shape(t) {
        &&& a matches OlaAsmOperand::SpecialRegWithOffset { special_reg, offset }
        &&& special_reg == OlaSpecialRegister::PSP
        &&& parse_immediate_spec(t.subrange(5, t.len() - 1)) matches Some(v)
        &&& offset.hex@ == hex_token(v as nat)
    } else if has_hex_prefix(t) {
        &&& a matches OlaAsmOperand::ImmediateOperand { value }
        &&& parse_immediate_spec(t) matches Some(v)
        &&& value.hex@ == hex_token(v as nat)
    } else {
        a matches OlaAsmOperand::Identifier { value } && value@ == t
    }
}

/// Reads one operand token.
pub fn parse_operand_token(t: &str) -> (r: Result<OlaAsmOperand, AsmError>)
    ensures
        r is Ok <==> operand_token_valid(t@),
        r matches Ok(a) ==> token_operand_spec(t@, a),
        r matches Err(e) ==> e != AsmError::UnknownOpcode,
{
    let n = t.unicode_len();
    if n > 0 && t.get_char(0) == '.' {
        return Ok(OlaAsmOperand::Label { value: String::from_str(t) });
    }
    match OlaOperand::from_str(t) {
        Ok(op) => {
            return match op {
                OlaOperand::ImmediateOperand { value } => Ok(OlaAsmOperand::ImmediateOperand { value }),
                OlaOperand::RegisterOperand { register } => Ok(OlaAsmOperand::RegisterOperand { register }),
                OlaOperand::RegisterWithOffset { register, offset } => Ok(
                    OlaAsmOperand::RegisterWithOffset { register, offset },
                ),
                OlaOperand::SpecialReg { special_reg } => Ok(OlaAsmOperand::SpecialReg { special_reg }),
                OlaOperand::RegisterWithFactor { .. } => Err(AsmError::BadOperandShape),
            };
        },
        Err(_) => {},
    }
    if n >= 7 && t.get_char(0) == '[' && t.get_char(1) == 'p' && t.get_char(2) == 's' && t.get_char(3) == 'p'
        && t.get_char(4) == ',' && t.get_char(n - 1) == ']' {
        assert(t@.subrange(0, 5) =~= seq!['[', 'p', 's', 'p', ',']);
        let body = t.substring_char(5, n - 1);
        let dec = check_signed_decimal(body);
        if dec {
            return match ImmediateValue::from_str(body) {
                Ok(offset) => Ok(OlaAsmOperand::SpecialRegWithOffset { special_reg: OlaSpecialRegister::PSP, offset }),
                Err(_) => Err(AsmError::ImmediateOverflow),
            };
        }
    }
    if n >= 2 && t.get_char(0) == '0' && t.get_char(1) == 'x' {
        return match ImmediateValue::from_str(t) {
            Ok(value) => Ok(OlaAsmOperand::ImmediateOperand { value }),
            Err(_) => Err(AsmError::ImmediateOverflow),
        };
    }
    assert(!has_hex_prefix(t@)) by {
        if n >= 2 {
            assert(t@[0] == t@[0] && t@[1] == t@[1]);
        }
    }
    if n > 0 {
        let c = t.get_char(0);
        if ('a' <= c && c <= 'z') || ('A' <= c && c <= 'Z') || c == '_' {
            return Ok(OlaAsmOperand::Identifier { value: String::from_str(t) });
        }
    }
    Err(AsmError::BadOperandShape)
}

/// Which token fills op0, op1 and dst for an opcode, and how many operand tokens it takes:
/// `mov|not|mload dst op1`, `add|mul|eq|neq|and|or|xor|gte dst op0 op1`,
/// `assert|cjmp|mstore op0 op1`, `jmp|call|range op1`, and no operands otherwise.
/// Slot positions count the mnemonic as token zero; zero marks an empty slot.
pub open spec fn operand_layout(op: OlaOpcode) -> (nat, nat, nat, nat) {
    match op {
        OlaOpcode::MOV | OlaOpcode::NOT | OlaOpcode::MLOAD => (2, 0, 2, 1),
        OlaOpcode::ADD | OlaOpcode::MUL | OlaOpcode::EQ | OlaOpcode::NEQ | OlaOpcode::AND | OlaOpcode::OR
        | OlaOpcode::XOR | OlaOpcode::GTE => (3, 2, 3, 1),
        OlaOpcode::ASSERT | OlaOpcode::CJMP | OlaOpcode::MSTORE => (2, 1, 2, 0),
        OlaOpcode::JMP | OlaOpcode::CALL | OlaOpcode::RC => (1, 0, 1, 0),
        _ => (0, 0, 0, 0),
    }
}

fn operand_layout_exec(op: OlaOpcode) -> (r: (usize, usize, usize, usize))
    ensures
        r.0 == operand_layout(op).0 && r.1 == operand_layout(op).1 && r.2 == operand_layout(op).2 && r.3
            == operand_layout(op).3,
{
    match op {
        OlaOpcode::MOV | OlaOpcode::NOT | OlaOpcode::MLOAD => (2, 0, 2, 1),
        OlaOpcode::ADD | OlaOpcode::MUL | OlaOpcode::EQ | OlaOpcode::NEQ | OlaOpcode::AND | OlaOpcode::OR
        | OlaOpcode::XOR | OlaOpcode::GTE => (3, 2, 3, 1),
        OlaOpcode::ASSERT | OlaOpcode::CJMP | OlaOpcode::MSTORE => (2, 1, 2, 0),
        OlaOpcode::JMP | OlaOpcode::CALL | OlaOpcode::RC => (1, 0, 1, 0),
        _ => (0, 0, 0, 0),
    }
}

/// Whether slot `k` of an instruction holds what token `k` of `toks` denotes.
pub open spec fn slot_spec(toks: Seq<Seq<char>>, k: nat, slot: Option<OlaAsmOperand>) -> bool {
    if k == 0 {
        slot is None
    } else {
        slot matches Some(a) && token_operand_spec(toks[k as int], a)
    }
}

fn parse_slot(toks: &Vec<String>, k: usize) -> (r: Result<Option<OlaAsmOperand>, AsmError>)
    requires
        k < toks@.len(),
    ensures
        r matches Ok(slot) ==> slot_spec(strings_view(toks@), k as nat, slot),
        k == 0 ==> r is Ok,
        k > 0 ==> (r is Ok <==> operand_token_valid(toks@[k as int]@)),
        r matches Err(e) ==> e != AsmError::UnknownOpcode,
{
    if k == 0 {
        return Ok(None);
    }
    match parse_operand_token(toks[k].as_str()) {
        Ok(a) => Ok(Some(a)),
        Err(e) => Err(e),
    }
}

/// A line of assembly: nothing, `name:`, or a mnemonic and its operands.
/// Whether `r` is a line that `text` denotes: nothing, `name:`, or an instruction.
pub open spec fn line_result(text: Seq<char>, r: Option<AsmLine>) -> bool {
    let toks = tokens_from(text, 0);
    match r {
        None => toks.len() == 0,
        Some(AsmLine::Label { name }) => toks.len() == 1 && toks[0].len() > 0 && toks[0].last() == ':'
            && name@ == toks[0].drop_last(),
        Some(AsmLine::Instruction { instruction }) => {
            &&& opcode_of(toks[0]) == Some(instruction.opcode)
            &&& toks.len() == operand_layout(instruction.opcode).0 + 1
            &&& slot_spec(toks, operand_layout(instruction.opcode).1, instruction.op0)
            &&& slot_spec(toks, operand_layout(instruction.opcode).2, instruction.op1)
            &&& slot_spec(toks, operand_layout(instruction.opcode).3, instruction.dst)
            &&& instruction.source@ == text
        },
        Some(AsmLine::Prophet { .. }) => false,
    }
}

/// Whether token `k` can fill its slot (position zero is an empty slot).
pub open spec fn slot_token_ok(toks: Seq<Seq<char>>, k: nat) -> bool {
    k == 0 || operand_token_valid(toks[k as int])
}

/// Whether a line is blank, a label, or a mnemonic followed by as many operand tokens as
/// its opcode takes, each readable as an operand.
pub open spec fn line_accepted(text: Seq<char>) -> bool {
    let toks = tokens_from(text, 0);
    if toks.len() == 0 {
        true
    } else if toks.len() == 1 && toks[0].len() > 0 && toks[0].last() == ':' {
        true
    } else {
        match opcode_of(toks[0]) {
            None => false,
            Some(op) => {
                let (count, i0, i1, id) = operand_layout(op);
                &&& toks.len() == count + 1
                &&& slot_token_ok(toks, i0)
                &&& slot_token_ok(toks, i1)
                &&& slot_token_ok(toks, id)
            },
        }
    }
}

/// A line of assembly: nothing, `name:`, or a mnemonic and its operands.
pub fn parse_line(text: &str) -> (r: Result<Option<AsmLine>, AsmError>)
    ensures
        ({
            let toks = tokens_from(text@, 0);
            match r {
                Ok(x) => line_result(text@, x),
                Err(AsmError::UnknownOpcode) => toks.len() > 0 && opcode_of(toks[0]) is None && !(toks.len()
                    == 1 && toks[0].len() > 0 && toks[0].last() == ':'),
                Err(_) => !line_accepted(text@),
            }
        }),
        r is Ok <==> line_accepted(text@),
{
    let toks = split_tokens(text);
    let ghost tv = strings_view(toks@);
    if toks.len() == 0 {
        return Ok(None);
    }
    assert(tv[0] == toks@[0]@);
    let first = toks[0].as_str();
    let n = first.unicode_len();
    if toks.len() == 1 && n > 0 && first.get_char(n - 1) == ':' {
        let name = String::from_str(first.substring_char(0, n - 1));
        assert(name@ =~= tv[0].drop_last());
        return Ok(Some(AsmLine::Label { name }));
    }
    let opcode = match parse_opcode(first) {
        Some(op) => op,
        None => {
            return Err(AsmError::UnknownOpcode);
        },
    };
    let (count, i0, i1, id) = operand_layout_exec(opcode);
    if toks.len() != count + 1 {
        return Err(AsmError::BadOperandShape);
    }
    let op0 = match parse_slot(&toks, i0) {
        Ok(s) => s,
        Err(e) => {
            return Err(e);
        },
    };
    let op1 = match parse_slot(&toks, i1) {
        Ok(s) => s,
        Err(e) => {
            return Err(e);
        },
    };
    let dst = match parse_slot(&toks, id) {
        Ok(s) => s,
        Err(e) => {
            return Err(e);
        },
    };
    Ok(Some(AsmLine::Instruction { instruction: OlaAsmInstruction { source: String::from_str(text), opcode, op0, op1, dst } }))
}

/// Whether a label marks where a prophet is hosted (`.PROPHET...`).
pub open spec fn is_prophet_marker(name: Seq<char>) -> bool {
    name.len() >= 8 && name.subrange(0, 8) == seq!['.', 'P', 'R', 'O', 'P', 'H', 'E', 'T']
}

fn is_prophet_marker_exec(name: &str) -> (r: bool)
    ensures
        r == is_prophet_marker(name@),
{
    proof {
        reveal_strlit(".PROPHET");
    }
    if name.unicode_len() < 8 {
        return false;
    }
    let head = name.substring_char(0, 8);
    let r = str_eq(head, ".PROPHET");
    assert(".PROPHET"@ =~= seq!['.', 'P', 'R', 'O', 'P', 'H', 'E', 'T']);
    r
}

/// Whether a line of text is a prophet marker `.PROPHET...:`.
pub open spec fn is_marker_text(text: Seq<char>) -> bool {
    let toks = tokens_from(text, 0);
    toks.len() == 1 && toks[0].len() > 0 && toks[0].last() == ':' && is_prophet_marker(toks[0].drop_last())
}

/// Whether `v` is what the lines `ls` assemble to: blank lines vanish, a marker becomes a
/// prophet, and every other line becomes what it denotes.
pub open spec fn program_result(ls: Seq<Seq<char>>, v: Seq<AsmLine>) -> bool
    decreases ls.len(),
{
    if ls.len() == 0 {
        v.len() == 0
    } else if tokens_from(ls.last(), 0).len() == 0 {
        program_result(ls.drop_last(), v)
    } else {
        &&& v.len() > 0
        &&& if is_marker_text(ls.last()) {
            v.last() is Prophet
        } else {
            line_result(ls.last(), Some(v.last()))
        }
        &&& program_result(ls.drop_last(), v.drop_last())
    }
}

/// Parses the lines of a program. A `.PROPHET...` label becomes the prophet recorded
/// under that label in `prophets`; a marker with no prophet is an unresolved label.
pub fn parse_program(lines: &Vec<String>, prophets: Vec<(String, OlaProphet)>) -> (r: Result<
    Vec<AsmLine>,
    AsmError,
>)
    ensures
        r matches Ok(v) ==> program_result(strings_view(lines@), v@),
        r is Err ==> exists|i: int|
            0 <= i < lines@.len() && (!line_accepted(#[trigger] lines@[i]@) || is_marker_text(lines@[i]@)),
        (forall|i: int| 0 <= i < lines@.len() ==> line_accepted(#[trigger] lines@[i]@) && !is_marker_text(
            lines@[i]@,
        )) ==> r is Ok,
{
    let mut prophets = prophets;
    let mut out: Vec<AsmLine> = Vec::new();
    let mut i: usize = 0;
    while i < lines.len()
        invariant
            i <= lines@.len(),
            program_result(strings_view(lines@).subrange(0, i as int), out@),
        decreases lines.len() - i,
    {
        let ghost ls = strings_view(lines@).subrange(0, i + 1);
        proof {
            assert(ls.drop_last() =~= strings_view(lines@).subrange(0, i as int));
            assert(ls.last() == lines@[i as int]@);
        }
        let ghost before = out@;
        let parsed = match parse_line(lines[i].as_str()) {
            Ok(p) => p,
            Err(e) => {
                assert(!line_accepted(lines@[i as int]@));
                return Err(e);
            },
        };
        match parsed {
            None => {},
            Some(AsmLine::Label { name }) => {
                if is_prophet_marker_exec(name.as_str()) {
                    let mut found: Option<OlaProphet> = None;
                    let mut k: usize = 0;
                    while k < prophets.len()
                        invariant
                            k <= prophets@.len(),
                        decreases prophets.len() - k,
                    {
                        if prophets[k].0 == name {
                            let (_, p) = prophets.remove(k);
                            found = Some(p);
                            break;
                        }
                        k = k + 1;
                    }
                    match found {
                        Some(prophet) => {
                            out.push(AsmLine::Prophet { prophet });
                            assert(out@.drop_last() =~= before);
                        },
                        None => {
                            assert(is_marker_text(lines@[i as int]@));
                            return Err(AsmError::UnresolvedLabel);
                        },
                    }
                } else {
                    out.push(AsmLine::Label { name });
                    assert(out@.drop_last() =~= before);
                }
            },
            Some(line) => {
                out.push(line);
                assert(out@.drop_last() =~= before);
            },
        }
        i = i + 1;
    }
    assert(strings_view(lines@).subrange(0, lines@.len() as int) =~= strings_view(lines@));
    Ok(out)
}

} // verus!
