//! Immediate values and assembly operands, with their textual forms.
use vstd::prelude::*;
use vstd::string::StrSliceExecFns;
use vstd::string::StringExecFns;
use crate::field::ORDER;
use crate::hardware::{OlaRegister, OlaSpecialRegister};
use crate::text::{all_digits, digit_of, digits_value, has_hex_prefix, hex_token, is_numeral, parse_digits, strip_hex_prefixes, to_hex_token, unsigned_body};

verus! {

/// An immediate, held as its canonical `0x` hexadecimal text.
#[derive(Debug, Clone, PartialEq, Eq)]
pub struct ImmediateValue {
    pub hex: String,
}

#[derive(Debug, Clone, PartialEq, Eq)]
pub enum OlaOperand {
    ImmediateOperand { value: ImmediateValue },
    RegisterOperand { register: OlaRegister },
    RegisterWithOffset { register: OlaRegister, offset: ImmediateValue },
    RegisterWithFactor { register: OlaRegister, factor: ImmediateValue },
    SpecialReg { special_reg: OlaSpecialRegister },
}

/// A decimal numeral with an optional leading `-`.
pub open spec fn is_signed_decimal(s: Seq<char>) -> bool {
    if s.len() > 0 && s[0] == '-' {
        is_numeral(s.subrange(1, s.len() as int), 10)
    } else {
        is_numeral(s, 10)
    }
}

/// The field element an immediate literal denotes, if it is well formed and in range.
/// Hexadecimal literals start with `0x`; decimal ones may be negative, and a negative
/// `-v` denotes `p - v`.
pub open spec fn parse_immediate_spec(s: Seq<char>) -> Option<u64> {
    if has_hex_prefix(s) {
        let body = unsigned_body(strip_hex_prefixes(s));
        if is_numeral(body, 16) && digits_value(body, 16) < ORDER {
            Some(digits_value(body, 16) as u64)
        } else {
            None
        }
    } else {
        let neg = s.len() > 0 && s[0] == '-';
        let digits = if s.len() > 0 && (s[0] == '-' || s[0] == '+') {
            s.subrange(1, s.len() as int)
        } else {
            s
        };
        let v = digits_value(digits, 10);
        if is_numeral(digits, 10) && v < ORDER {
            Some(if neg && v > 0 { (ORDER - v) as u64 } else { v as u64 })
        } else {
            None
        }
    }
}

/// What `to_u64` reads from a hex text: digits after any `0x` prefixes, below 2^64.
pub open spec fn hex_text_value(s: Seq<char>) -> Option<u64> {
    let body = unsigned_body(strip_hex_prefixes(s));
    if is_numeral(body, 16) && digits_value(body, 16) < 0x1_0000_0000_0000_0000int {
        Some(digits_value(body, 16) as u64)
    } else {
        None
    }
}

/// Index of the first character after every leading `0x`.
fn skip_hex_prefixes(s: &str) -> (i: usize)
    ensures
        i <= s@.len(),
        strip_hex_prefixes(s@) == s@.subrange(i as int, s@.len() as int),
{
    let n = s.unicode_len();
    let mut i: usize = 0;
    assert(s@.subrange(0, n as int) =~= s@);
    while n - i > 1 && s.get_char(i) == '0' && s.get_char(i + 1) == 'x'
        invariant
            i <= n,
            n == s@.len(),
            strip_hex_prefixes(s@) == strip_hex_prefixes(s@.subrange(i as int, n as int)),
        decreases n - i,
    {
        let ghost sub = s@.subrange(i as int, n as int);
        assert(has_hex_prefix(sub));
        assert(sub.subrange(2, sub.len() as int) =~= s@.subrange(i + 2, n as int));
        i = i + 2;
    }
    let ghost sub = s@.subrange(i as int, n as int);
    if n - i > 1 {
        assert(sub[0] == s@[i as int] && sub[1] == s@[i + 1]);
    }
    assert(!has_hex_prefix(sub));
    i
}

/// Index after an optional `+` at `from`.
fn skip_plus(s: &str, from: usize) -> (i: usize)
    requires
        from <= s@.len(),
    ensures
        i <= s@.len(),
        unsigned_body(s@.subrange(from as int, s@.len() as int)) == s@.subrange(
            i as int,
            s@.len() as int,
        ),
{
    let n = s.unicode_len();
    let ghost sub = s@.subrange(from as int, n as int);
    if from < n && s.get_char(from) == '+' {
        assert(sub.subrange(1, sub.len() as int) =~= s@.subrange(from + 1, n as int));
        from + 1
    } else {
        from
    }
}

impl ImmediateValue {
    pub open spec fn spec_value(self) -> Option<u64> {
        hex_text_value(self.hex@)
    }

    /// Parses an immediate literal and stores it as canonical hex text.
    pub fn from_str(s: &str) -> (r: Result<ImmediateValue, String>)
        ensures
            match r {
                Ok(iv) => parse_immediate_spec(s@) matches Some(v) && iv.hex@ == hex_token(v as nat),
                Err(_) => parse_immediate_spec(s@) is None,
            },
    {
        let n = s.unicode_len();
        if n >= 2 && s.get_char(0) == '0' && s.get_char(1) == 'x' {
            let start = skip_hex_prefixes(s);
            let from = skip_plus(s, start);
            assert(unsigned_body(strip_hex_prefixes(s@)) == s@.subrange(from as int, n as int));
            match parse_digits(s, from, 16, ORDER as u128) {
                Some(v) => Ok(ImmediateValue { hex: to_hex_token(v) }),
                None => Err(String::from_str("immediate is not a valid number in range")),
            }
        } else {
            let signed = n > 0 && (s.get_char(0) == '-' || s.get_char(0) == '+');
            let neg = n > 0 && s.get_char(0) == '-';
            let from: usize = if signed { 1 } else { 0 };
            assert(s@.subrange(0, n as int) =~= s@);
            match parse_digits(s, from, 10, ORDER as u128) {
                Some(v) => {
                    let actual = if neg && v > 0 { ORDER - v } else { v };
                    Ok(ImmediateValue { hex: to_hex_token(actual) })
                },
                None => Err(String::from_str("immediate is not a valid number in range")),
            }
        }
    }

    /// The value of the hex text, if it denotes a `u64`.
    pub fn to_u64(&self) -> (r: Result<u64, String>)
        ensures
            match r {
                Ok(v) => self.spec_value() == Some(v),
                Err(_) => self.spec_value() is None,
            },
    {
        let s = self.hex.as_str();
        let start = skip_hex_prefixes(s);
        let from = skip_plus(s, start);
        match parse_digits(s, from, 16, 0x1_0000_0000_0000_0000u128) {
            Some(v) => Ok(v),
            None => Err(String::from_str("invalid hex digits")),
        }
    }
}

/// The text of an operand as it is written in assembly.
pub open spec fn asm_token_spec(op: OlaOperand) -> Seq<char> {
    match op {
        OlaOperand::ImmediateOperand { value } => value.hex@,
        OlaOperand::RegisterOperand { register } => register.spec_token(),
        OlaOperand::RegisterWithOffset { register, offset } => seq!['['] + register.spec_token()
            + seq![','] + offset.hex@ + seq![']'],
        OlaOperand::SpecialReg { special_reg } => special_reg.spec_token(),
        OlaOperand::RegisterWithFactor { register, factor } => factor.hex@ + seq!['*']
            + register.spec_token(),
    }
}

/// Whether `s` has the shape `[rN,OFFSET]` with a register name and a signed decimal offset.
pub open spec fn is_reg_offset_shape(s: Seq<char>) -> bool {
    &&& s.len() >= 6
    &&& s[0] == '['
    &&& s[3] == ','
    &&& s[s.len() - 1] == ']'
    &&& exists|reg: OlaRegister| reg.spec_token() == s.subrange(1, 3)
    &&& is_signed_decimal(s.subrange(4, s.len() - 1))
}

/// The offset text of a `[rN,OFFSET]` operand.
pub open spec fn offset_text(s: Seq<char>) -> Seq<char> {
    s.subrange(4, s.len() - 1)
}

/// Whether `op` is what `OlaOperand::from_str` yields for `s`, and `s` is one of the
/// accepted operand forms.
pub open spec fn operand_parses_to(s: Seq<char>, op: OlaOperand) -> bool {
    if is_reg_offset_shape(s) {
        &&& op matches OlaOperand::RegisterWithOffset { register, offset }
        &&& register.spec_token() == s.subrange(1, 3)
        &&& parse_immediate_spec(offset_text(s)) matches Some(v)
        &&& offset.hex@ == hex_token(v as nat)
    } else if exists|reg: OlaRegister| reg.spec_token() == s {
        op matches OlaOperand::RegisterOperand { register } && register.spec_token() == s
    } else if is_signed_decimal(s) {
        &&& op matches OlaOperand::ImmediateOperand { value }
        &&& parse_immediate_spec(s) matches Some(v)
        &&& value.hex@ == hex_token(v as nat)
    } else {
        op matches OlaOperand::SpecialReg { special_reg } && special_reg.spec_token() == s
    }
}

/// Whether `s` is one of the accepted operand forms with an immediate in range.
pub open spec fn operand_accepted(s: Seq<char>) -> bool {
    if is_reg_offset_shape(s) {
        parse_immediate_spec(offset_text(s)) is Some
    } else if exists|reg: OlaRegister| reg.spec_token() == s {
        true
    } else if is_signed_decimal(s) {
        parse_immediate_spec(s) is Some
    } else {
        exists|sr: OlaSpecialRegister| sr.spec_token() == s
    }
}

/// Whether `s[from..]` is a signed decimal numeral.
fn check_signed_decimal(s: &str, from: usize, to: usize) -> (r: bool)
    requires
        from <= to <= s@.len(),
    ensures
        r == is_signed_decimal(s@.subrange(from as int, to as int)),
{
    let ghost sub = s@.subrange(from as int, to as int);
    let mut i = from;
    if from < to && s.get_char(from) == '-' {
        i = from + 1;
    }
    let ghost digits = s@.subrange(i as int, to as int);
    assert(sub.len() > 0 && sub[0] == '-' ==> digits =~= sub.subrange(1, sub.len() as int));
    assert(!(sub.len() > 0 && sub[0] == '-') ==> digits =~= sub);
    if i >= to {
        assert(digits.len() == 0);
        return false;
    }
    let start = i;
    assert(is_signed_decimal(sub) == is_numeral(digits, 10));
    while i < to
        invariant
            is_signed_decimal(s@.subrange(from as int, to as int)) == is_numeral(digits, 10),
            from <= start <= i <= to,
            to <= s@.len(),
            digits == s@.subrange(start as int, to as int),
            all_digits(s@.subrange(start as int, i as int), 10),
        decreases to - i,
    {
        let c = s.get_char(i);
        if !('0' <= c && c <= '9') {
            assert(digits[i - start] == c);
            assert(digit_of(c) >= 10);
            return false;
        }
        assert(s@.subrange(start as int, i + 1) =~= s@.subrange(start as int, i as int).push(c));
        i = i + 1;
    }
    assert(s@.subrange(start as int, i as int) =~= digits);
    true
}

impl OlaOperand {
    /// Parses an operand: `[rN,OFFSET]`, `rN`, a decimal immediate, or `pc` / `psp`.
    pub fn from_str(s: &str) -> (r: Result<OlaOperand, String>)
        ensures
            match r {
                Ok(op) => operand_accepted(s@) && operand_parses_to(s@, op),
                Err(_) => !operand_accepted(s@),
            },
    {
        let n = s.unicode_len();
        if n >= 6 && s.get_char(0) == '[' && s.get_char(3) == ',' && s.get_char(n - 1) == ']' {
            let reg_text = s.substring_char(1, 3);
            let reg = OlaRegister::parse(reg_text);
            let dec = check_signed_decimal(s, 4, n - 1);
            if reg.is_some() && dec {
                let offset_text = s.substring_char(4, n - 1);
                let offset = ImmediateValue::from_str(offset_text);
                match offset {
                    Ok(offset) => {
                        return Ok(OlaOperand::RegisterWithOffset { register: reg.unwrap(), offset });
                    },
                    Err(e) => {
                        return Err(e);
                    },
                }
            }
        }
        assert(!is_reg_offset_shape(s@));
        let reg = OlaRegister::parse(s);
        if let Some(register) = reg {
            return Ok(OlaOperand::RegisterOperand { register });
        }
        assert(s@.subrange(0, n as int) =~= s@);
        if check_signed_decimal(s, 0, n) {
            let value = ImmediateValue::from_str(s);
            match value {
                Ok(value) => {
                    return Ok(OlaOperand::ImmediateOperand { value });
                },
                Err(e) => {
                    return Err(e);
                },
            }
        }
        match OlaSpecialRegister::parse(s) {
            Some(special_reg) => Ok(OlaOperand::SpecialReg { special_reg }),
            None => Err(String::from_str("invalid operand")),
        }
    }

    /// The operand written as assembly text.
    pub fn get_asm_token(&self) -> (r: String)
        ensures
            r@ == asm_token_spec(*self),
    {
        proof {
            reveal_strlit("[");
            reveal_strlit(",");
            reveal_strlit("]");
            reveal_strlit("*");
        }
        match self {
            OlaOperand::ImmediateOperand { value } => value.hex.clone(),
            OlaOperand::RegisterOperand { register } => register.token(),
            OlaOperand::RegisterWithOffset { register, offset } => {
                let mut r = String::from_str("[");
                let t = register.token();
                r.append(t.as_str());
                r.append(",");
                r.append(offset.hex.as_str());
                r.append("]");
                assert(r@ =~= asm_token_spec(*self));
                r
            },
            OlaOperand::SpecialReg { special_reg } => special_reg.token(),
            OlaOperand::RegisterWithFactor { register, factor } => {
                let mut r = factor.hex.clone();
                r.append("*");
                let t = register.token();
                r.append(t.as_str());
                assert(r@ =~= asm_token_spec(*self));
                r
            },
        }
    }
}

} // verus!
