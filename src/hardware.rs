//! General-purpose and special registers of the machine.
use vstd::prelude::*;
use vstd::string::StrSliceExecFns;
use vstd::string::StringExecFns;

verus! {

/// Number of general-purpose registers.
pub const NUM_GENERAL_PURPOSE_REGISTER: usize = 9;

/// The register used as frame pointer by convention.
pub const FP_REG_INDEX: usize = 8;

#[derive(Debug, Clone, Copy, PartialEq, Eq, Structural)]
pub enum OlaRegister {
    R0,
    R1,
    R2,
    R3,
    R4,
    R5,
    R6,
    R7,
    R8,
}

#[derive(Debug, Clone, Copy, PartialEq, Eq, Structural)]
pub enum OlaSpecialRegister {
    PC,
    PSP,
}

/// The ASCII digit for a value below ten.
pub open spec fn digit_char(d: nat) -> char {
    ((d + 48) as u8) as char
}

impl OlaRegister {
    pub open spec fn spec_index(self) -> nat {
        match self {
            OlaRegister::R0 => 0,
            OlaRegister::R1 => 1,
            OlaRegister::R2 => 2,
            OlaRegister::R3 => 3,
            OlaRegister::R4 => 4,
            OlaRegister::R5 => 5,
            OlaRegister::R6 => 6,
            OlaRegister::R7 => 7,
            OlaRegister::R8 => 8,
        }
    }

    pub open spec fn spec_from_index(i: nat) -> OlaRegister {
        if i == 0 {
            OlaRegister::R0
        } else if i == 1 {
            OlaRegister::R1
        } else if i == 2 {
            OlaRegister::R2
        } else if i == 3 {
            OlaRegister::R3
        } else if i == 4 {
            OlaRegister::R4
        } else if i == 5 {
            OlaRegister::R5
        } else if i == 6 {
            OlaRegister::R6
        } else if i == 7 {
            OlaRegister::R7
        } else {
            OlaRegister::R8
        }
    }

    /// The assembly name of the register: `r` followed by its index.
    pub open spec fn spec_token(self) -> Seq<char> {
        seq!['r', digit_char(self.spec_index())]
    }

    pub fn index(&self) -> (r: usize)
        ensures
            r == self.spec_index(),
            r < NUM_GENERAL_PURPOSE_REGISTER,
    {
        match self {
            OlaRegister::R0 => 0,
            OlaRegister::R1 => 1,
            OlaRegister::R2 => 2,
            OlaRegister::R3 => 3,
            OlaRegister::R4 => 4,
            OlaRegister::R5 => 5,
            OlaRegister::R6 => 6,
            OlaRegister::R7 => 7,
            OlaRegister::R8 => 8,
        }
    }

    pub fn from_index(i: usize) -> (r: OlaRegister)
        requires
            i < NUM_GENERAL_PURPOSE_REGISTER,
        ensures
            r == OlaRegister::spec_from_index(i as nat),
            r.spec_index() == i,
    {
        match i {
            0 => OlaRegister::R0,
            1 => OlaRegister::R1,
            2 => OlaRegister::R2,
            3 => OlaRegister::R3,
            4 => OlaRegister::R4,
            5 => OlaRegister::R5,
            6 => OlaRegister::R6,
            7 => OlaRegister::R7,
            _ => OlaRegister::R8,
        }
    }

    /// Parses `r0` .. `r8`.
    pub fn parse(s: &str) -> (r: Option<OlaRegister>)
        ensures
            r matches Some(reg) ==> reg.spec_token() == s@,
            r is None ==> forall|reg: OlaRegister| reg.spec_token() != s@,
    {
        if s.unicode_len() != 2 || s.get_char(0) != 'r' {
            proof {
                assert forall|reg: OlaRegister| reg.spec_token() != s@ by {
                    if reg.spec_token() == s@ {
                        assert(s@[0] == reg.spec_token()[0]);
                    }
                }
            }
            return None;
        }
        let c = s.get_char(1);
        if '0' <= c && c <= '8' {
            let d = (c as u32 - '0' as u32) as usize;
            let reg = OlaRegister::from_index(d);
            assert(reg.spec_token() =~= s@);
            Some(reg)
        } else {
            proof {
                assert forall|reg: OlaRegister| reg.spec_token() != s@ by {
                    if reg.spec_token() == s@ {
                        assert(s@[1] == reg.spec_token()[1]);
                    }
                }
            }
            None
        }
    }

    /// The assembly name of the register.
    pub fn token(&self) -> (r: String)
        ensures
            r@ == self.spec_token(),
    {
        let r = match self {
            OlaRegister::R0 => String::from_str("r0"),
            OlaRegister::R1 => String::from_str("r1"),
            OlaRegister::R2 => String::from_str("r2"),
            OlaRegister::R3 => String::from_str("r3"),
            OlaRegister::R4 => String::from_str("r4"),
            OlaRegister::R5 => String::from_str("r5"),
            OlaRegister::R6 => String::from_str("r6"),
            OlaRegister::R7 => String::from_str("r7"),
            OlaRegister::R8 => String::from_str("r8"),
        };
        proof {
            reveal_strlit("r0");
            reveal_strlit("r1");
            reveal_strlit("r2");
            reveal_strlit("r3");
            reveal_strlit("r4");
            reveal_strlit("r5");
            reveal_strlit("r6");
            reveal_strlit("r7");
            reveal_strlit("r8");
        }
        assert(r@ =~= self.spec_token());
        r
    }
}

impl OlaSpecialRegister {
    pub open spec fn spec_token(self) -> Seq<char> {
        match self {
            OlaSpecialRegister::PC => seq!['p', 'c'],
            OlaSpecialRegister::PSP => seq!['p', 's', 'p'],
        }
    }

    /// Parses `pc` or `psp`.
    pub fn parse(s: &str) -> (r: Option<OlaSpecialRegister>)
        ensures
            r matches Some(reg) ==> reg.spec_token() == s@,
            r is None ==> forall|reg: OlaSpecialRegister| reg.spec_token() != s@,
    {
        let n = s.unicode_len();
        if n == 2 && s.get_char(0) == 'p' && s.get_char(1) == 'c' {
            assert(OlaSpecialRegister::PC.spec_token() =~= s@);
            Some(OlaSpecialRegister::PC)
        } else if n == 3 && s.get_char(0) == 'p' && s.get_char(1) == 's' && s.get_char(2) == 'p' {
            assert(OlaSpecialRegister::PSP.spec_token() =~= s@);
            Some(OlaSpecialRegister::PSP)
        } else {
            proof {
                assert forall|reg: OlaSpecialRegister| reg.spec_token() != s@ by {
                    if reg.spec_token() == s@ {
                        assert(s@[0] == reg.spec_token()[0]);
                        assert(s@[1] == reg.spec_token()[1]);
                        if reg is PSP {
                            assert(s@[2] == reg.spec_token()[2]);
                        }
                    }
                }
            }
            None
        }
    }

    pub fn token(&self) -> (r: String)
        ensures
            r@ == self.spec_token(),
    {
        proof {
            reveal_strlit("pc");
            reveal_strlit("psp");
        }
        match self {
            OlaSpecialRegister::PC => {
                let r = String::from_str("pc");
                assert(r@ =~= self.spec_token());
                r
            },
            OlaSpecialRegister::PSP => {
                let r = String::from_str("psp");
                assert(r@ =~= self.spec_token());
                r
            },
        }
    }
}

} // verus!
