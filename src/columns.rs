//! Column layout of the memory table as the constraint system reads it.
use vstd::prelude::*;
use vstd::string::StringExecFns;

verus! {
pub const COL_MEM_TX_IDX: usize = 0;
pub const COL_MEM_ENV_IDX: usize = 1;
pub const COL_MEM_IS_RW: usize = 2;
pub const COL_MEM_ADDR: usize = 3;
pub const COL_MEM_CLK: usize = 4;
pub const COL_MEM_OP: usize = 5;
pub const COL_MEM_S_MLOAD: usize = 6;
pub const COL_MEM_S_MSTORE: usize = 7;
pub const COL_MEM_S_CALL: usize = 8;
pub const COL_MEM_S_RET: usize = 9;
pub const COL_MEM_S_TLOAD: usize = 10;
pub const COL_MEM_S_TSTORE: usize = 11;
pub const COL_MEM_S_SCCALL: usize = 12;
pub const COL_MEM_S_POSEIDON: usize = 13;
pub const COL_MEM_S_SSTORE: usize = 14;
pub const COL_MEM_S_SLOAD: usize = 15;
pub const COL_MEM_S_PROPHET: usize = 16;
pub const COL_MEM_IS_WRITE: usize = 17;
pub const COL_MEM_VALUE: usize = 18;
pub const COL_MEM_DIFF_ADDR: usize = 19;
pub const COL_MEM_DIFF_ADDR_INV: usize = 20;
pub const COL_MEM_DIFF_CLK: usize = 21;
pub const COL_MEM_DIFF_ADDR_COND: usize = 22;
pub const COL_MEM_RW_ADDR_UNCHANGED: usize = 23;
pub const COL_MEM_REGION_PROPHET: usize = 24;
pub const COL_MEM_REGION_HEAP: usize = 25;
pub const COL_MEM_RC_VALUE: usize = 26;
pub const COL_MEM_FILTER_LOOKING_RC: usize = 27;
pub const COL_MEM_FILTER_LOOKING_RC_COND: usize = 28;
pub const NUM_MEM_COLS: usize = 29;

/// The name of each memory column.
pub open spec fn memory_col_name(col: int) -> Seq<char> {
    if col == 0 {
        seq!['T', 'X', '_', 'I', 'D', 'X']
    } else if col == 1 {
        seq!['E', 'N', 'V', '_', 'I', 'D', 'X']
    } else if col == 2 {
        seq!['I', 'S', '_', 'R', 'W']
    } else if col == 3 {
        seq!['A', 'D', 'D', 'R']
    } else if col == 4 {
        seq!['C', 'L', 'K']
    } else if col == 5 {
        seq!['O', 'P']
    } else if col == 6 {
        seq!['S', '_', 'M', 'L', 'O', 'A', 'D']
    } else if col == 7 {
        seq!['S', '_', 'M', 'S', 'T', 'O', 'R', 'E']
    } else if col == 8 {
        seq!['S', '_', 'C', 'A', 'L', 'L']
    } else if col == 9 {
        seq!['S', '_', 'R', 'E', 'T']
    } else if col == 10 {
        seq!['S', '_', 'T', 'L', 'O', 'A', 'D']
    } else if col == 11 {
        seq!['S', '_', 'T', 'S', 'T', 'O', 'R', 'E']
    } else if col == 12 {
        seq!['S', '_', 'S', 'C', 'C', 'A', 'L', 'L']
    } else if col == 13 {
        seq!['S', '_', 'P', 'O', 'S', 'E', 'I', 'D', 'O', 'N']
    } else if col == 14 {
        seq!['S', '_', 'S', 'S', 'T', 'O', 'R', 'E']
    } else if col == 15 {
        seq!['S', '_', 'S', 'L', 'O', 'A', 'D']
    } else if col == 16 {
        seq!['S', '_', 'P', 'R', 'O', 'P', 'H', 'E', 'T']
    } else if col == 17 {
        seq!['I', 'S', '_', 'W', 'R', 'I', 'T', 'E']
    } else if col == 18 {
        seq!['V', 'A', 'L', 'U', 'E']
    } else if col == 19 {
        seq!['D', 'I', 'F', 'F', '_', 'A', 'D', 'D', 'R']
    } else if col == 20 {
        seq!['D', 'I', 'F', 'F', '_', 'A', 'D', 'D', 'R', '_', 'I', 'N', 'V']
    } else if col == 21 {
        seq!['D', 'I', 'F', 'F', '_', 'C', 'L', 'K']
    } else if col == 22 {
        seq!['D', 'I', 'F', 'F', '_', 'A', 'D', 'D', 'R', '_', 'C', 'O', 'N', 'D']
    } else if col == 23 {
        seq!['R', 'W', '_', 'A', 'D', 'D', 'R', '_', 'U', 'N', 'C', 'H', 'A', 'N', 'G', 'E', 'D']
    } else if col == 24 {
        seq!['R', 'E', 'G', 'I', 'O', 'N', '_', 'P', 'R', 'O', 'P', 'H', 'E', 'T']
    } else if col == 25 {
        seq!['R', 'E', 'G', 'I', 'O', 'N', '_', 'H', 'E', 'A', 'P']
    } else if col == 26 {
        seq!['R', 'C', '_', 'V', 'A', 'L', 'U', 'E']
    } else if col == 27 {
        seq!['F', 'I', 'L', 'T', 'E', 'R', '_', 'L', 'O', 'O', 'K', 'I', 'N', 'G', '_', 'R', 'C']
    } else if col == 28 {
        seq!['F', 'I', 'L', 'T', 'E', 'R', '_', 'L', 'O', 'O', 'K', 'I', 'N', 'G', '_', 'R', 'C', '_', 'C', 'O', 'N', 'D']
    } else {
        Seq::empty()
    }
}

fn col_name(col: usize) -> (r: String)
    requires
        col < NUM_MEM_COLS,
    ensures
        r@ == memory_col_name(col as int),
{
    proof {
        reveal_strlit("TX_IDX");
        reveal_strlit("ENV_IDX");
        reveal_strlit("IS_RW");
        reveal_strlit("ADDR");
        reveal_strlit("CLK");
        reveal_strlit("OP");
        reveal_strlit("S_MLOAD");
        reveal_strlit("S_MSTORE");
        reveal_strlit("S_CALL");
        reveal_strlit("S_RET");
        reveal_strlit("S_TLOAD");
        reveal_strlit("S_TSTORE");
        reveal_strlit("S_SCCALL");
        reveal_strlit("S_POSEIDON");
        reveal_strlit("S_SSTORE");
        reveal_strlit("S_SLOAD");
        reveal_strlit("S_PROPHET");
        reveal_strlit("IS_WRITE");
        reveal_strlit("VALUE");
        reveal_strlit("DIFF_ADDR");
        reveal_strlit("DIFF_ADDR_INV");
        reveal_strlit("DIFF_CLK");
        reveal_strlit("DIFF_ADDR_COND");
        reveal_strlit("RW_ADDR_UNCHANGED");
        reveal_strlit("REGION_PROPHET");
        reveal_strlit("REGION_HEAP");
        reveal_strlit("RC_VALUE");
        reveal_strlit("FILTER_LOOKING_RC");
        reveal_strlit("FILTER_LOOKING_RC_COND");
    }
    let s = match col {
        0 => "TX_IDX",
        1 => "ENV_IDX",
        2 => "IS_RW",
        3 => "ADDR",
        4 => "CLK",
        5 => "OP",
        6 => "S_MLOAD",
        7 => "S_MSTORE",
        8 => "S_CALL",
        9 => "S_RET",
        10 => "S_TLOAD",
        11 => "S_TSTORE",
        12 => "S_SCCALL",
        13 => "S_POSEIDON",
        14 => "S_SSTORE",
        15 => "S_SLOAD",
        16 => "S_PROPHET",
        17 => "IS_WRITE",
        18 => "VALUE",
        19 => "DIFF_ADDR",
        20 => "DIFF_ADDR_INV",
        21 => "DIFF_CLK",
        22 => "DIFF_ADDR_COND",
        23 => "RW_ADDR_UNCHANGED",
        24 => "REGION_PROPHET",
        25 => "REGION_HEAP",
        26 => "RC_VALUE",
        27 => "FILTER_LOOKING_RC",
        _ => "FILTER_LOOKING_RC_COND",
    };
    let r = String::from_str(s);
    assert(r@ =~= memory_col_name(col as int));
    r
}

/// Every memory column with its name, in column order.
pub fn get_memory_col_name_map() -> (r: Vec<(usize, String)>)
    ensures
        r@.len() == NUM_MEM_COLS,
        forall|i: int| 0 <= i < r@.len() ==> (#[trigger] r@[i]).0 == i && r@[i].1@ == memory_col_name(i),
{
    let mut m: Vec<(usize, String)> = Vec::new();
    let mut col: usize = 0;
    while col < NUM_MEM_COLS
        invariant
            col <= NUM_MEM_COLS,
            m@.len() == col,
            forall|i: int| 0 <= i < m@.len() ==> (#[trigger] m@[i]).0 == i && m@[i].1@ == memory_col_name(i),
        decreases NUM_MEM_COLS - col,
    {
        m.push((col, col_name(col)));
        col = col + 1;
    }
    m
}

} // verus!
