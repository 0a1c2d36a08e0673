use olavm::columns::{get_memory_col_name_map, NUM_MEM_COLS};

#[test]
fn print_memory_cols() {
    let m = get_memory_col_name_map();
    for (col, name) in m {
        println!("{}: {}", col, name);
    }
}

#[test]
fn memory_columns_in_order() {
    let m = get_memory_col_name_map();
    assert_eq!(m.len(), NUM_MEM_COLS);
    assert_eq!(m[0].1, "TX_IDX");
    assert_eq!(m[3].1, "ADDR");
    assert_eq!(m[NUM_MEM_COLS - 1].1, "FILTER_LOOKING_RC_COND");
}
