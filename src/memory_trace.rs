//! The memory trace: every access, sorted by address and then by clock, with the
//! derived columns the constraint system reads.
use vstd::prelude::*;
use crate::field::{checked_inverse, inverse_spec, ORDER};
use crate::memory::{
    clocks_strict, history_wf, is_write_once_addr, model_wf, spec_region_of, HistoryModel, MemoryCell,
    MemoryRegion, MemoryTree, ECDSA_START_ADDR, POSEIDON_START_ADDR, PSP_START_ADDR,
    REGION_SPAN,
};
use crate::process::{Process, ProcessorError, RANGE_CHECK_BOUND};
use crate::trace::{RangeCheckRequester, RangeCheckRow};

verus! {

#[derive(Debug, Clone, Copy, PartialEq, Eq, Structural)]
pub struct MemoryTraceRow {
    pub addr: u64,
    pub clk: u32,
    pub is_rw: bool,
    pub op: u64,
    pub is_write: bool,
    pub diff_addr: u64,
    pub diff_addr_inv: u64,
    pub diff_clk: u64,
    pub diff_addr_cond: u64,
    pub filter_looked_for_main: bool,
    pub rw_addr_unchanged: bool,
    pub region_prophet: bool,
    pub region_poseidon: bool,
    pub region_ecdsa: bool,
    pub value: u64,
    pub filter_looking_rc: bool,
    pub rc_value: u64,
}

/// Every access as (address, cell), histories in address order.
pub open spec fn cells_flat(v: Seq<HistoryModel>) -> Seq<(u64, MemoryCell)>
    decreases v.len(),
{
    if v.len() == 0 {
        Seq::empty()
    } else {
        cells_flat(v.drop_last()) + v.last().1.map_values(|c: MemoryCell| (v.last().0, c))
    }
}

/// Distance from `a` to the last address of its write-once region; zero for read-write
/// addresses.
pub open spec fn region_distance(a: u64) -> u64 {
    match spec_region_of(a) {
        MemoryRegion::Prophet => if a < ORDER {
            (ORDER - 1 - a) as u64
        } else {
            0
        },
        MemoryRegion::Poseidon => (PSP_START_ADDR - 1 - a) as u64,
        MemoryRegion::Ecdsa => (POSEIDON_START_ADDR - 1 - a) as u64,
        MemoryRegion::ReadWrite => 0,
    }
}

/// The trace row of the `i`-th access, given the access before it; `inv` is the inverse
/// of the address difference where one is needed.
pub open spec fn trace_row(flat: Seq<(u64, MemoryCell)>, i: int, inv: u64) -> MemoryTraceRow {
    let a = flat[i].0;
    let c = flat[i].1;
    let region = spec_region_of(a);
    let is_rw = region == MemoryRegion::ReadWrite;
    let cond = region_distance(a);
    let first = i == 0;
    let new_addr = !first && flat[i - 1].0 != a;
    let diff_addr: u64 = if new_addr { (a - flat[i - 1].0) as u64 } else { 0 };
    let diff_clk: u64 = if !first && !new_addr { (c.clk - flat[i - 1].1.clk) as u64 } else { 0 };
    let diff_addr_inv: u64 = if new_addr && is_rw { inv } else { 0 };
    let rc_value: u64 = if first {
        0
    } else if new_addr {
        if is_rw { diff_addr } else { cond }
    } else if is_rw {
        diff_clk
    } else {
        cond
    };
    MemoryTraceRow {
        addr: a,
        clk: c.clk,
        is_rw,
        op: c.op,
        is_write: c.is_write,
        diff_addr,
        diff_addr_inv,
        diff_clk,
        diff_addr_cond: cond,
        filter_looked_for_main: c.filter_looked_for_main,
        rw_addr_unchanged: !first && !new_addr && is_rw,
        region_prophet: region == MemoryRegion::Prophet,
        region_poseidon: region == MemoryRegion::Poseidon,
        region_ecdsa: region == MemoryRegion::Ecdsa,
        value: c.value,
        filter_looking_rc: true,
        rc_value,
    }
}

/// Whether the `i`-th access starts a read-write address after another address.
pub open spec fn needs_inverse(flat: Seq<(u64, MemoryCell)>, i: int) -> bool {
    i > 0 && flat[i - 1].0 != flat[i].0 && !is_write_once_addr(flat[i].0)
}

/// The inverse the `i`-th row needs in its `diff_addr_inv` column (zero when it needs none).
pub open spec fn expected_inv(flat: Seq<(u64, MemoryCell)>, i: int) -> Option<u64> {
    if needs_inverse(flat, i) {
        inverse_spec((flat[i].0 - flat[i - 1].0) as int)
    } else {
        Some(0u64)
    }
}

pub open spec fn row_ok(flat: Seq<(u64, MemoryCell)>, row: MemoryTraceRow, i: int) -> bool {
    match expected_inv(flat, i) {
        Some(x) => row == trace_row(flat, i, x),
        None => false,
    }
}

/// Whether `rows` is the memory trace of the accesses `flat`.
pub open spec fn rows_match(flat: Seq<(u64, MemoryCell)>, rows: Seq<MemoryTraceRow>) -> bool {
    &&& rows.len() == flat.len()
    &&& forall|i: int| 0 <= i < flat.len() ==> row_ok(flat, #[trigger] rows[i], i)
}

/// Properties of the flattened accesses of a well-formed memory: addresses never
/// decrease, clocks never decrease within an address, and a write-once address has one
/// write.
pub open spec fn flat_ordered(flat: Seq<(u64, MemoryCell)>) -> bool {
    &&& forall|i: int| 0 < i < flat.len() ==> flat[i - 1].0 <= #[trigger] flat[i].0
    &&& forall|i: int|
        0 < i < flat.len() && flat[i - 1].0 == #[trigger] flat[i].0 ==> flat[i - 1].1.clk
            <= flat[i].1.clk
    &&& forall|i: int, j: int|
        0 <= i < j < flat.len() && flat[i].0 == flat[j].0 && is_write_once_addr(flat[i].0)
            && #[trigger] flat[i].1.is_write ==> !(#[trigger] flat[j].1.is_write)
    &&& forall|i: int, j: int| 0 <= i < j < flat.len() && flat[i].0 == flat[j].0 ==> forall|k: int| i <= k <= j ==> #[trigger] flat[k].0 == flat[i].0
}

proof fn lemma_flat_bound(v: Seq<HistoryModel>)
    requires
        model_wf(v),
    ensures
        forall|i: int| 0 <= i < cells_flat(v).len() ==> exists|k: int| 0 <= k < v.len() && v[k].0 == #[trigger] cells_flat(v)[i].0,
        v.len() > 0 ==> forall|i: int| 0 <= i < cells_flat(v).len() ==> #[trigger] cells_flat(v)[i].0 <= v.last().0,
    decreases v.len(),
{
    if v.len() > 0 {
        let w = v.drop_last();
        assert(model_wf(w)) by {
            assert forall|i: int| 0 <= i < w.len() implies history_wf(w[i].0, #[trigger] w[i].1) by {
                assert(w[i] == v[i]);
            }
        }
        lemma_flat_bound(w);
        let fw = cells_flat(w);
        let tail = v.last().1.map_values(|c: MemoryCell| (v.last().0, c));
        assert(cells_flat(v) == fw + tail);
        assert forall|i: int| 0 <= i < cells_flat(v).len() implies exists|k: int| 0 <= k < v.len() && v[k].0 == #[trigger] cells_flat(v)[i].0 by {
            if i < fw.len() {
                let k = choose|k: int| 0 <= k < w.len() && w[k].0 == fw[i].0;
                assert(v[k] == w[k]);
            } else {
                assert(cells_flat(v)[i] == tail[i - fw.len()]);
                assert(v[v.len() - 1].0 == cells_flat(v)[i].0);
            }
        }
        assert forall|i: int| 0 <= i < cells_flat(v).len() implies #[trigger] cells_flat(v)[i].0 <= v.last().0 by {
            if i < fw.len() {
                let k = choose|k: int| 0 <= k < w.len() && w[k].0 == fw[i].0;
                assert(v[k] == w[k]);
                assert(v[k].0 < v[v.len() - 1].0);
            } else {
                assert(cells_flat(v)[i] == tail[i - fw.len()]);
            }
        }
    }
}

/// The accesses of a well-formed memory, flattened, are ordered.
pub proof fn lemma_flat_ordered(v: Seq<HistoryModel>)
    requires
        model_wf(v),
    ensures
        flat_ordered(cells_flat(v)),
    decreases v.len(),
{
    if v.len() > 0 {
        let w = v.drop_last();
        assert(model_wf(w)) by {
            assert forall|i: int| 0 <= i < w.len() implies history_wf(w[i].0, #[trigger] w[i].1) by {
                assert(w[i] == v[i]);
            }
        }
        lemma_flat_ordered(w);
        lemma_flat_bound(w);
        let fw = cells_flat(w);
        let a = v.last().0;
        let h = v.last().1;
        assert(history_wf(v[v.len() - 1].0, v[v.len() - 1].1));
        let tail = h.map_values(|c: MemoryCell| (a, c));
        let f = cells_flat(v);
        assert(f == fw + tail);
        if w.len() > 0 {
            assert(w.last().0 < a) by {
                assert(v[v.len() - 2].0 < v[v.len() - 1].0);
            }
        }
        assert forall|i: int| 0 <= i < fw.len() implies #[trigger] fw[i].0 < a by {
            assert(fw[i].0 <= w.last().0);
        }
        assert forall|i: int| 0 <= i < f.len() implies #[trigger] f[i] == if i < fw.len() { fw[i] } else { tail[i - fw.len()] } by {}
        assert forall|i: int| 0 < i < f.len() implies f[i - 1].0 <= #[trigger] f[i].0 by {
            if i < fw.len() {
                assert(f[i] == fw[i] && f[i - 1] == fw[i - 1]);
            } else if i == fw.len() {
                assert(f[i - 1] == fw[i - 1]);
            } else {
                assert(f[i] == tail[i - fw.len()] && f[i - 1] == tail[i - 1 - fw.len()]);
            }
        }
        assert forall|i: int| 0 < i < f.len() && f[i - 1].0 == #[trigger] f[i].0 implies f[i - 1].1.clk <= f[i].1.clk by {
            if i < fw.len() {
                assert(f[i] == fw[i] && f[i - 1] == fw[i - 1]);
            } else if i == fw.len() {
                assert(f[i - 1] == fw[i - 1]);
                assert(fw[i - 1].0 < a);
            } else {
                assert(f[i] == tail[i - fw.len()] && f[i - 1] == tail[i - 1 - fw.len()]);
                assert(h[i - fw.len() - 1].clk <= h[i - fw.len()].clk);
            }
        }
        assert forall|i: int, j: int|
            0 <= i < j < f.len() && f[i].0 == f[j].0 && is_write_once_addr(f[i].0)
                && #[trigger] f[i].1.is_write implies !(#[trigger] f[j].1.is_write) by {
            if j < fw.len() {
                assert(f[i] == fw[i] && f[j] == fw[j]);
            } else if i < fw.len() {
                assert(f[i] == fw[i]);
                assert(fw[i].0 < a);
                assert(f[j] == tail[j - fw.len()]);
            } else {
                assert(f[i] == tail[i - fw.len()] && f[j] == tail[j - fw.len()]);
                assert(j - fw.len() > 0);
                assert(!h[j - fw.len()].is_write);
            }
        }
        assert forall|i: int, j: int| 0 <= i < j < f.len() && f[i].0 == f[j].0 implies forall|k: int| i <= k <= j ==> #[trigger] f[k].0 == f[i].0 by {
            if j < fw.len() {
                assert(f[i] == fw[i] && f[j] == fw[j]);
                assert forall|k: int| i <= k <= j implies #[trigger] f[k].0 == f[i].0 by {
                    assert(f[k] == fw[k]);
                }
            } else if i < fw.len() {
                assert(f[i] == fw[i]);
                assert(fw[i].0 < a);
                assert(f[j] == tail[j - fw.len()]);
            } else {
                assert forall|k: int| i <= k <= j implies #[trigger] f[k].0 == f[i].0 by {
                    assert(f[k] == tail[k - fw.len()]);
                    assert(f[i] == tail[i - fw.len()]);
                }
            }
        }
    }
}

/// The memory trace and the range-check rows it asks for.
#[derive(Debug)]
pub struct MemoryTable {
    pub rows: Vec<MemoryTraceRow>,
    pub range_check: Vec<RangeCheckRow>,
}

pub open spec fn rc_row_of(row: MemoryTraceRow) -> RangeCheckRow {
    RangeCheckRow { value: row.rc_value, requester: RangeCheckRequester::Memory }
}

/// Every access of the memory, histories in address order.
pub fn flatten_memory(m: &MemoryTree) -> (r: Vec<(u64, MemoryCell)>)
    ensures
        r@ == cells_flat(m@),
{
    let mut out: Vec<(u64, MemoryCell)> = Vec::new();
    let mut k: usize = 0;
    let n = m.trace.len();
    while k < n
        invariant
            k <= n,
            n == m@.len(),
            out@ == cells_flat(m@.subrange(0, k as int)),
        decreases n - k,
    {
        let a = m.trace[k].addr;
        let ghost base = out@;
        let mut j: usize = 0;
        while j < m.trace[k].cells.len()
            invariant
                k < n,
                n == m@.len(),
                a == m@[k as int].0,
                j <= m@[k as int].1.len(),
                out@ == base + m@[k as int].1.subrange(0, j as int).map_values(|c: MemoryCell| (a, c)),
            decreases m@[k as int].1.len() - j,
        {
            out.push((a, m.trace[k].cells[j]));
            j = j + 1;
            assert(out@ =~= base + m@[k as int].1.subrange(0, j as int).map_values(|c: MemoryCell| (a, c)));
        }
        proof {
            let v = m@.subrange(0, k + 1);
            assert(v.drop_last() =~= m@.subrange(0, k as int));
            assert(m@[k as int].1.subrange(0, j as int) =~= m@[k as int].1);
        }
        k = k + 1;
    }
    assert(m@.subrange(0, n as int) =~= m@);
    out
}

fn region_distance_exec(a: u64) -> (r: u64)
    ensures
        r == region_distance(a),
        r < REGION_SPAN,
{
    if a >= PSP_START_ADDR {
        if a < ORDER {
            ORDER - 1 - a
        } else {
            0
        }
    } else if a >= POSEIDON_START_ADDR {
        PSP_START_ADDR - 1 - a
    } else if a >= ECDSA_START_ADDR {
        POSEIDON_START_ADDR - 1 - a
    } else {
        0
    }
}

/// Builds the memory trace from the recorded accesses: sorted by address, then clock,
/// with address and clock differences, their inverses, region flags and one range-check
/// row per trace row.
pub fn memory_table(m: &MemoryTree) -> (r: Result<MemoryTable, ProcessorError>)
    requires
        m.wf(),
    ensures
        match r {
            Ok(t) => rows_match(cells_flat(m@), t.rows@) && t.range_check@ == t.rows@.map_values(
                |row: MemoryTraceRow| rc_row_of(row),
            ),
            Err(e) => e == ProcessorError::NotInvertible && exists|i: int|
                0 <= i < cells_flat(m@).len() && needs_inverse(cells_flat(m@), i) && inverse_spec(
                    (cells_flat(m@)[i].0 - cells_flat(m@)[i - 1].0) as int,
                ) is None,
        },
{
    let flat = flatten_memory(m);
    proof {
        lemma_flat_ordered(m@);
    }
    let mut rows: Vec<MemoryTraceRow> = Vec::new();
    let mut rc: Vec<RangeCheckRow> = Vec::new();
    let mut i: usize = 0;
    while i < flat.len()
        invariant
            i <= flat.len(),
            flat@ == cells_flat(m@),
            flat_ordered(flat@),
            rows@.len() == i,
            forall|k: int| 0 <= k < i ==> row_ok(flat@, #[trigger] rows@[k], k),
            rc@ == rows@.map_values(|row: MemoryTraceRow| rc_row_of(row)),
        decreases flat.len() - i,
    {
        let (a, c) = flat[i];
        let region = crate::memory::region_of(a);
        let is_rw = region == MemoryRegion::ReadWrite;
        let cond = region_distance_exec(a);
        let first = i == 0;
        let new_addr = !first && flat[i - 1].0 != a;
        if !first {
            assert(flat@[i - 1].0 <= flat@[i as int].0);
        }
        let diff_addr: u64 = if new_addr {
            a - flat[i - 1].0
        } else {
            0
        };
        if !first && !new_addr {
            assert(flat@[i - 1].1.clk <= flat@[i as int].1.clk);
        }
        let diff_clk: u64 = if !first && !new_addr {
            (c.clk - flat[i - 1].1.clk) as u64
        } else {
            0
        };
        let mut diff_addr_inv: u64 = 0;
        if new_addr && is_rw {
            assert(diff_addr < ORDER);
            match checked_inverse(diff_addr) {
                Some(x) => {
                    diff_addr_inv = x;
                },
                None => {
                    assert(needs_inverse(flat@, i as int));
                    return Err(ProcessorError::NotInvertible);
                },
            }
        }
        let rc_value: u64 = if first {
            0
        } else if new_addr {
            if is_rw {
                diff_addr
            } else {
                cond
            }
        } else if is_rw {
            diff_clk
        } else {
            cond
        };
        let row = MemoryTraceRow {
            addr: a,
            clk: c.clk,
            is_rw,
            op: c.op,
            is_write: c.is_write,
            diff_addr,
            diff_addr_inv,
            diff_clk,
            diff_addr_cond: cond,
            filter_looked_for_main: c.filter_looked_for_main,
            rw_addr_unchanged: !first && !new_addr && is_rw,
            region_prophet: region == MemoryRegion::Prophet,
            region_poseidon: region == MemoryRegion::Poseidon,
            region_ecdsa: region == MemoryRegion::Ecdsa,
            value: c.value,
            filter_looking_rc: true,
            rc_value,
        };
        assert(row == trace_row(flat@, i as int, diff_addr_inv));
        let ghost old_rows = rows@;
        rows.push(row);
        rc.push(RangeCheckRow { value: rc_value, requester: RangeCheckRequester::Memory });
        assert forall|k: int| 0 <= k < i + 1 implies row_ok(flat@, #[trigger] rows@[k], k) by {
            if k < i {
                assert(rows@[k] == old_rows[k]);
            } else {
                assert(rows@[k] == row);
                if needs_inverse(flat@, k) {
                    assert(new_addr && is_rw);
                } else {
                    assert(diff_addr_inv == 0);
                }
            }
        }
        assert(rc@ =~= rows@.map_values(|row: MemoryTraceRow| rc_row_of(row)));
        i = i + 1;
    }
    assert(rows_match(cells_flat(m@), rows@));
    Ok(MemoryTable { rows, range_check: rc })
}

/// Within one address of the memory trace, clocks never decrease from a row to the next.
pub proof fn lemma_memory_trace_clk_monotone(v: Seq<HistoryModel>, rows: Seq<MemoryTraceRow>)
    requires
        model_wf(v),
        rows_match(cells_flat(v), rows),
    ensures
        forall|i: int|
            0 < i < rows.len() && rows[i - 1].addr == #[trigger] rows[i].addr ==> rows[i - 1].clk
                <= rows[i].clk,
        forall|i: int| 0 < i < rows.len() ==> rows[i - 1].addr <= #[trigger] rows[i].addr,
{
    lemma_flat_ordered(v);
    let flat = cells_flat(v);
    assert forall|i: int| 0 < i < rows.len() && rows[i - 1].addr == #[trigger] rows[i].addr implies rows[i - 1].clk <= rows[i].clk by {
        assert(flat[i - 1].0 <= flat[i].0);
    }
    assert forall|i: int| 0 < i < rows.len() implies rows[i - 1].addr <= #[trigger] rows[i].addr by {
        assert(flat[i - 1].0 <= flat[i].0);
    }
}

/// An address of a write-once region has at most one write row in the memory trace.
pub proof fn lemma_memory_trace_write_once(v: Seq<HistoryModel>, rows: Seq<MemoryTraceRow>)
    requires
        model_wf(v),
        rows_match(cells_flat(v), rows),
    ensures
        forall|i: int, j: int|
            0 <= i < rows.len() && 0 <= j < rows.len() && rows[i].addr == rows[j].addr && rows[i].addr
                >= ECDSA_START_ADDR && #[trigger] rows[i].is_write && #[trigger] rows[j].is_write ==> i == j,
{
    lemma_flat_ordered(v);
    let flat = cells_flat(v);
    assert forall|i: int, j: int|
        0 <= i < rows.len() && 0 <= j < rows.len() && rows[i].addr == rows[j].addr && rows[i].addr
            >= ECDSA_START_ADDR && #[trigger] rows[i].is_write && #[trigger] rows[j].is_write implies i == j by {
        if i < j {
            assert(flat[i].1.is_write && flat[j].1.is_write);
        } else if j < i {
            assert(flat[i].1.is_write && flat[j].1.is_write);
        }
    }
}

/// Every range-check value of the memory trace is below 2^32, provided consecutive
/// accessed addresses entering a read-write address are less than 2^32 apart.
pub proof fn lemma_memory_trace_range_bound(v: Seq<HistoryModel>, rows: Seq<MemoryTraceRow>)
    requires
        model_wf(v),
        rows_match(cells_flat(v), rows),
        forall|i: int|
            0 <= i < cells_flat(v).len() && #[trigger] needs_inverse(cells_flat(v), i) ==> cells_flat(v)[i].0
                - cells_flat(v)[i - 1].0 < RANGE_CHECK_BOUND,
    ensures
        forall|i: int| 0 <= i < rows.len() ==> #[trigger] rows[i].rc_value < RANGE_CHECK_BOUND,
{
    lemma_flat_ordered(v);
    let flat = cells_flat(v);
    assert forall|i: int| 0 <= i < rows.len() implies #[trigger] rows[i].rc_value < RANGE_CHECK_BOUND by {
        let a = flat[i].0;
        assert(row_ok(flat, rows[i], i));
        let x = expected_inv(flat, i).unwrap();
        assert(rows[i] == trace_row(flat, i, x));
        assert(region_distance(a) < RANGE_CHECK_BOUND);
        if i > 0 {
            assert(flat[i - 1].0 <= flat[i].0);
            if flat[i - 1].0 != a && !is_write_once_addr(a) {
                assert(needs_inverse(flat, i));
            }
        }
    }
}

impl Process {
    /// The memory trace of everything this process accessed.
    pub fn gen_memory_table(&self) -> (r: Result<MemoryTable, ProcessorError>)
        requires
            self.wf(),
        ensures
            match r {
                Ok(t) => rows_match(cells_flat(self.memory@), t.rows@) && t.range_check@
                    == t.rows@.map_values(|row: MemoryTraceRow| rc_row_of(row)),
                Err(e) => e == ProcessorError::NotInvertible && exists|i: int|
                    0 <= i < cells_flat(self.memory@).len() && needs_inverse(cells_flat(self.memory@), i)
                        && inverse_spec(
                        (cells_flat(self.memory@)[i].0 - cells_flat(self.memory@)[i - 1].0) as int,
                    ) is None,
            },
    {
        memory_table(&self.memory)
    }
}

proof fn lemma_flat_strict(v: Seq<HistoryModel>)
    requires
        model_wf(v),
        clocks_strict(v),
    ensures
        forall|i: int|
            0 < i < cells_flat(v).len() && cells_flat(v)[i - 1].0 == #[trigger] cells_flat(v)[i].0
                ==> cells_flat(v)[i - 1].1.clk < cells_flat(v)[i].1.clk,
    decreases v.len(),
{
    if v.len() > 0 {
        let w = v.drop_last();
        assert(model_wf(w)) by {
            assert forall|i: int| 0 <= i < w.len() implies history_wf(w[i].0, #[trigger] w[i].1) by {
                assert(w[i] == v[i]);
            }
        }
        assert(clocks_strict(w)) by {
            assert forall|i: int, j: int| 0 <= i < w.len() && 0 < j < w[i].1.len() implies w[i].1[j - 1].clk < (#[trigger] w[i].1[j]).clk by {
                assert(w[i] == v[i]);
            }
        }
        lemma_flat_strict(w);
        lemma_flat_bound(w);
        let fw = cells_flat(w);
        let a = v.last().0;
        let h = v.last().1;
        let tail = h.map_values(|c: MemoryCell| (a, c));
        let f = cells_flat(v);
        assert(f == fw + tail);
        if w.len() > 0 {
            assert(w.last().0 < a) by {
                assert(v[v.len() - 2].0 < v[v.len() - 1].0);
            }
        }
        assert forall|i: int| 0 <= i < fw.len() implies #[trigger] fw[i].0 < a by {
            assert(fw[i].0 <= w.last().0);
        }
        assert forall|i: int| 0 < i < f.len() && f[i - 1].0 == #[trigger] f[i].0 implies f[i - 1].1.clk < f[i].1.clk by {
            if i < fw.len() {
                assert(f[i] == fw[i] && f[i - 1] == fw[i - 1]);
            } else if i == fw.len() {
                assert(f[i - 1] == fw[i - 1]);
                assert(fw[i - 1].0 < a);
            } else {
                assert(f[i] == tail[i - fw.len()] && f[i - 1] == tail[i - 1 - fw.len()]);
                assert(v[v.len() - 1].1[i - fw.len() - 1].clk < v[v.len() - 1].1[i - fw.len()].clk);
            }
        }
    }
}

/// When every history's clocks strictly increase, so do the clocks of consecutive memory
/// trace rows of one address.
pub proof fn lemma_memory_trace_clk_strict(v: Seq<HistoryModel>, rows: Seq<MemoryTraceRow>)
    requires
        model_wf(v),
        clocks_strict(v),
        rows_match(cells_flat(v), rows),
    ensures
        forall|i: int|
            0 < i < rows.len() && rows[i - 1].addr == #[trigger] rows[i].addr ==> rows[i - 1].clk
                < rows[i].clk,
{
    lemma_flat_strict(v);
    let flat = cells_flat(v);
    assert forall|i: int| 0 < i < rows.len() && rows[i - 1].addr == #[trigger] rows[i].addr implies rows[i - 1].clk < rows[i].clk by {
        assert(row_ok(flat, rows[i], i) && row_ok(flat, rows[i - 1], i - 1));
    }
}

} // verus!
