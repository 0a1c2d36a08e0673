//! Memory: per-address histories kept in address order, with region dispatch by
//! address and write-once enforcement.
use vstd::prelude::*;
use crate::field::ORDER;

verus! {

/// Size of each write-once region.
pub const REGION_SPAN: u64 = 0x1_0000_0000;

/// First address of the prophet region, `p - 2^32`; PSP starts here.
pub const PSP_START_ADDR: u64 = 0xFFFF_FFFE_0000_0001;

/// First address of the poseidon region, `p - 2 * 2^32`.
pub const POSEIDON_START_ADDR: u64 = 0xFFFF_FFFD_0000_0001;

/// First address of the ecdsa region, `p - 3 * 2^32`; HP starts here.
pub const ECDSA_START_ADDR: u64 = 0xFFFF_FFFC_0000_0001;

#[derive(Debug, Clone, Copy, PartialEq, Eq, Structural)]
pub enum MemoryRegion {
    ReadWrite,
    Prophet,
    Poseidon,
    Ecdsa,
}

#[derive(Debug, Clone, Copy, PartialEq, Eq, Structural)]
pub enum MemoryError {
    /// A second write to an address of a write-once region.
    WriteOnceViolation,
    /// A read of an address that was never written.
    UninitializedRead,
}

pub open spec fn spec_region_of(addr: u64) -> MemoryRegion {
    if addr >= PSP_START_ADDR {
        MemoryRegion::Prophet
    } else if addr >= POSEIDON_START_ADDR {
        MemoryRegion::Poseidon
    } else if addr >= ECDSA_START_ADDR {
        MemoryRegion::Ecdsa
    } else {
        MemoryRegion::ReadWrite
    }
}

pub open spec fn is_write_once_addr(addr: u64) -> bool {
    spec_region_of(addr) != MemoryRegion::ReadWrite
}

/// The region an address belongs to.
pub fn region_of(addr: u64) -> (r: MemoryRegion)
    ensures
        r == spec_region_of(addr),
{
    if addr >= PSP_START_ADDR {
        MemoryRegion::Prophet
    } else if addr >= POSEIDON_START_ADDR {
        MemoryRegion::Poseidon
    } else if addr >= ECDSA_START_ADDR {
        MemoryRegion::Ecdsa
    } else {
        MemoryRegion::ReadWrite
    }
}

/// One access to one address.
#[derive(Debug, Clone, Copy, PartialEq, Eq, Structural)]
pub struct MemoryCell {
    pub clk: u32,
    /// One-hot mask of the opcode that made the access, zero for a prophet write.
    pub op: u64,
    pub is_write: bool,
    pub filter_looked_for_main: bool,
    pub value: u64,
}

/// All accesses to one address, in the order they happened.
#[derive(Debug)]
pub struct AddressHistory {
    pub addr: u64,
    pub cells: Vec<MemoryCell>,
}

#[derive(Debug)]
pub struct MemoryTree {
    pub trace: Vec<AddressHistory>,
}

pub type HistoryModel = (u64, Seq<MemoryCell>);

/// Number of leading histories whose address is at most `a`, counted from the end;
/// in an address-ordered sequence, the place where `a` belongs.
pub open spec fn pos_of(v: Seq<HistoryModel>, a: u64) -> int
    decreases v.len(),
{
    if v.len() == 0 {
        0
    } else if v.last().0 <= a {
        v.len() as int
    } else {
        pos_of(v.drop_last(), a)
    }
}

/// The history of address `a`, if it was ever accessed.
pub open spec fn lookup(v: Seq<HistoryModel>, a: u64) -> Option<Seq<MemoryCell>> {
    let k = pos_of(v, a);
    if k > 0 && v[k - 1].0 == a {
        Some(v[k - 1].1)
    } else {
        None
    }
}

/// `v` after appending `cell` to the history of `a`, or starting that history.
pub open spec fn record(v: Seq<HistoryModel>, a: u64, cell: MemoryCell) -> Seq<HistoryModel> {
    let k = pos_of(v, a);
    if k > 0 && v[k - 1].0 == a {
        v.update(k - 1, (a, v[k - 1].1.push(cell)))
    } else {
        v.insert(k, (a, seq![cell]))
    }
}

/// The well-formedness of one address history: the first access is a write, clocks never
/// go back, a read carries the value before it, and a write-once address is written once.
pub open spec fn history_wf(a: u64, h: Seq<MemoryCell>) -> bool {
    &&& h.len() > 0
    &&& h[0].is_write
    &&& forall|j: int| 0 <= j < h.len() ==> (#[trigger] h[j]).value < ORDER
    &&& forall|j: int| 0 < j < h.len() ==> h[j - 1].clk <= #[trigger] h[j].clk
    &&& forall|j: int| 0 < j < h.len() && !(#[trigger] h[j]).is_write ==> h[j].value == h[j - 1].value
    &&& is_write_once_addr(a) ==> forall|j: int| 0 < j < h.len() ==> !(#[trigger] h[j]).is_write
}

pub open spec fn model_wf(v: Seq<HistoryModel>) -> bool {
    &&& forall|i: int, j: int| 0 <= i < j < v.len() ==> v[i].0 < v[j].0
    &&& forall|i: int| 0 <= i < v.len() ==> history_wf(v[i].0, #[trigger] v[i].1)
}

/// Every recorded access happened no later than `clk`.
pub open spec fn clk_bound(v: Seq<HistoryModel>, clk: u32) -> bool {
    forall|i: int, j: int| 0 <= i < v.len() && 0 <= j < v[i].1.len() ==> (#[trigger] v[i].1[j]).clk <= clk
}

pub proof fn lemma_pos_of_bounds(v: Seq<HistoryModel>, a: u64)
    requires
        forall|i: int, j: int| 0 <= i < j < v.len() ==> v[i].0 < v[j].0,
    ensures
        0 <= pos_of(v, a) <= v.len(),
        forall|i: int| 0 <= i < pos_of(v, a) ==> v[i].0 <= a,
        forall|i: int| pos_of(v, a) <= i < v.len() ==> v[i].0 > a,
    decreases v.len(),
{
    if v.len() > 0 {
        let last = v.len() - 1;
        if v.last().0 > a {
            let w = v.drop_last();
            lemma_pos_of_bounds(w, a);
            assert forall|i: int| 0 <= i < pos_of(v, a) implies v[i].0 <= a by {
                assert(w[i] == v[i]);
            }
            assert forall|i: int| pos_of(v, a) <= i < v.len() implies v[i].0 > a by {
                if i < last {
                    assert(w[i] == v[i]);
                }
            }
        } else {
            assert forall|i: int| 0 <= i < pos_of(v, a) implies v[i].0 <= a by {
                if i < last {
                    assert(v[i].0 < v[last].0);
                }
            }
        }
    }
}

impl MemoryTree {
    pub open spec fn view(&self) -> Seq<HistoryModel> {
        self.trace@.map_values(|h: AddressHistory| (h.addr, h.cells@))
    }

    pub open spec fn wf(&self) -> bool {
        model_wf(self@)
    }

    pub fn new() -> (m: MemoryTree)
        ensures
            m@ == Seq::<HistoryModel>::empty(),
            m.wf(),
    {
        let m = MemoryTree { trace: Vec::new() };
        assert(m@ =~= Seq::<HistoryModel>::empty());
        m
    }

    fn position(&self, a: u64) -> (k: usize)
        ensures
            k == pos_of(self@, a),
            k <= self@.len(),
    {
        let mut j = self.trace.len();
        assert(self@.subrange(0, j as int) =~= self@);
        while j > 0 && self.trace[j - 1].addr > a
            invariant
                j <= self.trace.len(),
                pos_of(self@, a) == pos_of(self@.subrange(0, j as int), a),
            decreases j,
        {
            let ghost sub = self@.subrange(0, j as int);
            assert(sub.drop_last() =~= self@.subrange(0, j - 1));
            j = j - 1;
        }
        j
    }

    /// The value most recently stored at `a`, if any access was recorded.
    pub open spec fn spec_value_at(&self, a: u64) -> Option<u64> {
        match lookup(self@, a) {
            Some(h) => Some(h.last().value),
            None => None,
        }
    }

    /// The value most recently stored at `a`, without recording an access.
    pub fn value_at(&self, a: u64) -> (r: Option<u64>)
        requires
            self.wf(),
        ensures
            r == self.spec_value_at(a),
    {
        let k = self.position(a);
        if k > 0 && self.trace[k - 1].addr == a {
            proof {
                assert(history_wf(self@[k - 1].0, self@[k - 1].1));
            }
            let n = self.trace[k - 1].cells.len();
            Some(self.trace[k - 1].cells[n - 1].value)
        } else {
            None
        }
    }

    fn append_cell(&mut self, a: u64, k: usize, cell: MemoryCell)
        requires
            k == pos_of(old(self)@, a),
            k <= old(self)@.len(),
        ensures
            final(self)@ == record(old(self)@, a, cell),
    {
        if k > 0 && self.trace[k - 1].addr == a {
            let mut h = self.trace.remove(k - 1);
            h.cells.push(cell);
            self.trace.insert(k - 1, h);
            assert(self@ =~= record(old(self)@, a, cell));
        } else {
            let mut cells: Vec<MemoryCell> = Vec::new();
            cells.push(cell);
            self.trace.insert(k, AddressHistory { addr: a, cells });
            assert(self@ =~= record(old(self)@, a, cell));
        }
    }

    /// Records a write. Fails when `a` lies in a write-once region and was written before.
    pub fn write(&mut self, a: u64, clk: u32, op: u64, filter_looked_for_main: bool, value: u64) -> (r:
        Result<(), MemoryError>)
        requires
            old(self).wf(),
            value < ORDER,
            clk_bound(old(self)@, clk),
        ensures
            final(self).wf(),
            clk_bound(final(self)@, clk),
            is_write_once_addr(a) && lookup(old(self)@, a) is Some ==> r == Err::<(), MemoryError>(
                MemoryError::WriteOnceViolation,
            ) && final(self)@ == old(self)@,
            !(is_write_once_addr(a) && lookup(old(self)@, a) is Some) ==> r is Ok && final(self)@
                == record(
                old(self)@,
                a,
                MemoryCell { clk, op, is_write: true, filter_looked_for_main, value },
            ),
    {
        let k = self.position(a);
        proof {
            lemma_pos_of_bounds(self@, a);
        }
        let exists = k > 0 && self.trace[k - 1].addr == a;
        if exists && region_of(a) != MemoryRegion::ReadWrite {
            return Err(MemoryError::WriteOnceViolation);
        }
        let cell = MemoryCell { clk, op, is_write: true, filter_looked_for_main, value };
        let ghost old_v = self@;
        self.append_cell(a, k, cell);
        proof {
            lemma_record_wf(old_v, a, cell, clk);
        }
        Ok(())
    }

    /// Records a read and returns the value most recently stored at `a`. Fails when `a` was
    /// never written.
    pub fn read(&mut self, a: u64, clk: u32, op: u64, filter_looked_for_main: bool) -> (r: Result<
        u64,
        MemoryError,
    >)
        requires
            old(self).wf(),
            clk_bound(old(self)@, clk),
        ensures
            final(self).wf(),
            clk_bound(final(self)@, clk),
            match old(self).spec_value_at(a) {
                None => r == Err::<u64, MemoryError>(MemoryError::UninitializedRead) && final(self)@
                    == old(self)@,
                Some(v) => r == Ok::<u64, MemoryError>(v) && final(self)@ == record(
                    old(self)@,
                    a,
                    MemoryCell { clk, op, is_write: false, filter_looked_for_main, value: v },
                ),
            },
    {
        let k = self.position(a);
        proof {
            lemma_pos_of_bounds(self@, a);
        }
        if k > 0 && self.trace[k - 1].addr == a {
            let n = self.trace[k - 1].cells.len();
            proof {
                assert(history_wf(self@[k - 1].0, self@[k - 1].1));
            }
            let v = self.trace[k - 1].cells[n - 1].value;
            assert(v < ORDER);
            let cell = MemoryCell { clk, op, is_write: false, filter_looked_for_main, value: v };
            let ghost old_v = self@;
            self.append_cell(a, k, cell);
            proof {
                lemma_record_wf(old_v, a, cell, clk);
            }
            Ok(v)
        } else {
            Err(MemoryError::UninitializedRead)
        }
    }
}

/// Appending a well-formed access to an existing history keeps the memory well formed.
#[verifier::rlimit(40)]
proof fn lemma_record_existing_wf(v: Seq<HistoryModel>, a: u64, cell: MemoryCell, clk: u32)
    requires
        model_wf(v),
        cell.value < ORDER,
        clk_bound(v, clk),
        cell.clk == clk,
        pos_of(v, a) > 0,
        v[pos_of(v, a) - 1].0 == a,
        0 <= pos_of(v, a) <= v.len(),
        cell.is_write ==> !is_write_once_addr(a),
        !cell.is_write ==> cell.value == v[pos_of(v, a) - 1].1.last().value,
    ensures
        model_wf(v.update(pos_of(v, a) - 1, (a, v[pos_of(v, a) - 1].1.push(cell)))),
        clk_bound(v.update(pos_of(v, a) - 1, (a, v[pos_of(v, a) - 1].1.push(cell))), clk),
{
    let k = pos_of(v, a);
    let h = v[k - 1].1;
    let nh = h.push(cell);
    let nv = v.update(k - 1, (a, nh));
    assert(history_wf(v[k - 1].0, h));
    assert(h[h.len() - 1].clk <= clk);
    assert(history_wf(a, nh)) by {
        assert forall|j: int| 0 < j < nh.len() implies nh[j - 1].clk <= #[trigger] nh[j].clk by {
            if j == nh.len() - 1 {
                assert(h[j - 1].clk <= clk);
            } else {
                assert(nh[j] == h[j] && nh[j - 1] == h[j - 1]);
            }
        }
        assert forall|j: int| 0 <= j < nh.len() implies (#[trigger] nh[j]).value < ORDER by {
            if j < nh.len() - 1 {
                assert(nh[j] == h[j]);
            }
        }
        assert forall|j: int| 0 < j < nh.len() && !(#[trigger] nh[j]).is_write implies nh[j].value
            == nh[j - 1].value by {
            if j < nh.len() - 1 {
                assert(nh[j] == h[j] && nh[j - 1] == h[j - 1]);
            }
        }
        assert forall|j: int| is_write_once_addr(a) && 0 < j < nh.len() implies !(
        #[trigger] nh[j]).is_write by {
            if j < nh.len() - 1 {
                assert(nh[j] == h[j]);
            }
        }
    }
    assert forall|i: int| 0 <= i < nv.len() implies history_wf(nv[i].0, #[trigger] nv[i].1) by {
        if i != k - 1 {
            assert(nv[i] == v[i]);
        }
    }
    assert forall|i: int, j: int| 0 <= i < nv.len() && 0 <= j < nv[i].1.len() implies (
    #[trigger] nv[i].1[j]).clk <= clk by {
        if i != k - 1 {
            assert(nv[i] == v[i]);
        } else if j < h.len() {
            assert(nv[i].1[j] == v[i].1[j]);
        }
    }
}

/// Starting the history of a new address with a write keeps the memory well formed.
#[verifier::rlimit(40)]
proof fn lemma_record_new_wf(v: Seq<HistoryModel>, a: u64, cell: MemoryCell, clk: u32)
    requires
        model_wf(v),
        cell.value < ORDER,
        clk_bound(v, clk),
        cell.clk == clk,
        cell.is_write,
        0 <= pos_of(v, a) <= v.len(),
        forall|i: int| 0 <= i < pos_of(v, a) ==> v[i].0 <= a,
        forall|i: int| pos_of(v, a) <= i < v.len() ==> v[i].0 > a,
        !(pos_of(v, a) > 0 && v[pos_of(v, a) - 1].0 == a),
    ensures
        model_wf(v.insert(pos_of(v, a), (a, seq![cell]))),
        clk_bound(v.insert(pos_of(v, a), (a, seq![cell])), clk),
{
    let k = pos_of(v, a);
    let nv = v.insert(k, (a, seq![cell]));
    assert(history_wf(a, seq![cell]));
    assert forall|i: int| 0 <= i < nv.len() implies history_wf(nv[i].0, #[trigger] nv[i].1) by {
        if i < k {
            assert(nv[i] == v[i]);
        } else if i > k {
            assert(nv[i] == v[i - 1]);
        }
    }
    assert forall|i: int, j: int| 0 <= i < j < nv.len() implies nv[i].0 < nv[j].0 by {
        if i < k {
            assert(nv[i] == v[i]);
            assert(v[i].0 < a) by {
                if k > 0 {
                    assert(v[k - 1].0 <= a);
                    if i < k - 1 {
                        assert(v[i].0 < v[k - 1].0);
                    }
                }
            }
        } else if i > k {
            assert(nv[i] == v[i - 1]);
        }
        if j > k {
            assert(nv[j] == v[j - 1]);
        } else if j < k {
            assert(nv[j] == v[j]);
        }
    }
    assert forall|i: int, j: int| 0 <= i < nv.len() && 0 <= j < nv[i].1.len() implies (
    #[trigger] nv[i].1[j]).clk <= clk by {
        if i < k {
            assert(nv[i] == v[i]);
        } else if i > k {
            assert(nv[i] == v[i - 1]);
        }
    }
}

/// Recording a well-formed access keeps the memory well formed.
pub proof fn lemma_record_wf(v: Seq<HistoryModel>, a: u64, cell: MemoryCell, clk: u32)
    requires
        model_wf(v),
        cell.value < ORDER,
        clk_bound(v, clk),
        cell.clk == clk,
        lookup(v, a) is None ==> cell.is_write,
        lookup(v, a) matches Some(h) ==> (cell.is_write ==> !is_write_once_addr(a)) && (
        !cell.is_write ==> cell.value == h.last().value),
    ensures
        model_wf(record(v, a, cell)),
        clk_bound(record(v, a, cell), clk),
{
    lemma_pos_of_bounds(v, a);
    let k = pos_of(v, a);
    if k > 0 && v[k - 1].0 == a {
        lemma_record_existing_wf(v, a, cell, clk);
    } else {
        lemma_record_new_wf(v, a, cell, clk);
    }
}

/// Within every history, each access is on a later clock than the one before.
pub open spec fn clocks_strict(v: Seq<HistoryModel>) -> bool {
    forall|i: int, j: int| 0 <= i < v.len() && 0 < j < v[i].1.len() ==> v[i].1[j - 1].clk < (#[trigger] v[i].1[j]).clk
}

/// Every recorded access happened before `clk`.
pub open spec fn clocks_below(v: Seq<HistoryModel>, clk: int) -> bool {
    forall|i: int, j: int| 0 <= i < v.len() && 0 <= j < v[i].1.len() ==> (#[trigger] v[i].1[j]).clk < clk
}

/// In a well-formed memory an address has one history, and `lookup` finds it.
pub proof fn lemma_lookup_entry(v: Seq<HistoryModel>, a: u64, i: int)
    requires
        model_wf(v),
        0 <= i < v.len(),
        v[i].0 == a,
    ensures
        lookup(v, a) == Some(v[i].1),
{
    lemma_pos_of_bounds(v, a);
    let k = pos_of(v, a);
    assert(i < k);
    if k - 1 > i {
        assert(v[i].0 < v[k - 1].0);
    }
}

/// `lookup` finds a history only where one is recorded.
pub proof fn lemma_lookup_found(v: Seq<HistoryModel>, a: u64)
    requires
        model_wf(v),
        lookup(v, a) is Some,
    ensures
        0 < pos_of(v, a) <= v.len(),
        v[pos_of(v, a) - 1].0 == a,
        lookup(v, a) == Some(v[pos_of(v, a) - 1].1),
{
    lemma_pos_of_bounds(v, a);
}

/// Recording an access to one address leaves the history of every other address alone.
pub proof fn lemma_record_other(v: Seq<HistoryModel>, a: u64, cell: MemoryCell, b: u64)
    requires
        model_wf(v),
        model_wf(record(v, a, cell)),
        a != b,
    ensures
        lookup(record(v, a, cell), b) == lookup(v, b),
{
    lemma_pos_of_bounds(v, a);
    let k = pos_of(v, a);
    let w = record(v, a, cell);
    if lookup(v, b) is Some {
        lemma_lookup_found(v, b);
        let i = pos_of(v, b) - 1;
        if k > 0 && v[k - 1].0 == a {
            assert(i != k - 1);
            assert(w[i] == v[i]);
            lemma_lookup_entry(w, b, i);
        } else {
            if i < k {
                assert(w[i] == v[i]);
                lemma_lookup_entry(w, b, i);
            } else {
                assert(w[i + 1] == v[i]);
                lemma_lookup_entry(w, b, i + 1);
            }
        }
    } else if lookup(w, b) is Some {
        lemma_lookup_found(w, b);
        let i = pos_of(w, b) - 1;
        if k > 0 && v[k - 1].0 == a {
            assert(i != k - 1);
            assert(w[i] == v[i]);
            lemma_lookup_entry(v, b, i);
        } else {
            if i < k {
                assert(w[i] == v[i]);
                lemma_lookup_entry(v, b, i);
            } else if i > k {
                assert(w[i] == v[i - 1]);
                lemma_lookup_entry(v, b, i - 1);
            }
        }
    }
}

/// Recording an access later than every earlier access to its address keeps clocks
/// strictly increasing, and all accesses at or before the new one's clock.
pub proof fn lemma_record_strict(v: Seq<HistoryModel>, a: u64, cell: MemoryCell, clk: int)
    requires
        model_wf(v),
        clocks_strict(v),
        clocks_below(v, clk + 1),
        cell.clk == clk,
        lookup(v, a) matches Some(h) ==> h.last().clk < clk,
    ensures
        clocks_strict(record(v, a, cell)),
        clocks_below(record(v, a, cell), clk + 1),
{
    lemma_pos_of_bounds(v, a);
    let k = pos_of(v, a);
    let w = record(v, a, cell);
    if k > 0 && v[k - 1].0 == a {
        let h = v[k - 1].1;
        assert(history_wf(v[k - 1].0, h));
        assert forall|i: int, j: int| 0 <= i < w.len() && 0 < j < w[i].1.len() implies w[i].1[j - 1].clk < (#[trigger] w[i].1[j]).clk by {
            if i != k - 1 {
                assert(w[i] == v[i]);
            } else if j < h.len() {
                assert(w[i].1[j] == h[j] && w[i].1[j - 1] == h[j - 1]);
            } else {
                assert(w[i].1[j - 1] == h[h.len() - 1]);
            }
        }
        assert forall|i: int, j: int| 0 <= i < w.len() && 0 <= j < w[i].1.len() implies (#[trigger] w[i].1[j]).clk < clk + 1 by {
            if i != k - 1 {
                assert(w[i] == v[i]);
            } else if j < h.len() {
                assert(w[i].1[j] == h[j]);
            }
        }
    } else {
        assert forall|i: int, j: int| 0 <= i < w.len() && 0 < j < w[i].1.len() implies w[i].1[j - 1].clk < (#[trigger] w[i].1[j]).clk by {
            if i < k {
                assert(w[i] == v[i]);
            } else if i > k {
                assert(w[i] == v[i - 1]);
            }
        }
        assert forall|i: int, j: int| 0 <= i < w.len() && 0 <= j < w[i].1.len() implies (#[trigger] w[i].1[j]).clk < clk + 1 by {
            if i < k {
                assert(w[i] == v[i]);
            } else if i > k {
                assert(w[i] == v[i - 1]);
            }
        }
    }
}

} // verus!
