//! Storage hash rows: the Merkle path rows of each storage access, built from the hash
//! layers that the account tree hands back for the storage log.
use vstd::prelude::*;
use crate::field::{field_add, field_mul, field_sub, from_noncanonical_u64, sub_spec, ORDER};
use crate::process::StorageAccess;
use crate::trace::{RangeCheckRequester, RangeCheckRow};

verus! {

/// Depth of the account tree: one hash layer per key bit.
pub const ROOT_TREE_DEPTH: usize = 256;

/// One hash of a Merkle path as the account tree reports it: the node on the path, its
/// sibling, and the first four elements of the permutation output.
#[derive(Debug, Clone, Copy)]
pub struct HashLayer {
    pub paths: [u64; 4],
    pub siblings: [u64; 4],
    pub output: [u64; 4],
}

#[derive(Debug, Clone, Copy)]
pub struct StorageHashRow {
    /// One-based index of the storage access.
    pub idx_storage: u64,
    /// One-based layer, counted from the root.
    pub layer: u64,
    pub layer_bit: u64,
    /// The key bits of the current 64-layer segment read so far, as a number mod p.
    pub addr_acc: u64,
    pub is_layer64: bool,
    pub is_layer128: bool,
    pub is_layer192: bool,
    pub is_layer256: bool,
    pub addr: [u64; 4],
    pub paths: [u64; 4],
    pub siblings: [u64; 4],
    /// `siblings - paths` where the key bit is one, zero elsewhere.
    pub deltas: [u64; 4],
    pub output: [u64; 4],
}

/// Bit `j` of a tree key read from its most significant end: the key is the 256-bit
/// number whose top 64 bits are `key[0]`.
pub open spec fn key_bit(key: [u64; 4], j: int) -> u64 {
    (key[j / 64] >> ((63 - j % 64) as u64)) & 1u64
}

/// The accumulator of row `j`: twice the previous one plus the key bit, restarting at
/// each multiple of 64.
pub open spec fn addr_acc_spec(key: [u64; 4], j: int) -> u64
    decreases j,
{
    if j <= 0 || j % 64 == 0 {
        key_bit(key, j)
    } else {
        ((2 * addr_acc_spec(key, j - 1) + key_bit(key, j)) % (ORDER as int)) as u64
    }
}

pub open spec fn delta_spec(layer: HashLayer, bit: u64, k: int) -> u64 {
    if bit == 1 {
        sub_spec((layer.siblings[k] % ORDER) as int, (layer.paths[k] % ORDER) as int) as u64
    } else {
        0
    }
}

/// Row `j` of the `i`-th access with tree key `key`, built from hash layer `layer`.
pub open spec fn hash_row_spec(key: [u64; 4], i: int, j: int, layer: HashLayer) -> StorageHashRow {
    let bit = key_bit(key, j);
    StorageHashRow {
        idx_storage: (i + 1) as u64,
        layer: (j + 1) as u64,
        layer_bit: bit,
        addr_acc: addr_acc_spec(key, j),
        is_layer64: j + 1 == 64,
        is_layer128: j + 1 == 128,
        is_layer192: j + 1 == 192,
        is_layer256: j + 1 == 256,
        addr: key,
        paths: layer.paths,
        siblings: layer.siblings,
        deltas: [delta_spec(layer, bit, 0), delta_spec(layer, bit, 1), delta_spec(layer, bit, 2), delta_spec(layer, bit, 3)],
        output: layer.output,
    }
}

fn delta(layer: &HashLayer, bit: u64, k: usize) -> (r: u64)
    requires
        k < 4,
    ensures
        r == delta_spec(*layer, bit, k as int),
{
    if bit == 1 {
        field_sub(from_noncanonical_u64(layer.siblings[k]), from_noncanonical_u64(layer.paths[k]))
    } else {
        0
    }
}

/// The hash rows of every storage access, and the root after each. The tree reports, for
/// each access in log order, its 256 hash layers from the leaf up; row `j` of access `i`
/// takes the layer `255 - j` of that access. `None` when the layers do not come in whole
/// paths.
pub fn storage_hash_rows(keys: &Vec<[u64; 4]>, layers: &Vec<HashLayer>) -> (r: Option<
    (Vec<StorageHashRow>, Vec<[u64; 4]>),
>)
    ensures
        r is Some <==> layers@.len() == 256 * keys@.len(),
        r matches Some((rows, roots)) ==> {
            &&& rows@.len() == layers@.len()
            &&& roots@.len() == keys@.len()
            &&& forall|i: int, j: int|
                0 <= i < keys@.len() && 0 <= j < 256 ==> #[trigger] rows@[256 * i + j] == hash_row_spec(
                    keys@[i],
                    i,
                    j,
                    layers@[256 * i + 255 - j],
                )
            &&& forall|i: int| 0 <= i < keys@.len() ==> #[trigger] roots@[i] == layers@[256 * i + 255].output
        },
{
    let n = keys.len();
    let ln = layers.len();
    if n > usize::MAX / ROOT_TREE_DEPTH {
        assert(ln <= usize::MAX);
        assert(256 * n > usize::MAX) by (nonlinear_arith)
            requires
                n > usize::MAX / 256,
        ;
        return None;
    }
    if layers.len() != ROOT_TREE_DEPTH * n {
        return None;
    }
    let mut rows: Vec<StorageHashRow> = Vec::new();
    let mut roots: Vec<[u64; 4]> = Vec::new();
    let mut i: usize = 0;
    while i < n
        invariant
            i <= n,
            n == keys@.len(),
            n <= usize::MAX / 256,
            layers@.len() == 256 * n,
            rows@.len() == 256 * i,
            roots@.len() == i,
            forall|a: int, j: int|
                0 <= a < i && 0 <= j < 256 ==> #[trigger] rows@[256 * a + j] == hash_row_spec(
                    keys@[a],
                    a,
                    j,
                    layers@[256 * a + 255 - j],
                ),
            forall|a: int| 0 <= a < i ==> #[trigger] roots@[a] == layers@[256 * a + 255].output,
        decreases n - i,
    {
        let key = keys[i];
        assert(256 * i < 256 * n) by (nonlinear_arith)
            requires
                i < n,
        ;
        assert(256 * n <= usize::MAX) by (nonlinear_arith)
            requires
                n <= usize::MAX / 256,
        ;
        let base = 256 * i;
        let mut acc: u64 = 0;
        let mut j: usize = 0;
        while j < 256
            invariant
                i < n,
                n == keys@.len(),
                key == keys@[i as int],
                base == 256 * i,
                layers@.len() == 256 * n,
                j <= 256,
                rows@.len() == base + j,
                j > 0 ==> acc == addr_acc_spec(key, j - 1),
                acc < ORDER,
                forall|a: int, jj: int|
                    0 <= a < i && 0 <= jj < 256 ==> #[trigger] rows@[256 * a + jj] == hash_row_spec(
                        keys@[a],
                        a,
                        jj,
                        layers@[256 * a + 255 - jj],
                    ),
                forall|jj: int|
                    0 <= jj < j ==> #[trigger] rows@[base + jj] == hash_row_spec(key, i as int, jj, layers@[base + 255 - jj]),
            decreases 256 - j,
        {
            let layer = layers[base + 255 - j];
            let word = key[j / 64];
            let sh = (63 - j % 64) as u64;
            let bit = (word >> sh) & 1u64;
            assert(bit == key_bit(key, j as int));
            assert((word >> sh) & 1u64 <= 1u64) by (bit_vector);
            let ghost prev = acc;
            acc = if j % 64 == 0 {
                bit
            } else {
                field_add(field_mul(2, acc), bit)
            };
            proof {
                if j % 64 != 0 {
                    assert(acc == ((2 * prev + bit) % (ORDER as int)) as u64) by {
                        vstd::arithmetic::div_mod::lemma_add_mod_noop(2 * prev, bit as int, ORDER as int);
                        vstd::arithmetic::div_mod::lemma_small_mod(bit as nat, ORDER as nat);
                        vstd::arithmetic::div_mod::lemma_mod_twice(2 * prev, ORDER as int);
                    }
                }
            }
            let row = StorageHashRow {
                idx_storage: (i + 1) as u64,
                layer: (j + 1) as u64,
                layer_bit: bit,
                addr_acc: acc,
                is_layer64: j + 1 == 64,
                is_layer128: j + 1 == 128,
                is_layer192: j + 1 == 192,
                is_layer256: j + 1 == 256,
                addr: key,
                paths: layer.paths,
                siblings: layer.siblings,
                deltas: [delta(&layer, bit, 0), delta(&layer, bit, 1), delta(&layer, bit, 2), delta(&layer, bit, 3)],
                output: layer.output,
            };
            assert(row == hash_row_spec(key, i as int, j as int, layers@[base + 255 - j]));
            rows.push(row);
            j = j + 1;
        }
        roots.push(layers[base + 255].output);
        proof {
            assert forall|a: int, jj: int|
                0 <= a < i + 1 && 0 <= jj < 256 implies #[trigger] rows@[256 * a + jj] == hash_row_spec(
                    keys@[a],
                    a,
                    jj,
                    layers@[256 * a + 255 - jj],
                ) by {
                if a == i {
                    assert(rows@[base + jj] == hash_row_spec(key, i as int, jj, layers@[base + 255 - jj]));
                }
            }
        }
        i = i + 1;
    }
    Some((rows, roots))
}

/// One row of the storage table: an access, the clock step from the access before it, and
/// the tree root after it.
#[derive(Debug, Clone, Copy)]
pub struct StorageTraceRow {
    pub clk: u32,
    pub diff_clk: u32,
    pub op: u64,
    pub root: [u64; 4],
    pub addr: [u64; 4],
    pub value: [u64; 4],
}

/// Whether the log's clocks never decrease.
pub open spec fn clock_ordered(log: Seq<StorageAccess>) -> bool {
    forall|i: int| 0 < i < log.len() ==> log[i - 1].clk <= #[trigger] log[i].clk
}

pub open spec fn storage_row_spec(log: Seq<StorageAccess>, roots: Seq<[u64; 4]>, i: int) -> StorageTraceRow {
    StorageTraceRow {
        clk: log[i].clk,
        diff_clk: if i == 0 { 0 } else { (log[i].clk - log[i - 1].clk) as u32 },
        op: log[i].op,
        root: roots[i],
        addr: log[i].tree_key,
        value: log[i].value,
    }
}

/// The storage table: the log in clock order, each access paired with the root after it
/// and with a range-check row of its clock step. `None` when the log is not in clock
/// order or the roots do not match it one for one.
pub fn gen_storage_table(log: &Vec<StorageAccess>, roots: &Vec<[u64; 4]>) -> (r: Option<
    (Vec<StorageTraceRow>, Vec<RangeCheckRow>),
>)
    ensures
        r is Some <==> clock_ordered(log@) && roots@.len() == log@.len(),
        r matches Some((rows, rc)) ==> {
            &&& rows@.len() == log@.len()
            &&& rc@.len() == log@.len()
            &&& forall|i: int| 0 <= i < log@.len() ==> #[trigger] rows@[i] == storage_row_spec(log@, roots@, i)
            &&& forall|i: int|
                0 <= i < log@.len() ==> #[trigger] rc@[i] == (RangeCheckRow {
                    value: rows@[i].diff_clk as u64,
                    requester: RangeCheckRequester::Storage,
                })
        },
{
    if roots.len() != log.len() {
        return None;
    }
    let mut i: usize = 1;
    while i < log.len()
        invariant
            1 <= i,
            forall|k: int| 0 < k < i && k < log@.len() ==> log@[k - 1].clk <= #[trigger] log@[k].clk,
        decreases log.len() - i,
    {
        if log[i - 1].clk > log[i].clk {
            return None;
        }
        i = i + 1;
    }
    let mut rows: Vec<StorageTraceRow> = Vec::new();
    let mut rc: Vec<RangeCheckRow> = Vec::new();
    let mut i: usize = 0;
    while i < log.len()
        invariant
            i <= log@.len(),
            roots@.len() == log@.len(),
            clock_ordered(log@),
            rows@.len() == i,
            rc@.len() == i,
            forall|k: int| 0 <= k < i ==> #[trigger] rows@[k] == storage_row_spec(log@, roots@, k),
            forall|k: int|
                0 <= k < i ==> #[trigger] rc@[k] == (RangeCheckRow {
                    value: rows@[k].diff_clk as u64,
                    requester: RangeCheckRequester::Storage,
                }),
        decreases log.len() - i,
    {
        let a = log[i];
        let diff: u32 = if i == 0 {
            0
        } else {
            a.clk - log[i - 1].clk
        };
        let row = StorageTraceRow { clk: a.clk, diff_clk: diff, op: a.op, root: roots[i], addr: a.tree_key, value: a.value };
        rows.push(row);
        rc.push(RangeCheckRow { value: diff as u64, requester: RangeCheckRequester::Storage });
        i = i + 1;
    }
    Some((rows, rc))
}

} // verus!
