//! The trust-boundary calling convention: every call into the host yields a
//! dual signal, destination buffers are pre-sized by the caller, and the six
//! storage operations are abstracted as a capability the proxy runs against.

use vstd::prelude::*;
use vstd::assert_seqs_equal;
use crate::data::{ContractAddress, PatchModel};

verus! {

/// The application code a host reports when a delta write hits an index that
/// is already occupied.
pub const CODE_KEY_EXISTS: i8 = 17;

/// The two independent signals every boundary call yields: whether the
/// platform executed the call at all, and the storage layer's own return
/// code (zero meaning the operation succeeded). Combining them in one value
/// keeps a caller from checking one and forgetting the other.
#[derive(Clone, Copy, Debug, PartialEq, Eq, Structural)]
pub struct BoundarySignal {
    pub transport_ok: bool,
    pub code: i8,
}

impl BoundarySignal {
    /// A call succeeded overall only if both signals say so.
    pub open spec fn is_success(self) -> bool {
        self.transport_ok && self.code == 0
    }
}

/// How a storage-proxy operation fails. Every failure propagates immediately;
/// the proxy retries nothing.
#[derive(Clone, Copy, Debug, PartialEq, Eq, Structural)]
pub enum StorageError {
    /// The platform failed to execute the boundary call at all.
    TransportFault,
    /// The call executed and the host storage layer rejected it with the
    /// given nonzero code.
    ApplicationFault(i8),
    /// A delta write named a `(contract, index)` slot that is already
    /// occupied; callers may treat this as benign idempotency.
    KeyAlreadyExists,
    /// No snapshot was ever stored for the requested contract.
    NotFound,
    /// The probed sizes of a delta range sum past what one contiguous
    /// fetch buffer can hold on this machine.
    RangeTooLarge,
}

/// The blob stored for `(id, index)`, or the empty sequence when that slot
/// was never written.
pub open spec fn delta_blob(deltas: Map<(Seq<u8>, u32), Seq<u8>>, id: Seq<u8>, index: u32) -> Seq<u8> {
    if deltas.contains_key((id, index)) {
        deltas[(id, index)]
    } else {
        Seq::empty()
    }
}

/// The size the host reports for `(id, index)`: zero means nothing stored.
pub open spec fn delta_size(deltas: Map<(Seq<u8>, u32), Seq<u8>>, id: Seq<u8>, index: u32) -> nat {
    delta_blob(deltas, id, index).len()
}

/// Whether the range read emits an entry for `(id, index)`.
pub open spec fn delta_present(deltas: Map<(Seq<u8>, u32), Seq<u8>>, id: Seq<u8>, index: u32) -> bool {
    delta_size(deltas, id, index) > 0
}

/// Whether a snapshot read for `id` can return bytes.
pub open spec fn snap_present(snapshots: Map<Seq<u8>, Seq<u8>>, id: Seq<u8>) -> bool {
    snapshots.contains_key(id) && snapshots[id].len() > 0
}

/// The single contiguous buffer a range fetch fills: the blobs of the first
/// `count` indices at and after `start`, concatenated in index order (absent
/// indices contribute nothing).
pub open spec fn range_concat(deltas: Map<(Seq<u8>, u32), Seq<u8>>, id: Seq<u8>, start: u32, count: nat) -> Seq<u8>
    decreases count,
{
    if count == 0 {
        Seq::empty()
    } else {
        range_concat(deltas, id, start, (count - 1) as nat)
            + delta_blob(deltas, id, ((start + count - 1) as u32))
    }
}

/// The sum of the probed sizes over the first `count` indices of the range.
pub open spec fn range_total_size(deltas: Map<(Seq<u8>, u32), Seq<u8>>, id: Seq<u8>, start: u32, count: nat) -> nat
    decreases count,
{
    if count == 0 {
        0
    } else {
        range_total_size(deltas, id, start, (count - 1) as nat)
            + delta_size(deltas, id, ((start + count - 1) as u32))
    }
}

/// What a range read returns: one patch per present index, in ascending
/// index order, byte-identical to the stored blob.
pub open spec fn range_patches(deltas: Map<(Seq<u8>, u32), Seq<u8>>, id: Seq<u8>, start: u32, count: nat) -> Seq<PatchModel>
    decreases count,
{
    if count == 0 {
        Seq::empty()
    } else {
        let prev = range_patches(deltas, id, start, (count - 1) as nat);
        let index = (start + count - 1) as u32;
        if delta_present(deltas, id, index) {
            prev.push(PatchModel { data: delta_blob(deltas, id, index), contract_id: id, index })
        } else {
            prev
        }
    }
}

/// The host-side storage capability the proxy calls through. The host is a
/// key-value store: snapshots keyed by contract address, deltas keyed by
/// `(address, index)`. A host with `reliable()` true executes every call and
/// honours the storage semantics; the in-memory host is such a host, while an
/// adapter over a real transport promises nothing beyond the per-call
/// clauses.
pub trait StorageHost: Sized {
    /// The snapshot blob stored for each contract address.
    spec fn snapshots(&self) -> Map<Seq<u8>, Seq<u8>>;

    /// The delta blob stored for each `(address, index)` slot.
    spec fn deltas(&self) -> Map<(Seq<u8>, u32), Seq<u8>>;

    /// Whether every call on this host executes and succeeds as far as the
    /// storage semantics allow.
    spec fn reliable(&self) -> bool;

    /// Upsert the snapshot for `id`, replacing any prior one.
    fn upsert_state(&mut self, id: &ContractAddress, data: &Vec<u8>) -> (sig: BoundarySignal)
        ensures
            sig.is_success() ==> final(self).snapshots() == old(self).snapshots().insert(id@, data@)
                && final(self).deltas() == old(self).deltas(),
            !sig.is_success() ==> final(self).snapshots() == old(self).snapshots()
                && final(self).deltas() == old(self).deltas(),
            final(self).reliable() == old(self).reliable(),
            old(self).reliable() ==> sig.is_success(),
    ;

    /// Append the delta for `(id, index)`; an occupied slot is refused with
    /// `CODE_KEY_EXISTS` and left untouched.
    fn upsert_delta(&mut self, id: &ContractAddress, index: u32, data: &Vec<u8>) -> (sig: BoundarySignal)
        ensures
            sig.is_success() ==> !old(self).deltas().contains_key((id@, index))
                && final(self).deltas() == old(self).deltas().insert((id@, index), data@)
                && final(self).snapshots() == old(self).snapshots(),
            !sig.is_success() ==> final(self).deltas() == old(self).deltas()
                && final(self).snapshots() == old(self).snapshots(),
            sig.code == CODE_KEY_EXISTS ==> old(self).deltas().contains_key((id@, index)),
            final(self).reliable() == old(self).reliable(),
            old(self).reliable() ==> sig.transport_ok
                && (if old(self).deltas().contains_key((id@, index)) {
                    sig.code == CODE_KEY_EXISTS
                } else {
                    sig.is_success()
                }),
    ;

    /// Probe the byte length of the snapshot stored for `id`; zero means no
    /// snapshot (stored snapshots are never empty).
    fn probe_state_size(&self, id: &ContractAddress) -> (r: (BoundarySignal, usize))
        ensures
            r.0.is_success() ==> r.1 == (if self.snapshots().contains_key(id@) {
                self.snapshots()[id@].len()
            } else {
                0
            }),
            self.reliable() ==> r.0.is_success(),
    ;

    /// Fetch the snapshot for `id` into a caller-allocated buffer already
    /// sized to the probed length.
    fn fetch_state(&self, id: &ContractAddress, buf: &mut Vec<u8>) -> (sig: BoundarySignal)
        ensures
            sig.is_success() ==> self.snapshots().contains_key(id@)
                && old(buf)@.len() == self.snapshots()[id@].len()
                && final(buf)@ == self.snapshots()[id@],
            self.reliable() && self.snapshots().contains_key(id@)
                && old(buf)@.len() == self.snapshots()[id@].len() ==> sig.is_success(),
    ;

    /// Probe one size per index of the half-open range `[start, end)` into a
    /// caller-allocated array of `end - start` slots.
    fn probe_delta_sizes(&self, id: &ContractAddress, start: u32, end: u32, sizes: &mut Vec<usize>) -> (sig: BoundarySignal)
        requires
            start <= end,
            old(sizes)@.len() == end - start,
        ensures
            sig.is_success() ==> final(sizes)@.len() == end - start
                && (forall|k: int| 0 <= k < final(sizes)@.len()
                    ==> #[trigger] final(sizes)@[k] == delta_size(self.deltas(), id@, ((start + k) as u32))),
            self.reliable() ==> sig.is_success(),
    ;

    /// Fetch the whole range `[start, end)` as one contiguous buffer, the
    /// blobs laid out in index order; the caller pre-sizes the buffer to the
    /// sum of the probed sizes.
    fn fetch_delta_range(&self, id: &ContractAddress, start: u32, end: u32, buf: &mut Vec<u8>) -> (sig: BoundarySignal)
        requires
            start <= end,
        ensures
            sig.is_success() ==> old(buf)@.len() == range_total_size(self.deltas(), id@, start, (end - start) as nat)
                && final(buf)@ == range_concat(self.deltas(), id@, start, (end - start) as nat),
            self.reliable()
                && old(buf)@.len() == range_total_size(self.deltas(), id@, start, (end - start) as nat)
                ==> sig.is_success(),
    ;
}

/// The contiguous range buffer is exactly as long as the probed sizes say.
pub proof fn lemma_range_concat_len(deltas: Map<(Seq<u8>, u32), Seq<u8>>, id: Seq<u8>, start: u32, count: nat)
    ensures
        range_concat(deltas, id, start, count).len() == range_total_size(deltas, id, start, count),
    decreases count,
{
    if count > 0 {
        lemma_range_concat_len(deltas, id, start, (count - 1) as nat);
    }
}

/// Prefix sums of the probed sizes never decrease.
pub proof fn lemma_range_total_monotonic(deltas: Map<(Seq<u8>, u32), Seq<u8>>, id: Seq<u8>, start: u32, j: nat, count: nat)
    requires
        j <= count,
    ensures
        range_total_size(deltas, id, start, j) <= range_total_size(deltas, id, start, count),
    decreases count,
{
    if j < count {
        lemma_range_total_monotonic(deltas, id, start, j, (count - 1) as nat);
    }
}

/// The first `j` blobs of the range buffer are the range buffer of the first
/// `j` indices.
pub proof fn lemma_range_concat_prefix(deltas: Map<(Seq<u8>, u32), Seq<u8>>, id: Seq<u8>, start: u32, j: nat, count: nat)
    requires
        j <= count,
    ensures
        range_concat(deltas, id, start, count).subrange(0, range_total_size(deltas, id, start, j) as int)
            == range_concat(deltas, id, start, j),
    decreases count,
{
    lemma_range_concat_len(deltas, id, start, count);
    lemma_range_concat_len(deltas, id, start, j);
    lemma_range_total_monotonic(deltas, id, start, j, count);
    if j < count {
        lemma_range_concat_prefix(deltas, id, start, j, (count - 1) as nat);
        lemma_range_concat_len(deltas, id, start, (count - 1) as nat);
        lemma_range_total_monotonic(deltas, id, start, j, (count - 1) as nat);
        assert(range_concat(deltas, id, start, count)
            .subrange(0, range_total_size(deltas, id, start, j) as int)
            =~= range_concat(deltas, id, start, (count - 1) as nat)
                .subrange(0, range_total_size(deltas, id, start, j) as int));
    }
}

/// Where the blob of index `start + k` sits inside the contiguous range
/// buffer: between the prefix sums for `k` and `k + 1` indices.
pub proof fn lemma_range_concat_slice(deltas: Map<(Seq<u8>, u32), Seq<u8>>, id: Seq<u8>, start: u32, k: nat, count: nat)
    requires
        k < count,
    ensures
        range_total_size(deltas, id, start, (k + 1) as nat)
            == range_total_size(deltas, id, start, k) + delta_size(deltas, id, ((start + k) as u32)),
        range_total_size(deltas, id, start, (k + 1) as nat) <= range_total_size(deltas, id, start, count),
        range_concat(deltas, id, start, count).subrange(
            range_total_size(deltas, id, start, k) as int,
            range_total_size(deltas, id, start, (k + 1) as nat) as int,
        ) == delta_blob(deltas, id, ((start + k) as u32)),
{
    let t0 = range_total_size(deltas, id, start, k);
    let t1 = range_total_size(deltas, id, start, (k + 1) as nat);
    lemma_range_concat_len(deltas, id, start, k);
    lemma_range_concat_len(deltas, id, start, (k + 1) as nat);
    lemma_range_total_monotonic(deltas, id, start, (k + 1) as nat, count);
    lemma_range_concat_prefix(deltas, id, start, (k + 1) as nat, count);
    let ck = range_concat(deltas, id, start, k);
    let c1 = range_concat(deltas, id, start, (k + 1) as nat);
    let b = delta_blob(deltas, id, ((start + k) as u32));
    assert(c1 == ck + b);
    assert(t1 == t0 + delta_size(deltas, id, ((start + k) as u32)));
    assert(ck.len() == t0);
    assert(c1.len() == t1);
    assert_seqs_equal!(c1.subrange(t0 as int, t1 as int) == b, i => {
        assert(c1.subrange(t0 as int, t1 as int)[i] == c1[t0 + i]);
        assert((ck + b)[t0 + i] == b[i]);
    });
    let cfull = range_concat(deltas, id, start, count);
    lemma_range_concat_len(deltas, id, start, count);
    assert(cfull.subrange(0, t1 as int) == c1);
    assert_seqs_equal!(cfull.subrange(t0 as int, t1 as int) == c1.subrange(t0 as int, t1 as int), i => {
        assert(cfull.subrange(t0 as int, t1 as int)[i] == cfull[t0 + i]);
        assert(c1.subrange(t0 as int, t1 as int)[i] == c1[t0 + i]);
        assert(c1[t0 + i] == cfull.subrange(0, t1 as int)[t0 + i]);
    });
}

/// A bound on every probed size in a range bounds the whole buffer.
pub proof fn lemma_range_total_bounded(deltas: Map<(Seq<u8>, u32), Seq<u8>>, id: Seq<u8>, start: u32, count: nat, bound: nat)
    requires
        forall|k: int| 0 <= k < count ==> #[trigger] delta_size(deltas, id, ((start + k) as u32)) <= bound,
    ensures
        range_total_size(deltas, id, start, count) <= count * bound,
    decreases count,
{
    if count > 0 {
        lemma_range_total_bounded(deltas, id, start, (count - 1) as nat, bound);
        assert((count - 1) * bound + bound == count * bound) by (nonlinear_arith);
    }
}

} // verus!
