//! An in-memory host implementing the storage capability, verified against
//! the same contracts a transport adapter must honour. The proxy logic is
//! exercised against it, and it backs every test.

use vstd::prelude::*;
use crate::data::ContractAddress;
use crate::boundary::{
    BoundarySignal, StorageHost, CODE_KEY_EXISTS,
    delta_blob, delta_size, range_concat,
};
use crate::bytes::{addr_eq, copy_bytes};

verus! {

/// The snapshot store a sequence of writes builds: later writes to the same
/// address win.
pub open spec fn snaps_map(entries: Seq<(ContractAddress, Vec<u8>)>) -> Map<Seq<u8>, Seq<u8>>
    decreases entries.len(),
{
    if entries.len() == 0 {
        Map::empty()
    } else {
        snaps_map(entries.drop_last()).insert(entries.last().0@, entries.last().1@)
    }
}

/// The blob the last write to `id` left, scanning from the newest entry.
pub open spec fn snaps_lookup(entries: Seq<(ContractAddress, Vec<u8>)>, id: Seq<u8>) -> Option<Seq<u8>>
    decreases entries.len(),
{
    if entries.len() == 0 {
        None
    } else if entries.last().0@ == id {
        Some(entries.last().1@)
    } else {
        snaps_lookup(entries.drop_last(), id)
    }
}

/// Scanning from the newest entry finds exactly what the built map holds.
pub proof fn lemma_snaps_lookup(entries: Seq<(ContractAddress, Vec<u8>)>, id: Seq<u8>)
    ensures
        snaps_map(entries).contains_key(id) <==> snaps_lookup(entries, id) is Some,
        snaps_lookup(entries, id) matches Some(v)
            ==> snaps_map(entries).contains_key(id) && snaps_map(entries)[id] == v,
    decreases entries.len(),
{
    if entries.len() > 0 {
        lemma_snaps_lookup(entries.drop_last(), id);
    }
}

/// The delta store a sequence of appends builds.
pub open spec fn delts_map(entries: Seq<(ContractAddress, u32, Vec<u8>)>) -> Map<(Seq<u8>, u32), Seq<u8>>
    decreases entries.len(),
{
    if entries.len() == 0 {
        Map::empty()
    } else {
        delts_map(entries.drop_last()).insert((entries.last().0@, entries.last().1), entries.last().2@)
    }
}

/// The blob the last append to `(id, index)` left.
pub open spec fn delts_lookup(entries: Seq<(ContractAddress, u32, Vec<u8>)>, id: Seq<u8>, index: u32) -> Option<Seq<u8>>
    decreases entries.len(),
{
    if entries.len() == 0 {
        None
    } else if entries.last().0@ == id && entries.last().1 == index {
        Some(entries.last().2@)
    } else {
        delts_lookup(entries.drop_last(), id, index)
    }
}

/// Scanning from the newest entry finds exactly what the built map holds.
pub proof fn lemma_delts_lookup(entries: Seq<(ContractAddress, u32, Vec<u8>)>, id: Seq<u8>, index: u32)
    ensures
        delts_map(entries).contains_key((id, index)) <==> delts_lookup(entries, id, index) is Some,
        delts_lookup(entries, id, index) matches Some(v)
            ==> delts_map(entries).contains_key((id, index)) && delts_map(entries)[(id, index)] == v,
    decreases entries.len(),
{
    if entries.len() > 0 {
        lemma_delts_lookup(entries.drop_last(), id, index);
    }
}

/// A host that stores everything in process memory. It executes every call,
/// so it is `reliable()`; its store is the log of writes it accepted.
pub struct InMemoryHost {
    snaps: Vec<(ContractAddress, Vec<u8>)>,
    delts: Vec<(ContractAddress, u32, Vec<u8>)>,
}

impl InMemoryHost {
    /// A host holding nothing.
    pub fn new() -> (h: InMemoryHost)
        ensures
            h.snapshots() == Map::<Seq<u8>, Seq<u8>>::empty(),
            h.deltas() == Map::<(Seq<u8>, u32), Seq<u8>>::empty(),
            h.reliable(),
    {
        InMemoryHost { snaps: Vec::new(), delts: Vec::new() }
    }

    /// The position of the newest snapshot entry for `id`, if any.
    fn find_snap(&self, id: &ContractAddress) -> (r: Option<usize>)
        ensures
            r matches Some(j) ==> j < self.snaps@.len()
                && snaps_lookup(self.snaps@, id@) == Some(self.snaps@[j as int].1@),
            r is None ==> snaps_lookup(self.snaps@, id@) is None,
    {
        let mut i = self.snaps.len();
        proof {
            assert(self.snaps@.subrange(0, self.snaps@.len() as int) =~= self.snaps@);
        }
        while i > 0
            invariant
                i <= self.snaps@.len(),
                snaps_lookup(self.snaps@, id@) == snaps_lookup(self.snaps@.subrange(0, i as int), id@),
            decreases i,
        {
            i = i - 1;
            proof {
                assert(self.snaps@.subrange(0, (i + 1) as int).last() == self.snaps@[i as int]);
                assert(self.snaps@.subrange(0, (i + 1) as int).drop_last()
                    =~= self.snaps@.subrange(0, i as int));
            }
            if addr_eq(&self.snaps[i].0, id) {
                return Some(i);
            }
        }
        proof {
            assert(self.snaps@.subrange(0, 0) =~= Seq::<(ContractAddress, Vec<u8>)>::empty());
        }
        None
    }

    /// The position of the newest delta entry for `(id, index)`, if any.
    fn find_delta(&self, id: &ContractAddress, index: u32) -> (r: Option<usize>)
        ensures
            r matches Some(j) ==> j < self.delts@.len()
                && delts_lookup(self.delts@, id@, index) == Some(self.delts@[j as int].2@),
            r is None ==> delts_lookup(self.delts@, id@, index) is None,
    {
        let mut i = self.delts.len();
        proof {
            assert(self.delts@.subrange(0, self.delts@.len() as int) =~= self.delts@);
        }
        while i > 0
            invariant
                i <= self.delts@.len(),
                delts_lookup(self.delts@, id@, index)
                    == delts_lookup(self.delts@.subrange(0, i as int), id@, index),
            decreases i,
        {
            i = i - 1;
            proof {
                assert(self.delts@.subrange(0, (i + 1) as int).last() == self.delts@[i as int]);
                assert(self.delts@.subrange(0, (i + 1) as int).drop_last()
                    =~= self.delts@.subrange(0, i as int));
            }
            if addr_eq(&self.delts[i].0, id) && self.delts[i].1 == index {
                return Some(i);
            }
        }
        proof {
            assert(self.delts@.subrange(0, 0) =~= Seq::<(ContractAddress, u32, Vec<u8>)>::empty());
        }
        None
    }
}

impl StorageHost for InMemoryHost {
    closed spec fn snapshots(&self) -> Map<Seq<u8>, Seq<u8>> {
        snaps_map(self.snaps@)
    }

    closed spec fn deltas(&self) -> Map<(Seq<u8>, u32), Seq<u8>> {
        delts_map(self.delts@)
    }

    closed spec fn reliable(&self) -> bool {
        true
    }

    fn upsert_state(&mut self, id: &ContractAddress, data: &Vec<u8>) -> (sig: BoundarySignal) {
        let entry = (*id, copy_bytes(data));
        self.snaps.push(entry);
        proof {
            assert(self.snaps@.drop_last() =~= old(self).snaps@);
        }
        BoundarySignal { transport_ok: true, code: 0 }
    }

    fn upsert_delta(&mut self, id: &ContractAddress, index: u32, data: &Vec<u8>) -> (sig: BoundarySignal) {
        proof {
            lemma_delts_lookup(self.delts@, id@, index);
        }
        match self.find_delta(id, index) {
            Some(_) => BoundarySignal { transport_ok: true, code: CODE_KEY_EXISTS },
            None => {
                let entry = (*id, index, copy_bytes(data));
                self.delts.push(entry);
                proof {
                    assert(self.delts@.drop_last() =~= old(self).delts@);
                }
                BoundarySignal { transport_ok: true, code: 0 }
            }
        }
    }

    fn probe_state_size(&self, id: &ContractAddress) -> (r: (BoundarySignal, usize)) {
        proof {
            lemma_snaps_lookup(self.snaps@, id@);
        }
        let n = match self.find_snap(id) {
            Some(j) => self.snaps[j].1.len(),
            None => 0,
        };
        (BoundarySignal { transport_ok: true, code: 0 }, n)
    }

    fn fetch_state(&self, id: &ContractAddress, buf: &mut Vec<u8>) -> (sig: BoundarySignal) {
        proof {
            lemma_snaps_lookup(self.snaps@, id@);
        }
        match self.find_snap(id) {
            Some(j) => {
                if buf.len() == self.snaps[j].1.len() {
                    let out = copy_bytes(&self.snaps[j].1);
                    *buf = out;
                    BoundarySignal { transport_ok: true, code: 0 }
                } else {
                    // the destination was not pre-sized to the stored blob
                    BoundarySignal { transport_ok: true, code: 1 }
                }
            }
            None => BoundarySignal { transport_ok: true, code: 1 },
        }
    }

    fn probe_delta_sizes(&self, id: &ContractAddress, start: u32, end: u32, sizes: &mut Vec<usize>) -> (sig: BoundarySignal) {
        let n = sizes.len();
        let mut out: Vec<usize> = Vec::new();
        let mut k: usize = 0;
        while k < n
            invariant
                k <= n,
                n == end - start,
                start <= end,
                out@.len() == k,
                forall|j: int| 0 <= j < k
                    ==> #[trigger] out@[j] == delta_size(delts_map(self.delts@), id@, ((start + j) as u32)),
            decreases n - k,
        {
            let idx = start + (k as u32);
            proof {
                lemma_delts_lookup(self.delts@, id@, idx);
            }
            let v = match self.find_delta(id, idx) {
                Some(j) => self.delts[j].2.len(),
                None => 0,
            };
            out.push(v);
            k = k + 1;
        }
        *sizes = out;
        BoundarySignal { transport_ok: true, code: 0 }
    }

    fn fetch_delta_range(&self, id: &ContractAddress, start: u32, end: u32, buf: &mut Vec<u8>) -> (sig: BoundarySignal) {
        let n = (end - start) as usize;
        let mut acc: Vec<u8> = Vec::new();
        let mut k: usize = 0;
        while k < n
            invariant
                k <= n,
                n == end - start,
                start <= end,
                acc@ == range_concat(delts_map(self.delts@), id@, start, k as nat),
            decreases n - k,
        {
            let idx = start + (k as u32);
            proof {
                lemma_delts_lookup(self.delts@, id@, idx);
            }
            match self.find_delta(id, idx) {
                Some(j) => {
                    let mut t: usize = 0;
                    let blob_len = self.delts[j].2.len();
                    while t < blob_len
                        invariant
                            t <= blob_len,
                            j < self.delts@.len(),
                            blob_len == self.delts@[j as int].2@.len(),
                            acc@ == range_concat(delts_map(self.delts@), id@, start, k as nat)
                                + self.delts@[j as int].2@.subrange(0, t as int),
                        decreases blob_len - t,
                    {
                        proof {
                            assert(self.delts@[j as int].2@.subrange(0, (t + 1) as int)
                                =~= self.delts@[j as int].2@.subrange(0, t as int)
                                    .push(self.delts@[j as int].2@[t as int]));
                        }
                        acc.push(self.delts[j].2[t]);
                        t = t + 1;
                    }
                    proof {
                        assert(self.delts@[j as int].2@.subrange(0, blob_len as int)
                            =~= self.delts@[j as int].2@);
                        assert(delta_blob(delts_map(self.delts@), id@, idx) == self.delts@[j as int].2@);
                        assert(acc@ == range_concat(delts_map(self.delts@), id@, start, (k + 1) as nat));
                    }
                }
                None => {
                    proof {
                        assert(delta_blob(delts_map(self.delts@), id@, idx) =~= Seq::<u8>::empty());
                        assert(acc@ + Seq::<u8>::empty() =~= acc@);
                        assert(acc@ == range_concat(delts_map(self.delts@), id@, start, (k + 1) as nat));
                    }
                }
            }
            k = k + 1;
        }
        if acc.len() == buf.len() {
            proof {
                crate::boundary::lemma_range_concat_len(delts_map(self.delts@), id@, start, (end - start) as nat);
            }
            *buf = acc;
            BoundarySignal { transport_ok: true, code: 0 }
        } else {
            // the destination was not pre-sized to the range's total size
            proof {
                crate::boundary::lemma_range_concat_len(delts_map(self.delts@), id@, start, (end - start) as nat);
            }
            BoundarySignal { transport_ok: true, code: 1 }
        }
    }
}

} // verus!
