//! The storage proxy: moves encrypted records across the trust boundary
//! using the pre-sized-buffer calling convention, reconciling the dual
//! status/code signal of every call, and splitting batched range reads.

use vstd::prelude::*;
use crate::data::{ContractAddress, EncryptedContractState, EncryptedPatch, PatchModel};
use crate::boundary::{
    BoundarySignal, StorageError, StorageHost, CODE_KEY_EXISTS,
    delta_present, delta_blob, delta_size, snap_present,
    range_concat, range_patches, range_total_size,
    lemma_range_concat_len, lemma_range_concat_slice, lemma_range_total_monotonic,
};
use crate::bytes::{address_bytes, copy_range, zero_bytes, zero_usizes};
use crate::memory::InMemoryHost;
use crate::hashing::{address_from_label, sha256_of};

verus! {

/// Upsert the snapshot ciphertext for `enc.contract_id`, replacing any prior
/// snapshot. Success requires both boundary signals to be clean; a nonzero
/// application code or a transport failure each surface as their own error.
pub fn save_state<H: StorageHost>(host: &mut H, enc: &EncryptedContractState) -> (r: Result<(), StorageError>)
    requires
        enc.wf(),
    ensures
        r is Ok ==> final(host).snapshots() == old(host).snapshots().insert(enc.contract_id@, enc.json@)
            && final(host).deltas() == old(host).deltas(),
        r is Err ==> final(host).snapshots() == old(host).snapshots()
            && final(host).deltas() == old(host).deltas(),
        r matches Err(e) ==> (e is ApplicationFault || e is TransportFault),
        old(host).reliable() ==> r is Ok,
        final(host).reliable() == old(host).reliable(),
{
    let sig = host.upsert_state(&enc.contract_id, &enc.json);
    if sig.code != 0 {
        Err(StorageError::ApplicationFault(sig.code))
    } else if !sig.transport_ok {
        Err(StorageError::TransportFault)
    } else {
        Ok(())
    }
}

/// Append a new delta keyed by `(enc.contract_id, enc.index)`. The host's
/// reserved code for an occupied slot surfaces as the distinct
/// `KeyAlreadyExists`; any other nonzero code or a transport failure is a
/// generic fault.
pub fn save_delta<H: StorageHost>(host: &mut H, enc: &EncryptedPatch) -> (r: Result<(), StorageError>)
    requires
        enc.wf(),
    ensures
        r is Ok ==> !old(host).deltas().contains_key((enc.contract_id@, enc.index))
            && final(host).deltas() == old(host).deltas().insert((enc.contract_id@, enc.index), enc.data@)
            && final(host).snapshots() == old(host).snapshots(),
        r is Err ==> final(host).deltas() == old(host).deltas()
            && final(host).snapshots() == old(host).snapshots(),
        r matches Err(e) ==> (e is KeyAlreadyExists || e is ApplicationFault || e is TransportFault),
        r == Err::<(), StorageError>(StorageError::KeyAlreadyExists)
            ==> old(host).deltas().contains_key((enc.contract_id@, enc.index)),
        old(host).reliable() ==> (if old(host).deltas().contains_key((enc.contract_id@, enc.index)) {
            r == Err::<(), StorageError>(StorageError::KeyAlreadyExists)
        } else {
            r is Ok
        }),
        final(host).reliable() == old(host).reliable(),
{
    let sig = host.upsert_delta(&enc.contract_id, enc.index, &enc.data);
    if sig.code == CODE_KEY_EXISTS {
        Err(StorageError::KeyAlreadyExists)
    } else if sig.code != 0 {
        Err(StorageError::ApplicationFault(sig.code))
    } else if !sig.transport_ok {
        Err(StorageError::TransportFault)
    } else {
        Ok(())
    }
}

/// Two-phase snapshot read: probe the stored length, then fetch into an
/// exactly-sized buffer, each phase validating both signals. A contract that
/// was never written reads as the distinct `NotFound` error.
pub fn get_state<H: StorageHost>(host: &H, addr: &ContractAddress) -> (r: Result<EncryptedContractState, StorageError>)
    ensures
        r matches Ok(s) ==> host.snapshots().contains_key(addr@)
            && s.contract_id@ == addr@
            && s.json@ == host.snapshots()[addr@]
            && s.wf(),
        host.reliable() ==> (if snap_present(host.snapshots(), addr@) {
            r is Ok
        } else {
            r == Err::<EncryptedContractState, StorageError>(StorageError::NotFound)
        }),
        r matches Err(e) ==> (e is NotFound || e is ApplicationFault || e is TransportFault),
{
    let (sig, state_len) = host.probe_state_size(addr);
    if sig.code != 0 {
        return Err(StorageError::ApplicationFault(sig.code));
    }
    if !sig.transport_ok {
        return Err(StorageError::TransportFault);
    }
    if state_len == 0 {
        return Err(StorageError::NotFound);
    }
    let mut state = zero_bytes(state_len);
    let sig = host.fetch_state(addr, &mut state);
    if sig.code != 0 {
        return Err(StorageError::ApplicationFault(sig.code));
    }
    if !sig.transport_ok {
        return Err(StorageError::TransportFault);
    }
    Ok(EncryptedContractState { contract_id: *addr, json: state })
}

/// Three-phase range read over the half-open index range `[start, end)`:
/// probe one size per index, fetch the whole range as one contiguous buffer,
/// then split it client-side in index order, skipping indices whose size was
/// zero. Reading past the highest written index is not an error; a range
/// whose sizes sum past the machine's buffer limit is refused.
pub fn get_deltas<H: StorageHost>(host: &H, addr: &ContractAddress, start: u32, end: u32) -> (r: Result<Vec<EncryptedPatch>, StorageError>)
    requires
        start <= end,
    ensures
        r matches Ok(ps) ==> ps@.map_values(|p: EncryptedPatch| p@)
            == range_patches(host.deltas(), addr@, start, (end - start) as nat),
        r matches Ok(ps) ==> forall|i: int| 0 <= i < ps@.len() ==> (#[trigger] ps@[i]).wf(),
        host.reliable() ==> (if range_total_size(host.deltas(), addr@, start, (end - start) as nat) <= usize::MAX {
            r is Ok
        } else {
            r == Err::<Vec<EncryptedPatch>, StorageError>(StorageError::RangeTooLarge)
        }),
        r matches Err(e) ==> (e is TransportFault || e is ApplicationFault || e is RangeTooLarge),
{
    let ghost m = host.deltas();
    let n = (end - start) as usize;
    let mut sizes = zero_usizes(n);
    let sig = host.probe_delta_sizes(addr, start, end, &mut sizes);
    if sig.code != 0 {
        return Err(StorageError::ApplicationFault(sig.code));
    }
    if !sig.transport_ok {
        return Err(StorageError::TransportFault);
    }

    let mut total: usize = 0;
    let mut k: usize = 0;
    while k < n
        invariant
            k <= n,
            n == end - start,
            start <= end,
            m == host.deltas(),
            sizes@.len() == n,
            forall|j: int| 0 <= j < n ==> #[trigger] sizes@[j] == delta_size(m, addr@, ((start + j) as u32)),
            total == range_total_size(m, addr@, start, k as nat),
        decreases n - k,
    {
        let s = sizes[k];
        if s > usize::MAX - total {
            proof {
                lemma_range_total_monotonic(m, addr@, start, (k + 1) as nat, n as nat);
            }
            return Err(StorageError::RangeTooLarge);
        }
        total = total + s;
        k = k + 1;
    }

    let mut buf = zero_bytes(total);
    let sig = host.fetch_delta_range(addr, start, end, &mut buf);
    if sig.code != 0 {
        return Err(StorageError::ApplicationFault(sig.code));
    }
    if !sig.transport_ok {
        return Err(StorageError::TransportFault);
    }

    proof {
        lemma_range_concat_len(m, addr@, start, n as nat);
    }
    let mut result: Vec<EncryptedPatch> = Vec::new();
    let mut off: usize = 0;
    let mut k: usize = 0;
    while k < n
        invariant
            k <= n,
            n == end - start,
            start <= end,
            m == host.deltas(),
            sizes@.len() == n,
            forall|j: int| 0 <= j < n ==> #[trigger] sizes@[j] == delta_size(m, addr@, ((start + j) as u32)),
            buf@ == range_concat(m, addr@, start, n as nat),
            buf@.len() == range_total_size(m, addr@, start, n as nat),
            range_total_size(m, addr@, start, n as nat) <= usize::MAX,
            off == range_total_size(m, addr@, start, k as nat),
            result@.map_values(|p: EncryptedPatch| p@) == range_patches(m, addr@, start, k as nat),
            forall|i: int| 0 <= i < result@.len() ==> (#[trigger] result@[i]).wf(),
        decreases n - k,
    {
        let s = sizes[k];
        proof {
            lemma_range_concat_slice(m, addr@, start, k as nat, n as nat);
        }
        if s > 0 {
            let piece = copy_range(&buf, off, off + s);
            let patch = EncryptedPatch { data: piece, contract_id: *addr, index: start + (k as u32) };
            result.push(patch);
            proof {
                assert(result@.map_values(|p: EncryptedPatch| p@)
                    =~= range_patches(m, addr@, start, (k + 1) as nat));
            }
        } else {
            proof {
                assert(range_patches(m, addr@, start, (k + 1) as nat)
                    == range_patches(m, addr@, start, k as nat));
            }
        }
        off = off + s;
        k = k + 1;
    }
    proof {
        lemma_range_concat_len(m, addr@, start, n as nat);
    }
    Ok(result)
}

/// Law: a snapshot just written is present and byte-identical under its
/// contract address, so `save_state` followed by `get_state` on the same
/// address returns the record that was saved.
pub proof fn lemma_state_round_trip(snapshots: Map<Seq<u8>, Seq<u8>>, id: Seq<u8>, blob: Seq<u8>)
    requires
        blob.len() > 0,
    ensures
        snap_present(snapshots.insert(id, blob), id),
        snapshots.insert(id, blob)[id] == blob,
{
}

/// Law: the slot a successful delta write fills stays occupied, so a second
/// `save_delta` with the same `(contract, index)` on a reliable host is
/// answered with `KeyAlreadyExists`, distinct from a generic fault.
pub proof fn lemma_duplicate_delta_detected(deltas: Map<(Seq<u8>, u32), Seq<u8>>, id: Seq<u8>, index: u32, blob: Seq<u8>)
    ensures
        deltas.insert((id, index), blob).contains_key((id, index)),
{
}

/// Law: a range read over slots that all hold a nonempty blob returns one
/// patch per slot, in ascending index order, byte-identical to what was
/// stored.
pub proof fn lemma_saved_range_recovered(deltas: Map<(Seq<u8>, u32), Seq<u8>>, id: Seq<u8>, start: u32, count: nat, blobs: Seq<Seq<u8>>)
    requires
        blobs.len() == count,
        start + count <= 0x1_0000_0000,
        forall|j: u32| start <= j < start + count ==> #[trigger] deltas.contains_key((id, j))
            && deltas[(id, j)] == blobs[j - start]
            && blobs[j - start].len() > 0,
    ensures
        range_patches(deltas, id, start, count).len() == count,
        forall|k: int| 0 <= k < count ==> #[trigger] range_patches(deltas, id, start, count)[k]
            == (PatchModel { data: blobs[k], contract_id: id, index: ((start + k) as u32) }),
    decreases count,
{
    if count > 0 {
        let sub = blobs.subrange(0, count - 1);
        assert forall|j: u32| start <= j < start + (count - 1) as nat implies #[trigger] deltas.contains_key((id, j))
            && deltas[(id, j)] == sub[j - start]
            && sub[j - start].len() > 0 by {
            assert(deltas.contains_key((id, j)));
            assert(deltas[(id, j)] == blobs[j - start]);
            assert(blobs[j - start].len() > 0);
            assert(sub[j - start] == blobs[j - start]);
        }
        lemma_saved_range_recovered(deltas, id, start, (count - 1) as nat, sub);
        let idx = ((start + count - 1) as u32);
        assert(start <= idx < start + count);
        assert(deltas.contains_key((id, idx)));
        assert(deltas[(id, idx)] == blobs[idx - start]);
        assert(blobs[idx - start].len() > 0);
        assert(idx - start == count - 1);
        assert(delta_present(deltas, id, idx));
        assert(range_patches(deltas, id, start, count)
            == range_patches(deltas, id, start, (count - 1) as nat)
                .push(PatchModel { data: blobs[count - 1], contract_id: id, index: idx }));
        assert forall|k: int| 0 <= k < count implies #[trigger] range_patches(deltas, id, start, count)[k]
            == (PatchModel { data: blobs[k], contract_id: id, index: ((start + k) as u32) }) by {
            if k < count - 1 {
                assert(range_patches(deltas, id, start, (count - 1) as nat)[k]
                    == (PatchModel { data: sub[k], contract_id: id, index: ((start + k) as u32) }));
                assert(sub[k] == blobs[k]);
            }
        }
    }
}

/// Law: extending a range read past the last written index adds no entries;
/// the result is exactly that of the written prefix, with no error.
pub proof fn lemma_range_past_end(deltas: Map<(Seq<u8>, u32), Seq<u8>>, id: Seq<u8>, start: u32, count: nat, ext: nat)
    requires
        count <= ext,
        forall|k: int| count <= k < ext ==> !(#[trigger] delta_present(deltas, id, ((start + k) as u32))),
    ensures
        range_patches(deltas, id, start, ext) == range_patches(deltas, id, start, count),
    decreases ext,
{
    if count < ext {
        lemma_range_past_end(deltas, id, start, count, (ext - 1) as nat);
    }
}

/// Law: a range read for a contract that was never written returns no
/// entries at all.
pub proof fn lemma_unwritten_range_empty(deltas: Map<(Seq<u8>, u32), Seq<u8>>, id: Seq<u8>, start: u32, count: nat)
    requires
        forall|k: int| 0 <= k < count ==> !(#[trigger] deltas.contains_key((id, ((start + k) as u32)))),
    ensures
        range_patches(deltas, id, start, count) == Seq::<PatchModel>::empty(),
    decreases count,
{
    if count > 0 {
        lemma_unwritten_range_empty(deltas, id, start, (count - 1) as nat);
    }
}

/// Writes one delta per index of `[start, end)` into previously unused slots
/// and returns the written records, oldest first.
pub fn save_deltas<H: StorageHost>(host: &mut H, start: u32, end: u32, contract_id: &ContractAddress) -> (deltas: Vec<EncryptedPatch>)
    requires
        old(host).reliable(),
        start <= end,
        forall|i: u32| start <= i < end ==> !old(host).deltas().contains_key((contract_id@, i)),
    ensures
        deltas@.len() == end - start,
        forall|k: int| 0 <= k < deltas@.len() ==> (#[trigger] deltas@[k])@ == (PatchModel {
            data: deltas@[k].data@,
            contract_id: contract_id@,
            index: ((start + k) as u32),
        }) && deltas@[k].wf() && deltas@[k].data@.len() == 33
            && deltas@[k].data@ == sha256_of("data"@).push((deltas@[k].index % 256) as u8),
        forall|j: u32| start <= j < end ==> #[trigger] final(host).deltas().contains_key((contract_id@, j))
            && final(host).deltas()[(contract_id@, j)] == deltas@[j - start].data@,
        forall|key: (Seq<u8>, u32)| !(key.0 == contract_id@ && start <= key.1 < end)
            ==> ((#[trigger] final(host).deltas().contains_key(key)) <==> old(host).deltas().contains_key(key))
                && (final(host).deltas().contains_key(key)
                    ==> final(host).deltas()[key] == old(host).deltas()[key]),
        final(host).snapshots() == old(host).snapshots(),
        final(host).reliable(),
{
    let seed = address_from_label("data");
    let mut deltas: Vec<EncryptedPatch> = Vec::new();
    let mut i = start;
    while i < end
        invariant
            start <= i <= end,
            host.reliable(),
            deltas@.len() == i - start,
            seed@.len() == 32,
            seed@ == sha256_of("data"@),
            forall|k: int| 0 <= k < deltas@.len() ==> (#[trigger] deltas@[k])@ == (PatchModel {
                data: deltas@[k].data@,
                contract_id: contract_id@,
                index: ((start + k) as u32),
            }) && deltas@[k].wf() && deltas@[k].data@.len() == 33
                && deltas@[k].data@ == sha256_of("data"@).push((deltas@[k].index % 256) as u8),
            forall|j: u32| start <= j < i ==> #[trigger] host.deltas().contains_key((contract_id@, j))
                && host.deltas()[(contract_id@, j)] == deltas@[j - start].data@,
            forall|key: (Seq<u8>, u32)| !(key.0 == contract_id@ && start <= key.1 < i)
                ==> ((#[trigger] host.deltas().contains_key(key)) <==> old(host).deltas().contains_key(key))
                    && (host.deltas().contains_key(key)
                        ==> host.deltas()[key] == old(host).deltas()[key]),
            forall|j: u32| i <= j < end ==> !(#[trigger] old(host).deltas().contains_key((contract_id@, j))),
            host.snapshots() == old(host).snapshots(),
        decreases end - i,
    {
        let ghost prev = host.deltas();
        let mut delta_data = address_bytes(&seed);
        delta_data.push((i % 256) as u8);
        let delta = EncryptedPatch { data: delta_data, contract_id: *contract_id, index: i };
        proof {
            assert(!(start <= i < i));
            assert(!host.deltas().contains_key((contract_id@, i)));
            assert(!prev.contains_key((contract_id@, i)));
        }
        let r = save_delta(host, &delta);
        r.unwrap();
        deltas.push(delta);
        proof {
            assert(host.deltas() == prev.insert((contract_id@, i), delta.data@));
            assert forall|j: u32| start <= j < i + 1 implies #[trigger] host.deltas().contains_key((contract_id@, j))
                && host.deltas()[(contract_id@, j)] == deltas@[j - start].data@ by {
                if j < i {
                    assert(prev.contains_key((contract_id@, j)));
                    assert(prev[(contract_id@, j)] == deltas@[j - start].data@);
                } else {
                    assert(j == i);
                    assert(deltas@[j - start] == delta);
                }
            }
            assert forall|key: (Seq<u8>, u32)| !(key.0 == contract_id@ && start <= key.1 < i + 1)
                implies ((#[trigger] host.deltas().contains_key(key)) <==> old(host).deltas().contains_key(key))
                    && (host.deltas().contains_key(key)
                        ==> host.deltas()[key] == old(host).deltas()[key]) by {
                assert(key != (contract_id@, i));
                assert(!(key.0 == contract_id@ && start <= key.1 < i));
                assert(host.deltas().contains_key(key) <==> prev.contains_key(key));
                assert(host.deltas().contains_key(key) ==> host.deltas()[key] == prev[key]);
                assert(prev.contains_key(key) <==> old(host).deltas().contains_key(key));
                assert(prev.contains_key(key) ==> prev[key] == old(host).deltas()[key]);
            }
        }
        i = i + 1;
    }
    deltas
}

/// Stores one snapshot and one delta on a fresh in-memory host; a reliable
/// host must accept both writes.
pub fn test_me() {
    let mut host = InMemoryHost::new();
    let enc_json: Vec<u8> = vec![
        215, 18, 107, 35, 28, 119, 236, 243, 75, 146, 131, 19, 155, 72, 164, 66, 80, 170,
        84, 3, 35, 201, 202, 190, 74, 191, 203, 12, 19, 212, 170, 28, 211, 254, 8, 37,
        129, 81, 171, 255, 108, 133, 117, 41, 189, 223, 169, 148, 180, 186, 123, 179,
        38, 105, 24, 51, 170, 30, 119, 41, 216, 132, 156, 197, 183, 105, 14, 131, 142,
        77, 205, 8, 17, 139, 152, 196, 117, 216, 241, 102, 227, 171, 158, 39, 228, 4,
        232, 98, 253, 149, 139, 31, 177, 182, 199, 130, 233, 217, 38, 156, 203, 196,
        157, 68, 171, 26, 225, 129, 58, 143, 42, 127, 97, 158, 93, 55, 214, 123, 232,
        240, 250, 44, 168, 203, 156, 207, 172, 211, 169, 52, 241, 219, 186, 94, 201,
        111, 185, 180, 219, 222, 123, 201, 167, 154, 173, 54, 51, 242, 121, 136, 203,
        254, 135, 68, 127, 14, 248, 187, 99, 223, 19, 184, 108, 182, 230, 191, 89, 255,
        103, 127, 183, 89, 166, 37, 93, 56, 147, 68, 184, 19, 20, 150, 241, 5, 45, 120,
        254, 238, 164, 26, 154, 232, 54, 213, 1, 215, 248, 58, 172, 41, 195, 147, 68,
        83, 34, 208, 23, 127, 95, 240, 87, 53, 202, 60, 224, 60, 209, 225, 33, 65, 193,
        204, 185, 207, 146, 221, 251, 161, 31, 144, 237, 152, 209, 130, 146, 177, 37,
        54, 107, 137, 111, 191, 134, 92, 0, 5, 46, 252, 136, 105, 37, 49, 143, 144, 45,
        104, 79, 157, 87, 177, 199, 172, 67, 245, 44, 163, 102, 103, 240, 41, 159, 215,
        149, 182, 103, 92, 144, 213, 112, 5, 248, 129, 128, 0, 55, 185, 137, 255, 87,
        138, 231, 128, 222, 235, 253, 136, 166, 187, 21, 73, 238, 116, 89, 96, 3, 140,
        193, 168, 142, 8, 247, 167, 246, 89, 199, 214, 199, 61, 92, 44, 203, 209, 211,
        0, 1, 2, 3, 4, 5, 6, 7, 8, 9, 10, 11,
    ];
    let id = address_from_label("Enigma");
    let enc = EncryptedContractState { contract_id: id, json: enc_json };
    let r = save_state(&mut host, &enc);
    r.unwrap();

    let enc_patch = EncryptedPatch {
        data: vec![
            197, 39, 187, 56, 29, 96, 229, 230, 172, 82, 74, 89, 152, 72, 183, 136, 80,
            182, 222, 4, 47, 197, 200, 233, 105, 90, 207, 14, 20, 220, 170, 226, 21,
            241, 24, 231, 69, 27, 177, 234, 110, 132, 253, 115, 87, 205, 167, 142, 163,
            170, 37, 239, 240, 98, 20, 49, 185, 223, 162, 115, 194, 220, 75, 218, 160,
            17, 83, 134, 247, 239, 213, 207, 59, 32, 76, 204, 206, 134, 80, 234, 88, 0,
            1, 2, 3, 4, 5, 6, 7, 8, 9, 10, 11,
        ],
        contract_id: [
            181, 71, 210, 141, 65, 214, 242, 119, 127, 212, 100, 4, 19, 131, 252, 56,
            173, 224, 167, 158, 196, 65, 19, 33, 251, 198, 129, 58, 247, 127, 88, 162,
        ],
        index: 57,
    };
    let r = save_delta(&mut host, &enc_patch);
    r.unwrap();
}

/// Writes deltas 1 through 6 and reads the same range back; the proof shows
/// the six records return in index order, byte-identical to what was saved.
pub fn test_get_deltas() {
    let mut host = InMemoryHost::new();
    let contract_id = address_from_label("test_get_deltas");
    let start: u32 = 1;
    let end: u32 = 7;
    let deltas = save_deltas(&mut host, start, end, &contract_id);
    proof {
        assert forall|k: int| 0 <= k < (end - start) as nat
            implies #[trigger] delta_size(host.deltas(), contract_id@, ((start + k) as u32)) <= 33 by {
            let jj = ((start + k) as u32);
            assert(start <= jj < end);
            assert(host.deltas().contains_key((contract_id@, jj)));
            assert(host.deltas()[(contract_id@, jj)] == deltas@[jj - start].data@);
            assert(deltas@[k].data@.len() == 33);
        }
        crate::boundary::lemma_range_total_bounded(host.deltas(), contract_id@, start, (end - start) as nat, 33);
    }
    let res = get_deltas(&host, &contract_id, start, end);
    let got = res.unwrap();
    proof {
        let blobs = deltas@.map_values(|p: EncryptedPatch| p@.data);
        assert forall|j: u32| start <= j < start + ((end - start) as nat)
            implies #[trigger] host.deltas().contains_key((contract_id@, j))
                && host.deltas()[(contract_id@, j)] == blobs[j - start]
                && blobs[j - start].len() > 0 by {
            assert(j < end);
            assert(host.deltas().contains_key((contract_id@, j)));
            assert(host.deltas()[(contract_id@, j)] == deltas@[j - start].data@);
            assert(blobs[j - start] == deltas@[j - start]@.data);
            assert(deltas@[j - start].data@.len() == 33);
        }
        lemma_saved_range_recovered(host.deltas(), contract_id@, start, (end - start) as nat, blobs);
        assert(got@.map_values(|p: EncryptedPatch| p@)
            =~= deltas@.map_values(|p: EncryptedPatch| p@));
    }
}

/// Writes deltas 1 through 14 and reads a range extending three indices past
/// the last one written; the unwritten tail contributes no entries and no
/// error.
pub fn test_get_deltas_more() {
    let mut host = InMemoryHost::new();
    let contract_id = address_from_label("test_get_deltas_more");
    let start: u32 = 1;
    let end: u32 = 15;
    let deltas = save_deltas(&mut host, start, end, &contract_id);
    proof {
        assert forall|k: int| 0 <= k < (end + 3 - start) as nat
            implies #[trigger] delta_size(host.deltas(), contract_id@, ((start + k) as u32)) <= 33 by {
            let jj = ((start + k) as u32);
            if k < (end - start) as nat {
                assert(start <= jj < end);
                assert(host.deltas().contains_key((contract_id@, jj)));
                assert(host.deltas()[(contract_id@, jj)] == deltas@[jj - start].data@);
                assert(deltas@[k].data@.len() == 33);
            } else {
                assert(jj >= end);
                assert(!host.deltas().contains_key((contract_id@, jj)));
            }
        }
        crate::boundary::lemma_range_total_bounded(host.deltas(), contract_id@, start, (end + 3 - start) as nat, 33);
    }
    let res = get_deltas(&host, &contract_id, start, end + 3);
    let got = res.unwrap();
    proof {
        let blobs = deltas@.map_values(|p: EncryptedPatch| p@.data);
        assert forall|k: int| (end - start) as nat <= k < (end + 3 - start) as nat
            implies !(#[trigger] delta_present(host.deltas(), contract_id@, ((start + k) as u32))) by {
            let jj = ((start + k) as u32);
            assert(jj >= end);
            assert(!host.deltas().contains_key((contract_id@, jj)));
        }
        lemma_range_past_end(host.deltas(), contract_id@, start, (end - start) as nat, (end + 3 - start) as nat);
        assert forall|j: u32| start <= j < start + ((end - start) as nat)
            implies #[trigger] host.deltas().contains_key((contract_id@, j))
                && host.deltas()[(contract_id@, j)] == blobs[j - start]
                && blobs[j - start].len() > 0 by {
            assert(j < end);
            assert(host.deltas().contains_key((contract_id@, j)));
            assert(host.deltas()[(contract_id@, j)] == deltas@[j - start].data@);
            assert(blobs[j - start] == deltas@[j - start]@.data);
            assert(deltas@[j - start].data@.len() == 33);
        }
        lemma_saved_range_recovered(host.deltas(), contract_id@, start, (end - start) as nat, blobs);
        assert(got@.map_values(|p: EncryptedPatch| p@)
            =~= deltas@.map_values(|p: EncryptedPatch| p@));
    }
}

} // verus!
