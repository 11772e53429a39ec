//! The two encrypted record shapes that cross the trust boundary.

use vstd::prelude::*;

verus! {

/// A fixed-length identifier naming a contract's storage namespace.
pub type ContractAddress = [u8; 32];

/// The authenticated-encrypted serialization of a contract's full state at
/// some point in time. The storage layer never inspects the blob; it is
/// meaningless without the matching decryption key.
#[derive(Debug, Clone, PartialEq)]
pub struct EncryptedContractState {
    pub contract_id: ContractAddress,
    pub json: Vec<u8>,
}

/// The ghost shape of a snapshot record: address bytes and ciphertext bytes.
pub ghost struct StateModel {
    pub contract_id: Seq<u8>,
    pub json: Seq<u8>,
}

impl View for EncryptedContractState {
    type V = StateModel;

    open spec fn view(&self) -> StateModel {
        StateModel { contract_id: self.contract_id@, json: self.json@ }
    }
}

impl EncryptedContractState {
    /// An authenticated ciphertext is never empty; the size-probe protocol
    /// relies on that, reading a stored length of zero as "nothing stored".
    pub open spec fn wf(&self) -> bool {
        self.json@.len() > 0
    }
}

/// The authenticated-encrypted serialization of one incremental state change.
/// `index` is unique per `contract_id`; the order of indices defines the
/// replay log for that contract.
#[derive(Debug, Clone, PartialEq)]
pub struct EncryptedPatch {
    pub data: Vec<u8>,
    pub contract_id: ContractAddress,
    pub index: u32,
}

/// The ghost shape of a delta record.
pub ghost struct PatchModel {
    pub data: Seq<u8>,
    pub contract_id: Seq<u8>,
    pub index: u32,
}

impl View for EncryptedPatch {
    type V = PatchModel;

    open spec fn view(&self) -> PatchModel {
        PatchModel { data: self.data@, contract_id: self.contract_id@, index: self.index }
    }
}

impl EncryptedPatch {
    /// As for snapshots: a stored delta blob is never empty, so that a probed
    /// size of zero always means "no delta at this index".
    pub open spec fn wf(&self) -> bool {
        self.data@.len() > 0
    }
}

} // verus!
