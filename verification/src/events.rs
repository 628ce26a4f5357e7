use vstd::prelude::*;
use crate::account::AccountId;

verus! {

/// Event describing a successful creation: the new record's identifier, its
/// owner, and the manifest pointer it was created with.
pub struct BackupCreated {
    pub id: u128,
    pub owner: AccountId,
    pub manifest_cid: String,
}

/// Event describing a successful update: the record's identifier and the
/// pointer values it holds after the call.
pub struct BackupUpdated {
    pub id: u128,
    pub manifest_cid: String,
    pub acl_root_cid: Option<String>,
}

/// Event describing a successful soft delete.
pub struct BackupDeleted {
    pub id: u128,
}

/// Event describing a successful share: the record, the recipient, and the
/// pointer to the recipient-encrypted key material.
pub struct BackupShared {
    pub id: u128,
    pub recipient: AccountId,
    pub enc_key_cid: String,
}

/// Event describing a successful revocation for a (record, recipient) pair.
pub struct ShareRevoked {
    pub id: u128,
    pub recipient: AccountId,
}

} // verus!
