use vstd::prelude::*;
use crate::account::AccountId;
use crate::account::bytes32_eq;

verus! {

/// One hash-verification entry: a fixed-size content hash stored under an
/// issued identifier, with its owner and creation stamp.  Entries of this
/// flavor carry no pointers; they answer existence-by-content queries.
#[derive(Clone, Copy)]
pub struct BackupEntry {
    pub backup_id: u64,
    pub owner: AccountId,
    pub data_hash: [u8; 32],
    pub timestamp: u64,
}

/// The mathematical shape of an entry.
#[verifier::ext_equal]
pub ghost struct EntryV {
    pub backup_id: u64,
    pub owner: Seq<u8>,
    pub data_hash: Seq<u8>,
    pub timestamp: u64,
}

impl View for BackupEntry {
    type V = EntryV;

    open spec fn view(&self) -> EntryV {
        EntryV {
            backup_id: self.backup_id,
            owner: self.owner@,
            data_hash: self.data_hash@,
            timestamp: self.timestamp,
        }
    }
}

/// Event describing a successful creation in the hash-verification store.
pub struct BackupCreated {
    pub backup_id: u64,
    pub owner: AccountId,
    pub data_hash: [u8; 32],
}

/// The entries owned by `owner`, in creation order.
pub open spec fn entries_of_owner(entries: Seq<EntryV>, owner: Seq<u8>) -> Seq<EntryV>
    decreases entries.len(),
{
    if entries.len() == 0 {
        Seq::empty()
    } else {
        let rest = entries_of_owner(entries.drop_last(), owner);
        if entries.last().owner == owner {
            rest.push(entries.last())
        } else {
            rest
        }
    }
}

/// Whether some entry carries `hash`.
pub open spec fn hash_exists(entries: Seq<EntryV>, hash: Seq<u8>) -> bool {
    exists|i: int| 0 <= i < entries.len() && (#[trigger] entries[i]).data_hash == hash
}

/// The abstract state of the hash-verification store.
#[verifier::ext_equal]
pub ghost struct VaultV {
    pub backup_count: u64,
    pub entries: Seq<EntryV>,
    pub admin: Seq<u8>,
}

/// The entry stored under `backup_id`, if any.
pub open spec fn entry_of(v: VaultV, backup_id: u64) -> Option<EntryV> {
    if 1 <= backup_id && backup_id <= v.entries.len() {
        Some(v.entries[backup_id - 1])
    } else {
        None
    }
}

/// The entry a creation writes.
pub open spec fn created_entry(backup_id: u64, caller: Seq<u8>, now: u64, hash: Seq<u8>) -> EntryV {
    EntryV {
        backup_id,
        owner: caller,
        data_hash: hash,
        timestamp: now,
    }
}

/// The abstract invariant: the counter equals the entry count and the entry
/// with identifier `i + 1` sits at position `i`.
pub open spec fn vault_wf(v: VaultV) -> bool {
    &&& v.backup_count == v.entries.len()
    &&& forall|i: int| 0 <= i < v.entries.len() ==> (#[trigger] v.entries[i]).backup_id == i + 1
}

/// The hash-verification store: the entries in creation order, the counter,
/// and the identity that deployed the store.
pub struct ChainVault {
    pub backup_count: u64,
    pub entries: Vec<BackupEntry>,
    pub admin: AccountId,
}

impl View for ChainVault {
    type V = VaultV;

    open spec fn view(&self) -> VaultV {
        VaultV {
            backup_count: self.backup_count,
            entries: Seq::new(self.entries@.len(), |i: int| self.entries@[i]@),
            admin: self.admin@,
        }
    }
}

impl ChainVault {
    /// The store invariant.
    pub open spec fn wf(&self) -> bool {
        vault_wf(self@)
    }

    /// A fresh store; the deploying caller becomes the admin.
    pub fn new(caller: AccountId) -> (r: ChainVault)
        ensures
            r.wf(),
            r@.backup_count == 0,
            r@.entries == Seq::<EntryV>::empty(),
            r@.admin == caller@,
    {
        let r = ChainVault {
            backup_count: 0,
            entries: Vec::new(),
            admin: caller,
        };
        proof {
            assert(r@.entries =~= Seq::<EntryV>::empty());
        }
        r
    }

    /// Record a content hash under a fresh identifier.  The counter refuses
    /// to run past the largest representable value, so an identifier is
    /// never reissued; reaching that bound is a fatal allocation failure for
    /// the caller to rule out.
    pub fn create_backup(&mut self, caller: AccountId, now: u64, data_hash: [u8; 32]) -> (id: u64)
        requires
            old(self).wf(),
            old(self)@.backup_count < u64::MAX,
        ensures
            final(self).wf(),
            id == old(self)@.backup_count + 1,
            final(self)@.backup_count == id,
            final(self)@.admin == old(self)@.admin,
            final(self)@.entries == old(self)@.entries.push(created_entry(id, caller@, now, data_hash@)),
    {
        let ghost pre = self@;
        self.backup_count = self.backup_count + 1;
        let backup_id: u64 = self.backup_count;
        let entry = BackupEntry {
            backup_id,
            owner: caller,
            data_hash,
            timestamp: now,
        };
        self.entries.push(entry);
        proof {
            assert(self@.entries =~= pre.entries.push(created_entry(backup_id, caller@, now, data_hash@)));
            assert forall|i: int| 0 <= i < self@.entries.len()
                implies (#[trigger] self@.entries[i]).backup_id == i + 1 by {
                if i < pre.entries.len() {
                    assert(self@.entries[i] == pre.entries[i]);
                }
            }
        }
        backup_id
    }

    /// Public read: the entry stored under `backup_id`, or absent.
    pub fn get_backup(&self, backup_id: u64) -> (r: Option<BackupEntry>)
        requires
            self.wf(),
        ensures
            match r {
                Some(e) => entry_of(self@, backup_id) == Some(e@),
                None => entry_of(self@, backup_id) is None,
            },
    {
        let n: usize = self.entries.len();
        if 1 <= backup_id && backup_id <= self.backup_count {
            proof {
                assert(backup_id - 1 < n);
            }
            let idx: usize = (backup_id - 1) as usize;
            let e = self.entries[idx];
            Some(e)
        } else {
            None
        }
    }

    /// Public read: every entry the caller owns, in creation order.
    pub fn get_my_backups(&self, caller: AccountId) -> (r: Vec<BackupEntry>)
        requires
            self.wf(),
        ensures
            Seq::new(r@.len(), |i: int| r@[i]@) == entries_of_owner(self@.entries, caller@),
    {
        let mut out: Vec<BackupEntry> = Vec::new();
        let n: usize = self.entries.len();
        let mut i: usize = 0;
        while i < n
            invariant
                n == self.entries@.len(),
                0 <= i <= n,
                Seq::new(out@.len(), |j: int| out@[j]@) == entries_of_owner(self@.entries.take(i as int), caller@),
            decreases n - i,
        {
            let e = self.entries[i];
            if e.owner.same_as(&caller) {
                out.push(e);
            }
            proof {
                assert(self@.entries.take(i as int + 1).drop_last() =~= self@.entries.take(i as int));
                assert(self@.entries.take(i as int + 1).last() == self@.entries[i as int]);
                assert(Seq::new(out@.len(), |j: int| out@[j]@)
                    =~= entries_of_owner(self@.entries.take(i as int + 1), caller@));
            }
            i += 1;
        }
        proof {
            assert(self@.entries.take(n as int) =~= self@.entries);
        }
        out
    }

    /// Public read: whether some stored entry carries exactly `data_hash`.
    pub fn verify_hash(&self, data_hash: [u8; 32]) -> (r: bool)
        requires
            self.wf(),
        ensures
            r == hash_exists(self@.entries, data_hash@),
    {
        let n: usize = self.entries.len();
        let mut i: usize = 0;
        while i < n
            invariant
                n == self.entries@.len(),
                0 <= i <= n,
                forall|j: int| 0 <= j < i ==> (#[trigger] self@.entries[j]).data_hash != data_hash@,
            decreases n - i,
        {
            if bytes32_eq(&self.entries[i].data_hash, &data_hash) {
                proof {
                    assert(self@.entries[i as int].data_hash == data_hash@);
                }
                return true;
            }
            i += 1;
        }
        false
    }

    /// Public read: how many entries were ever created.
    pub fn total_backups(&self) -> (r: u64)
        ensures
            r == self@.backup_count,
    {
        self.backup_count
    }

    /// Public read: the identity that deployed the store.
    pub fn get_admin(&self) -> (r: AccountId)
        ensures
            r@ == self@.admin,
    {
        self.admin
    }
}

} // verus!
