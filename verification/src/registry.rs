use vstd::prelude::*;
use vstd::pervasive::VecAdditionalExecFns;
use crate::account::AccountId;

verus! {

/// Why a mutating call was refused.  The operations that return a bare
/// success flag collapse `NotFound`, `Unauthorized` and `AlreadyInactive`
/// into `false`; creation reports `InvalidInput` for an empty manifest
/// pointer.  Every failure leaves the registry untouched.
#[derive(Clone, Copy, PartialEq, Eq, Debug)]
pub enum RegistryError {
    NotFound,
    Unauthorized,
    InvalidInput,
    AlreadyInactive,
}

/// One backup's metadata: owner, pointers, soft-delete flag and timestamps.
/// The `id` and `owner` fields are immutable after creation.
pub struct BackupRecord {
    pub id: u128,
    pub owner: AccountId,
    pub manifest_cid: String,
    pub acl_root_cid: Option<String>,
    pub active: bool,
    pub created_at: u64,
    pub updated_at: u64,
}

/// The mathematical shape of a record: plain sequences in place of the
/// executable string and identity types.
#[verifier::ext_equal]
pub ghost struct RecordV {
    pub id: u128,
    pub owner: Seq<u8>,
    pub manifest_cid: Seq<char>,
    pub acl_root_cid: Option<Seq<char>>,
    pub active: bool,
    pub created_at: u64,
    pub updated_at: u64,
}

/// The view of an optional pointer.
pub open spec fn opt_view(o: Option<String>) -> Option<Seq<char>> {
    match o {
        Some(s) => Some(s@),
        None => None,
    }
}

impl View for BackupRecord {
    type V = RecordV;

    open spec fn view(&self) -> RecordV {
        RecordV {
            id: self.id,
            owner: self.owner@,
            manifest_cid: self.manifest_cid@,
            acl_root_cid: opt_view(self.acl_root_cid),
            active: self.active,
            created_at: self.created_at,
            updated_at: self.updated_at,
        }
    }
}

impl BackupRecord {
    /// A field-for-field copy of the record.
    pub fn duplicate(&self) -> (r: BackupRecord)
        ensures
            r@ == self@,
    {
        let r = BackupRecord {
            id: self.id,
            owner: self.owner,
            manifest_cid: self.manifest_cid.clone(),
            acl_root_cid: match &self.acl_root_cid {
                Some(s) => Some(s.clone()),
                None => None,
            },
            active: self.active,
            created_at: self.created_at,
            updated_at: self.updated_at,
        };
        proof {
            assert(r@ =~= self@);
        }
        r
    }
}

/// One owner's entry in the secondary index: the identifiers of the records
/// this owner created, in creation order, never removed.
pub struct OwnerIds {
    pub owner: AccountId,
    pub ids: Vec<u128>,
}

/// One share grant: a pointer to recipient-encrypted key material for a
/// (record, recipient) pair.  An empty pointer is the revocation sentinel.
pub struct ShareGrant {
    pub backup_id: u128,
    pub recipient: AccountId,
    pub enc_key_cid: String,
}

/// The key under which a grant is stored.
pub open spec fn grant_key(g: ShareGrant) -> (u128, Seq<u8>) {
    (g.backup_id, g.recipient@)
}

/// The grant map that a sequence of stored grants denotes; a later entry for
/// the same pair overrides an earlier one.
pub open spec fn grants_map(s: Seq<ShareGrant>) -> Map<(u128, Seq<u8>), Seq<char>>
    decreases s.len(),
{
    if s.len() == 0 {
        Map::empty()
    } else {
        grants_map(s.drop_last()).insert(grant_key(s.last()), s.last().enc_key_cid@)
    }
}

/// What a public lookup of a pair returns: the stored pointer, or the empty
/// sentinel for a pair that was never granted or was revoked.
pub open spec fn grant_view(grants: Map<(u128, Seq<u8>), Seq<char>>, id: u128, recipient: Seq<u8>) -> Seq<char> {
    if grants.contains_key((id, recipient)) {
        grants[(id, recipient)]
    } else {
        Seq::empty()
    }
}

/// The identifiers of the records owned by `owner`, in creation order.
pub open spec fn ids_of_owner(records: Seq<RecordV>, owner: Seq<u8>) -> Seq<u128>
    decreases records.len(),
{
    if records.len() == 0 {
        Seq::empty()
    } else {
        let rest = ids_of_owner(records.drop_last(), owner);
        if records.last().owner == owner {
            rest.push(records.last().id)
        } else {
            rest
        }
    }
}

/// The abstract state of the registry: the identifier counter, the record
/// store as a sequence ordered by identifier, and the share-grant map.
#[verifier::ext_equal]
pub ghost struct RegistryV {
    pub next_id: u128,
    pub records: Seq<RecordV>,
    pub grants: Map<(u128, Seq<u8>), Seq<char>>,
}

/// Whether `id` was ever issued by the sequencer of `v`.
pub open spec fn valid_id(v: RegistryV, id: u128) -> bool {
    1 <= id && id < v.next_id
}

/// The record stored under `id`, if any.
pub open spec fn record_of(v: RegistryV, id: u128) -> Option<RecordV> {
    if valid_id(v, id) && id - 1 < v.records.len() {
        Some(v.records[id - 1])
    } else {
        None
    }
}

/// The abstract invariant: identifiers are issued consecutively from 1, the
/// record with identifier `i + 1` sits at position `i`, and no record was
/// ever updated before it was created.
pub open spec fn wf_v(v: RegistryV) -> bool {
    &&& v.next_id == v.records.len() + 1
    &&& forall|i: int| 0 <= i < v.records.len() ==> (#[trigger] v.records[i]).id == i + 1
    &&& forall|i: int| 0 <= i < v.records.len() ==> (#[trigger] v.records[i]).created_at <= v.records[i].updated_at
}

/// The execution context's clock never runs behind a stamp already stored.
pub open spec fn clock_ok(v: RegistryV, now: u64) -> bool {
    forall|i: int| 0 <= i < v.records.len() ==> (#[trigger] v.records[i]).updated_at <= now
}

/// The record a creation writes.
pub open spec fn created_record(id: u128, caller: Seq<u8>, now: u64, manifest: Seq<char>, acl: Option<Seq<char>>) -> RecordV {
    RecordV {
        id,
        owner: caller,
        manifest_cid: manifest,
        acl_root_cid: acl,
        active: true,
        created_at: now,
        updated_at: now,
    }
}

/// The record an update leaves behind: each pointer is replaced only where a
/// new value was supplied; owner, identifier, flag and creation stamp stay.
pub open spec fn updated_record(old_r: RecordV, now: u64, new_manifest: Option<Seq<char>>, new_acl: Option<Seq<char>>) -> RecordV {
    RecordV {
        id: old_r.id,
        owner: old_r.owner,
        manifest_cid: if new_manifest is Some { new_manifest->0 } else { old_r.manifest_cid },
        acl_root_cid: if new_acl is Some { Some(new_acl->0) } else { old_r.acl_root_cid },
        active: old_r.active,
        created_at: old_r.created_at,
        updated_at: now,
    }
}

/// The record a soft delete leaves behind.
pub open spec fn deleted_record(old_r: RecordV, now: u64) -> RecordV {
    RecordV {
        id: old_r.id,
        owner: old_r.owner,
        manifest_cid: old_r.manifest_cid,
        acl_root_cid: old_r.acl_root_cid,
        active: false,
        created_at: old_r.created_at,
        updated_at: now,
    }
}

/// How a successful creation changes the abstract state.
pub open spec fn create_post(pre: RegistryV, post: RegistryV, caller: Seq<u8>, now: u64, manifest: Seq<char>, acl: Option<Seq<char>>, id: u128) -> bool {
    &&& id == pre.next_id
    &&& post.next_id == id + 1
    &&& post.records == pre.records.push(created_record(id, caller, now, manifest, acl))
    &&& post.grants == pre.grants
}

/// How a successful update changes the abstract state.
pub open spec fn update_post(pre: RegistryV, post: RegistryV, id: u128, now: u64, new_manifest: Option<Seq<char>>, new_acl: Option<Seq<char>>) -> bool {
    &&& post.next_id == pre.next_id
    &&& post.records == pre.records.update(id - 1, updated_record(pre.records[id - 1], now, new_manifest, new_acl))
    &&& post.grants == pre.grants
}

/// How a successful soft delete changes the abstract state.
pub open spec fn delete_post(pre: RegistryV, post: RegistryV, id: u128, now: u64) -> bool {
    &&& post.next_id == pre.next_id
    &&& post.records == pre.records.update(id - 1, deleted_record(pre.records[id - 1], now))
    &&& post.grants == pre.grants
}

/// How a successful share (or, with the empty sentinel, a revocation)
/// changes the abstract state.
pub open spec fn share_post(pre: RegistryV, post: RegistryV, id: u128, recipient: Seq<u8>, cid: Seq<char>) -> bool {
    &&& post.next_id == pre.next_id
    &&& post.records == pre.records
    &&& post.grants == pre.grants.insert((id, recipient), cid)
}

/// The authorization rule of every record-addressed mutation: the record
/// must exist and the caller must be its owner.
pub open spec fn mutation_check(v: RegistryV, id: u128, caller: Seq<u8>) -> Option<RegistryError> {
    match record_of(v, id) {
        None => Some(RegistryError::NotFound),
        Some(r) => if r.owner != caller {
            Some(RegistryError::Unauthorized)
        } else {
            None
        },
    }
}

/// The rule of a soft delete: authorization, and the record must still be
/// active (deletion is not idempotent).
pub open spec fn delete_check(v: RegistryV, id: u128, caller: Seq<u8>) -> Option<RegistryError> {
    match record_of(v, id) {
        None => Some(RegistryError::NotFound),
        Some(r) => if r.owner != caller {
            Some(RegistryError::Unauthorized)
        } else if !r.active {
            Some(RegistryError::AlreadyInactive)
        } else {
            None
        },
    }
}

/// The registry: the identifier sequencer, the record store, the owner
/// index, and the share-grant store.  The owner index and the grant store
/// are association vectors; their keys are unique by invariant.
pub struct BackupRegistry {
    pub next_id: u128,
    pub records: Vec<BackupRecord>,
    pub owner_index: Vec<OwnerIds>,
    pub shared_keys: Vec<ShareGrant>,
}

impl View for BackupRegistry {
    type V = RegistryV;

    open spec fn view(&self) -> RegistryV {
        RegistryV {
            next_id: self.next_id,
            records: Seq::new(self.records@.len(), |i: int| self.records@[i]@),
            grants: grants_map(self.shared_keys@),
        }
    }
}

/// Whether some entry of the owner index belongs to `owner`.
pub open spec fn owner_has_entry(ix: Seq<OwnerIds>, owner: Seq<u8>) -> bool {
    exists|k: int| 0 <= k < ix.len() && (#[trigger] ix[k]).owner@ == owner
}

/// No two stored grants share a (record, recipient) pair.
pub open spec fn grants_unique(s: Seq<ShareGrant>) -> bool {
    forall|k: int, l: int| 0 <= k < l < s.len() ==> grant_key(#[trigger] s[k]) != grant_key(#[trigger] s[l])
}

impl BackupRegistry {
    /// The owner index never diverges from the record store: each entry's
    /// list is exactly the identifiers of the records its owner created, no
    /// owner has two entries, and every record's owner has an entry.
    pub open spec fn index_wf(&self) -> bool {
        &&& forall|k: int, l: int| 0 <= k < l < self.owner_index@.len()
                ==> (#[trigger] self.owner_index@[k]).owner@ != (#[trigger] self.owner_index@[l]).owner@
        &&& forall|k: int| 0 <= k < self.owner_index@.len()
                ==> (#[trigger] self.owner_index@[k]).ids@ == ids_of_owner(self@.records, self.owner_index@[k].owner@)
        &&& forall|i: int| 0 <= i < self.records@.len()
                ==> owner_has_entry(self.owner_index@, (#[trigger] self.records@[i])@.owner)
    }

    /// The registry invariant: the abstract invariant plus the
    /// representation invariants of the two association vectors.
    pub open spec fn wf(&self) -> bool {
        &&& wf_v(self@)
        &&& self.index_wf()
        &&& grants_unique(self.shared_keys@)
    }
}

/// Appending a record extends its owner's identifier list by the new
/// identifier and leaves every other owner's list unchanged.
pub proof fn lemma_ids_of_owner_push(records: Seq<RecordV>, r: RecordV, owner: Seq<u8>)
    ensures
        ids_of_owner(records.push(r), owner) == (if r.owner == owner {
            ids_of_owner(records, owner).push(r.id)
        } else {
            ids_of_owner(records, owner)
        }),
{
    assert(records.push(r).drop_last() =~= records);
    assert(records.push(r).last() == r);
}

/// Owner lists depend only on the identifier and owner of each record, not
/// on its pointers, flag or stamps.
pub proof fn lemma_ids_of_owner_agree(a: Seq<RecordV>, b: Seq<RecordV>, owner: Seq<u8>)
    requires
        a.len() == b.len(),
        forall|i: int| 0 <= i < a.len() ==> (#[trigger] a[i]).id == b[i].id && a[i].owner == b[i].owner,
    ensures
        ids_of_owner(a, owner) == ids_of_owner(b, owner),
    decreases a.len(),
{
    if a.len() > 0 {
        assert forall|i: int| 0 <= i < a.drop_last().len()
            implies (#[trigger] a.drop_last()[i]).id == b.drop_last()[i].id
                && a.drop_last()[i].owner == b.drop_last()[i].owner by {
            assert(a.drop_last()[i] == a[i]);
            assert(b.drop_last()[i] == b[i]);
        }
        lemma_ids_of_owner_agree(a.drop_last(), b.drop_last(), owner);
        assert(a.last() == a[a.len() - 1]);
        assert(b.last() == b[b.len() - 1]);
    }
}

/// An owner that owns no record has the empty identifier list.
pub proof fn lemma_ids_of_owner_absent(records: Seq<RecordV>, owner: Seq<u8>)
    requires
        forall|i: int| 0 <= i < records.len() ==> (#[trigger] records[i]).owner != owner,
    ensures
        ids_of_owner(records, owner) == Seq::<u128>::empty(),
    decreases records.len(),
{
    if records.len() > 0 {
        assert forall|i: int| 0 <= i < records.drop_last().len()
            implies (#[trigger] records.drop_last()[i]).owner != owner by {
            assert(records.drop_last()[i] == records[i]);
        }
        lemma_ids_of_owner_absent(records.drop_last(), owner);
        assert(records.last() == records[records.len() - 1]);
    }
}

/// Appending a grant overrides exactly its own pair in the denoted map.
pub proof fn lemma_grants_map_push(s: Seq<ShareGrant>, g: ShareGrant)
    ensures
        grants_map(s.push(g)) == grants_map(s).insert(grant_key(g), g.enc_key_cid@),
{
    assert(s.push(g).drop_last() =~= s);
    assert(s.push(g).last() == g);
}

/// A pair is in the denoted map exactly when some stored grant carries it.
pub proof fn lemma_grants_map_domain(s: Seq<ShareGrant>, id: u128, recipient: Seq<u8>)
    ensures
        grants_map(s).contains_key((id, recipient))
            <==> exists|k: int| 0 <= k < s.len() && grant_key(#[trigger] s[k]) == (id, recipient),
    decreases s.len(),
{
    if s.len() > 0 {
        lemma_grants_map_domain(s.drop_last(), id, recipient);
        assert(s.last() == s[s.len() - 1]);
        if grants_map(s).contains_key((id, recipient)) && grant_key(s.last()) != (id, recipient) {
            assert(grants_map(s.drop_last()).contains_key((id, recipient)));
            let k = choose|k: int| 0 <= k < s.drop_last().len() && grant_key(#[trigger] s.drop_last()[k]) == (id, recipient);
            assert(s.drop_last()[k] == s[k]);
            assert(grant_key(s[k]) == (id, recipient));
        }
        if exists|k: int| 0 <= k < s.len() && grant_key(#[trigger] s[k]) == (id, recipient) {
            let k = choose|k: int| 0 <= k < s.len() && grant_key(#[trigger] s[k]) == (id, recipient);
            if k < s.len() - 1 {
                assert(s.drop_last()[k] == s[k]);
                assert(grant_key(s.drop_last()[k]) == (id, recipient));
            }
        }
    }
}

/// With unique pairs, the stored grant for a pair gives the map's value.
pub proof fn lemma_grants_map_value(s: Seq<ShareGrant>, k: int)
    requires
        grants_unique(s),
        0 <= k < s.len(),
    ensures
        grants_map(s).contains_key(grant_key(s[k])),
        grants_map(s)[grant_key(s[k])] == s[k].enc_key_cid@,
    decreases s.len(),
{
    assert(s.last() == s[s.len() - 1]);
    if k < s.len() - 1 {
        assert forall|a: int, b: int| 0 <= a < b < s.drop_last().len()
            implies grant_key(#[trigger] s.drop_last()[a]) != grant_key(#[trigger] s.drop_last()[b]) by {
            assert(s.drop_last()[a] == s[a]);
            assert(s.drop_last()[b] == s[b]);
        }
        lemma_grants_map_value(s.drop_last(), k);
        assert(s.drop_last()[k] == s[k]);
        assert(grant_key(s[k]) != grant_key(s[s.len() - 1]));
    }
}

/// Replacing the grant stored for a pair denotes inserting the new pointer
/// at that pair.
pub proof fn lemma_grants_map_update(s: Seq<ShareGrant>, k: int, g: ShareGrant)
    requires
        grants_unique(s),
        0 <= k < s.len(),
        grant_key(g) == grant_key(s[k]),
    ensures
        grants_map(s.update(k, g)) == grants_map(s).insert(grant_key(g), g.enc_key_cid@),
    decreases s.len(),
{
    assert(s.last() == s[s.len() - 1]);
    if k == s.len() - 1 {
        assert(s.update(k, g).drop_last() =~= s.drop_last());
        assert(s.update(k, g).last() == g);
        assert(grants_map(s.drop_last()).insert(grant_key(s.last()), s.last().enc_key_cid@).insert(grant_key(g), g.enc_key_cid@)
            =~= grants_map(s.drop_last()).insert(grant_key(g), g.enc_key_cid@));
    } else {
        assert forall|a: int, b: int| 0 <= a < b < s.drop_last().len()
            implies grant_key(#[trigger] s.drop_last()[a]) != grant_key(#[trigger] s.drop_last()[b]) by {
            assert(s.drop_last()[a] == s[a]);
            assert(s.drop_last()[b] == s[b]);
        }
        assert(s.drop_last()[k] == s[k]);
        lemma_grants_map_update(s.drop_last(), k, g);
        assert(s.update(k, g).drop_last() =~= s.drop_last().update(k, g));
        assert(s.update(k, g).last() == s.last());
        assert(grant_key(g) != grant_key(s[s.len() - 1]));
        assert(grants_map(s.drop_last()).insert(grant_key(g), g.enc_key_cid@).insert(grant_key(s.last()), s.last().enc_key_cid@)
            =~= grants_map(s.drop_last()).insert(grant_key(s.last()), s.last().enc_key_cid@).insert(grant_key(g), g.enc_key_cid@));
    }
}

/// A copy of an identifier list.
fn copy_ids(src: &Vec<u128>) -> (r: Vec<u128>)
    ensures
        r@ == src@,
{
    let mut out: Vec<u128> = Vec::new();
    let n: usize = src.len();
    let mut j: usize = 0;
    while j < n
        invariant
            n == src@.len(),
            0 <= j <= n,
            out@ == src@.take(j as int),
        decreases n - j,
    {
        out.push(src[j]);
        proof {
            assert(out@ =~= src@.take(j as int + 1));
        }
        j += 1;
    }
    proof {
        assert(src@.take(n as int) =~= src@);
    }
    out
}

impl BackupRegistry {
    /// A fresh registry: no records, no grants, the sequencer at 1.
    pub fn new() -> (r: BackupRegistry)
        ensures
            r.wf(),
            r@.next_id == 1,
            r@.records == Seq::<RecordV>::empty(),
            r@.grants == Map::<(u128, Seq<u8>), Seq<char>>::empty(),
    {
        let r = BackupRegistry {
            next_id: 1u128,
            records: Vec::new(),
            owner_index: Vec::new(),
            shared_keys: Vec::new(),
        };
        proof {
            assert(r@.records =~= Seq::<RecordV>::empty());
        }
        r
    }

    /// The position of `owner`'s entry in the owner index, if it has one.
    fn find_owner_entry(&self, owner: &AccountId) -> (r: Option<usize>)
        ensures
            match r {
                Some(k) => k < self.owner_index@.len() && self.owner_index@[k as int].owner@ == owner@,
                None => forall|k: int| 0 <= k < self.owner_index@.len()
                    ==> (#[trigger] self.owner_index@[k]).owner@ != owner@,
            },
    {
        let n: usize = self.owner_index.len();
        let mut k: usize = 0;
        while k < n
            invariant
                n == self.owner_index@.len(),
                0 <= k <= n,
                forall|j: int| 0 <= j < k ==> (#[trigger] self.owner_index@[j]).owner@ != owner@,
            decreases n - k,
        {
            if self.owner_index[k].owner.same_as(owner) {
                return Some(k);
            }
            k += 1;
        }
        None
    }

    /// The position of the grant stored for `(id, recipient)`, if any.
    fn find_grant(&self, id: u128, recipient: &AccountId) -> (r: Option<usize>)
        ensures
            match r {
                Some(k) => k < self.shared_keys@.len()
                    && grant_key(self.shared_keys@[k as int]) == (id, recipient@),
                None => forall|k: int| 0 <= k < self.shared_keys@.len()
                    ==> grant_key(#[trigger] self.shared_keys@[k]) != (id, recipient@),
            },
    {
        let n: usize = self.shared_keys.len();
        let mut k: usize = 0;
        while k < n
            invariant
                n == self.shared_keys@.len(),
                0 <= k <= n,
                forall|j: int| 0 <= j < k ==> grant_key(#[trigger] self.shared_keys@[j]) != (id, recipient@),
            decreases n - k,
        {
            if self.shared_keys[k].backup_id == id && self.shared_keys[k].recipient.same_as(recipient) {
                return Some(k);
            }
            k += 1;
        }
        None
    }

    /// Create a record.  The caller becomes its owner; a fresh identifier is
    /// issued; the creation is appended to the caller's owner-index entry.
    /// An empty manifest pointer is refused with `InvalidInput` and no state
    /// change.  Identifier overflow cannot arise: the sequencer stays one
    /// above the record count, which is bounded by the address space.
    pub fn create_backup(&mut self, caller: AccountId, now: u64, manifest_cid: String, acl_root_cid: Option<String>) -> (r: Result<u128, RegistryError>)
        requires
            old(self).wf(),
        ensures
            final(self).wf(),
            r is Err <==> manifest_cid@.len() == 0,
            r is Err ==> r == Err::<u128, RegistryError>(RegistryError::InvalidInput) && final(self)@ == old(self)@,
            r is Ok ==> create_post(old(self)@, final(self)@, caller@, now, manifest_cid@, opt_view(acl_root_cid), r->Ok_0),
    {
        if manifest_cid.as_str().is_empty() {
            return Err(RegistryError::InvalidInput);
        }
        let ghost pre = self@;
        let n: usize = self.records.len();
        let id: u128 = self.next_id;
        let record = BackupRecord {
            id,
            owner: caller,
            manifest_cid,
            acl_root_cid,
            active: true,
            created_at: now,
            updated_at: now,
        };
        let ghost recv = record@;
        self.records.push(record);
        proof {
            assert(id == n + 1);
            assert(n <= usize::MAX);
        }
        self.next_id = id + 1;
        proof {
            assert(self@.records =~= pre.records.push(recv));
            assert(recv == created_record(id, caller@, now, manifest_cid@, opt_view(acl_root_cid)));
        }
        match self.find_owner_entry(&caller) {
            Some(k) => {
                let ghost oix = self.owner_index@;
                let mut entry = self.owner_index.remove(k);
                entry.ids.push(id);
                self.owner_index.insert(k, entry);
                proof {
                    let nix = self.owner_index@;
                    assert(nix =~= oix.update(k as int, nix[k as int]));
                    assert(nix[k as int].owner == oix[k as int].owner);
                    assert(nix[k as int].ids@ == oix[k as int].ids@.push(id));
                    lemma_ids_of_owner_push(pre.records, recv, caller@);
                    assert forall|l: int| 0 <= l < nix.len()
                        implies (#[trigger] nix[l]).ids@ == ids_of_owner(self@.records, nix[l].owner@) by {
                        if l == k as int {
                            assert(oix[l].ids@ == ids_of_owner(pre.records, oix[l].owner@));
                            assert(oix[l].owner@ == caller@);
                        } else {
                            assert(nix[l] == oix[l]);
                            assert(oix[l].ids@ == ids_of_owner(pre.records, oix[l].owner@));
                            assert(oix[l].owner@ != oix[k as int].owner@);
                            lemma_ids_of_owner_push(pre.records, recv, oix[l].owner@);
                        }
                    }
                    assert forall|i: int| 0 <= i < self.records@.len()
                        implies owner_has_entry(nix, (#[trigger] self.records@[i])@.owner) by {
                        if i < pre.records.len() {
                            assert(self@.records[i] == pre.records[i]);
                            assert(owner_has_entry(oix, old(self).records@[i]@.owner));
                            let l = choose|l: int| 0 <= l < oix.len()
                                && (#[trigger] oix[l]).owner@ == old(self).records@[i]@.owner;
                            assert(nix[l].owner@ == self.records@[i]@.owner);
                            assert(owner_has_entry(nix, self.records@[i]@.owner));
                        } else {
                            assert(self.records@[i]@.owner == caller@);
                            assert(nix[k as int].owner@ == caller@);
                            assert(owner_has_entry(nix, caller@));
                        }
                    }
                }
            }
            None => {
                let ghost oix = self.owner_index@;
                let mut ids: Vec<u128> = Vec::new();
                ids.push(id);
                self.owner_index.push(OwnerIds { owner: caller, ids });
                proof {
                    let nix = self.owner_index@;
                    assert(nix =~= oix.push(nix.last()));
                    assert(nix.last().owner@ == caller@);
                    assert(nix.last().ids@ =~= Seq::<u128>::empty().push(id));
                    lemma_ids_of_owner_push(pre.records, recv, caller@);
                    assert forall|i: int| 0 <= i < pre.records.len()
                        implies (#[trigger] pre.records[i]).owner != caller@ by {
                        assert(pre.records[i] == old(self).records@[i]@);
                        if pre.records[i].owner == caller@ {
                            assert(owner_has_entry(oix, caller@));
                            let l = choose|l: int| 0 <= l < oix.len()
                                && (#[trigger] oix[l]).owner@ == caller@;
                            assert(false);
                        }
                    }
                    lemma_ids_of_owner_absent(pre.records, caller@);
                    assert forall|l: int| 0 <= l < nix.len()
                        implies (#[trigger] nix[l]).ids@ == ids_of_owner(self@.records, nix[l].owner@) by {
                        if l < oix.len() {
                            assert(nix[l] == oix[l]);
                            assert(oix[l].ids@ == ids_of_owner(pre.records, oix[l].owner@));
                            assert(oix[l].owner@ != caller@);
                            lemma_ids_of_owner_push(pre.records, recv, oix[l].owner@);
                        } else {
                            assert(nix[l] == nix.last());
                        }
                    }
                    assert forall|i: int| 0 <= i < self.records@.len()
                        implies owner_has_entry(nix, (#[trigger] self.records@[i])@.owner) by {
                        if i < pre.records.len() {
                            assert(self@.records[i] == pre.records[i]);
                            assert(owner_has_entry(oix, old(self).records@[i]@.owner));
                            let l = choose|l: int| 0 <= l < oix.len()
                                && (#[trigger] oix[l]).owner@ == old(self).records@[i]@.owner;
                            assert(nix[l].owner@ == self.records@[i]@.owner);
                            assert(owner_has_entry(nix, self.records@[i]@.owner));
                        } else {
                            assert(self.records@[i]@.owner == caller@);
                            assert(nix[nix.len() - 1].owner@ == caller@);
                            assert(owner_has_entry(nix, caller@));
                        }
                    }
                }
            }
        }
        proof {
            assert forall|i: int| 0 <= i < self@.records.len()
                implies (#[trigger] self@.records[i]).id == i + 1 by {
                if i < pre.records.len() {
                    assert(self@.records[i] == pre.records[i]);
                }
            }
            assert forall|i: int| 0 <= i < self@.records.len()
                implies (#[trigger] self@.records[i]).created_at <= self@.records[i].updated_at by {
                if i < pre.records.len() {
                    assert(self@.records[i] == pre.records[i]);
                }
            }
        }
        Ok(id)
    }

    /// Update a record's pointers.  Owner-only; each pointer is replaced
    /// only where a new value is supplied (a field-level partial update).
    /// Any failure leaves the registry untouched.
    pub fn update_backup(&mut self, caller: AccountId, now: u64, id: u128, new_manifest_cid: Option<String>, new_acl_root_cid: Option<String>) -> (r: bool)
        requires
            old(self).wf(),
            clock_ok(old(self)@, now),
        ensures
            final(self).wf(),
            r == (mutation_check(old(self)@, id, caller@) is None),
            !r ==> final(self)@ == old(self)@,
            r ==> update_post(old(self)@, final(self)@, id, now, opt_view(new_manifest_cid), opt_view(new_acl_root_cid)),
    {
        if !(1 <= id && id < self.next_id) {
            return false;
        }
        let n: usize = self.records.len();
        proof {
            assert(id - 1 < n);
        }
        let idx: usize = (id - 1) as usize;
        if !self.records[idx].owner.same_as(&caller) {
            return false;
        }
        let ghost pre = self@;
        let mut rec = self.records.remove(idx);
        match new_manifest_cid {
            Some(m) => {
                rec.manifest_cid = m;
            }
            None => {}
        }
        match new_acl_root_cid {
            Some(a) => {
                rec.acl_root_cid = Some(a);
            }
            None => {}
        }
        rec.updated_at = now;
        let ghost recv = rec@;
        self.records.insert(idx, rec);
        proof {
            assert(self.records@ =~= old(self).records@.update(idx as int, self.records@[idx as int]));
            assert(self@.records =~= pre.records.update(id - 1, recv));
            assert(recv =~= updated_record(pre.records[id - 1], now, opt_view(new_manifest_cid), opt_view(new_acl_root_cid)));
            assert forall|i: int| 0 <= i < pre.records.len()
                implies owner_has_entry(self.owner_index@, (#[trigger] pre.records[i]).owner) by {
                assert(pre.records[i] == old(self).records@[i]@);
                assert(owner_has_entry(old(self).owner_index@, old(self).records@[i]@.owner));
                assert(self.owner_index@ == old(self).owner_index@);
            }
            self.lemma_wf_after_record_replace(pre, id);
        }
        true
    }

    /// Soft-delete a record: flip its active flag off.  Owner-only, and not
    /// idempotent: a second delete of the same record fails with no state
    /// change, the record staying inactive.
    pub fn delete_backup(&mut self, caller: AccountId, now: u64, id: u128) -> (r: bool)
        requires
            old(self).wf(),
            clock_ok(old(self)@, now),
        ensures
            final(self).wf(),
            r == (delete_check(old(self)@, id, caller@) is None),
            !r ==> final(self)@ == old(self)@,
            r ==> delete_post(old(self)@, final(self)@, id, now),
    {
        if !(1 <= id && id < self.next_id) {
            return false;
        }
        let n: usize = self.records.len();
        proof {
            assert(id - 1 < n);
        }
        let idx: usize = (id - 1) as usize;
        if !self.records[idx].owner.same_as(&caller) {
            return false;
        }
        if !self.records[idx].active {
            return false;
        }
        let ghost pre = self@;
        let mut rec = self.records.remove(idx);
        rec.active = false;
        rec.updated_at = now;
        let ghost recv = rec@;
        self.records.insert(idx, rec);
        proof {
            assert(self.records@ =~= old(self).records@.update(idx as int, self.records@[idx as int]));
            assert(self@.records =~= pre.records.update(id - 1, recv));
            assert(recv =~= deleted_record(pre.records[id - 1], now));
            assert forall|i: int| 0 <= i < pre.records.len()
                implies owner_has_entry(self.owner_index@, (#[trigger] pre.records[i]).owner) by {
                assert(pre.records[i] == old(self).records@[i]@);
                assert(owner_has_entry(old(self).owner_index@, old(self).records@[i]@.owner));
                assert(self.owner_index@ == old(self).owner_index@);
            }
            self.lemma_wf_after_record_replace(pre, id);
        }
        true
    }

    /// Replacing one record by another with the same identifier and owner,
    /// a stamp order respected, preserves the registry invariant, the owner
    /// index included.
    proof fn lemma_wf_after_record_replace(&self, pre: RegistryV, id: u128)
        requires
            valid_id(pre, id),
            pre.next_id == pre.records.len() + 1,
            forall|i: int| 0 <= i < pre.records.len() ==> (#[trigger] pre.records[i]).id == i + 1,
            self.next_id == pre.next_id,
            self@.records.len() == pre.records.len(),
            forall|i: int| 0 <= i < pre.records.len() ==> i != id - 1 ==> self@.records[i] == pre.records[i],
            self@.records[id - 1].id == pre.records[id - 1].id,
            self@.records[id - 1].owner == pre.records[id - 1].owner,
            self@.records[id - 1].created_at <= self@.records[id - 1].updated_at,
            forall|i: int| 0 <= i < pre.records.len() ==> (#[trigger] pre.records[i]).created_at <= pre.records[i].updated_at,
            forall|k: int, l: int| 0 <= k < l < self.owner_index@.len()
                ==> (#[trigger] self.owner_index@[k]).owner@ != (#[trigger] self.owner_index@[l]).owner@,
            forall|k: int| 0 <= k < self.owner_index@.len()
                ==> (#[trigger] self.owner_index@[k]).ids@ == ids_of_owner(pre.records, self.owner_index@[k].owner@),
            forall|i: int| 0 <= i < pre.records.len()
                ==> owner_has_entry(self.owner_index@, (#[trigger] pre.records[i]).owner),
            grants_unique(self.shared_keys@),
        ensures
            self.wf(),
    {
        assert forall|i: int| 0 <= i < self@.records.len()
            implies (#[trigger] self@.records[i]).id == i + 1 by {
            if i != id - 1 {
                assert(self@.records[i] == pre.records[i]);
            }
        }
        assert forall|i: int| 0 <= i < self@.records.len()
            implies (#[trigger] self@.records[i]).created_at <= self@.records[i].updated_at by {
            if i != id - 1 {
                assert(self@.records[i] == pre.records[i]);
            }
        }
        assert forall|k: int| 0 <= k < self.owner_index@.len()
            implies (#[trigger] self.owner_index@[k]).ids@ == ids_of_owner(self@.records, self.owner_index@[k].owner@) by {
            lemma_ids_of_owner_agree(pre.records, self@.records, self.owner_index@[k].owner@);
        }
        assert forall|i: int| 0 <= i < self.records@.len()
            implies owner_has_entry(self.owner_index@, (#[trigger] self.records@[i])@.owner) by {
            assert(self.records@[i]@ == self@.records[i]);
            assert(self@.records[i].owner == pre.records[i].owner);
            assert(owner_has_entry(self.owner_index@, pre.records[i].owner));
        }
    }

    /// Share a record with a recipient: store the pointer to the
    /// recipient-encrypted key material, overwriting any earlier grant for
    /// the pair.  Owner-only; failure leaves the registry untouched.
    pub fn share_backup(&mut self, caller: AccountId, id: u128, recipient: AccountId, enc_key_cid: String) -> (r: bool)
        requires
            old(self).wf(),
        ensures
            final(self).wf(),
            r == (mutation_check(old(self)@, id, caller@) is None),
            !r ==> final(self)@ == old(self)@,
            r ==> share_post(old(self)@, final(self)@, id, recipient@, enc_key_cid@),
    {
        if !(1 <= id && id < self.next_id) {
            return false;
        }
        let n: usize = self.records.len();
        proof {
            assert(id - 1 < n);
        }
        let idx: usize = (id - 1) as usize;
        if !self.records[idx].owner.same_as(&caller) {
            return false;
        }
        self.write_grant(id, recipient, enc_key_cid);
        true
    }

    /// Revoke a share: overwrite the pair's grant with the empty sentinel.
    /// Owner-only, and idempotent by design — revoking a never-granted or
    /// already-revoked pair succeeds and stores the sentinel again.
    pub fn revoke_share(&mut self, caller: AccountId, id: u128, recipient: AccountId) -> (r: bool)
        requires
            old(self).wf(),
        ensures
            final(self).wf(),
            r == (mutation_check(old(self)@, id, caller@) is None),
            !r ==> final(self)@ == old(self)@,
            r ==> share_post(old(self)@, final(self)@, id, recipient@, Seq::<char>::empty()),
    {
        if !(1 <= id && id < self.next_id) {
            return false;
        }
        let n: usize = self.records.len();
        proof {
            assert(id - 1 < n);
        }
        let idx: usize = (id - 1) as usize;
        if !self.records[idx].owner.same_as(&caller) {
            return false;
        }
        self.write_grant(id, recipient, String::new());
        true
    }

    /// Store `enc_key_cid` for the pair, replacing the pair's entry in
    /// place or appending a new one.
    fn write_grant(&mut self, id: u128, recipient: AccountId, enc_key_cid: String)
        requires
            old(self).wf(),
        ensures
            final(self).wf(),
            final(self)@.next_id == old(self)@.next_id,
            final(self)@.records == old(self)@.records,
            final(self).owner_index@ == old(self).owner_index@,
            final(self)@.grants == old(self)@.grants.insert((id, recipient@), enc_key_cid@),
    {
        let ghost pre_keys = self.shared_keys@;
        let grant = ShareGrant { backup_id: id, recipient, enc_key_cid };
        match self.find_grant(id, &recipient) {
            Some(k) => {
                proof {
                    lemma_grants_map_update(pre_keys, k as int, grant);
                }
                self.shared_keys.set(k, grant);
                proof {
                    assert forall|a: int, b: int| 0 <= a < b < self.shared_keys@.len()
                        implies grant_key(#[trigger] self.shared_keys@[a]) != grant_key(#[trigger] self.shared_keys@[b]) by {
                        assert(grant_key(pre_keys[a]) != grant_key(pre_keys[b]));
                    }
                }
            }
            None => {
                proof {
                    lemma_grants_map_push(pre_keys, grant);
                }
                self.shared_keys.push(grant);
                proof {
                    assert forall|a: int, b: int| 0 <= a < b < self.shared_keys@.len()
                        implies grant_key(#[trigger] self.shared_keys@[a]) != grant_key(#[trigger] self.shared_keys@[b]) by {
                        if b < pre_keys.len() {
                            assert(grant_key(pre_keys[a]) != grant_key(pre_keys[b]));
                        } else {
                            assert(grant_key(pre_keys[a]) != (id, recipient@));
                        }
                    }
                }
            }
        }
        proof {
            assert(self.records@ == old(self).records@);
            assert(self.owner_index@ == old(self).owner_index@);
            assert(self@.records =~= old(self)@.records);
            assert(wf_v(self@)) by {
                assert forall|i: int| 0 <= i < self@.records.len()
                    implies (#[trigger] self@.records[i]).id == i + 1
                        && self@.records[i].created_at <= self@.records[i].updated_at by {
                    assert(self@.records[i] == old(self)@.records[i]);
                    assert(old(self)@.records[i].id == i + 1);
                }
            };
            assert(self.index_wf()) by {
                assert forall|k: int, l: int| 0 <= k < l < self.owner_index@.len()
                    implies (#[trigger] self.owner_index@[k]).owner@ != (#[trigger] self.owner_index@[l]).owner@ by {
                    assert(self.owner_index@[k] == old(self).owner_index@[k]);
                    assert(self.owner_index@[l] == old(self).owner_index@[l]);
                }
                assert forall|k: int| 0 <= k < self.owner_index@.len()
                    implies (#[trigger] self.owner_index@[k]).ids@ == ids_of_owner(self@.records, self.owner_index@[k].owner@) by {
                    assert(old(self).owner_index@[k].ids@ == ids_of_owner(old(self)@.records, old(self).owner_index@[k].owner@));
                }
                assert forall|i: int| 0 <= i < self.records@.len()
                    implies owner_has_entry(self.owner_index@, (#[trigger] self.records@[i])@.owner) by {
                    assert(owner_has_entry(old(self).owner_index@, old(self).records@[i]@.owner));
                    assert(self.records@[i] == old(self).records@[i]);
                }
            };
        }
    }

    /// Public read: the record stored under `id`, or absent.
    pub fn get_backup(&self, id: u128) -> (r: Option<BackupRecord>)
        requires
            self.wf(),
        ensures
            match r {
                Some(rec) => record_of(self@, id) == Some(rec@),
                None => record_of(self@, id) is None,
            },
    {
        let n: usize = self.records.len();
        if 1 <= id && id < self.next_id {
            proof {
                assert(id - 1 < self.records@.len());
            }
            let idx: usize = (id - 1) as usize;
            Some(self.records[idx].duplicate())
        } else {
            None
        }
    }

    /// Public read: the identifiers of the records `owner` created, in
    /// creation order, soft-deleted records included.
    pub fn get_backups_by_owner(&self, owner: AccountId) -> (r: Vec<u128>)
        requires
            self.wf(),
        ensures
            r@ == ids_of_owner(self@.records, owner@),
    {
        match self.find_owner_entry(&owner) {
            Some(k) => copy_ids(&self.owner_index[k].ids),
            None => {
                proof {
                    assert forall|i: int| 0 <= i < self@.records.len()
                        implies (#[trigger] self@.records[i]).owner != owner@ by {
                        assert(self@.records[i] == self.records@[i]@);
                        if self.records@[i]@.owner == owner@ {
                            assert(owner_has_entry(self.owner_index@, owner@));
                            let k = choose|k: int| 0 <= k < self.owner_index@.len()
                                && (#[trigger] self.owner_index@[k]).owner@ == owner@;
                            assert(false);
                        }
                    }
                    lemma_ids_of_owner_absent(self@.records, owner@);
                }
                Vec::new()
            }
        }
    }

    /// Public read: the pointer stored for `(id, recipient)`, or the empty
    /// sentinel for a pair that was never granted or was revoked.
    pub fn get_shared_key_cid(&self, id: u128, recipient: AccountId) -> (r: String)
        requires
            self.wf(),
        ensures
            r@ == grant_view(self@.grants, id, recipient@),
    {
        match self.find_grant(id, &recipient) {
            Some(k) => {
                proof {
                    lemma_grants_map_value(self.shared_keys@, k as int);
                }
                self.shared_keys[k].enc_key_cid.clone()
            }
            None => {
                proof {
                    lemma_grants_map_domain(self.shared_keys@, id, recipient@);
                }
                String::new()
            }
        }
    }

    /// Public read: whether `addr` owns the record stored under `id`; false
    /// for an unknown identifier.
    pub fn is_owner(&self, id: u128, addr: AccountId) -> (r: bool)
        requires
            self.wf(),
        ensures
            r == (match record_of(self@, id) {
                Some(rec) => rec.owner == addr@,
                None => false,
            }),
    {
        let n: usize = self.records.len();
        if 1 <= id && id < self.next_id {
            proof {
                assert(id - 1 < self.records@.len());
            }
            let idx: usize = (id - 1) as usize;
            self.records[idx].owner.same_as(&addr)
        } else {
            false
        }
    }
}

} // verus!
