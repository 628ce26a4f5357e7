use vstd::prelude::*;
use crate::registry::RecordV;
use crate::registry::RegistryV;
use crate::registry::create_post;
use crate::registry::update_post;
use crate::registry::delete_post;
use crate::registry::share_post;
use crate::registry::created_record;
use crate::registry::record_of;
use crate::registry::wf_v;
use crate::registry::valid_id;
use crate::registry::ids_of_owner;
use crate::registry::grant_view;
use crate::registry::mutation_check;
use crate::registry::delete_check;
use crate::registry::lemma_ids_of_owner_push;
use crate::registry::lemma_ids_of_owner_agree;
use crate::vault::VaultV;
use crate::vault::created_entry;
use crate::vault::hash_exists;

verus! {

/// Sequential creations issue strictly increasing identifiers with no
/// repeats: a creation returns an identifier larger than every identifier
/// already stored, and the next creation returns a larger one still.
pub proof fn lemma_creation_ids_increase(
    v0: RegistryV,
    v1: RegistryV,
    v2: RegistryV,
    c1: Seq<u8>,
    c2: Seq<u8>,
    n1: u64,
    n2: u64,
    m1: Seq<char>,
    m2: Seq<char>,
    a1: Option<Seq<char>>,
    a2: Option<Seq<char>>,
    id1: u128,
    id2: u128,
)
    requires
        wf_v(v0),
        create_post(v0, v1, c1, n1, m1, a1, id1),
        create_post(v1, v2, c2, n2, m2, a2, id2),
    ensures
        id2 == id1 + 1,
        id1 < id2,
        forall|i: int| 0 <= i < v0.records.len() ==> (#[trigger] v0.records[i]).id < id1,
        wf_v(v2),
        forall|i: int, j: int| 0 <= i < j < v2.records.len()
            ==> (#[trigger] v2.records[i]).id != (#[trigger] v2.records[j]).id,
{
    assert forall|i: int| 0 <= i < v1.records.len()
        implies (#[trigger] v1.records[i]).id == i + 1 by {
        if i < v0.records.len() {
            assert(v1.records[i] == v0.records[i]);
        }
    }
    assert forall|i: int| 0 <= i < v2.records.len()
        implies (#[trigger] v2.records[i]).id == i + 1 by {
        if i < v1.records.len() {
            assert(v2.records[i] == v1.records[i]);
        }
    }
    assert forall|i: int| 0 <= i < v2.records.len()
        implies (#[trigger] v2.records[i]).created_at <= v2.records[i].updated_at by {
        if i < v1.records.len() {
            assert(v2.records[i] == v1.records[i]);
            if i < v0.records.len() {
                assert(v1.records[i] == v0.records[i]);
            }
        }
    }
}

/// A record read straight after its creation is exactly what was written:
/// the caller as owner, the supplied pointers, the active flag set, and
/// equal creation and update stamps.
pub proof fn lemma_create_then_get(
    v0: RegistryV,
    v1: RegistryV,
    caller: Seq<u8>,
    now: u64,
    m: Seq<char>,
    a: Option<Seq<char>>,
    id: u128,
)
    requires
        wf_v(v0),
        create_post(v0, v1, caller, now, m, a, id),
    ensures
        record_of(v1, id) == Some(created_record(id, caller, now, m, a)),
        record_of(v1, id)->0.owner == caller,
        record_of(v1, id)->0.manifest_cid == m,
        record_of(v1, id)->0.acl_root_cid == a,
        record_of(v1, id)->0.active,
        record_of(v1, id)->0.created_at == record_of(v1, id)->0.updated_at,
{
    assert(v1.records[id - 1] == created_record(id, caller, now, m, a));
}

/// A creation appends the new identifier to its creator's list and leaves
/// every other owner's list unchanged.
pub proof fn lemma_owner_ids_after_create(
    v0: RegistryV,
    v1: RegistryV,
    caller: Seq<u8>,
    now: u64,
    m: Seq<char>,
    a: Option<Seq<char>>,
    id: u128,
)
    requires
        wf_v(v0),
        create_post(v0, v1, caller, now, m, a, id),
    ensures
        ids_of_owner(v1.records, caller) == ids_of_owner(v0.records, caller).push(id),
        forall|o: Seq<u8>| o != caller ==> ids_of_owner(v1.records, o) == ids_of_owner(v0.records, o),
{
    lemma_ids_of_owner_push(v0.records, created_record(id, caller, now, m, a), caller);
    assert forall|o: Seq<u8>| o != caller
        implies ids_of_owner(v1.records, o) == ids_of_owner(v0.records, o) by {
        lemma_ids_of_owner_push(v0.records, created_record(id, caller, now, m, a), o);
    }
}

/// An owner's identifier list holds only identifiers the sequencer issued,
/// and in strictly increasing order: creation order is preserved and no
/// identifier appears twice in any list.
pub proof fn lemma_ids_of_owner_increasing(records: Seq<RecordV>, owner: Seq<u8>)
    requires
        forall|i: int| 0 <= i < records.len() ==> (#[trigger] records[i]).id == i + 1,
    ensures
        forall|j: int| 0 <= j < ids_of_owner(records, owner).len()
            ==> 1 <= #[trigger] ids_of_owner(records, owner)[j] <= records.len(),
        forall|j: int, k: int| 0 <= j < k < ids_of_owner(records, owner).len()
            ==> ids_of_owner(records, owner)[j] < ids_of_owner(records, owner)[k],
    decreases records.len(),
{
    if records.len() > 0 {
        assert forall|i: int| 0 <= i < records.drop_last().len()
            implies (#[trigger] records.drop_last()[i]).id == i + 1 by {
            assert(records.drop_last()[i] == records[i]);
        }
        lemma_ids_of_owner_increasing(records.drop_last(), owner);
        assert(records.last() == records[records.len() - 1]);
        if records.last().owner == owner {
            let rest = ids_of_owner(records.drop_last(), owner);
            let whole = ids_of_owner(records, owner);
            assert(whole == rest.push(records.last().id));
            assert(records.last().id == records.len());
            assert forall|j: int, k: int| 0 <= j < k < whole.len() implies whole[j] < whole[k] by {
                if k < whole.len() - 1 {
                    assert(whole[j] == rest[j]);
                    assert(whole[k] == rest[k]);
                } else {
                    assert(whole[k] == records.len());
                    assert(whole[j] == rest[j]);
                    assert(rest[j] <= records.drop_last().len());
                }
            }
        }
    }
}

/// An update leaves every owner's identifier list unchanged: the list
/// depends only on identifiers and owners, which an update never touches.
pub proof fn lemma_owner_ids_stable_after_update(
    v0: RegistryV,
    v1: RegistryV,
    id: u128,
    now: u64,
    new_manifest: Option<Seq<char>>,
    new_acl: Option<Seq<char>>,
    owner: Seq<u8>,
)
    requires
        wf_v(v0),
        valid_id(v0, id),
        update_post(v0, v1, id, now, new_manifest, new_acl),
    ensures
        ids_of_owner(v1.records, owner) == ids_of_owner(v0.records, owner),
{
    assert forall|i: int| 0 <= i < v0.records.len()
        implies (#[trigger] v0.records[i]).id == v1.records[i].id
            && v0.records[i].owner == v1.records[i].owner by {
        if i != id - 1 {
            assert(v1.records[i] == v0.records[i]);
        }
    }
    lemma_ids_of_owner_agree(v0.records, v1.records, owner);
}

/// A soft delete leaves every owner's identifier list unchanged: a deleted
/// record remains listed, only its active flag flips.
pub proof fn lemma_owner_ids_stable_after_delete(
    v0: RegistryV,
    v1: RegistryV,
    id: u128,
    now: u64,
    owner: Seq<u8>,
)
    requires
        wf_v(v0),
        valid_id(v0, id),
        delete_post(v0, v1, id, now),
    ensures
        ids_of_owner(v1.records, owner) == ids_of_owner(v0.records, owner),
{
    assert forall|i: int| 0 <= i < v0.records.len()
        implies (#[trigger] v0.records[i]).id == v1.records[i].id
            && v0.records[i].owner == v1.records[i].owner by {
        if i != id - 1 {
            assert(v1.records[i] == v0.records[i]);
        }
    }
    lemma_ids_of_owner_agree(v0.records, v1.records, owner);
}

/// Deletion is not idempotent: after a successful soft delete, a second
/// delete of the same record is refused for every caller, while the record
/// stays stored, inactive.
pub proof fn lemma_delete_not_idempotent(
    v0: RegistryV,
    v1: RegistryV,
    id: u128,
    now: u64,
    caller: Seq<u8>,
)
    requires
        wf_v(v0),
        delete_check(v0, id, caller) is None,
        delete_post(v0, v1, id, now),
    ensures
        record_of(v1, id) is Some,
        !record_of(v1, id)->0.active,
        forall|c: Seq<u8>| delete_check(v1, id, c) is Some,
{
}

/// Revocation is idempotent: two successive revocations of a pair — a pair
/// never granted included — run under the same authorization rule, leave
/// identical states, and both leave the lookup returning the empty
/// sentinel.
pub proof fn lemma_revoke_idempotent(
    v0: RegistryV,
    v1: RegistryV,
    v2: RegistryV,
    id: u128,
    recipient: Seq<u8>,
    caller: Seq<u8>,
)
    requires
        share_post(v0, v1, id, recipient, Seq::<char>::empty()),
        share_post(v1, v2, id, recipient, Seq::<char>::empty()),
    ensures
        mutation_check(v1, id, caller) == mutation_check(v0, id, caller),
        grant_view(v1.grants, id, recipient) == Seq::<char>::empty(),
        grant_view(v2.grants, id, recipient) == Seq::<char>::empty(),
        v2 == v1,
{
    assert(record_of(v1, id) == record_of(v0, id));
    assert(v2.grants =~= v1.grants);
    assert(v2 =~= v1);
}

/// Round trip: immediately after a share, the lookup of the pair returns
/// exactly the shared pointer; after a subsequent revocation it returns the
/// empty sentinel — never the pointer, whenever the pointer is non-empty.
pub proof fn lemma_share_then_lookup(
    v0: RegistryV,
    v1: RegistryV,
    v2: RegistryV,
    id: u128,
    recipient: Seq<u8>,
    cid: Seq<char>,
)
    requires
        share_post(v0, v1, id, recipient, cid),
        share_post(v1, v2, id, recipient, Seq::<char>::empty()),
    ensures
        grant_view(v1.grants, id, recipient) == cid,
        grant_view(v2.grants, id, recipient) == Seq::<char>::empty(),
        cid.len() > 0 ==> grant_view(v2.grants, id, recipient) != cid,
{
}

/// A stored hash verifies: after a creation with `hash`, the existence
/// query holds for `hash`; and a hash unseen before the creation, other
/// than the created one, still fails the query.
pub proof fn lemma_verify_created_hash(
    v0: VaultV,
    v1: VaultV,
    caller: Seq<u8>,
    now: u64,
    hash: Seq<u8>,
    id: u64,
)
    requires
        v1.entries == v0.entries.push(created_entry(id, caller, now, hash)),
    ensures
        hash_exists(v1.entries, hash),
        forall|h: Seq<u8>| hash_exists(v1.entries, h) && h != hash ==> hash_exists(v0.entries, h),
{
    assert(v1.entries[v1.entries.len() - 1].data_hash == hash);
    assert forall|h: Seq<u8>| hash_exists(v1.entries, h) && h != hash
        implies hash_exists(v0.entries, h) by {
        let i = choose|i: int| 0 <= i < v1.entries.len() && (#[trigger] v1.entries[i]).data_hash == h;
        assert(i < v0.entries.len());
        assert(v0.entries[i] == v1.entries[i]);
    }
}

} // verus!
