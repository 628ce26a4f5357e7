use backup_registry::account::AccountId;
use backup_registry::registry::BackupRegistry;
use backup_registry::registry::RegistryError;

fn alice() -> AccountId {
    AccountId::from_bytes([1u8; 32])
}

fn bob() -> AccountId {
    AccountId::from_bytes([2u8; 32])
}

fn carol() -> AccountId {
    AccountId::from_bytes([3u8; 32])
}

#[test]
fn new_works() {
    let contract = BackupRegistry::new();
    assert_eq!(contract.next_id, 1);
}

#[test]
fn create_backup_works() {
    let mut contract = BackupRegistry::new();
    let id = contract
        .create_backup(
            alice(),
            0,
            String::from("QmTest123"),
            Some(String::from("QmACL456")),
        )
        .unwrap();
    assert_eq!(id, 1);
    let record = contract.get_backup(id);
    assert!(record.is_some());
    assert_eq!(record.unwrap().owner, alice());
}

#[test]
fn update_backup_works() {
    let mut contract = BackupRegistry::new();
    let id = contract
        .create_backup(alice(), 0, String::from("QmTest123"), None)
        .unwrap();
    let result = contract.update_backup(
        alice(),
        0,
        id,
        Some(String::from("QmNewTest456")),
        Some(String::from("QmNewACL789")),
    );
    assert!(result);
    let record = contract.get_backup(id).unwrap();
    assert_eq!(record.manifest_cid, "QmNewTest456");
}

#[test]
fn share_and_revoke_works() {
    let mut contract = BackupRegistry::new();
    let id = contract
        .create_backup(alice(), 0, String::from("QmTest123"), None)
        .unwrap();
    let share_result = contract.share_backup(alice(), id, bob(), String::from("QmEncryptedKey123"));
    assert!(share_result);
    let key_cid = contract.get_shared_key_cid(id, bob());
    assert_eq!(key_cid, "QmEncryptedKey123");
    let revoke_result = contract.revoke_share(alice(), id, bob());
    assert!(revoke_result);
    let key_cid = contract.get_shared_key_cid(id, bob());
    assert_eq!(key_cid, "");
}

#[test]
fn delete_backup_works() {
    let mut contract = BackupRegistry::new();
    let id = contract
        .create_backup(alice(), 0, String::from("QmTest123"), None)
        .unwrap();
    let result = contract.delete_backup(alice(), 0, id);
    assert!(result);
    let record = contract.get_backup(id).unwrap();
    assert!(!record.active);
}

#[test]
fn unauthorized_update_fails() {
    let mut contract = BackupRegistry::new();
    let id = contract
        .create_backup(alice(), 0, String::from("QmTest123"), None)
        .unwrap();
    let result = contract.update_backup(bob(), 0, id, Some(String::from("QmHacked")), None);
    assert!(!result);
}

#[test]
fn sequential_ids_strictly_increase() {
    let mut contract = BackupRegistry::new();
    let id1 = contract
        .create_backup(alice(), 10, String::from("QmA"), None)
        .unwrap();
    let id2 = contract
        .create_backup(bob(), 20, String::from("QmB"), None)
        .unwrap();
    let id3 = contract
        .create_backup(alice(), 30, String::from("QmC"), None)
        .unwrap();
    assert_eq!(id1, 1);
    assert_eq!(id2, 2);
    assert_eq!(id3, 3);
    assert!(id1 < id2 && id2 < id3);
}

#[test]
fn created_record_fields() {
    let mut contract = BackupRegistry::new();
    let id = contract
        .create_backup(
            alice(),
            777,
            String::from("QmManifest"),
            Some(String::from("QmAcl")),
        )
        .unwrap();
    let record = contract.get_backup(id).unwrap();
    assert_eq!(record.id, id);
    assert_eq!(record.owner, alice());
    assert_eq!(record.manifest_cid, "QmManifest");
    assert_eq!(record.acl_root_cid, Some(String::from("QmAcl")));
    assert!(record.active);
    assert_eq!(record.created_at, 777);
    assert_eq!(record.updated_at, 777);
}

#[test]
fn empty_manifest_rejected() {
    let mut contract = BackupRegistry::new();
    let result = contract.create_backup(alice(), 0, String::new(), None);
    assert_eq!(result, Err(RegistryError::InvalidInput));
    assert_eq!(contract.next_id, 1);
    assert!(contract.get_backup(1).is_none());
}

#[test]
fn owner_index_tracks_creations_despite_deletes() {
    let mut contract = BackupRegistry::new();
    let id1 = contract
        .create_backup(alice(), 0, String::from("QmA"), None)
        .unwrap();
    let _id2 = contract
        .create_backup(bob(), 0, String::from("QmB"), None)
        .unwrap();
    let id3 = contract
        .create_backup(alice(), 0, String::from("QmC"), None)
        .unwrap();
    assert_eq!(contract.get_backups_by_owner(alice()), vec![id1, id3]);
    assert!(contract.delete_backup(alice(), 5, id1));
    assert_eq!(contract.get_backups_by_owner(alice()), vec![id1, id3]);
    assert_eq!(contract.get_backups_by_owner(bob()), vec![2]);
    assert_eq!(contract.get_backups_by_owner(carol()), Vec::<u128>::new());
}

#[test]
fn unauthorized_update_preserves_record() {
    let mut contract = BackupRegistry::new();
    let id = contract
        .create_backup(
            alice(),
            100,
            String::from("QmKeep"),
            Some(String::from("QmAclKeep")),
        )
        .unwrap();
    let before = contract.get_backup(id).unwrap();
    let result = contract.update_backup(
        bob(),
        200,
        id,
        Some(String::from("QmHacked")),
        Some(String::from("QmAclHacked")),
    );
    assert!(!result);
    let after = contract.get_backup(id).unwrap();
    assert_eq!(after.id, before.id);
    assert_eq!(after.owner, before.owner);
    assert_eq!(after.manifest_cid, before.manifest_cid);
    assert_eq!(after.acl_root_cid, before.acl_root_cid);
    assert_eq!(after.active, before.active);
    assert_eq!(after.created_at, before.created_at);
    assert_eq!(after.updated_at, before.updated_at);
}

#[test]
fn second_delete_fails() {
    let mut contract = BackupRegistry::new();
    let id = contract
        .create_backup(alice(), 0, String::from("QmA"), None)
        .unwrap();
    assert!(contract.delete_backup(alice(), 1, id));
    assert!(!contract.delete_backup(alice(), 2, id));
    let record = contract.get_backup(id).unwrap();
    assert!(!record.active);
}

#[test]
fn revoke_idempotent_on_never_granted_pair() {
    let mut contract = BackupRegistry::new();
    let id = contract
        .create_backup(alice(), 0, String::from("QmA"), None)
        .unwrap();
    assert!(contract.revoke_share(alice(), id, bob()));
    assert_eq!(contract.get_shared_key_cid(id, bob()), "");
    assert!(contract.revoke_share(alice(), id, bob()));
    assert_eq!(contract.get_shared_key_cid(id, bob()), "");
}

#[test]
fn share_overwrites_prior_grant() {
    let mut contract = BackupRegistry::new();
    let id = contract
        .create_backup(alice(), 0, String::from("QmA"), None)
        .unwrap();
    assert!(contract.share_backup(alice(), id, bob(), String::from("QmKey1")));
    assert!(contract.share_backup(alice(), id, bob(), String::from("QmKey2")));
    assert_eq!(contract.get_shared_key_cid(id, bob()), "QmKey2");
    assert_eq!(contract.get_shared_key_cid(id, carol()), "");
}

#[test]
fn share_requires_owner_and_existing_record() {
    let mut contract = BackupRegistry::new();
    let id = contract
        .create_backup(alice(), 0, String::from("QmA"), None)
        .unwrap();
    assert!(!contract.share_backup(bob(), id, carol(), String::from("QmKey")));
    assert!(!contract.share_backup(alice(), 99, bob(), String::from("QmKey")));
    assert!(!contract.revoke_share(bob(), id, carol()));
    assert!(!contract.revoke_share(alice(), 99, bob()));
    assert_eq!(contract.get_shared_key_cid(id, carol()), "");
}

#[test]
fn partial_update_keeps_unsupplied_fields() {
    let mut contract = BackupRegistry::new();
    let id = contract
        .create_backup(
            alice(),
            1000,
            String::from("QmManifest1"),
            Some(String::from("QmAcl1")),
        )
        .unwrap();
    assert!(contract.update_backup(alice(), 2000, id, None, Some(String::from("QmAcl2"))));
    let record = contract.get_backup(id).unwrap();
    assert_eq!(record.manifest_cid, "QmManifest1");
    assert_eq!(record.acl_root_cid, Some(String::from("QmAcl2")));
    assert_eq!(record.updated_at, 2000);
    assert!(contract.update_backup(alice(), 3000, id, Some(String::from("QmManifest2")), None));
    let record = contract.get_backup(id).unwrap();
    assert_eq!(record.manifest_cid, "QmManifest2");
    assert_eq!(record.acl_root_cid, Some(String::from("QmAcl2")));
    assert_eq!(record.updated_at, 3000);
}

#[test]
fn scenario_share_revoke_then_partial_update() {
    let mut contract = BackupRegistry::new();
    let id = contract
        .create_backup(
            alice(),
            1000,
            String::from("QmManifestA"),
            Some(String::from("QmAclA")),
        )
        .unwrap();
    assert_eq!(id, 1);
    assert!(contract.share_backup(alice(), id, bob(), String::from("X")));
    assert_eq!(contract.get_shared_key_cid(id, bob()), "X");
    assert!(contract.revoke_share(alice(), id, bob()));
    assert_eq!(contract.get_shared_key_cid(id, bob()), "");
    assert!(contract.update_backup(alice(), 2000, id, Some(String::from("QmManifestB")), None));
    let record = contract.get_backup(id).unwrap();
    assert_eq!(record.manifest_cid, "QmManifestB");
    assert_eq!(record.acl_root_cid, Some(String::from("QmAclA")));
    assert_eq!(record.created_at, 1000);
    assert_eq!(record.updated_at, 2000);
}

#[test]
fn is_owner_works() {
    let mut contract = BackupRegistry::new();
    let id = contract
        .create_backup(alice(), 0, String::from("QmA"), None)
        .unwrap();
    assert!(contract.is_owner(id, alice()));
    assert!(!contract.is_owner(id, bob()));
    assert!(!contract.is_owner(99, alice()));
}

#[test]
fn reads_on_missing_records_return_absent() {
    let contract = BackupRegistry::new();
    assert!(contract.get_backup(1).is_none());
    assert_eq!(contract.get_backups_by_owner(alice()), Vec::<u128>::new());
    assert_eq!(contract.get_shared_key_cid(1, bob()), "");
    assert!(!contract.is_owner(1, alice()));
}

#[test]
fn update_on_missing_record_fails() {
    let mut contract = BackupRegistry::new();
    assert!(!contract.update_backup(alice(), 0, 1, Some(String::from("QmX")), None));
    assert!(!contract.delete_backup(alice(), 0, 1));
}
