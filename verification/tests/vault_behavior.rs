use backup_registry::account::AccountId;
use backup_registry::vault::ChainVault;

fn alice() -> AccountId {
    AccountId::from_bytes([1u8; 32])
}

fn bob() -> AccountId {
    AccountId::from_bytes([2u8; 32])
}

#[test]
fn lib_new_works() {
    let contract = ChainVault::new(alice());
    assert_eq!(contract.total_backups(), 0);
}

#[test]
fn lib_create_backup_works() {
    let mut contract = ChainVault::new(alice());
    let hash = [1u8; 32];
    let id = contract.create_backup(alice(), 0, hash);
    assert_eq!(id, 1);
    assert_eq!(contract.total_backups(), 1);
}

#[test]
fn get_backup_works() {
    let mut contract = ChainVault::new(alice());
    let hash = [2u8; 32];
    let id = contract.create_backup(alice(), 0, hash);
    let retrieved = contract.get_backup(id).unwrap();
    assert_eq!(retrieved.data_hash, hash);
}

#[test]
fn verify_hash_works() {
    let mut contract = ChainVault::new(alice());
    let hash = [3u8; 32];
    contract.create_backup(alice(), 0, hash);
    assert!(contract.verify_hash(hash));
    assert!(!contract.verify_hash([4u8; 32]));
}

#[test]
fn hash_verification_distinguishes_hashes() {
    let mut contract = ChainVault::new(alice());
    let h1 = [10u8; 32];
    let h2 = [20u8; 32];
    let h3 = [30u8; 32];
    contract.create_backup(alice(), 0, h1);
    contract.create_backup(bob(), 0, h2);
    assert!(contract.verify_hash(h1));
    assert!(contract.verify_hash(h2));
    assert!(!contract.verify_hash(h3));
}

#[test]
fn get_my_backups_filters_by_owner() {
    let mut contract = ChainVault::new(alice());
    let id1 = contract.create_backup(alice(), 5, [1u8; 32]);
    let id2 = contract.create_backup(bob(), 6, [2u8; 32]);
    let id3 = contract.create_backup(alice(), 7, [3u8; 32]);
    let mine = contract.get_my_backups(alice());
    assert_eq!(mine.len(), 2);
    assert_eq!(mine[0].backup_id, id1);
    assert_eq!(mine[1].backup_id, id3);
    let theirs = contract.get_my_backups(bob());
    assert_eq!(theirs.len(), 1);
    assert_eq!(theirs[0].backup_id, id2);
    assert_eq!(theirs[0].owner, bob());
}

#[test]
fn get_admin_is_deployer() {
    let contract = ChainVault::new(bob());
    assert_eq!(contract.get_admin(), bob());
}

#[test]
fn entry_fields_recorded() {
    let mut contract = ChainVault::new(alice());
    let id = contract.create_backup(bob(), 99, [7u8; 32]);
    let entry = contract.get_backup(id).unwrap();
    assert_eq!(entry.backup_id, id);
    assert_eq!(entry.owner, bob());
    assert_eq!(entry.data_hash, [7u8; 32]);
    assert_eq!(entry.timestamp, 99);
    assert!(contract.get_backup(0).is_none());
    assert!(contract.get_backup(2).is_none());
}
