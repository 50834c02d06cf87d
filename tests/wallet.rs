use wallet_backend::codec::{decode, encode};
use wallet_backend::guard::{authorize, caller_is_owner, set_owners};
use wallet_backend::lifecycle::{init, post_upgrade, pre_upgrade};
use wallet_backend::principal::{Principal, MAX_PRINCIPAL_LEN};
use wallet_backend::state::{HeapState, StateCell, WalletArgs, WalletError};

fn principal(bytes: &[u8]) -> Principal {
    Principal::from_slice(bytes).expect("identity within bound")
}

fn owners_of(cell: &StateCell) -> Vec<Vec<u8>> {
    cell.read()
        .expect("cell holds a state")
        .owners()
        .iter()
        .map(|p| p.as_slice().to_vec())
        .collect()
}

fn initialised(owners: &[&[u8]]) -> StateCell {
    let mut cell = StateCell::new();
    let args = WalletArgs { owners: owners.iter().map(|b| principal(b)).collect() };
    init(&mut cell, Some(args)).expect("init succeeds");
    cell
}

#[test]
fn principal_length_bound() {
    assert!(Principal::from_slice(&[7u8; MAX_PRINCIPAL_LEN]).is_some());
    assert!(Principal::from_slice(&[7u8; MAX_PRINCIPAL_LEN + 1]).is_none());
    assert!(Principal::from_slice(&[]).is_some());
    let p = principal(&[1, 2, 3]);
    assert_eq!(p.as_slice(), &[1, 2, 3]);
    assert_eq!(p.len(), 3);
    assert!(p == principal(&[1, 2, 3]));
    assert!(p != principal(&[1, 2, 4]));
    assert!(p != principal(&[1, 2]));
}

#[test]
fn init_without_args_fails() {
    let mut cell = StateCell::new();
    assert_eq!(init(&mut cell, None), Err(WalletError::MissingConstructorArgs));
    assert!(cell.read().is_none());
}

#[test]
fn init_with_empty_owners_fails_and_leaves_cell() {
    let mut cell = StateCell::new();
    let r = init(&mut cell, Some(WalletArgs { owners: vec![] }));
    assert_eq!(r, Err(WalletError::EmptyOwnerSet));
    assert!(cell.read().is_none());

    let mut cell = initialised(&[b"alice"]);
    let r = init(&mut cell, Some(WalletArgs { owners: vec![] }));
    assert_eq!(r, Err(WalletError::EmptyOwnerSet));
    assert_eq!(owners_of(&cell), vec![b"alice".to_vec()]);
}

#[test]
fn heap_state_rejects_empty_owners() {
    assert_eq!(HeapState::new(vec![]), Err(WalletError::EmptyOwnerSet));
    let h = HeapState::new(vec![principal(b"a")]).unwrap();
    assert_eq!(h.owners().len(), 1);
}

#[test]
fn authorize_is_membership() {
    let h = HeapState::new(vec![principal(b"alice"), principal(b"bob")]).unwrap();
    assert!(authorize(&principal(b"alice"), &h));
    assert!(authorize(&principal(b"bob"), &h));
    assert!(!authorize(&principal(b"carol"), &h));
    assert!(!authorize(&principal(b"ali"), &h));
    assert!(!authorize(&principal(b""), &h));
}

#[test]
fn guard_on_empty_cell_rejects() {
    let cell = StateCell::new();
    assert_eq!(caller_is_owner(&principal(b"alice"), &cell), Err(WalletError::Unauthorized));
}

#[test]
fn changed_owners_change_next_decision() {
    let mut cell = initialised(&[b"alice"]);
    assert_eq!(caller_is_owner(&principal(b"alice"), &cell), Ok(()));
    assert_eq!(caller_is_owner(&principal(b"bob"), &cell), Err(WalletError::Unauthorized));
    set_owners(&mut cell, &principal(b"alice"), vec![principal(b"bob")]).unwrap();
    assert_eq!(caller_is_owner(&principal(b"alice"), &cell), Err(WalletError::Unauthorized));
    assert_eq!(caller_is_owner(&principal(b"bob"), &cell), Ok(()));
}

#[test]
fn unauthorized_call_leaves_state_unchanged() {
    let mut cell = initialised(&[b"alice", b"bob"]);
    let before = pre_upgrade(&cell).unwrap();
    let r = set_owners(&mut cell, &principal(b"mallory"), vec![principal(b"mallory")]);
    assert_eq!(r, Err(WalletError::Unauthorized));
    assert_eq!(pre_upgrade(&cell).unwrap(), before);
    assert_eq!(owners_of(&cell), vec![b"alice".to_vec(), b"bob".to_vec()]);

    let r = set_owners(&mut cell, &principal(b"alice"), vec![]);
    assert_eq!(r, Err(WalletError::EmptyOwnerSet));
    assert_eq!(pre_upgrade(&cell).unwrap(), before);

    let mut empty = StateCell::new();
    let r = set_owners(&mut empty, &principal(b"alice"), vec![principal(b"alice")]);
    assert_eq!(r, Err(WalletError::Unauthorized));
    assert!(empty.read().is_none());
}

#[test]
fn snapshot_layout_is_exact() {
    let h = HeapState::new(vec![principal(&[1, 2, 3]), principal(&[9])]).unwrap();
    let b = encode(&h).unwrap();
    assert_eq!(
        b,
        vec![0x57, 0x4c, 0x54, 0x53, 0x01, 19, 0, 0, 0, 0, 0, 0, 0, 3, 1, 2, 3, 1, 9]
    );
    assert_eq!(decode(&b).unwrap(), h);
}

#[test]
fn round_trip_single_owner() {
    let h = HeapState::new(vec![principal(b"only")]).unwrap();
    let b = encode(&h).unwrap();
    assert_eq!(decode(&b).unwrap(), h);
}

#[test]
fn round_trip_many_owners() {
    let owners: Vec<Principal> = (0..1000u32)
        .map(|i| {
            let bytes = i.to_le_bytes();
            principal(&bytes[..(i % 5) as usize])
        })
        .chain(std::iter::once(principal(&[0xab; MAX_PRINCIPAL_LEN])))
        .collect();
    let h = HeapState::new(owners).unwrap();
    let b = encode(&h).unwrap();
    let back = decode(&b).unwrap();
    assert_eq!(back, h);
    assert_eq!(encode(&back).unwrap(), b);
}

#[test]
fn upgrade_keeps_two_owners() {
    let cell = initialised(&[b"A", b"B"]);
    let buffer = pre_upgrade(&cell).unwrap();
    let mut fresh = StateCell::new();
    post_upgrade(&mut fresh, Some(&buffer)).unwrap();
    assert_eq!(owners_of(&fresh), vec![b"A".to_vec(), b"B".to_vec()]);
    assert!(fresh.read().unwrap() == cell.read().unwrap());
    assert_eq!(pre_upgrade(&fresh).unwrap(), buffer);
}

#[test]
fn truncated_snapshot_is_rejected() {
    let cell = initialised(&[b"A", b"B"]);
    let buffer = pre_upgrade(&cell).unwrap();
    for n in 0..buffer.len() {
        let mut fresh = StateCell::new();
        let r = post_upgrade(&mut fresh, Some(&buffer[..n]));
        assert_eq!(r, Err(WalletError::SnapshotDecodeFailure), "prefix of {n} bytes");
        assert!(fresh.read().is_none());
    }
}

#[test]
fn foreign_snapshot_is_rejected() {
    let mut fresh = StateCell::new();
    let foreign = b"DIDL\x01\x6d\x68\x01\x00\x01\x00\x00\x00\x00\x00\x00\x00";
    assert_eq!(post_upgrade(&mut fresh, Some(foreign)), Err(WalletError::SnapshotDecodeFailure));
    assert!(fresh.read().is_none());

    let cell = initialised(&[b"A"]);
    let mut wrong_version = pre_upgrade(&cell).unwrap();
    wrong_version[4] = 2;
    assert_eq!(decode(&wrong_version), Err(WalletError::SnapshotDecodeFailure));

    let mut longer = pre_upgrade(&cell).unwrap();
    longer.push(0);
    assert_eq!(decode(&longer), Err(WalletError::SnapshotDecodeFailure));
}

#[test]
fn malformed_records_are_rejected() {
    // a header that names no owner
    let empty = vec![0x57, 0x4c, 0x54, 0x53, 0x01, 13, 0, 0, 0, 0, 0, 0, 0];
    assert_eq!(decode(&empty), Err(WalletError::SnapshotDecodeFailure));
    // a record longer than any identity
    let mut long = vec![0x57, 0x4c, 0x54, 0x53, 0x01, 44, 0, 0, 0, 0, 0, 0, 0, 30];
    long.extend_from_slice(&[1u8; 30]);
    assert_eq!(decode(&long), Err(WalletError::SnapshotDecodeFailure));
    // a record that runs past the end
    let short = vec![0x57, 0x4c, 0x54, 0x53, 0x01, 16, 0, 0, 0, 0, 0, 0, 0, 5, 1, 2];
    assert_eq!(decode(&short), Err(WalletError::SnapshotDecodeFailure));
}

#[test]
fn absent_snapshot_is_rejected() {
    let mut cell = initialised(&[b"A"]);
    assert_eq!(post_upgrade(&mut cell, None), Err(WalletError::SnapshotDecodeFailure));
    assert_eq!(owners_of(&cell), vec![b"A".to_vec()]);
}

#[test]
fn pre_upgrade_of_empty_cell_fails() {
    let cell = StateCell::new();
    assert_eq!(pre_upgrade(&cell), Err(WalletError::SnapshotEncodeFailure));
}

#[test]
fn init_authorize_upgrade_scenario() {
    let a = principal(b"A");
    let b = principal(b"B");
    let cell = initialised(&[b"A"]);
    assert!(authorize(&a, cell.read().unwrap()));
    assert!(!authorize(&b, cell.read().unwrap()));
    let buffer = pre_upgrade(&cell).unwrap();
    let mut fresh = StateCell::new();
    post_upgrade(&mut fresh, Some(&buffer)).unwrap();
    assert!(authorize(&a, fresh.read().unwrap()));
    assert!(!authorize(&b, fresh.read().unwrap()));
    assert_eq!(caller_is_owner(&a, &fresh), Ok(()));
    assert_eq!(caller_is_owner(&b, &fresh), Err(WalletError::Unauthorized));
}

#[test]
fn copies_are_equal_and_independent() {
    let h = HeapState::new(vec![principal(b"A"), principal(b"B")]).unwrap();
    let c = h.clone();
    assert_eq!(c, h);
    assert!(c != HeapState::new(vec![principal(b"A")]).unwrap());
    assert!(c != HeapState::new(vec![principal(b"B"), principal(b"A")]).unwrap());
    let mut cell = StateCell::new();
    cell.write(c);
    assert_eq!(cell.read().unwrap(), &h);
}
