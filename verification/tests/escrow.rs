use nft_escrow::{deposit_nfts, initialize_escrow, withdraw_nft, DepositError, EscrowError, Key};

fn key(fill: u8) -> Key {
    Key([fill; 32])
}

/// A minimal initialized token holding account: 165 bytes, owner at 32..64,
/// state byte 1 at offset 108, all optional-field tags absent.
fn token_account_data(owner: &Key) -> Vec<u8> {
    let mut data = vec![0u8; 165];
    data[32..64].copy_from_slice(&owner.0);
    data[108] = 1;
    data
}

#[test]
fn initialize_sets_bindings_and_empty_record() {
    let authority = key(1);
    let owner = key(2);
    let e = initialize_escrow(&authority, &owner, 254);
    assert_eq!(e.authority, authority);
    assert_eq!(e.owner, owner);
    assert_eq!(e.bump, 254);
    assert!(e.is_active);
    assert_eq!(e.nft_count, 0);
    assert!(e.standard_nfts.is_empty());
    assert!(e.compressed_nfts.is_empty());
}

#[test]
fn deposit_standard_and_compressed_then_withdraw_standard() {
    let authority = key(1);
    let owner = key(2);
    let mint1 = key(3);
    let mint2 = key(4);
    let mut e = initialize_escrow(&authority, &owner, 255);

    let remaining = vec![vec![0u8; 10], token_account_data(&owner), vec![0u8; 10]];
    let r = deposit_nfts(
        &mut e,
        &owner,
        &vec![mint1, mint2],
        &vec![false, true],
        &remaining,
    );
    let orders = r.expect("deposit should succeed");
    assert_eq!(orders.len(), 1);
    assert_eq!(orders[0].mint, mint1);
    assert_eq!(orders[0].from_account, 1);
    assert_eq!(orders[0].to_account, 2);
    assert_eq!(e.standard_nfts, vec![mint1]);
    assert_eq!(e.compressed_nfts, vec![mint2]);
    assert_eq!(e.nft_count, 2);

    let w = withdraw_nft(&mut e, &authority, &mint1, false, &key(9));
    assert_eq!(w, Ok(()));
    assert!(e.standard_nfts.is_empty());
    assert_eq!(e.compressed_nfts, vec![mint2]);
    assert_eq!(e.nft_count, 1);
}

#[test]
fn deposit_of_empty_batch_succeeds_and_changes_nothing() {
    let authority = key(1);
    let owner = key(2);
    let mut e = initialize_escrow(&authority, &owner, 255);
    let orders = deposit_nfts(&mut e, &owner, &vec![], &vec![], &vec![]).unwrap();
    assert!(orders.is_empty());
    assert_eq!(e.nft_count, 0);
    assert!(e.standard_nfts.is_empty());
    assert!(e.compressed_nfts.is_empty());
}

#[test]
fn withdraw_by_non_authority_fails_and_changes_nothing() {
    let authority = key(1);
    let owner = key(2);
    let mint = key(3);
    let mut e = initialize_escrow(&authority, &owner, 255);
    let remaining = vec![vec![], token_account_data(&owner), vec![]];
    deposit_nfts(&mut e, &owner, &vec![mint], &vec![false], &remaining).unwrap();

    let intruder = key(7);
    let w = withdraw_nft(&mut e, &intruder, &mint, false, &key(9));
    assert_eq!(w, Err(EscrowError::InvalidAuthority));
    assert_eq!(e.standard_nfts, vec![mint]);
    assert_eq!(e.nft_count, 1);
}

#[test]
fn withdraw_of_absent_identifier_fails_with_nft_not_found() {
    let authority = key(1);
    let owner = key(2);
    let mut e = initialize_escrow(&authority, &owner, 255);
    let never_deposited = key(5);
    let w = withdraw_nft(&mut e, &authority, &never_deposited, false, &key(9));
    assert_eq!(w, Err(EscrowError::NFTNotFound));
    assert_eq!(e.nft_count, 0);

    let w2 = withdraw_nft(&mut e, &authority, &never_deposited, true, &key(9));
    assert_eq!(w2, Err(EscrowError::NFTNotFound));
    assert_eq!(e.nft_count, 0);
}

#[test]
fn withdraw_wrong_class_fails_with_nft_not_found() {
    let authority = key(1);
    let owner = key(2);
    let mint = key(3);
    let mut e = initialize_escrow(&authority, &owner, 255);
    deposit_nfts(&mut e, &owner, &vec![mint], &vec![true], &vec![]).unwrap();

    let w = withdraw_nft(&mut e, &authority, &mint, false, &key(9));
    assert_eq!(w, Err(EscrowError::NFTNotFound));
    assert_eq!(e.compressed_nfts, vec![mint]);
    assert_eq!(e.nft_count, 1);
}

#[test]
fn deposit_by_non_owner_fails_with_invalid_owner() {
    let authority = key(1);
    let owner = key(2);
    let mut e = initialize_escrow(&authority, &owner, 255);
    let intruder = key(7);
    let r = deposit_nfts(&mut e, &intruder, &vec![key(3)], &vec![true], &vec![]);
    assert_eq!(r, Err(DepositError::Escrow(EscrowError::InvalidOwner)));
    assert_eq!(e.nft_count, 0);
}

#[test]
fn deposit_with_mismatched_lengths_fails_and_changes_nothing() {
    let authority = key(1);
    let owner = key(2);
    let mut e = initialize_escrow(&authority, &owner, 255);
    let mints = vec![key(3), key(4), key(5)];
    let flags = vec![true, true];
    let r = deposit_nfts(&mut e, &owner, &mints, &flags, &vec![]);
    assert_eq!(r, Err(DepositError::Escrow(EscrowError::InvalidInputLength)));
    assert_eq!(e.nft_count, 0);
    assert!(e.standard_nfts.is_empty());
    assert!(e.compressed_nfts.is_empty());
}

#[test]
fn deposit_with_short_side_list_fails_with_insufficient_accounts() {
    let authority = key(1);
    let owner = key(2);
    let mut e = initialize_escrow(&authority, &owner, 255);
    let remaining = vec![vec![], token_account_data(&owner)];
    let r = deposit_nfts(&mut e, &owner, &vec![key(3)], &vec![false], &remaining);
    assert_eq!(
        r,
        Err(DepositError::Escrow(EscrowError::InsufficientAccounts))
    );
    assert_eq!(e.nft_count, 0);
}

#[test]
fn deposit_with_foreign_holding_account_fails_with_not_token_owner() {
    let authority = key(1);
    let owner = key(2);
    let someone_else = key(6);
    let mut e = initialize_escrow(&authority, &owner, 255);
    let remaining = vec![vec![], token_account_data(&someone_else), vec![]];
    let r = deposit_nfts(&mut e, &owner, &vec![key(3)], &vec![false], &remaining);
    assert_eq!(r, Err(DepositError::Escrow(EscrowError::NotTokenOwner)));
    assert_eq!(e.nft_count, 0);
    assert!(e.standard_nfts.is_empty());
}

#[test]
fn deposit_with_malformed_holding_account_fails_to_deserialize() {
    let authority = key(1);
    let owner = key(2);
    let mut e = initialize_escrow(&authority, &owner, 255);

    // Too short to be a token account.
    let remaining = vec![vec![], vec![0u8; 164], vec![]];
    let r = deposit_nfts(&mut e, &owner, &vec![key(3)], &vec![false], &remaining);
    assert_eq!(r, Err(DepositError::AccountDidNotDeserialize));

    // Right length but uninitialized (state byte zero).
    let mut data = token_account_data(&owner);
    data[108] = 0;
    let remaining = vec![vec![], data, vec![]];
    let r = deposit_nfts(&mut e, &owner, &vec![key(3)], &vec![false], &remaining);
    assert_eq!(r, Err(DepositError::AccountDidNotDeserialize));
    assert_eq!(e.nft_count, 0);
}

#[test]
fn deposit_then_withdraw_restores_prior_standard_content() {
    let authority = key(1);
    let owner = key(2);
    let first = key(3);
    let x = key(4);
    let mut e = initialize_escrow(&authority, &owner, 255);
    let remaining = vec![vec![], token_account_data(&owner), vec![]];
    deposit_nfts(&mut e, &owner, &vec![first], &vec![false], &remaining).unwrap();
    let before_standard = e.standard_nfts.clone();
    let before_count = e.nft_count;

    deposit_nfts(&mut e, &owner, &vec![x], &vec![false], &remaining).unwrap();
    assert_eq!(e.nft_count, before_count + 1);
    let w = withdraw_nft(&mut e, &authority, &x, false, &key(9));
    assert_eq!(w, Ok(()));
    assert_eq!(e.standard_nfts, before_standard);
    assert_eq!(e.nft_count, before_count);
}

#[test]
fn withdraw_compressed_removes_only_that_identifier() {
    let authority = key(1);
    let owner = key(2);
    let a = key(3);
    let b = key(4);
    let c = key(5);
    let mut e = initialize_escrow(&authority, &owner, 255);
    deposit_nfts(&mut e, &owner, &vec![a, b, c], &vec![true, true, true], &vec![]).unwrap();
    assert_eq!(e.nft_count, 3);

    let w = withdraw_nft(&mut e, &authority, &b, true, &key(9));
    assert_eq!(w, Ok(()));
    assert_eq!(e.compressed_nfts, vec![a, c]);
    assert_eq!(e.nft_count, 2);
}

#[test]
fn deposit_batch_orders_follow_standard_items_in_input_order() {
    let authority = key(1);
    let owner = key(2);
    let m1 = key(3);
    let m2 = key(4);
    let m3 = key(5);
    let mut e = initialize_escrow(&authority, &owner, 255);
    let remaining = vec![
        vec![],
        token_account_data(&owner),
        vec![],
        vec![],
        token_account_data(&owner),
        vec![],
    ];
    let orders = deposit_nfts(
        &mut e,
        &owner,
        &vec![m1, m2, m3],
        &vec![false, true, false],
        &remaining,
    )
    .unwrap();
    assert_eq!(orders.len(), 2);
    assert_eq!(orders[0].mint, m1);
    assert_eq!(orders[0].from_account, 1);
    assert_eq!(orders[0].to_account, 2);
    assert_eq!(orders[1].mint, m3);
    assert_eq!(orders[1].from_account, 4);
    assert_eq!(orders[1].to_account, 5);
    assert_eq!(e.standard_nfts, vec![m1, m3]);
    assert_eq!(e.compressed_nfts, vec![m2]);
    assert_eq!(e.nft_count, 3);
}
