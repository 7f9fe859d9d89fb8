use solana_pdas::create_ledger;
use solana_pdas::derive_address;
use solana_pdas::modify_ledger;
use solana_pdas::CreateLedger;
use solana_pdas::LedgerError;
use solana_pdas::ModifyLedger;
use solana_pdas::SlotStore;
use solana_pdas::MAX_COLOR_LEN;

fn program_id() -> [u8; 32] {
    [7u8; 32]
}

fn owner_a() -> [u8; 32] {
    [1u8; 32]
}

fn owner_b() -> [u8; 32] {
    [2u8; 32]
}

fn signed_ctx(wallet: [u8; 32]) -> CreateLedger {
    CreateLedger { wallet, wallet_signed: true, wallet_funded: true }
}

fn derived(owner: [u8; 32], color: &[u8]) -> [u8; 32] {
    derive_address(&owner, &color.to_vec(), &program_id())
        .expect("derivation should succeed for a short color")
        .0
}

#[test]
fn derive_is_deterministic() {
    let first = derive_address(&owner_a(), &b"red".to_vec(), &program_id());
    let second = derive_address(&owner_a(), &b"red".to_vec(), &program_id());
    assert_eq!(first, second);
    assert!(first.is_ok());
}

#[test]
fn derive_distinct_pairs_differ() {
    let a_red = derived(owner_a(), b"red");
    let a_blue = derived(owner_a(), b"blue");
    let b_red = derived(owner_b(), b"red");
    assert_ne!(a_red, a_blue);
    assert_ne!(a_red, b_red);
    assert_ne!(a_blue, b_red);
}

#[test]
fn derive_matches_host_primitive() {
    let owner = owner_a();
    let program = solana_pubkey::Pubkey::new_from_array(program_id());
    let expected =
        solana_pubkey::Pubkey::try_find_program_address(&[&owner, b"_", b"red"], &program)
            .expect("host derivation should succeed");
    let got = derive_address(&owner, &b"red".to_vec(), &program_id())
        .expect("library derivation should succeed");
    assert_eq!(got.0, expected.0.to_bytes());
    assert_eq!(got.1, expected.1);
}

#[test]
fn derive_rejects_long_color() {
    let long_color = vec![b'x'; MAX_COLOR_LEN + 1];
    let r = derive_address(&owner_a(), &long_color, &program_id());
    assert_eq!(r, Err(LedgerError::KeyTooLong));
}

#[test]
fn create_then_create_same_pair() {
    let mut store = SlotStore::new(program_id());
    let ctx = signed_ctx(owner_a());
    assert_eq!(create_ledger(&mut store, &ctx, b"red".to_vec()), Ok(()));
    assert_eq!(
        create_ledger(&mut store, &ctx, b"red".to_vec()),
        Err(LedgerError::AlreadyExists)
    );
    let addr = derived(owner_a(), b"red");
    let record = store.read(&addr).expect("record should be present");
    assert_eq!(record.balance, 0);
    assert_eq!(record.color, b"red".to_vec());
}

#[test]
fn create_same_color_different_owner() {
    let mut store = SlotStore::new(program_id());
    assert_eq!(create_ledger(&mut store, &signed_ctx(owner_a()), b"red".to_vec()), Ok(()));
    assert_eq!(create_ledger(&mut store, &signed_ctx(owner_b()), b"red".to_vec()), Ok(()));
}

#[test]
fn modify_never_created_pair() {
    let mut store = SlotStore::new(program_id());
    let addr = derived(owner_a(), b"red");
    let ctx = ModifyLedger { ledger_account: addr, wallet: owner_a(), wallet_signed: true };
    assert_eq!(
        modify_ledger(&mut store, &ctx, &owner_a(), b"red".to_vec(), 42),
        Err(LedgerError::NotFound)
    );
    assert!(!store.is_allocated(&addr));
}

#[test]
fn create_modify_modify_sequence() {
    let mut store = SlotStore::new(program_id());
    assert_eq!(create_ledger(&mut store, &signed_ctx(owner_a()), b"red".to_vec()), Ok(()));
    let addr = derived(owner_a(), b"red");
    assert_eq!(store.read(&addr).unwrap().balance, 0);
    assert_eq!(store.read(&addr).unwrap().color, b"red".to_vec());

    let ctx = ModifyLedger { ledger_account: addr, wallet: owner_a(), wallet_signed: true };
    assert_eq!(modify_ledger(&mut store, &ctx, &owner_a(), b"red".to_vec(), 42), Ok(()));
    assert_eq!(store.read(&addr).unwrap().balance, 42);
    assert_eq!(store.read(&addr).unwrap().color, b"red".to_vec());

    assert_eq!(modify_ledger(&mut store, &ctx, &owner_a(), b"red".to_vec(), 7), Ok(()));
    assert_eq!(store.read(&addr).unwrap().balance, 7);
    assert_eq!(store.read(&addr).unwrap().color, b"red".to_vec());
}

#[test]
fn create_rejects_long_color_before_allocation() {
    let mut store = SlotStore::new(program_id());
    let long_color = vec![b'x'; MAX_COLOR_LEN + 1];
    assert_eq!(
        create_ledger(&mut store, &signed_ctx(owner_a()), long_color),
        Err(LedgerError::KeyTooLong)
    );
}

#[test]
fn create_accepts_longest_fitting_color() {
    let mut store = SlotStore::new(program_id());
    let color = vec![b'x'; MAX_COLOR_LEN];
    assert_eq!(create_ledger(&mut store, &signed_ctx(owner_a()), color.clone()), Ok(()));
    let addr = derived(owner_a(), &color);
    assert_eq!(store.read(&addr).unwrap().color, color);
}

#[test]
fn modify_with_mismatched_pair() {
    let mut store = SlotStore::new(program_id());
    assert_eq!(create_ledger(&mut store, &signed_ctx(owner_a()), b"red".to_vec()), Ok(()));
    let red_addr = derived(owner_a(), b"red");

    // The asserted color derives to a different address than the target.
    let ctx = ModifyLedger { ledger_account: red_addr, wallet: owner_a(), wallet_signed: true };
    assert_eq!(
        modify_ledger(&mut store, &ctx, &owner_a(), b"blue".to_vec(), 42),
        Err(LedgerError::AddressMismatch)
    );
    assert_eq!(store.read(&red_addr).unwrap().balance, 0);

    // The asserted pair derives elsewhere than the targeted slot.
    let ctx = ModifyLedger {
        ledger_account: [0u8; 32],
        wallet: owner_a(),
        wallet_signed: true,
    };
    assert_eq!(
        modify_ledger(&mut store, &ctx, &owner_a(), b"red".to_vec(), 42),
        Err(LedgerError::AddressMismatch)
    );
    assert_eq!(store.read(&red_addr).unwrap().balance, 0);
}

#[test]
fn modify_by_other_signer_naming_correct_pair() {
    let mut store = SlotStore::new(program_id());
    assert_eq!(create_ledger(&mut store, &signed_ctx(owner_a()), b"red".to_vec()), Ok(()));
    let addr = derived(owner_a(), b"red");

    // A different authenticated wallet names the correct (owner, color)
    // pair: the overwrite is allowed.
    let ctx = ModifyLedger { ledger_account: addr, wallet: owner_b(), wallet_signed: true };
    assert_eq!(modify_ledger(&mut store, &ctx, &owner_a(), b"red".to_vec(), 9), Ok(()));
    assert_eq!(store.read(&addr).unwrap().balance, 9);
}

#[test]
fn create_requires_signer() {
    let mut store = SlotStore::new(program_id());
    let ctx = CreateLedger { wallet: owner_a(), wallet_signed: false, wallet_funded: true };
    assert_eq!(
        create_ledger(&mut store, &ctx, b"red".to_vec()),
        Err(LedgerError::Unauthorized)
    );
    assert!(!store.is_allocated(&derived(owner_a(), b"red")));
}

#[test]
fn modify_requires_signer() {
    let mut store = SlotStore::new(program_id());
    assert_eq!(create_ledger(&mut store, &signed_ctx(owner_a()), b"red".to_vec()), Ok(()));
    let addr = derived(owner_a(), b"red");
    let ctx = ModifyLedger { ledger_account: addr, wallet: owner_a(), wallet_signed: false };
    assert_eq!(
        modify_ledger(&mut store, &ctx, &owner_a(), b"red".to_vec(), 42),
        Err(LedgerError::Unauthorized)
    );
    assert_eq!(store.read(&addr).unwrap().balance, 0);
}

#[test]
fn create_requires_funding() {
    let mut store = SlotStore::new(program_id());
    let ctx = CreateLedger { wallet: owner_a(), wallet_signed: true, wallet_funded: false };
    assert_eq!(
        create_ledger(&mut store, &ctx, b"red".to_vec()),
        Err(LedgerError::InsufficientFunding)
    );
    assert!(!store.is_allocated(&derived(owner_a(), b"red")));
}

#[test]
fn store_reports_program_identity() {
    let store = SlotStore::new(program_id());
    assert_eq!(store.program_id(), program_id());
}
