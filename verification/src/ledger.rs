//! The record lifecycle: `create_ledger` (first write; the derived address
//! must be absent) and `modify_ledger` (balance overwrite; the targeted slot
//! must be present and must be the one the caller-asserted pair derives to).

use crate::addr::derive_address;
use crate::addr::pda_of;
use crate::addr::record_size;
use crate::addr::spec_derive;
use crate::addr::ALLOCATION_BUDGET;
use crate::addr::MAX_COLOR_LEN;
use crate::addr::SEPARATOR_BYTE;
use crate::error::LedgerError;
use crate::store::addr_eq;
use crate::store::Ledger;
use crate::store::LedgerModel;
use crate::store::SlotStore;
use vstd::prelude::*;

verus! {

/// Everything `create_ledger` is handed besides the key: the wallet that
/// owns and funds the new record, and what the host established about it.
pub struct CreateLedger {
    /// The owner identity the record is created under; the new slot's
    /// address is derived from it.
    pub wallet: [u8; 32],
    /// Whether the host authenticated the wallet as a signer of the call.
    pub wallet_signed: bool,
    /// Whether the wallet can cover the fixed storage allocation.
    pub wallet_funded: bool,
}

/// Everything `modify_ledger` is handed besides its arguments: the targeted
/// slot and what the host established about the caller.
pub struct ModifyLedger {
    /// The address of the slot being mutated.
    pub ledger_account: [u8; 32],
    /// The calling wallet. Its identity plays no part in the outcome: any
    /// authenticated caller who names the correct `(owner, color)` pair may
    /// overwrite the balance, not only the record's creator.
    pub wallet: [u8; 32],
    /// Whether the host authenticated the wallet as a signer of the call.
    pub wallet_signed: bool,
}

/// What `create_ledger` returns and what it leaves in the store, as a
/// function of the store's prior contents and the call's inputs.
pub open spec fn spec_create(
    m: Map<Seq<u8>, LedgerModel>,
    program_id: Seq<u8>,
    ctx: CreateLedger,
    color: Seq<u8>,
) -> (Result<(), LedgerError>, Map<Seq<u8>, LedgerModel>) {
    if !ctx.wallet_signed {
        (Err(LedgerError::Unauthorized), m)
    } else if record_size(color) > ALLOCATION_BUDGET {
        (Err(LedgerError::KeyTooLong), m)
    } else {
        match pda_of(ctx.wallet@, seq![SEPARATOR_BYTE], color, program_id) {
            None => (Err(LedgerError::BumpNotFound), m),
            Some(p) => {
                if m.contains_key(p.0) {
                    (Err(LedgerError::AlreadyExists), m)
                } else if !ctx.wallet_funded {
                    (Err(LedgerError::InsufficientFunding), m)
                } else {
                    (Ok(()), m.insert(p.0, LedgerModel { color, balance: 0 }))
                }
            },
        }
    }
}

/// What `modify_ledger` returns and what it leaves in the store, as a
/// function of the store's prior contents and the call's inputs.
pub open spec fn spec_modify(
    m: Map<Seq<u8>, LedgerModel>,
    program_id: Seq<u8>,
    ctx: ModifyLedger,
    owner: Seq<u8>,
    color: Seq<u8>,
    new_balance: u32,
) -> (Result<(), LedgerError>, Map<Seq<u8>, LedgerModel>) {
    if !ctx.wallet_signed {
        (Err(LedgerError::Unauthorized), m)
    } else {
        match spec_derive(owner, color, program_id) {
            Err(_) => (Err(LedgerError::AddressMismatch), m),
            Ok(p) => {
                if p.0 != ctx.ledger_account@ {
                    (Err(LedgerError::AddressMismatch), m)
                } else if !m.contains_key(p.0) {
                    (Err(LedgerError::NotFound), m)
                } else {
                    (
                        Ok(()),
                        m.insert(p.0, LedgerModel { color: m[p.0].color, balance: new_balance }),
                    )
                }
            },
        }
    }
}

/// Creates the record for `(ctx.wallet, color)` at its derived address with
/// balance zero.
///
/// The outcome is exactly `spec_create` of the store's prior contents and
/// the inputs: the caller must be an authenticated signer, the encoded
/// record must fit the allocation budget (checked before derivation is
/// attempted), the derived address must be free, and the wallet must fund
/// the allocation. Any failure leaves the store unchanged.
pub fn create_ledger(store: &mut SlotStore, ctx: &CreateLedger, color: Vec<u8>) -> (r: Result<
    (),
    LedgerError,
>)
    requires
        old(store).wf(),
    ensures
        final(store).wf(),
        final(store).program_id_spec() == old(store).program_id_spec(),
        r == spec_create(old(store).contents(), old(store).program_id_spec(), *ctx, color@).0,
        final(store).contents() == spec_create(
            old(store).contents(),
            old(store).program_id_spec(),
            *ctx,
            color@,
        ).1,
{
    if !ctx.wallet_signed {
        return Err(LedgerError::Unauthorized);
    }
    if color.len() > MAX_COLOR_LEN {
        return Err(LedgerError::KeyTooLong);
    }
    let program_id = store.program_id();
    match derive_address(&ctx.wallet, &color, &program_id) {
        Err(e) => Err(e),
        Ok(derived) => store.allocate(derived.0, ctx.wallet_funded, Ledger { color, balance: 0 }),
    }
}

/// Overwrites the balance of the record at `ctx.ledger_account` with
/// `new_balance`, leaving its `color` untouched.
///
/// The outcome is exactly `spec_modify` of the store's prior contents and
/// the inputs: the caller must be an authenticated signer, the
/// caller-asserted `(owner, color)` pair must re-derive to the targeted
/// address, and a record must be present there. Any failure leaves the
/// store unchanged. The signer need not be the record's creator: naming the
/// correct pair is what authorizes the overwrite.
pub fn modify_ledger(
    store: &mut SlotStore,
    ctx: &ModifyLedger,
    owner: &[u8; 32],
    color: Vec<u8>,
    new_balance: u32,
) -> (r: Result<(), LedgerError>)
    requires
        old(store).wf(),
    ensures
        final(store).wf(),
        final(store).program_id_spec() == old(store).program_id_spec(),
        r == spec_modify(
            old(store).contents(),
            old(store).program_id_spec(),
            *ctx,
            owner@,
            color@,
            new_balance,
        ).0,
        final(store).contents() == spec_modify(
            old(store).contents(),
            old(store).program_id_spec(),
            *ctx,
            owner@,
            color@,
            new_balance,
        ).1,
{
    if !ctx.wallet_signed {
        return Err(LedgerError::Unauthorized);
    }
    let program_id = store.program_id();
    match derive_address(owner, &color, &program_id) {
        Err(_) => Err(LedgerError::AddressMismatch),
        Ok(derived) => {
            if !addr_eq(&derived.0, &ctx.ledger_account) {
                Err(LedgerError::AddressMismatch)
            } else {
                store.write_balance(&ctx.ledger_account, new_balance)
            }
        },
    }
}

/// Law: `create` followed immediately by `create` with the same
/// `(owner, color)` pair fails with `AlreadyExists` on the second call and
/// leaves the store as the first call left it; the record's balance after
/// the sequence is the zero written by the first call.
pub proof fn lemma_create_then_create(
    m: Map<Seq<u8>, LedgerModel>,
    program_id: Seq<u8>,
    ctx1: CreateLedger,
    ctx2: CreateLedger,
    color: Seq<u8>,
)
    requires
        ctx2.wallet@ == ctx1.wallet@,
        ctx2.wallet_signed,
        spec_create(m, program_id, ctx1, color).0 == Ok::<(), LedgerError>(()),
    ensures
        ({
            let first = spec_create(m, program_id, ctx1, color);
            let second = spec_create(first.1, program_id, ctx2, color);
            &&& second.0 == Err::<(), LedgerError>(LedgerError::AlreadyExists)
            &&& second.1 == first.1
            &&& match pda_of(ctx1.wallet@, seq![SEPARATOR_BYTE], color, program_id) {
                Some(p) => first.1[p.0].balance == 0 && first.1[p.0].color == color,
                None => false,
            }
        }),
{
}

/// Law: `modify` on a never-created `(owner, color)` pair, targeting the
/// very address the pair derives to, fails with `NotFound` and allocates no
/// slot: the store is returned unchanged.
pub proof fn lemma_modify_absent(
    m: Map<Seq<u8>, LedgerModel>,
    program_id: Seq<u8>,
    ctx: ModifyLedger,
    owner: Seq<u8>,
    color: Seq<u8>,
    new_balance: u32,
)
    requires
        ctx.wallet_signed,
        spec_derive(owner, color, program_id) matches Ok(p) && p.0 == ctx.ledger_account@,
        !m.contains_key(ctx.ledger_account@),
    ensures
        spec_modify(m, program_id, ctx, owner, color, new_balance) == (
            Err::<(), LedgerError>(LedgerError::NotFound),
            m,
        ),
{
}

/// Law: a `color` whose encoded record would exceed the fixed allocation
/// budget fails with `KeyTooLong` at create time, before any allocation is
/// attempted: the store is returned unchanged.
pub proof fn lemma_create_key_too_long(
    m: Map<Seq<u8>, LedgerModel>,
    program_id: Seq<u8>,
    ctx: CreateLedger,
    color: Seq<u8>,
)
    requires
        ctx.wallet_signed,
        record_size(color) > ALLOCATION_BUDGET,
    ensures
        spec_create(m, program_id, ctx, color) == (
            Err::<(), LedgerError>(LedgerError::KeyTooLong),
            m,
        ),
{
}

/// Law: a `modify` whose caller-asserted `(owner, color)` pair does not
/// derive to the targeted slot fails with `AddressMismatch` and leaves the
/// store, the targeted slot included, unchanged.
pub proof fn lemma_modify_address_mismatch(
    m: Map<Seq<u8>, LedgerModel>,
    program_id: Seq<u8>,
    ctx: ModifyLedger,
    owner: Seq<u8>,
    color: Seq<u8>,
    new_balance: u32,
)
    requires
        ctx.wallet_signed,
        !(spec_derive(owner, color, program_id) matches Ok(p) && p.0 == ctx.ledger_account@),
    ensures
        spec_modify(m, program_id, ctx, owner, color, new_balance) == (
            Err::<(), LedgerError>(LedgerError::AddressMismatch),
            m,
        ),
{
}

} // verus!
