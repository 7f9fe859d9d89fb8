//! Address derivation: the pure function mapping an owner identity, the
//! namespace separator, and a caller-supplied `color` key to a deterministic
//! storage address plus a disambiguation byte (the "bump").

use crate::error::LedgerError;
use vstd::prelude::*;

verus! {

/// Total serialized bytes a slot may occupy, fixed at allocation time.
pub const ALLOCATION_BUDGET: usize = 25;

/// Bytes the host reserves at the front of every slot for its discriminator.
pub const DISCRIMINATOR_LEN: usize = 8;

/// Bytes of the length prefix in front of the encoded `color` string.
pub const LEN_PREFIX_LEN: usize = 4;

/// Bytes of the encoded balance field.
pub const BALANCE_LEN: usize = 4;

/// Longest `color` key whose encoded record still fits the allocation budget.
pub const MAX_COLOR_LEN: usize = ALLOCATION_BUDGET - DISCRIMINATOR_LEN - LEN_PREFIX_LEN
    - BALANCE_LEN;

/// The namespace separator placed between the owner identity and the `color`
/// key in the seed material: the byte `b'_'`.
pub const SEPARATOR_BYTE: u8 = 95;

/// Serialized size of a record holding the given `color` key: discriminator,
/// length prefix, key bytes, balance.
pub open spec fn record_size(color: Seq<u8>) -> int {
    DISCRIMINATOR_LEN + LEN_PREFIX_LEN + color.len() + BALANCE_LEN
}

/// The result of the host's derivation primitive on an ordered seed list and
/// a program identity: the derived address and its bump, or nothing when no
/// bump in the descending search range yields an off-curve address. The
/// result is a function of the seed bytes and the program identity alone.
pub uninterp spec fn pda_of(
    owner_seed: Seq<u8>,
    separator_seed: Seq<u8>,
    color_seed: Seq<u8>,
    program_id: Seq<u8>,
) -> Option<(Seq<u8>, u8)>;

/// Relies on `Pubkey::try_find_program_address` from `anchor_lang`'s prelude:
/// a deterministic pure computation over the seed list and program id, which
/// returns `Some` exactly when some bump in the descending search range makes
/// the hashed seeds land off the signer-identity curve.
#[verifier::external_body]
fn host_try_find_address(
    owner_seed: &Vec<u8>,
    separator_seed: &Vec<u8>,
    color_seed: &Vec<u8>,
    program_id: &[u8; 32],
) -> (r: Option<([u8; 32], u8)>)
    ensures
        match (r, pda_of(owner_seed@, separator_seed@, color_seed@, program_id@)) {
            (Some(got), Some(want)) => got.0@ == want.0 && got.1 == want.1,
            (None, None) => true,
            _ => false,
        },
{
    let program = anchor_lang::prelude::Pubkey::new_from_array(*program_id);
    let seeds: [&[u8]; 3] = [
        owner_seed.as_slice(),
        separator_seed.as_slice(),
        color_seed.as_slice(),
    ];
    anchor_lang::prelude::Pubkey::try_find_program_address(&seeds, &program)
        .map(|(address, bump)| (address.to_bytes(), bump))
}

/// What `derive_address` returns, as a function of its inputs: the record
/// layout must fit the allocation budget before derivation is attempted, and
/// the host's search must find a bump.
pub open spec fn spec_derive(owner: Seq<u8>, color: Seq<u8>, program_id: Seq<u8>) -> Result<
    (Seq<u8>, u8),
    LedgerError,
> {
    if record_size(color) > ALLOCATION_BUDGET {
        Err(LedgerError::KeyTooLong)
    } else {
        match pda_of(owner, seq![SEPARATOR_BYTE], color, program_id) {
            Some(p) => Ok(p),
            None => Err(LedgerError::BumpNotFound),
        }
    }
}

/// Copies an owner identity into the byte vector handed to the host as the
/// first seed.
fn bytes_from_array(a: &[u8; 32]) -> (r: Vec<u8>)
    ensures
        r@ == a@,
{
    let mut r: Vec<u8> = Vec::new();
    let mut i: usize = 0;
    while i < 32
        invariant
            i <= 32,
            r@.len() == i,
            forall|j: int| 0 <= j < i ==> r@[j] == a@[j],
        decreases 32 - i,
    {
        r.push(a[i]);
        i += 1;
    }
    proof {
        assert(r@ =~= a@);
    }
    r
}

/// Derives the storage address and bump for a `(owner, color)` pair under the
/// given program identity.
///
/// Same inputs always yield the same result: the outcome is fully determined
/// by `spec_derive` of the three inputs. Rejects with `KeyTooLong`, before
/// any derivation is attempted, every `color` whose encoded record would
/// exceed the allocation budget.
pub fn derive_address(owner: &[u8; 32], color: &Vec<u8>, program_id: &[u8; 32]) -> (r: Result<
    ([u8; 32], u8),
    LedgerError,
>)
    ensures
        r matches Ok(d) ==> spec_derive(owner@, color@, program_id@) == Ok::<
            (Seq<u8>, u8),
            LedgerError,
        >((d.0@, d.1)),
        r matches Err(e) ==> spec_derive(owner@, color@, program_id@) == Err::<
            (Seq<u8>, u8),
            LedgerError,
        >(e),
{
    if color.len() > MAX_COLOR_LEN {
        return Err(LedgerError::KeyTooLong);
    }
    let owner_seed = bytes_from_array(owner);
    let mut separator_seed: Vec<u8> = Vec::new();
    separator_seed.push(SEPARATOR_BYTE);
    proof {
        assert(separator_seed@ =~= seq![SEPARATOR_BYTE]);
    }
    match host_try_find_address(&owner_seed, &separator_seed, color, program_id) {
        Some(found) => Ok(found),
        None => Err(LedgerError::BumpNotFound),
    }
}

/// Law: derivation is referentially transparent. The contract of
/// `derive_address` admits exactly one `(address, bump)` result for given
/// inputs, so repeated calls on the same `(owner, color, program)` triple
/// yield identical results.
pub proof fn lemma_derive_deterministic(
    owner: Seq<u8>,
    color: Seq<u8>,
    program_id: Seq<u8>,
    d1: (Seq<u8>, u8),
    d2: (Seq<u8>, u8),
)
    requires
        spec_derive(owner, color, program_id) == Ok::<(Seq<u8>, u8), LedgerError>(d1),
        spec_derive(owner, color, program_id) == Ok::<(Seq<u8>, u8), LedgerError>(d2),
    ensures
        d1 == d2,
{
}

} // verus!
