//! Account identifiers and the derivation of pallet-owned accounts.

use frame_support::sp_runtime::traits::AccountIdConversion;
use frame_support::PalletId;
use vstd::prelude::*;

verus! {

/// The little-endian value of a byte string: `bytes[0] + 256 * bytes[1] + ...`.
pub open spec fn le_value(bytes: Seq<u8>) -> nat
    decreases bytes.len(),
{
    if bytes.len() == 0 {
        0
    } else {
        bytes[0] as nat + 256 * le_value(bytes.drop_first())
    }
}

/// The type tag that prefixes the seed of every pallet-owned account: `b"modl"`.
pub open spec fn pallet_type_id() -> Seq<u8> {
    seq![109u8, 111u8, 100u8, 108u8]
}

/// The seed of the sub-account `sub` of the pallet `pallet_id`.
pub open spec fn sub_account_seed(pallet_id: Seq<u8>, sub: Seq<u8>) -> Seq<u8> {
    pallet_type_id() + pallet_id + sub
}

/// Calls `AccountIdConversion::into_sub_account_truncating` of `frame_support::PalletId`
/// with a 16-byte account type. The source encodes the tuple `(b"modl", pallet_id, sub)`
/// (all fixed-size byte arrays, so the encoding is their concatenation) and decodes the
/// account from it, padded with zeroes; a `u128` is decoded from 16 bytes, little-endian.
/// The contract claims exactly that value.
#[verifier::external_body]
fn into_sub_account(pallet_id: [u8; 8], sub: [u8; 4]) -> (account: u128)
    ensures
        account as int == le_value(sub_account_seed(pallet_id@, sub@)),
{
    PalletId(pallet_id).into_sub_account_truncating(sub)
}

/// The account of the sub-account `sub` of the pallet `pallet_id`.
pub fn sub_account(pallet_id: [u8; 8], sub: [u8; 4]) -> (account: u128)
    ensures
        account as int == le_value(sub_account_seed(pallet_id@, sub@)),
{
    into_sub_account(pallet_id, sub)
}


/// The pallet identifier of the bank's pool number `index` (counted from zero):
/// `b"radcban1"` to `b"radcban5"`.
pub open spec fn bank_pallet_id(index: nat) -> Seq<u8> {
    seq![114u8, 97u8, 100u8, 99u8, 98u8, 97u8, 110u8, (49 + index) as u8]
}

/// The sub-account seed of every bank pool: `b"bank"`.
pub open spec fn bank_sub() -> Seq<u8> {
    seq![98u8, 97u8, 110u8, 107u8]
}

/// The account of the bank's pool number `index` (counted from zero).
pub open spec fn pool_account(index: nat) -> nat {
    le_value(sub_account_seed(bank_pallet_id(index), bank_sub()))
}

/// The account of the bank's pool number `index` (counted from zero).
pub fn pool(index: u8) -> (account: u128)
    requires
        index < 5,
    ensures
        account == pool_account(index as nat),
{
    let id: [u8; 8] = [114, 97, 100, 99, 98, 97, 110, 49 + index];
    let sub: [u8; 4] = [98, 97, 110, 107];
    proof {
        assert(id@ =~= bank_pallet_id(index as nat));
        assert(sub@ =~= bank_sub());
    }
    sub_account(id, sub)
}

/// Two byte strings of one length with the same little-endian value are equal.
pub proof fn lemma_le_value_injective(a: Seq<u8>, b: Seq<u8>)
    requires
        a.len() == b.len(),
        le_value(a) == le_value(b),
    ensures
        a == b,
    decreases a.len(),
{
    if a.len() == 0 {
        assert(a =~= b);
    } else {
        let ra = le_value(a.drop_first());
        let rb = le_value(b.drop_first());
        let a0 = a[0] as int;
        let b0 = b[0] as int;
        assert(a0 == b0 && ra == rb) by (nonlinear_arith)
            requires
                0 <= a0 < 256,
                0 <= b0 < 256,
                0 <= ra,
                0 <= rb,
                a0 + 256 * ra == b0 + 256 * rb,
        ;
        lemma_le_value_injective(a.drop_first(), b.drop_first());
        assert(a =~= b) by {
            assert forall|i: int| 0 <= i < a.len() implies a[i] == b[i] by {
                if i > 0 {
                    assert(a[i] == a.drop_first()[i - 1]);
                    assert(b[i] == b.drop_first()[i - 1]);
                }
            }
        }
    }
}

/// The five pools of the bank are five different accounts.
pub proof fn law_pools_distinct(i: nat, j: nat)
    requires
        i < 5,
        j < 5,
        i != j,
    ensures
        pool_account(i) != pool_account(j),
{
    let si = sub_account_seed(bank_pallet_id(i), bank_sub());
    let sj = sub_account_seed(bank_pallet_id(j), bank_sub());
    if pool_account(i) == pool_account(j) {
        lemma_le_value_injective(si, sj);
        assert(si[11] == sj[11]);
    }
}

} // verus!
