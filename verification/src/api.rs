//! Helpers over account properties: reading and setting their fields, and recovering
//! an account's code from its stored bytecode preimage.
use vstd::prelude::*;

use crate::primitives::Bytes32;
use crate::u256::U256;

verus! {

/// The properties of an account, as stored under its properties hash.
#[derive(Clone, Copy, Debug)]
pub struct AccountProperties {
    pub versioning_data: u64,
    pub nonce: u64,
    pub balance: U256,
    /// Hash of the full bytecode preimage (code, padding and artifacts).
    pub bytecode_hash: Bytes32,
    pub unpadded_code_len: u32,
    pub artifacts_len: u32,
    pub observable_bytecode_hash: Bytes32,
    pub observable_bytecode_len: u32,
}

/// A source of preimages by their hash.
pub trait PreimageSource {
    /// The preimage the source holds for `hash`, if any.
    spec fn preimage_of(&self, hash: Bytes32) -> Option<Vec<u8>>;

    /// The hashes looked up so far, in order.
    spec fn requested_hashes(&self) -> Vec<Bytes32>;

    /// Looks up the preimage of `hash` and records the request; looking up changes no
    /// preimage.
    fn get_preimage(&mut self, hash: Bytes32) -> (r: Option<Vec<u8>>)
        ensures
            r == old(self).preimage_of(hash),
            final(self).requested_hashes()@ == old(self).requested_hashes()@.push(hash),
            forall|h: Bytes32| #[trigger] final(self).preimage_of(h) == old(self).preimage_of(h),
    ;
}

/// The bytes an optional byte string holds.
pub open spec fn bytes_view(b: Option<Vec<u8>>) -> Option<Seq<u8>> {
    match b {
        Some(v) => Some(v@),
        None => None,
    }
}

/// The code of an account given the preimage of its bytecode hash: empty without a
/// preimage, the first `unpadded_code_len` bytes of it otherwise, and nothing when the
/// preimage is shorter than that.
pub open spec fn code_of(preimage: Option<Vec<u8>>, account: AccountProperties) -> Option<Seq<u8>> {
    match preimage {
        None => Some(Seq::empty()),
        Some(p) => if account.unpadded_code_len <= p@.len() {
            Some(p@.subrange(0, account.unpadded_code_len as int))
        } else {
            None
        },
    }
}

/// The account's balance.
pub fn get_balance(account: &AccountProperties) -> (r: U256)
    ensures
        r == account.balance,
{
    account.balance
}

/// The account's nonce.
pub fn get_nonce(account: &AccountProperties) -> (r: u64)
    ensures
        r == account.nonce,
{
    account.nonce
}

/// Sets the account's balance.
pub fn set_properties_balance(account: &mut AccountProperties, balance: U256)
    ensures
        *final(account) == (AccountProperties { balance, ..*old(account) }),
{
    account.balance = balance;
}

/// Sets the account's nonce.
pub fn set_properties_nonce(account: &mut AccountProperties, nonce: u64)
    ensures
        *final(account) == (AccountProperties { nonce, ..*old(account) }),
{
    account.nonce = nonce;
}

/// The code of an account, without padding and artifacts, out of its full bytecode.
pub fn get_unpadded_code<'a>(full_bytecode: &'a [u8], account: &AccountProperties) -> (r: &'a [u8])
    requires
        account.unpadded_code_len <= full_bytecode@.len(),
    ensures
        r@ == full_bytecode@.subrange(0, account.unpadded_code_len as int),
{
    vstd::slice::slice_subrange(full_bytecode, 0, account.unpadded_code_len as usize)
}

/// The code of an account given what the preimage source returned for its bytecode
/// hash: empty without a preimage, and `None` when the preimage is shorter than the
/// account's code.
pub fn code_from_preimage(preimage: Option<Vec<u8>>, account: &AccountProperties) -> (r: Option<
    Vec<u8>,
>)
    ensures
        bytes_view(r) == code_of(preimage, *account),
        match preimage {
            None => r matches Some(c) && c@ == Seq::<u8>::empty(),
            Some(p) => if account.unpadded_code_len <= p@.len() {
                r matches Some(c) && c@ == p@.subrange(0, account.unpadded_code_len as int)
            } else {
                r is None
            },
        },
{
    match preimage {
        None => Some(Vec::new()),
        Some(full_bytecode) => {
            if (account.unpadded_code_len as usize) <= full_bytecode.len() {
                let code = get_unpadded_code(full_bytecode.as_slice(), account);
                Some(vstd::slice::slice_to_vec(code))
            } else {
                None
            }
        },
    }
}

/// The code of an account, looked up in a preimage source by its bytecode hash:
/// empty if the source has no preimage, and `None` if the preimage is shorter than the
/// account's code.
pub fn get_code<P: PreimageSource>(preimage_source: &mut P, account: &AccountProperties) -> (r:
    Option<Vec<u8>>)
    ensures
        bytes_view(r) == code_of(old(preimage_source).preimage_of(account.bytecode_hash), *account),
        final(preimage_source).requested_hashes()@ == old(preimage_source).requested_hashes()@.push(
            account.bytecode_hash,
        ),
        forall|h: Bytes32| #[trigger] final(preimage_source).preimage_of(h) == old(
            preimage_source,
        ).preimage_of(h),
{
    let preimage = preimage_source.get_preimage(account.bytecode_hash);
    code_from_preimage(preimage, account)
}

} // verus!
