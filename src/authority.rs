use vstd::prelude::*;
use crate::state::Key;

verus! {

/// The program-derived address for the seeds `[pool, [nonce]]` under `program_id`,
/// or `None` where the derivation lands on the curve.
pub uninterp spec fn program_address(pool: Key, nonce: u8, program_id: Key) -> Option<Key>;

/// Relies on solana_program's `Pubkey::create_program_address`: a hash of the seeds
/// and the program id, which depends on those alone and fails when it lies on the curve.
#[verifier::external_body]
pub(crate) fn derive_program_address(pool: &Key, nonce: u8, program_id: &Key) -> (r: Option<Key>)
    ensures
        r == program_address(*pool, nonce, *program_id),
{
    let program = solana_program::pubkey::Pubkey::new_from_array(program_id.bytes);
    match solana_program::pubkey::Pubkey::create_program_address(&[&pool.bytes, &[nonce]], &program) {
        Ok(k) => Some(Key { bytes: k.to_bytes() }),
        Err(_) => None,
    }
}

} // verus!
