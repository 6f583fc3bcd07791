//! The boundary to the confidential computation: the arguments a matching
//! computation is queued with, and what its callback makes of the outputs.
use vstd::prelude::*;
use crate::ledger::Pubkey;

verus! {

/// Length of one ciphertext, a field element.
pub const CIPHERTEXT_LEN: usize = 32;

/// One argument of a queued computation.
#[derive(Debug, Clone, Copy)]
pub enum Argument {
    /// The public key the inputs were encrypted to.
    ArcisPubkey([u8; 32]),
    /// A nonce, in the clear.
    PlaintextU128(u128),
    /// One ciphertext.
    EncryptedU8([u8; 32]),
    /// An account that holds the inputs: its address, then offset and length.
    Account(Pubkey, u32, u32),
}

/// What a matching computation returns.
#[derive(Debug, Clone, Copy)]
pub struct MatchOrdersOutput {
    pub num_fills: u64,
}

/// How a computation ended.
#[derive(Debug, Clone, Copy)]
pub enum ComputationOutputs {
    /// It completed, with these outputs.
    Success(MatchOrdersOutput),
    /// It was aborted.
    Failure,
}

/// Why the boundary refuses.
#[derive(Debug, Clone, Copy, PartialEq, Eq, Structural)]
pub enum ErrorCode {
    /// A ciphertext that is not 32 bytes long.
    InvalidCiphertextLength,
    /// The computation did not complete.
    AbortedComputation,
}

/// Whether every ciphertext has the length of a field element.
pub open spec fn well_sized(ciphertexts: Seq<Vec<u8>>) -> bool {
    forall|k: int| 0 <= k < ciphertexts.len() ==> (#[trigger] ciphertexts[k])@.len() == CIPHERTEXT_LEN
}

/// Whether `arguments` is the argument list for the given key, nonce and
/// ciphertexts: the key, the nonce, then the ciphertexts in order.
pub open spec fn is_argument_list(
    arguments: Seq<Argument>,
    ciphertexts: Seq<Vec<u8>>,
    pub_key: [u8; 32],
    nonce: u128,
) -> bool {
    &&& arguments.len() == ciphertexts.len() + 2
    &&& arguments[0] == Argument::ArcisPubkey(pub_key)
    &&& arguments[1] == Argument::PlaintextU128(nonce)
    &&& forall|k: int|
        0 <= k < ciphertexts.len() ==> (#[trigger] arguments[k + 2] matches Argument::EncryptedU8(
            bytes,
        ) && bytes@ == ciphertexts[k]@)
}

/// The bytes of a ciphertext as a field element.
fn field_element(ciphertext: &Vec<u8>) -> (bytes: [u8; 32])
    requires
        ciphertext@.len() == CIPHERTEXT_LEN,
    ensures
        bytes@ == ciphertext@,
{
    let mut bytes = [0u8;32];
    let mut i: usize = 0;
    while i < 32
        invariant
            i <= 32,
            ciphertext@.len() == 32,
            forall|k: int| 0 <= k < i ==> bytes[k] == ciphertext[k],
        decreases 32 - i,
    {
        bytes[i] = ciphertext[i];
        i += 1;
    }
    assert(bytes@ =~= ciphertext@);
    bytes
}

/// The arguments to queue a matching computation with: the encryption key,
/// the nonce, and the ciphertexts in order. Refused if any ciphertext is not
/// 32 bytes long.
pub fn match_orders(ciphertext_arrays: &Vec<Vec<u8>>, pub_key: [u8; 32], nonce: u128) -> (arguments:
    Result<Vec<Argument>, ErrorCode>)
    ensures
        arguments is Ok <==> well_sized(ciphertext_arrays@),
        arguments matches Ok(list) ==> is_argument_list(list@, ciphertext_arrays@, pub_key, nonce),
        arguments matches Err(error) ==> error == ErrorCode::InvalidCiphertextLength,
{
    let mut args: Vec<Argument> = Vec::new();
    args.push(Argument::ArcisPubkey(pub_key));
    args.push(Argument::PlaintextU128(nonce));
    let mut i: usize = 0;
    while i < ciphertext_arrays.len()
        invariant
            i <= ciphertext_arrays.len(),
            args@.len() == i + 2,
            args@[0] == Argument::ArcisPubkey(pub_key),
            args@[1] == Argument::PlaintextU128(nonce),
            forall|k: int| 0 <= k < i ==> (#[trigger] ciphertext_arrays@[k])@.len() == CIPHERTEXT_LEN,
            forall|k: int|
                0 <= k < i ==> (#[trigger] args@[k + 2] matches Argument::EncryptedU8(bytes)
                    && bytes@ == ciphertext_arrays@[k]@),
        decreases ciphertext_arrays.len() - i,
    {
        let ct = &ciphertext_arrays[i];
        if ct.len() != 32 {
            return Err(ErrorCode::InvalidCiphertextLength);
        }
        let ct_array = field_element(ct);
        let ghost before = args@;
        args.push(Argument::EncryptedU8(ct_array));
        assert forall|k: int| 0 <= k < i + 1 implies (
        #[trigger] args@[k + 2] matches Argument::EncryptedU8(bytes) && bytes@
            == ciphertext_arrays@[k]@) by {
            if k < i {
                assert(args@[k + 2] == before[k + 2]);
            }
        }
        i += 1;
    }
    Ok(args)
}

/// The number of fills that the outputs of a computation report: none if it
/// was aborted.
pub open spec fn fills_reported(output: ComputationOutputs) -> u64 {
    match output {
        ComputationOutputs::Success(outputs) => outputs.num_fills,
        ComputationOutputs::Failure => 0,
    }
}

/// Receives the outputs of a matching computation. An aborted computation
/// is an error and reports no fill, so nothing is settled on its account and
/// the same snapshot can be submitted again.
pub fn match_orders_callback(output: ComputationOutputs) -> (outcome: Result<
    MatchOrdersOutput,
    ErrorCode,
>)
    ensures
        outcome == match output {
            ComputationOutputs::Success(outputs) => Ok::<MatchOrdersOutput, ErrorCode>(outputs),
            ComputationOutputs::Failure => Err(ErrorCode::AbortedComputation),
        },
        outcome matches Ok(outputs) ==> outputs.num_fills == fills_reported(output),
        outcome is Err ==> fills_reported(output) == 0,
{
    let result = match output {
        ComputationOutputs::Success(o) => o,
        _ => {
            return Err(ErrorCode::AbortedComputation);
        },
    };
    Ok(result)
}

} // verus!
