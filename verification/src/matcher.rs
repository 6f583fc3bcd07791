//! Staging of encrypted orders for a matching computation.
//!
//! The encrypted orders are handed over in a buffer of a fixed size, laid
//! out as a 16-byte nonce, a 32-byte public key, and then the ciphertexts,
//! 32 bytes each.
use vstd::prelude::*;
use crate::ledger::Pubkey;
use crate::mxe::Argument;

verus! {

/// Size of the buffer: nonce, public key and up to 700 ciphertexts.
pub const MAX_BUFFER_SIZE: usize = 16 + 32 + 700 * 32;

/// Size of what stands ahead of the ciphertexts: nonce and public key.
pub const BUFFER_HEADER_SIZE: usize = 16 + 32;

/// The account that the computation reads its inputs from.
#[derive(Debug, Clone, Copy)]
pub struct CiphertextBuffer {
    pub data: [u8; MAX_BUFFER_SIZE],
}

/// Why encrypted orders are refused.
#[derive(Debug, Clone, Copy, PartialEq, Eq, Structural)]
pub enum ErrorCode {
    /// Fewer bytes than nonce and public key take.
    InvalidBufferSize,
    /// The ciphertexts are not a whole number of 32-byte blocks.
    InvalidCiphertextAlignment,
    /// More bytes than the buffer holds.
    BufferTooLarge,
}

/// Why encrypted orders of a given length are refused, if they are.
pub open spec fn size_defect(len: int) -> Option<ErrorCode> {
    if len < BUFFER_HEADER_SIZE {
        Some(ErrorCode::InvalidBufferSize)
    } else if (len - BUFFER_HEADER_SIZE) % 32 != 0 {
        Some(ErrorCode::InvalidCiphertextAlignment)
    } else if len > MAX_BUFFER_SIZE {
        Some(ErrorCode::BufferTooLarge)
    } else {
        None
    }
}

/// Stages encrypted orders for a matching computation: checks their size,
/// writes them to the front of the buffer's data, and returns the arguments
/// to queue the computation with: the buffer's account, with offset and
/// length both equal to the number of bytes written. Refused data leaves the
/// buffer as it was.
pub fn match_orders(
    buffer: &mut [u8; MAX_BUFFER_SIZE],
    buffer_key: Pubkey,
    ciphertext_data: &[u8],
) -> (arguments: Result<Vec<Argument>, ErrorCode>)
    ensures
        match size_defect(ciphertext_data@.len() as int) {
            Some(error) => arguments == Err::<Vec<Argument>, ErrorCode>(error) && *final(buffer)
                == *old(buffer),
            None => {
                &&& arguments matches Ok(list)
                &&& list@ == seq![
                    Argument::Account(
                        buffer_key,
                        ciphertext_data@.len() as u32,
                        ciphertext_data@.len() as u32,
                    ),
                ]
                &&& final(buffer)@ == ciphertext_data@ + old(buffer)@.skip(
                    ciphertext_data@.len() as int,
                )
            },
        },
{
    let len = ciphertext_data.len();
    if len < 48 {
        return Err(ErrorCode::InvalidBufferSize);
    }
    if (len - 48) % 32 != 0 {
        return Err(ErrorCode::InvalidCiphertextAlignment);
    }
    if len > MAX_BUFFER_SIZE {
        return Err(ErrorCode::BufferTooLarge);
    }
    let write_len = if len < MAX_BUFFER_SIZE {
        len
    } else {
        MAX_BUFFER_SIZE
    };
    let mut i: usize = 0;
    while i < write_len
        invariant
            i <= write_len,
            write_len == ciphertext_data@.len(),
            write_len <= MAX_BUFFER_SIZE,
            forall|k: int| 0 <= k < i ==> buffer[k] == ciphertext_data[k],
            forall|k: int| i <= k < MAX_BUFFER_SIZE ==> buffer[k] == old(buffer)[k],
        decreases write_len - i,
    {
        buffer[i] = ciphertext_data[i];
        i += 1;
    }
    assert(buffer@ =~= ciphertext_data@ + old(buffer)@.skip(ciphertext_data@.len() as int));
    let mut args: Vec<Argument> = Vec::new();
    args.push(Argument::Account(buffer_key, write_len as u32, write_len as u32));
    assert(args@ =~= seq![
        Argument::Account(
            buffer_key,
            ciphertext_data@.len() as u32,
            ciphertext_data@.len() as u32,
        ),
    ]);
    Ok(args)
}

} // verus!
