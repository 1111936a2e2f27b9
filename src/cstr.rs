//! The check that text can be handed on as a C string.

use vstd::prelude::*;

verus! {

/// The text holds a NUL byte, which a C string cannot carry.
#[derive(Clone, Copy, Debug, PartialEq, Eq, Structural)]
pub struct EmbeddedNulError;

/// Succeeds exactly when `bytes` holds no NUL byte.
pub fn ensure_no_nul(bytes: &[u8]) -> (r: Result<(), EmbeddedNulError>)
    ensures
        r is Ok <==> !bytes@.contains(0u8),
{
    let mut i: usize = 0;
    while i < bytes.len()
        invariant
            i <= bytes@.len(),
            forall|j: int| 0 <= j < i ==> bytes@[j] != 0u8,
        decreases bytes@.len() - i,
    {
        if bytes[i] == 0 {
            return Err(EmbeddedNulError);
        }
        i = i + 1;
    }
    Ok(())
}

} // verus!
