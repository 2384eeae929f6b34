//! Validation of untrusted identifiers coming from the UI layer.

use crate::errors::VaultError;
use vstd::prelude::*;
use vstd::string::*;

verus! {

/// A character allowed in an asset id: ASCII alphanumeric, `-` or `_`.
pub open spec fn is_id_char(c: char) -> bool {
    (48 <= c as u32 && c as u32 <= 57) || (65 <= c as u32 && c as u32 <= 90) || (97 <= c as u32
        && c as u32 <= 122) || c as u32 == 45 || c as u32 == 95
}

/// A well-formed asset id: 1 to 64 characters, all from [`is_id_char`].
pub open spec fn valid_asset_id(s: Seq<char>) -> bool {
    1 <= s.len() <= 64 && (forall|i: int| 0 <= i < s.len() ==> is_id_char(s[i]))
}

/// Rejects empty, over-long, or traversal-prone asset ids before any file
/// system work happens.
pub fn validate_asset_id(asset_id: &str) -> (r: Result<(), VaultError>)
    ensures
        r is Ok <==> valid_asset_id(asset_id@),
        r is Err ==> r == Err::<(), VaultError>(VaultError::Validation),
{
    let n = asset_id.unicode_len();
    if n == 0 || n > 64 {
        return Err(VaultError::Validation);
    }
    let mut i: usize = 0;
    while i < n
        invariant
            0 <= i <= n,
            n == asset_id@.len(),
            1 <= n <= 64,
            forall|j: int| 0 <= j < i ==> is_id_char(asset_id@[j]),
        decreases n - i,
    {
        let c = asset_id.get_char(i);
        let u = c as u32;
        let allowed = (48 <= u && u <= 57) || (65 <= u && u <= 90) || (97 <= u && u <= 122) || u
            == 45 || u == 95;
        if !allowed {
            return Err(VaultError::Validation);
        }
        i = i + 1;
    }
    Ok(())
}

} // verus!
