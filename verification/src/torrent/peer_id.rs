//! The id that the client gives itself toward trackers and peers.

use vstd::prelude::*;
use vstd::string::*;
use rand::distributions::Alphanumeric;
use rand::Rng;

verus! {

/// The number of random characters of a peer id.
pub const SIZE_PEER_ID: usize = 12;

/// What every peer id of this client starts with.
pub const INIT_PEER_ID: &'static str = "-FA0000-";

/// Whether a byte is an ASCII letter or digit.
pub open spec fn spec_is_alphanumeric(b: u8) -> bool {
    (48 <= b <= 57) || (65 <= b <= 90) || (97 <= b <= 122)
}

/// Draws `count` bytes from the `Alphanumeric` distribution of the `rand` crate, with the
/// thread's generator. Each is one of the ASCII letters and digits; which ones is left to chance.
#[verifier::external_body]
fn random_alphanumeric(count: usize) -> (res: Vec<u8>)
    ensures
        res@.len() == count,
        forall|i: int| 0 <= i < res@.len() ==> spec_is_alphanumeric(#[trigger] res@[i]),
{
    rand::thread_rng().sample_iter(&Alphanumeric).take(count).collect()
}

/// A new peer id: the client's prefix, then random ASCII letters and digits.
pub fn generate_peer_id() -> (res: Vec<u8>)
    ensures
        res@.len() == INIT_PEER_ID.spec_bytes().len() + SIZE_PEER_ID,
        res@.subrange(0, INIT_PEER_ID.spec_bytes().len() as int) == INIT_PEER_ID.spec_bytes(),
        forall|i: int| INIT_PEER_ID.spec_bytes().len() <= i < res@.len() ==> spec_is_alphanumeric(#[trigger] res@[i]),
{
    let mut id = vstd::slice::slice_to_vec(INIT_PEER_ID.as_bytes());
    let prefix_len = id.len();
    let suffix = random_alphanumeric(SIZE_PEER_ID);
    let mut i: usize = 0;
    while i < suffix.len()
        invariant
            0 <= i <= suffix@.len(),
            prefix_len == INIT_PEER_ID.spec_bytes().len(),
            id@.len() == prefix_len + i,
            id@.subrange(0, prefix_len as int) == INIT_PEER_ID.spec_bytes(),
            forall|k: int| prefix_len <= k < id@.len() ==> spec_is_alphanumeric(#[trigger] id@[k]),
            forall|k: int| 0 <= k < suffix@.len() ==> spec_is_alphanumeric(#[trigger] suffix@[k]),
            suffix@.len() == SIZE_PEER_ID,
        decreases suffix@.len() - i,
    {
        let ghost before = id@;
        id.push(suffix[i]);
        assert(id@.subrange(0, prefix_len as int) =~= before.subrange(0, prefix_len as int));
        i = i + 1;
    }
    id
}

} // verus!
