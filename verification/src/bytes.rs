use vstd::prelude::*;

verus! {

/// A byte string in memory is short enough for its length to be written
/// in eight bytes.
pub proof fn lemma_len_fits(bytes: &Vec<u8>)
    ensures
        bytes@.len() <= u64::MAX,
{
    assert(bytes.len() <= usize::MAX);
}

/// Whether two byte strings hold the same bytes in the same order.
pub fn same_bytes(a: &Vec<u8>, b: &Vec<u8>) -> (same: bool)
    ensures
        same == (a@ == b@),
{
    let same = *a == *b;
    assert(same == (a@ =~= b@));
    same
}

/// The same test on optional byte strings: both absent, or both present
/// and equal.
pub fn same_optional_bytes(a: &Option<Vec<u8>>, b: &Option<Vec<u8>>) -> (same: bool)
    ensures
        same == (optional_bytes_view(*a) == optional_bytes_view(*b)),
{
    match (a, b) {
        (None, None) => true,
        (Some(x), Some(y)) => same_bytes(x, y),
        _ => false,
    }
}

/// What an optional byte string holds, as a mathematical value.
pub open spec fn optional_bytes_view(bytes: Option<Vec<u8>>) -> Option<Seq<u8>> {
    match bytes {
        Some(b) => Some(b@),
        None => None,
    }
}

/// A copy of an optional byte string.
pub fn copy_optional_bytes(bytes: &Option<Vec<u8>>) -> (copy: Option<Vec<u8>>)
    ensures
        optional_bytes_view(copy) == optional_bytes_view(*bytes),
{
    match bytes {
        Some(b) => Some(b.clone()),
        None => None,
    }
}

} // verus!
