use vstd::bytes::{
    lemma_auto_spec_u64_to_from_le_bytes, spec_u64_from_le_bytes, spec_u64_to_le_bytes,
    u64_from_le_bytes, u64_to_le_bytes,
};
use vstd::prelude::*;
use vstd::slice::{slice_subrange, slice_to_vec};

verus! {

/// Number of bytes in the length that precedes each field.
pub const LEN_BYTES: usize = 8;

/// A byte string as it stands inside a serialized value: its length as
/// eight little-endian bytes, then the bytes themselves.
pub open spec fn field(bytes: Seq<u8>) -> Seq<u8> {
    spec_u64_to_le_bytes(bytes.len() as u64) + bytes
}

/// Reads one field from the front of `input`: the field's bytes and what
/// follows the field. There is none where `input` is cut short.
#[verifier::opaque]
pub open spec fn parse_field(input: Seq<u8>) -> Option<(Seq<u8>, Seq<u8>)> {
    if input.len() >= LEN_BYTES {
        let len = spec_u64_from_le_bytes(input.subrange(0, LEN_BYTES as int)) as int;
        if len <= input.len() - LEN_BYTES {
            Some((input.subrange(LEN_BYTES as int, LEN_BYTES + len), input.skip(LEN_BYTES + len)))
        } else {
            None
        }
    } else {
        None
    }
}

/// A field that was written is read back, whatever follows it.
pub proof fn lemma_parse_field_of_field(bytes: Seq<u8>, rest: Seq<u8>)
    requires
        bytes.len() <= u64::MAX,
    ensures
        parse_field(field(bytes) + rest) == Some((bytes, rest)),
{
    reveal(parse_field);
    lemma_auto_spec_u64_to_from_le_bytes();
    let input = field(bytes) + rest;
    let head = spec_u64_to_le_bytes(bytes.len() as u64);
    assert(head.len() == 8);
    assert(input.subrange(0, LEN_BYTES as int) =~= head);
    assert(input.subrange(LEN_BYTES as int, LEN_BYTES + bytes.len()) =~= bytes);
    assert(input.skip(LEN_BYTES + bytes.len()) =~= rest);
}

/// What was read as a field stands at the front of the input as that
/// field, and what follows it is the rest.
pub proof fn lemma_field_of_parse_field(input: Seq<u8>)
    requires
        parse_field(input) is Some,
    ensures
        ({
            &&& parse_field(input) matches Some((bytes, rest))
            &&& input == field(bytes) + rest
            &&& bytes.len() <= u64::MAX
            &&& rest.len() < input.len()
        }),
{
    reveal(parse_field);
    lemma_auto_spec_u64_to_from_le_bytes();
    let head = input.subrange(0, LEN_BYTES as int);
    let len = spec_u64_from_le_bytes(head);
    assert(spec_u64_to_le_bytes(spec_u64_from_le_bytes(head)) == head);
    match parse_field(input) {
        Some((bytes, rest)) => {
            assert(bytes.len() == len);
            assert(input =~= field(bytes) + rest);
        },
        None => {},
    }
}

/// Appends `bytes` to `out` as one field.
pub fn put_field(out: &mut Vec<u8>, bytes: &Vec<u8>)
    ensures
        final(out)@ == old(out)@ + field(bytes@),
{
    let head = u64_to_le_bytes(bytes.len() as u64);
    out.extend_from_slice(head.as_slice());
    out.extend_from_slice(bytes.as_slice());
    assert(out@ =~= old(out)@ + field(bytes@));
}

/// Reads the field that starts at position `at` of `input`, and returns
/// its bytes with the position just behind it.
pub fn take_field(input: &Vec<u8>, at: usize) -> (taken: Option<(Vec<u8>, usize)>)
    requires
        at <= input.len(),
    ensures
        match taken {
            Some((bytes, next)) => {
                &&& at < next <= input.len()
                &&& parse_field(input@.skip(at as int)) == Some((bytes@, input@.skip(next as int)))
            },
            None => parse_field(input@.skip(at as int)) is None,
        },
{
    reveal(parse_field);
    let left = input.len() - at;
    if left < LEN_BYTES {
        return None;
    }
    let ghost tail = input@.skip(at as int);
    let head = slice_subrange(input.as_slice(), at, at + LEN_BYTES);
    assert(head@ =~= tail.subrange(0, LEN_BYTES as int));
    let len = u64_from_le_bytes(head);
    if len > (left - LEN_BYTES) as u64 {
        return None;
    }
    let start = at + LEN_BYTES;
    let next = start + len as usize;
    let bytes = slice_to_vec(slice_subrange(input.as_slice(), start, next));
    assert(bytes@ =~= tail.subrange(LEN_BYTES as int, LEN_BYTES + len));
    assert(input@.skip(next as int) =~= tail.skip(LEN_BYTES + len));
    Some((bytes, next))
}

} // verus!
