//! The stored form of every persistent structure: a deterministic binary
//! encoding, and the parser that reads it back.
//!
//! Integers are little-endian; a byte string is its length (eight bytes)
//! and its bytes; a text is the byte string of its UTF-8 form; an id is its
//! twenty bytes; a list is its length and then its items.

use crate::identity::{id_of, lemma_id_of, VcsObjectId};
use vstd::bytes::*;
use vstd::prelude::*;
use vstd::slice::*;
use vstd::utf8::*;

verus! {

/// What a parser returns: the value and the input that is left.
pub type Parsed<T> = Option<(T, Seq<u8>)>;

/// The stored form of a 64-bit integer.
pub open spec fn enc_u64(value: u64) -> Seq<u8> {
    spec_u64_to_le_bytes(value)
}

/// Reads a 64-bit integer off the front of the input.
pub open spec fn parse_u64(input: Seq<u8>) -> Parsed<u64> {
    if input.len() >= 8 {
        Some((spec_u64_from_le_bytes(input.take(8)), input.skip(8)))
    } else {
        None
    }
}

/// The stored form of a 32-bit integer.
pub open spec fn enc_u32(value: u32) -> Seq<u8> {
    spec_u32_to_le_bytes(value)
}

/// Reads a 32-bit integer off the front of the input.
pub open spec fn parse_u32(input: Seq<u8>) -> Parsed<u32> {
    if input.len() >= 4 {
        Some((spec_u32_from_le_bytes(input.take(4)), input.skip(4)))
    } else {
        None
    }
}

/// The stored form of a byte string.
pub open spec fn enc_bytes(data: Seq<u8>) -> Seq<u8> {
    enc_u64(data.len() as u64) + data
}

/// Reads a byte string off the front of the input.
pub open spec fn parse_bytes(input: Seq<u8>) -> Parsed<Seq<u8>> {
    match parse_u64(input) {
        Some((count, rest)) => if rest.len() >= count {
            Some((rest.take(count as int), rest.skip(count as int)))
        } else {
            None
        },
        None => None,
    }
}

/// The stored form of a text.
pub open spec fn enc_text(text: Seq<char>) -> Seq<u8> {
    enc_bytes(encode_utf8(text))
}

/// Reads a text off the front of the input.
pub open spec fn parse_text(input: Seq<u8>) -> Parsed<Seq<char>> {
    match parse_bytes(input) {
        Some((data, rest)) => if valid_utf8(data) {
            Some((decode_utf8(data), rest))
        } else {
            None
        },
        None => None,
    }
}

/// The stored form of an id.
pub open spec fn enc_id(id: VcsObjectId) -> Seq<u8> {
    id@
}

/// Reads an id off the front of the input.
pub open spec fn parse_id(input: Seq<u8>) -> Parsed<VcsObjectId> {
    if input.len() >= 20 {
        Some((id_of(input.take(20)), input.skip(20)))
    } else {
        None
    }
}

/// The stored form of an optional id: a byte that says whether it is
/// there, then the id.
pub open spec fn enc_option_id(id: Option<VcsObjectId>) -> Seq<u8> {
    match id {
        Some(id) => seq![1u8] + enc_id(id),
        None => seq![0u8],
    }
}

/// Reads an optional id off the front of the input.
pub open spec fn parse_option_id(input: Seq<u8>) -> Parsed<Option<VcsObjectId>> {
    if input.len() == 0 {
        None
    } else if input[0] == 0 {
        Some((None, input.skip(1)))
    } else if input[0] == 1 {
        match parse_id(input.skip(1)) {
            Some((id, rest)) => Some((Some(id), rest)),
            None => None,
        }
    } else {
        None
    }
}

/// Whether a length can be written down.
pub open spec fn fits(length: nat) -> bool {
    length <= u64::MAX
}

/// A 64-bit integer is read back from its stored form, whatever follows
/// it.
pub proof fn lemma_parse_u64(value: u64, rest: Seq<u8>)
    ensures
        parse_u64(enc_u64(value) + rest) == Some((value, rest)),
        enc_u64(value).len() == 8,
{
    lemma_auto_spec_u64_to_from_le_bytes();
    let input = enc_u64(value) + rest;
    assert(input.take(8) =~= enc_u64(value));
    assert(input.skip(8) =~= rest);
}

/// A 32-bit integer is read back from its stored form, whatever follows
/// it.
pub proof fn lemma_parse_u32(value: u32, rest: Seq<u8>)
    ensures
        parse_u32(enc_u32(value) + rest) == Some((value, rest)),
        enc_u32(value).len() == 4,
{
    lemma_auto_spec_u32_to_from_le_bytes();
    let input = enc_u32(value) + rest;
    assert(input.take(4) =~= enc_u32(value));
    assert(input.skip(4) =~= rest);
}

/// A byte string is read back from its stored form, whatever follows it.
pub proof fn lemma_parse_bytes(data: Seq<u8>, rest: Seq<u8>)
    requires
        fits(data.len()),
    ensures
        parse_bytes(enc_bytes(data) + rest) == Some((data, rest)),
{
    let count = data.len() as u64;
    lemma_parse_u64(count, data + rest);
    assert(enc_bytes(data) + rest =~= enc_u64(count) + (data + rest));
    assert((data + rest).take(count as int) =~= data);
    assert((data + rest).skip(count as int) =~= rest);
}

/// A text is read back from its stored form, whatever follows it.
pub proof fn lemma_parse_text(text: Seq<char>, rest: Seq<u8>)
    requires
        fits(encode_utf8(text).len()),
    ensures
        parse_text(enc_text(text) + rest) == Some((text, rest)),
{
    lemma_parse_bytes(encode_utf8(text), rest);
    encode_utf8_valid_utf8(text);
    encode_utf8_decode_utf8(text);
}

/// An id is read back from its stored form, whatever follows it.
pub proof fn lemma_parse_id(id: VcsObjectId, rest: Seq<u8>)
    ensures
        parse_id(enc_id(id) + rest) == Some((id, rest)),
{
    let input = enc_id(id) + rest;
    assert(input.take(20) =~= id@);
    assert(input.skip(20) =~= rest);
    lemma_id_of(id);
}

/// An optional id is read back from its stored form, whatever follows it.
pub proof fn lemma_parse_option_id(id: Option<VcsObjectId>, rest: Seq<u8>)
    ensures
        parse_option_id(enc_option_id(id) + rest) == Some((id, rest)),
{
    let input = enc_option_id(id) + rest;
    match id {
        Some(inner) => {
            assert(input.skip(1) =~= enc_id(inner) + rest);
            lemma_parse_id(inner, rest);
        },
        None => {
            assert(input.skip(1) =~= rest);
        },
    }
}

/// Skipping in two steps is skipping once.
pub proof fn lemma_skip_skip(input: Seq<u8>, first: int, second: int)
    requires
        0 <= first,
        0 <= second,
        first + second <= input.len(),
    ensures
        input.skip(first).skip(second) == input.skip(first + second),
        input.skip(first).take(second) == input.subrange(first, first + second),
{
    assert(input.skip(first).skip(second) =~= input.skip(first + second));
    assert(input.skip(first).take(second) =~= input.subrange(first, first + second));
}

/// Writes a 64-bit integer at the end of `out`.
pub fn write_u64(out: &mut Vec<u8>, value: u64)
    ensures
        final(out)@ == old(out)@ + enc_u64(value),
{
    let bytes = u64_to_le_bytes(value);
    out.extend_from_slice(bytes.as_slice());
}

/// Writes a 32-bit integer at the end of `out`.
pub fn write_u32(out: &mut Vec<u8>, value: u32)
    ensures
        final(out)@ == old(out)@ + enc_u32(value),
{
    let bytes = u32_to_le_bytes(value);
    out.extend_from_slice(bytes.as_slice());
}

/// Writes a byte string at the end of `out`.
pub fn write_bytes(out: &mut Vec<u8>, data: &[u8])
    ensures
        final(out)@ == old(out)@ + enc_bytes(data@),
        fits(data@.len()),
{
    write_u64(out, data.len() as u64);
    out.extend_from_slice(data);
    assert(out@ =~= old(out)@ + enc_bytes(data@));
}

/// Writes a text at the end of `out`.
pub fn write_text(out: &mut Vec<u8>, text: &str)
    ensures
        final(out)@ == old(out)@ + enc_text(text@),
        fits(encode_utf8(text@).len()),
{
    write_bytes(out, text.as_bytes());
}

/// Writes an id at the end of `out`.
pub fn write_id(out: &mut Vec<u8>, id: &VcsObjectId)
    ensures
        final(out)@ == old(out)@ + enc_id(*id),
{
    out.extend_from_slice(id.as_slice());
}

/// Writes an optional id at the end of `out`.
pub fn write_option_id(out: &mut Vec<u8>, id: &Option<VcsObjectId>)
    ensures
        final(out)@ == old(out)@ + enc_option_id(*id),
{
    match id {
        Some(inner) => {
            out.push(1);
            write_id(out, inner);
            assert(out@ =~= old(out)@ + enc_option_id(*id));
        },
        None => {
            out.push(0);
            assert(out@ =~= old(out)@ + enc_option_id(*id));
        },
    }
}

/// Whether a step of an executable parser did what the parser says: it
/// succeeded with the parser's value, leaving the input from `next` on, or
/// failed as the parser does.
pub open spec fn read_agrees<T>(
    parsed: Parsed<T>,
    input: Seq<u8>,
    from: int,
    read: Option<(T, int)>,
) -> bool {
    match read {
        Some((value, next)) => from <= next <= input.len() && parsed == Some(
            (value, input.skip(next)),
        ),
        None => parsed is None,
    }
}

/// Reads a 64-bit integer at a position of the input.
pub fn read_u64(input: &[u8], from: usize) -> (read: Option<(u64, usize)>)
    requires
        from <= input@.len(),
    ensures
        read_agrees(
            parse_u64(input@.skip(from as int)),
            input@,
            from as int,
            match read {
                Some((value, next)) => Some((value, next as int)),
                None => None,
            },
        ),
{
    if input.len() - from < 8 {
        return None;
    }
    let value = u64_from_le_bytes(slice_subrange(input, from, from + 8));
    proof {
        lemma_skip_skip(input@, from as int, 8);
    }
    Some((value, from + 8))
}

/// Reads a 32-bit integer at a position of the input.
pub fn read_u32(input: &[u8], from: usize) -> (read: Option<(u32, usize)>)
    requires
        from <= input@.len(),
    ensures
        read_agrees(
            parse_u32(input@.skip(from as int)),
            input@,
            from as int,
            match read {
                Some((value, next)) => Some((value, next as int)),
                None => None,
            },
        ),
{
    if input.len() - from < 4 {
        return None;
    }
    let value = u32_from_le_bytes(slice_subrange(input, from, from + 4));
    proof {
        lemma_skip_skip(input@, from as int, 4);
    }
    Some((value, from + 4))
}

/// Reads a byte string at a position of the input.
pub fn read_bytes(input: &[u8], from: usize) -> (read: Option<(Vec<u8>, usize)>)
    requires
        from <= input@.len(),
    ensures
        read_agrees(
            parse_bytes(input@.skip(from as int)),
            input@,
            from as int,
            match read {
                Some((value, next)) => Some((value@, next as int)),
                None => None,
            },
        ),
{
    match read_u64(input, from) {
        Some((count, start)) => {
            if ((input.len() - start) as u64) < count {
                return None;
            }
            let end = start + count as usize;
            let data = slice_to_vec(slice_subrange(input, start, end));
            proof {
                lemma_skip_skip(input@, start as int, count as int);
            }
            Some((data, end))
        },
        None => None,
    }
}

/// Calls `String::from_utf8`, which gives the string that holds exactly
/// those bytes, and fails where they are not valid UTF-8.
#[verifier::external_body]
fn string_from_utf8(bytes: Vec<u8>) -> (text: Option<String>)
    ensures
        text is Some <==> valid_utf8(bytes@),
        text is Some ==> encode_utf8(text.unwrap()@) == bytes@,
{
    String::from_utf8(bytes).ok()
}

/// Reads a text at a position of the input.
pub fn read_text(input: &[u8], from: usize) -> (read: Option<(String, usize)>)
    requires
        from <= input@.len(),
    ensures
        read_agrees(
            parse_text(input@.skip(from as int)),
            input@,
            from as int,
            match read {
                Some((value, next)) => Some((value@, next as int)),
                None => None,
            },
        ),
{
    match read_bytes(input, from) {
        Some((data, next)) => {
            match string_from_utf8(data) {
                Some(text) => {
                    proof {
                        encode_utf8_decode_utf8(text@);
                    }
                    Some((text, next))
                },
                None => None,
            }
        },
        None => None,
    }
}

/// Reads an id at a position of the input.
pub fn read_id(input: &[u8], from: usize) -> (read: Option<(VcsObjectId, usize)>)
    requires
        from <= input@.len(),
    ensures
        read_agrees(
            parse_id(input@.skip(from as int)),
            input@,
            from as int,
            match read {
                Some((value, next)) => Some((value, next as int)),
                None => None,
            },
        ),
{
    if input.len() - from < 20 {
        return None;
    }
    let mut id: VcsObjectId = [0u8; 20];
    let mut i: usize = 0;
    while i < 20
        invariant
            i <= 20,
            from + 20 <= input.len(),
            forall|k: int| 0 <= k < i ==> id@[k] == input@[from + k],
        decreases 20 - i,
    {
        id[i] = input[from + i];
        i += 1;
    }
    proof {
        lemma_skip_skip(input@, from as int, 20);
        assert(id@ =~= input@.subrange(from as int, from + 20));
        lemma_id_of(id);
    }
    Some((id, from + 20))
}

/// Reads an optional id at a position of the input.
pub fn read_option_id(input: &[u8], from: usize) -> (read: Option<(Option<VcsObjectId>, usize)>)
    requires
        from <= input@.len(),
    ensures
        read_agrees(
            parse_option_id(input@.skip(from as int)),
            input@,
            from as int,
            match read {
                Some((value, next)) => Some((value, next as int)),
                None => None,
            },
        ),
{
    if input.len() - from < 1 {
        return None;
    }
    let flag = input[from];
    proof {
        lemma_skip_skip(input@, from as int, 1);
    }
    if flag == 0 {
        Some((None, from + 1))
    } else if flag == 1 {
        match read_id(input, from + 1) {
            Some((id, next)) => Some((Some(id), next)),
            None => None,
        }
    } else {
        None
    }
}

} // verus!
