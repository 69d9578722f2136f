//! Object identifiers: 20-byte binary ids and their 40-character
//! lowercase hexadecimal form.

use sha1::{Digest, Sha1};
use vstd::prelude::*;

verus! {

/// Unique id of a stored object: the SHA-1 digest of its canonical bytes.
pub type VcsObjectId = [u8; 20];

/// Raw bytes, the stored form of every structure.
pub type Bytes = Vec<u8>;

/// The SHA-1 digest of a byte sequence.
pub uninterp spec fn sha1_digest(content: Seq<u8>) -> Seq<u8>;

/// The id whose bytes are `bytes`.
pub open spec fn id_of(bytes: Seq<u8>) -> VcsObjectId {
    choose|id: VcsObjectId| id@ == bytes
}

/// The id of an object with the given canonical bytes.
pub open spec fn object_id(content: Seq<u8>) -> VcsObjectId {
    id_of(sha1_digest(content))
}

/// An id is the one that its bytes stand for.
pub proof fn lemma_id_of(id: VcsObjectId)
    ensures
        id_of(id@) == id,
{
    let other = id_of(id@);
    assert(other@ == id@);
    assert(other =~= id);
}

/// The lowercase hexadecimal digit of a value below 16.
pub open spec fn hex_char(n: int) -> char {
    if n == 0 {
        '0'
    } else if n == 1 {
        '1'
    } else if n == 2 {
        '2'
    } else if n == 3 {
        '3'
    } else if n == 4 {
        '4'
    } else if n == 5 {
        '5'
    } else if n == 6 {
        '6'
    } else if n == 7 {
        '7'
    } else if n == 8 {
        '8'
    } else if n == 9 {
        '9'
    } else if n == 10 {
        'a'
    } else if n == 11 {
        'b'
    } else if n == 12 {
        'c'
    } else if n == 13 {
        'd'
    } else if n == 14 {
        'e'
    } else {
        'f'
    }
}

/// The value of a hexadecimal digit of either case, `None` for any other
/// character.
pub open spec fn hex_value(c: char) -> Option<int> {
    if c == '0' {
        Some(0)
    } else if c == '1' {
        Some(1)
    } else if c == '2' {
        Some(2)
    } else if c == '3' {
        Some(3)
    } else if c == '4' {
        Some(4)
    } else if c == '5' {
        Some(5)
    } else if c == '6' {
        Some(6)
    } else if c == '7' {
        Some(7)
    } else if c == '8' {
        Some(8)
    } else if c == '9' {
        Some(9)
    } else if c == 'a' || c == 'A' {
        Some(10)
    } else if c == 'b' || c == 'B' {
        Some(11)
    } else if c == 'c' || c == 'C' {
        Some(12)
    } else if c == 'd' || c == 'D' {
        Some(13)
    } else if c == 'e' || c == 'E' {
        Some(14)
    } else if c == 'f' || c == 'F' {
        Some(15)
    } else {
        None
    }
}

/// A digit `0`-`9` or a lowercase letter `a`-`f`.
pub open spec fn is_lower_hex_char(c: char) -> bool {
    hex_value(c) is Some && hex_char(hex_value(c).unwrap()) == c
}

/// The hexadecimal text of a byte sequence: two lowercase digits per byte,
/// the high half first.
pub open spec fn hex_text(bytes: Seq<u8>) -> Seq<char> {
    Seq::new(
        2 * bytes.len(),
        |i: int|
            if i % 2 == 0 {
                hex_char(bytes[i / 2] as int / 16)
            } else {
                hex_char(bytes[i / 2] as int % 16)
            },
    )
}

/// Whether `text` is the hexadecimal form, in either case, of exactly
/// twenty bytes.
pub open spec fn is_hex_id(text: Seq<char>) -> bool {
    &&& text.len() == 40
    &&& forall|i: int| 0 <= i < 40 ==> (#[trigger] hex_value(text[i])) is Some
}

/// The byte that two hexadecimal digits stand for.
pub open spec fn hex_byte(high: char, low: char) -> u8 {
    (hex_value(high).unwrap() * 16 + hex_value(low).unwrap()) as u8
}

/// The twenty bytes that a hexadecimal id stands for.
pub open spec fn hex_bytes(text: Seq<char>) -> Seq<u8> {
    Seq::new(20, |i: int| hex_byte(text[2 * i], text[2 * i + 1]))
}

/// Calls `Sha1::new`, `update` and `finalize` of the `sha1` crate on the
/// whole of `content`. The digest is a function of the bytes alone and is
/// named `sha1_digest`; its output size is the crate's `U20`.
#[verifier::external_body]
fn sha1_of(content: &Vec<u8>) -> (digest: [u8; 20])
    ensures
        digest@ == sha1_digest(content@),
{
    let mut hasher = Sha1::new();
    hasher.update(content);
    hasher.finalize().into()
}

/// Calls `hex::encode` on the twenty bytes of an id. The crate writes, for
/// each byte in turn, the digit of its high half and then that of its low
/// half, from the table `0123456789abcdef`.
#[verifier::external_body]
fn hex_encode_id(id: &[u8; 20]) -> (text: String)
    ensures
        text@ == hex_text(id@),
{
    hex::encode(id)
}

/// Calls `hex::decode_to_slice` with a buffer of twenty bytes. The crate
/// fails unless the text is forty bytes long and each of them is a digit
/// `0`-`9`, `a`-`f` or `A`-`F`; a text that holds any other character
/// therefore fails whatever its length. On success byte `i` is sixteen
/// times the value of digit `2i` plus the value of digit `2i + 1`.
#[verifier::external_body]
pub(crate) fn hex_decode_id(text: &str) -> (decoded: Option<[u8; 20]>)
    ensures
        decoded is Some <==> is_hex_id(text@),
        decoded is Some ==> decoded.unwrap()@ == hex_bytes(text@),
{
    let mut bytes = [0u8; 20];
    match hex::decode_to_slice(text, &mut bytes) {
        Ok(()) => Some(bytes),
        Err(_) => None,
    }
}

/// The id of a stored object: the SHA-1 digest of its canonical bytes.
pub fn get_vcs_object_id(content: &Bytes) -> (id: VcsObjectId)
    ensures
        id@ == sha1_digest(content@),
        id == object_id(content@),
{
    let id = sha1_of(content);
    proof {
        lemma_id_of(id);
    }
    id
}

/// Transforms the inner representation of an object id into the public one.
pub fn get_human_id(id: &VcsObjectId) -> (text: String)
    ensures
        text@ == hex_text(id@),
{
    hex_encode_id(id)
}

/// Whether two ids hold the same bytes.
pub fn ids_equal(first: &VcsObjectId, second: &VcsObjectId) -> (same: bool)
    ensures
        same == (*first == *second),
{
    let mut i: usize = 0;
    while i < 20
        invariant
            i <= 20,
            forall|k: int| 0 <= k < i ==> first[k] == second[k],
        decreases 20 - i,
    {
        if first[i] != second[i] {
            return false;
        }
        i += 1;
    }
    assert(*first =~= *second);
    true
}

/// Encoding an id and decoding the text gives the id back.
pub proof fn lemma_hex_round_trip(id: VcsObjectId)
    ensures
        is_hex_id(hex_text(id@)),
        hex_bytes(hex_text(id@)) == id@,
{
    let text = hex_text(id@);
    assert forall|i: int| 0 <= i < 40 implies (#[trigger] hex_value(text[i])) is Some by {
        let b = id@[i / 2];
        assert(0 <= b as int / 16 < 16);
        assert(0 <= b as int % 16 < 16);
    }
    assert forall|i: int| 0 <= i < 20 implies hex_bytes(text)[i] == id@[i] by {
        let b = id@[i];
        assert((2 * i) / 2 == i && (2 * i) % 2 == 0);
        assert((2 * i + 1) / 2 == i && (2 * i + 1) % 2 == 1);
        assert(text[2 * i] == hex_char(b as int / 16));
        assert(text[2 * i + 1] == hex_char(b as int % 16));
        assert(hex_value(hex_char(b as int / 16)) == Some(b as int / 16));
        assert(hex_value(hex_char(b as int % 16)) == Some(b as int % 16));
        assert((b as int / 16) * 16 + b as int % 16 == b as int);
    }
    assert(hex_bytes(text) =~= id@);
}

/// Decoding a lowercase hexadecimal id and encoding the bytes gives the
/// text back.
pub proof fn lemma_hex_text_round_trip(text: Seq<char>)
    requires
        text.len() == 40,
        forall|i: int| 0 <= i < 40 ==> is_lower_hex_char(#[trigger] text[i]),
    ensures
        is_hex_id(text),
        hex_text(hex_bytes(text)) == text,
{
    assert forall|i: int| 0 <= i < 40 implies (#[trigger] hex_value(text[i])) is Some by {
        assert(is_lower_hex_char(text[i]));
    }
    let bytes = hex_bytes(text);
    assert forall|i: int| 0 <= i < 40 implies hex_text(bytes)[i] == text[i] by {
        let k = i / 2;
        assert(is_lower_hex_char(text[2 * k]));
        assert(is_lower_hex_char(text[2 * k + 1]));
        let high = hex_value(text[2 * k]).unwrap();
        let low = hex_value(text[2 * k + 1]).unwrap();
        assert(0 <= high < 16 && 0 <= low < 16);
        assert(bytes[k] == (high * 16 + low) as u8);
        assert((high * 16 + low) / 16 == high);
        assert((high * 16 + low) % 16 == low);
        if i % 2 == 0 {
            assert(i == 2 * k);
        } else {
            assert(i == 2 * k + 1);
        }
    }
    assert(hex_text(bytes) =~= text);
}

} // verus!
