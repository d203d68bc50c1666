//! Randomness: fixed-length byte draws from the operating system's
//! CSPRNG, fresh credential ids, and the password generator.

use vstd::prelude::*;

use crate::error::Error;

verus! {

/// Relies on `rand::RngCore::try_fill_bytes` on `rand::rngs::OsRng`,
/// the operating system's CSPRNG: nothing can be promised of the bytes;
/// a failing randomness source yields nothing.
#[verifier::external_body]
pub fn random_bytes<const N: usize>() -> (r: Option<[u8; N]>) {
    let mut buf = [0u8; N];
    match rand::RngCore::try_fill_bytes(&mut rand::rngs::OsRng, &mut buf) {
        Ok(()) => Some(buf),
        Err(_) => None,
    }
}

/// Relies on `rand::Rng::gen_range` on `rand::rngs::OsRng`: an index
/// drawn uniformly below the bound, with no modulo bias.
#[verifier::external_body]
fn random_index(bound: usize) -> (r: usize)
    requires
        bound > 0,
    ensures
        r < bound,
{
    rand::Rng::gen_range(&mut rand::rngs::OsRng, 0..bound)
}

/// Whether a character is a lowercase hexadecimal digit.
pub open spec fn is_hex_lower(c: char) -> bool {
    (48 <= c as u32 <= 57) || (97 <= c as u32 <= 102)
}

/// The canonical 36-character hyphenated lowercase form of a UUID
/// version 4: hex digits with hyphens at positions 8, 13, 18 and 23,
/// the version digit `4`, and a variant digit in `8`, `9`, `a`, `b`.
pub open spec fn is_uuid_v4_string(s: Seq<char>) -> bool {
    &&& s.len() == 36
    &&& forall|i: int|
        0 <= i < 36 ==> if i == 8 || i == 13 || i == 18 || i == 23 {
            #[trigger] s[i] == '-'
        } else {
            is_hex_lower(s[i])
        }
    &&& s[14] == '4'
    &&& (s[19] == '8' || s[19] == '9' || s[19] == 'a' || s[19] == 'b')
}

/// Relies on `uuid::Uuid::new_v4` and its `Display` form: a fresh
/// random version-4 UUID, rendered hyphenated and lowercase; which one
/// comes out cannot be promised.
#[verifier::external_body]
pub(crate) fn new_credential_id() -> (r: String)
    ensures
        is_uuid_v4_string(r@),
{
    uuid::Uuid::new_v4().to_string()
}

/// Draws `length` bytes uniformly from the alphabet and returns them as
/// a string.  The length must lie in `[10, 128]`.
pub fn random_password(alphabet: &[u8], length: usize) -> (r: Result<String, Error>)
    requires
        alphabet@.len() > 0,
        forall|j: int| 0 <= j < alphabet@.len() ==> alphabet@[j] < 128,
    ensures
        match r {
            Ok(p) => {
                &&& 10 <= length <= 128
                &&& p@.len() == length
                &&& forall|i: int|
                    0 <= i < p@.len() ==> exists|j: int|
                        0 <= j < alphabet@.len() && #[trigger] p@[i] == alphabet@[j] as char
            },
            Err(e) => {
                &&& e == Error::InvalidParameter
                &&& !(10 <= length <= 128)
            },
        },
{
    if length < 10 || length > 128 {
        return Err(Error::InvalidParameter);
    }
    let mut picked: Vec<u8> = Vec::new();
    let mut i: usize = 0;
    while i < length
        invariant
            0 <= i <= length,
            picked@.len() == i,
            alphabet@.len() > 0,
            forall|j: int| 0 <= j < alphabet@.len() ==> alphabet@[j] < 128,
            forall|x: int|
                0 <= x < i ==> exists|j: int|
                    0 <= j < alphabet@.len() && #[trigger] picked@[x] == alphabet@[j],
        decreases length - i,
    {
        let idx = random_index(alphabet.len());
        picked.push(alphabet[idx]);
        i = i + 1;
    }
    proof {
        lemma_ascii_bytes_decode(picked@);
    }
    match crate::encoding::bytes_to_string(picked) {
        Some(p) => Ok(p),
        None => Err(Error::InvalidParameter),  // unreachable: ASCII bytes are valid UTF-8
    }
}

/// ASCII bytes are valid UTF-8 and decode to themselves as characters.
proof fn lemma_ascii_bytes_decode(b: Seq<u8>)
    requires
        forall|j: int| 0 <= j < b.len() ==> b[j] < 128,
    ensures
        vstd::utf8::valid_utf8(b),
        vstd::utf8::decode_utf8(b).len() == b.len(),
        forall|j: int| 0 <= j < b.len() ==> #[trigger] vstd::utf8::decode_utf8(b)[j] == b[j] as char,
{
    let cs = Seq::new(b.len(), |j: int| b[j] as char);
    assert(vstd::utf8::is_ascii_chars(cs));
    vstd::utf8::is_ascii_chars_encode_utf8(cs);
    assert(vstd::utf8::encode_utf8(cs) =~= b);
    vstd::utf8::encode_utf8_valid_utf8(cs);
    vstd::utf8::encode_utf8_decode_utf8(cs);
}

} // verus!
