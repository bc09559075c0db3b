//! Digests and message authentication codes.

use vstd::prelude::*;
use hmac::Mac;
use sha2::Digest;

verus! {

/// What SHA-256 gives for a message.
pub uninterp spec fn sha256_of(data: Seq<u8>) -> Seq<u8>;

/// `sha2::Sha256::digest`. The function is named, not restated; its digests have 32 bytes.
#[verifier::external_body]
pub(crate) fn sha256(data: &[u8]) -> (out: Vec<u8>)
    ensures
        out@ == sha256_of(data@),
        out@.len() == 32,
{
    sha2::Sha256::digest(data).to_vec()
}

/// What HMAC with SHA-256 gives for a key and a message.
pub uninterp spec fn hmac_of(key: Seq<u8>, data: Seq<u8>) -> Seq<u8>;

/// `hmac::Hmac::<sha2::Sha256>`: a new one with the key, which may have any length, updated
/// with the message and finalized. The function is named, not restated; its codes have 32
/// bytes.
#[verifier::external_body]
pub(crate) fn hmac_sha256(key: &[u8], data: &[u8]) -> (out: Vec<u8>)
    ensures
        out@ == hmac_of(key@, data@),
        out@.len() == 32,
{
    let mut mac = hmac::Hmac::<sha2::Sha256>::new_from_slice(key).unwrap();
    mac.update(data);
    mac.finalize().into_bytes().to_vec()
}

/// The lower-case hexadecimal digit.
pub open spec fn hex_digit(n: int) -> char {
    if n < 10 {
        ('0' as int + n) as char
    } else {
        ('a' as int + (n - 10)) as char
    }
}

/// Bytes in lower-case hexadecimal, two digits each.
pub open spec fn hex_of(data: Seq<u8>) -> Seq<char>
    decreases data.len(),
{
    if data.len() == 0 {
        Seq::empty()
    } else {
        hex_of(data.drop_last()).push(hex_digit(data.last() as int / 16)).push(hex_digit(data.last() as int % 16))
    }
}

/// `hex::encode`: two lower-case hexadecimal digits for each byte, the higher one first.
#[verifier::external_body]
pub(crate) fn to_hex(data: &Vec<u8>) -> (out: String)
    ensures
        out@ == hex_of(data@),
{
    hex::encode(data)
}

/// Whether two texts are equal. All characters are looked at, however many differ.
pub fn equal_in_full(a: &str, b: &str) -> (r: bool)
    ensures
        r == (a@ == b@),
{
    let x = crate::text::chars(a);
    let y = crate::text::chars(b);
    if x.len() != y.len() {
        return false;
    }
    let mut equal = true;
    let mut i: usize = 0;
    proof {
        assert(x@.take(0) =~= y@.take(0));
    }
    while i < x.len()
        invariant
            x@ == a@,
            y@ == b@,
            x@.len() == y@.len(),
            i <= x@.len(),
            equal == (x@.take(i as int) == y@.take(i as int)),
        decreases x@.len() - i,
    {
        proof {
            let s = x@.take(i as int + 1);
            let t = y@.take(i as int + 1);
            assert(s.drop_last() =~= x@.take(i as int));
            assert(t.drop_last() =~= y@.take(i as int));
            assert(s =~= x@.take(i as int).push(x@[i as int]));
            assert(t =~= y@.take(i as int).push(y@[i as int]));
            if s == t {
                assert(s.last() == t.last());
            }
        }
        if x[i] != y[i] {
            equal = false;
        }
        i = i + 1;
    }
    proof {
        assert(x@.take(x@.len() as int) =~= x@);
        assert(y@.take(y@.len() as int) =~= y@);
    }
    equal
}

/// The number that a hexadecimal digit stands for.
pub open spec fn nibble(c: char) -> int {
    if '0' <= c <= '9' {
        c as int - '0' as int
    } else {
        c as int - 'a' as int + 10
    }
}

/// Bytes are written as two hexadecimal digits each, the higher one first, which stand for them.
pub proof fn bytes_are_written_in_hex(data: Seq<u8>, i: int)
    requires
        0 <= i < data.len(),
    ensures
        hex_of(data).len() == 2 * data.len(),
        data[i] == 16 * nibble(hex_of(data)[2 * i]) + nibble(hex_of(data)[2 * i + 1]),
    decreases data.len(),
{
    let front = data.drop_last();
    if front.len() > 0 {
        bytes_are_written_in_hex(front, if i < front.len() { i } else { 0 });
    } else {
        assert(hex_of(front).len() == 0);
    }
    let b = data.last() as int;
    let s = hex_of(data);
    assert(hex_of(front).len() == 2 * front.len());
    if i < front.len() {
        assert(front[i] == data[i]);
        assert(s[2 * i] == hex_of(front)[2 * i]);
        assert(s[2 * i + 1] == hex_of(front)[2 * i + 1]);
    } else {
        assert(s[2 * i] == hex_digit(b / 16));
        assert(s[2 * i + 1] == hex_digit(b % 16));
    }
}

} // verus!
