//! The pseudonymizer: a deterministic hash from a stable external identity
//! to the opaque storage key ("handle") everything else is filed under.

use vstd::prelude::*;
use vstd::utf8::encode_utf8;

verus! {

/// What `sha2::Sha256` digests a run of bytes to.
pub uninterp spec fn sha256_of(bytes: Seq<u8>) -> Seq<u8>;

/// Relies on `sha2::Sha256`: the digest is a function of the input bytes
/// alone and is 32 bytes long.
#[verifier::external_body]
fn sha256(input: &[u8]) -> (r: Vec<u8>)
    ensures
        r@ == sha256_of(input@),
        r@.len() == 32,
{
    let mut hasher = <sha2::Sha256 as sha2::Digest>::new();
    <sha2::Sha256 as sha2::Digest>::update(&mut hasher, input);
    <sha2::Sha256 as sha2::Digest>::finalize(hasher).to_vec()
}

/// The lowercase hex digit of a nibble.
pub open spec fn hex_digit(n: int) -> char {
    if n == 0 {
        '0'
    } else if n == 1 {
        '1'
    } else if n == 2 {
        '2'
    } else if n == 3 {
        '3'
    } else if n == 4 {
        '4'
    } else if n == 5 {
        '5'
    } else if n == 6 {
        '6'
    } else if n == 7 {
        '7'
    } else if n == 8 {
        '8'
    } else if n == 9 {
        '9'
    } else if n == 10 {
        'a'
    } else if n == 11 {
        'b'
    } else if n == 12 {
        'c'
    } else if n == 13 {
        'd'
    } else if n == 14 {
        'e'
    } else {
        'f'
    }
}

/// The nibble of a lowercase hex digit.
spec fn hex_val(c: char) -> int {
    if c == '0' {
        0
    } else if c == '1' {
        1
    } else if c == '2' {
        2
    } else if c == '3' {
        3
    } else if c == '4' {
        4
    } else if c == '5' {
        5
    } else if c == '6' {
        6
    } else if c == '7' {
        7
    } else if c == '8' {
        8
    } else if c == '9' {
        9
    } else if c == 'a' {
        10
    } else if c == 'b' {
        11
    } else if c == 'c' {
        12
    } else if c == 'd' {
        13
    } else if c == 'e' {
        14
    } else {
        15
    }
}

/// Lowercase hex text of a run of bytes: two digits per byte, high nibble
/// first.
pub open spec fn hex_of(bytes: Seq<u8>) -> Seq<char> {
    Seq::new(
        bytes.len() * 2,
        |i: int|
            if i % 2 == 0 {
                hex_digit(bytes[i / 2] as int / 16)
            } else {
                hex_digit(bytes[i / 2] as int % 16)
            },
    )
}

/// Relies on `hex::encode`: two lowercase hex digits per input byte, high
/// nibble first.
#[verifier::external_body]
fn hex_encode(bytes: &[u8]) -> (r: String)
    ensures
        r@ == hex_of(bytes@),
{
    hex::encode(bytes)
}

/// `hex_digit` round-trips through `hex_val`.
proof fn lemma_hex_digit_val(n: int)
    requires
        0 <= n < 16,
    ensures
        hex_val(hex_digit(n)) == n,
{
}

/// Hex text loses nothing: equal hex texts come from equal bytes.
pub proof fn lemma_hex_of_injective(a: Seq<u8>, b: Seq<u8>)
    requires
        hex_of(a) == hex_of(b),
    ensures
        a == b,
{
    assert(hex_of(a).len() == a.len() * 2);
    assert(hex_of(b).len() == b.len() * 2);
    assert(a.len() == b.len());
    assert forall|i: int| 0 <= i < a.len() implies a[i] == b[i] by {
        let ha = hex_of(a);
        let hb = hex_of(b);
        assert(ha[2 * i] == hb[2 * i]);
        assert(ha[2 * i + 1] == hb[2 * i + 1]);
        lemma_hex_digit_val(a[i] as int / 16);
        lemma_hex_digit_val(a[i] as int % 16);
        lemma_hex_digit_val(b[i] as int / 16);
        lemma_hex_digit_val(b[i] as int % 16);
        assert(a[i] as int / 16 == b[i] as int / 16 && a[i] as int % 16 == b[i] as int % 16);
        assert(a[i] as int == 16 * (a[i] as int / 16) + a[i] as int % 16) by {
            vstd::arithmetic::div_mod::lemma_fundamental_div_mod(a[i] as int, 16);
        }
        assert(b[i] as int == 16 * (b[i] as int / 16) + b[i] as int % 16) by {
            vstd::arithmetic::div_mod::lemma_fundamental_div_mod(b[i] as int, 16);
        }
    }
    assert(a =~= b);
}

/// The handle of a subject: lowercase hex of the SHA-256 digest of its
/// UTF-8 bytes.
pub open spec fn handle_of(subject: Seq<char>) -> Seq<char> {
    hex_of(sha256_of(encode_utf8(subject)))
}

/// Compute a consistent hash for a user identifier.  Same subject, same
/// handle, on every call.
pub fn hash_user_identifier(user_id: &str) -> (r: String)
    ensures
        r@ == handle_of(user_id@),
        r@.len() == 64,
{
    let digest = sha256(user_id.as_bytes());
    hex_encode(digest.as_slice())
}

/// Two subjects share a handle only where SHA-256 itself collides on their
/// byte runs: the hex stage loses nothing.
pub proof fn lemma_handle_collision_needs_digest_collision(s1: Seq<char>, s2: Seq<char>)
    requires
        handle_of(s1) == handle_of(s2),
    ensures
        sha256_of(encode_utf8(s1)) == sha256_of(encode_utf8(s2)),
{
    lemma_hex_of_injective(sha256_of(encode_utf8(s1)), sha256_of(encode_utf8(s2)));
}

} // verus!
