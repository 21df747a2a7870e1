//! FNV-1a content digests, rendered as `fnv1a64:` followed by sixteen
//! lower-case hexadecimal digits.

use vstd::prelude::*;
use crate::text::{digit, digit_char, hex_fixed};

verus! {

pub const FNV_OFFSET_BASIS: u64 = 0xcbf2_9ce4_8422_2325;

pub const FNV_PRIME: u64 = 0x0100_0000_01b3;

/// The FNV-1a 64-bit state after absorbing `bytes`: start from the offset
/// basis, and for every byte xor it in, then multiply by the prime modulo 2^64.
pub open spec fn fnv1a64_state(bytes: Seq<u8>) -> u64
    decreases bytes.len(),
{
    if bytes.len() == 0 {
        FNV_OFFSET_BASIS
    } else {
        vstd::wrapping::u64_specs::wrapping_mul(
            fnv1a64_state(bytes.drop_last()) ^ (bytes.last() as u64),
            FNV_PRIME,
        )
    }
}

/// The rendered digest: `fnv1a64:` and the state as sixteen hex digits.
pub open spec fn fnv1a64_text(bytes: Seq<u8>) -> Seq<char> {
    seq!['f', 'n', 'v', '1', 'a', '6', '4', ':'] + hex_fixed(fnv1a64_state(bytes) as nat, 16)
}

/// Appends the `width` lowest hexadecimal digits of `n`, most significant first.
pub fn push_hex_fixed(s: &mut String, n: u64, width: u32)
    ensures
        final(s)@ == old(s)@ + hex_fixed(n as nat, width as nat),
    decreases width,
{
    if width > 0 {
        push_hex_fixed(s, n / 16, width - 1);
        let c = digit(n % 16);
        s.push(c);
        assert(hex_fixed(n as nat, width as nat) == hex_fixed((n / 16) as nat, (width - 1) as nat).push(
            digit_char((n % 16) as nat),
        ));
        assert(final(s)@ =~= old(s)@ + hex_fixed(n as nat, width as nat));
    } else {
        assert(final(s)@ =~= old(s)@ + hex_fixed(n as nat, width as nat));
    }
}

/// FNV-1a 64-bit digest of `bytes`, e.g. `fnv1a64:cbf29ce484222325` for the
/// empty input.
pub fn fnv1a64(bytes: &[u8]) -> (digest: String)
    ensures
        digest@ == fnv1a64_text(bytes@),
{
    let mut state: u64 = FNV_OFFSET_BASIS;
    let n = bytes.len();
    let mut i: usize = 0;
    while i < n
        invariant
            n == bytes@.len(),
            i <= n,
            state == fnv1a64_state(bytes@.take(i as int)),
        decreases n - i,
    {
        assert(bytes@.take(i as int + 1).drop_last() =~= bytes@.take(i as int));
        state = (state ^ (bytes[i] as u64)).wrapping_mul(FNV_PRIME);
        i = i + 1;
    }
    assert(bytes@.take(n as int) =~= bytes@);
    let mut out = String::new();
    out.push('f');
    out.push('n');
    out.push('v');
    out.push('1');
    out.push('a');
    out.push('6');
    out.push('4');
    out.push(':');
    push_hex_fixed(&mut out, state, 16);
    assert(out@ =~= fnv1a64_text(bytes@));
    out
}

} // verus!

verus! {

/// Lower-case hexadecimal rendering of bytes, two digits per byte, high
/// nibble first.
pub open spec fn hex_lower(b: Seq<u8>) -> Seq<char>
    decreases b.len(),
{
    if b.len() == 0 {
        Seq::empty()
    } else {
        hex_lower(b.drop_last()) + seq![digit_char((b.last() / 16) as nat), digit_char((b.last() % 16) as nat)]
    }
}

/// Renders bytes as lower-case hexadecimal.
pub fn hex_lower_string(b: &[u8]) -> (s: String)
    ensures
        s@ == hex_lower(b@),
{
    let mut s = String::new();
    let n = b.len();
    let mut i: usize = 0;
    while i < n
        invariant
            n == b@.len(),
            i <= n,
            s@ == hex_lower(b@.take(i as int)),
        decreases n - i,
    {
        let byte = b[i];
        let hi = digit((byte / 16) as u64);
        let lo = digit((byte % 16) as u64);
        s.push(hi);
        s.push(lo);
        assert(b@.take(i + 1).drop_last() =~= b@.take(i as int));
        assert(s@ =~= hex_lower(b@.take(i + 1)));
        i = i + 1;
    }
    assert(b@.take(n as int) =~= b@);
    s
}

/// The SHA-256 digest of a byte string.
pub uninterp spec fn sha256_digest(bytes: Seq<u8>) -> Seq<u8>;

/// Calls `sha2::Sha256::digest`: the 32-byte SHA-256 digest of `bytes`,
/// named `sha256_digest`.
#[verifier::external_body]
pub(crate) fn sha256(bytes: &[u8]) -> (d: Vec<u8>)
    ensures
        d@ == sha256_digest(bytes@),
        d@.len() == 32,
{
    <sha2::Sha256 as sha2::Digest>::digest(bytes).to_vec()
}

} // verus!
