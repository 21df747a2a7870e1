//! Caller identity: validation of workspace and subject identifiers, JWT
//! shape and encodings, bearer-token resolution and workspace access.

use vstd::prelude::*;
use vstd::utf8::encode_utf8;
use crate::text::{
    ascii_alnum, blank, chars_of, contains_char, is_ascii_alnum, is_blank, owned, split_chars,
    split_on,
};

verus! {

/// Characters allowed in a workspace id: ASCII letters, digits, `-`, `_`, `.`.
pub open spec fn is_workspace_id_char(c: char) -> bool {
    is_ascii_alnum(c) || c == '-' || c == '_' || c == '.'
}

/// Why a workspace id is refused, or `None` when it is accepted: it must not
/// be blank, must be at most 128 bytes of UTF-8, must hold no NUL and only
/// the allowed characters. The first failing rule names the error.
pub open spec fn workspace_id_error(s: Seq<char>) -> Option<Seq<char>> {
    if blank(s) {
        Some("workspace_id must be non-empty"@)
    } else if encode_utf8(s).len() > 128 {
        Some("workspace_id must be at most 128 characters"@)
    } else if s.contains('\0') {
        Some("workspace_id must not contain null bytes"@)
    } else if exists|i: int| 0 <= i < s.len() && !is_workspace_id_char(#[trigger] s[i]) {
        Some("workspace_id may contain only ASCII letters, digits, '-', '_', and '.'"@)
    } else {
        None
    }
}

/// Checks a workspace id before it names a directory or a registry.
pub fn validate_workspace_id(workspace_id: &str) -> (r: Result<(), String>)
    ensures
        match r {
            Ok(()) => workspace_id_error(workspace_id@) is None,
            Err(m) => workspace_id_error(workspace_id@) == Some(m@),
        },
{
    let v = chars_of(workspace_id);
    if is_blank(v.as_slice()) {
        return Err(owned("workspace_id must be non-empty"));
    }
    if workspace_id.as_bytes().len() > 128 {
        return Err(owned("workspace_id must be at most 128 characters"));
    }
    if contains_char(v.as_slice(), '\0') {
        return Err(owned("workspace_id must not contain null bytes"));
    }
    let n = v.len();
    let mut i: usize = 0;
    while i < n
        invariant
            n == v@.len(),
            v@ == workspace_id@,
            !blank(v@),
            encode_utf8(v@).len() <= 128,
            !v@.contains('\0'),
            i <= n,
            forall|j: int| 0 <= j < i ==> is_workspace_id_char(#[trigger] v@[j]),
        decreases n - i,
    {
        let ch = v[i];
        if !(ascii_alnum(ch) || ch == '-' || ch == '_' || ch == '.') {
            assert(!is_workspace_id_char(v@[i as int]));
            return Err(owned("workspace_id may contain only ASCII letters, digits, '-', '_', and '.'"));
        }
        i = i + 1;
    }
    Ok(())
}

/// Why a subject id is refused, or `None` when it is accepted: not blank,
/// at most 256 bytes of UTF-8, no NUL.
pub open spec fn subject_id_error(s: Seq<char>) -> Option<Seq<char>> {
    if blank(s) {
        Some("subject_id must be non-empty"@)
    } else if encode_utf8(s).len() > 256 {
        Some("subject_id must be at most 256 characters"@)
    } else if s.contains('\0') {
        Some("subject_id must not contain null bytes"@)
    } else {
        None
    }
}

/// Checks a caller's subject id.
pub fn validate_subject_id(subject_id: &str) -> (r: Result<(), String>)
    ensures
        match r {
            Ok(()) => subject_id_error(subject_id@) is None,
            Err(m) => subject_id_error(subject_id@) == Some(m@),
        },
{
    let v = chars_of(subject_id);
    if is_blank(v.as_slice()) {
        return Err(owned("subject_id must be non-empty"));
    }
    if subject_id.as_bytes().len() > 256 {
        return Err(owned("subject_id must be at most 256 characters"));
    }
    if contains_char(v.as_slice(), '\0') {
        return Err(owned("subject_id must not contain null bytes"));
    }
    Ok(())
}

/// A JWT is three non-empty dot-separated parts.
pub open spec fn jwt_shaped(s: Seq<char>) -> bool {
    let parts = split_on(s, '.');
    parts.len() == 3 && parts[0].len() > 0 && parts[1].len() > 0 && parts[2].len() > 0
}

/// Whether a bearer token has the shape of a JWT.
pub fn is_jwt_shaped(token: &str) -> (b: bool)
    ensures
        b == jwt_shaped(token@),
{
    let v = chars_of(token);
    let parts = split_chars(v.as_slice(), '.');
    if parts.len() != 3 {
        return false;
    }
    assert(parts@[0]@ == split_on(token@, '.')[0]);
    assert(parts@[1]@ == split_on(token@, '.')[1]);
    assert(parts@[2]@ == split_on(token@, '.')[2]);
    parts[0].len() > 0 && parts[1].len() > 0 && parts[2].len() > 0
}

/// An ASCII hexadecimal digit.
pub open spec fn is_hex_byte(b: u8) -> bool {
    (48 <= b <= 57) || (97 <= b <= 102) || (65 <= b <= 70)
}

/// The value of a hexadecimal digit.
pub open spec fn nibble_value(b: u8) -> u8 {
    if 48 <= b <= 57 {
        (b - 48) as u8
    } else if 97 <= b <= 102 {
        (b - 87) as u8
    } else {
        (b - 55) as u8
    }
}

/// Decodes one hexadecimal digit, either case.
pub fn hex_nibble(byte: u8) -> (r: Result<u8, String>)
    ensures
        match r {
            Ok(v) => is_hex_byte(byte) && v == nibble_value(byte) && v < 16,
            Err(m) => !is_hex_byte(byte) && m@ == "hex input contains a non-hex character"@,
        },
{
    if 48 <= byte && byte <= 57 {
        Ok(byte - 48)
    } else if 97 <= byte && byte <= 102 {
        Ok(byte - 87)
    } else if 65 <= byte && byte <= 70 {
        Ok(byte - 55)
    } else {
        Err(owned("hex input contains a non-hex character"))
    }
}

/// Hex decoding of the UTF-8 bytes of the input: an even number of hex
/// digits, two per output byte, high digit first.
pub open spec fn hex_decoded(b: Seq<u8>) -> Result<Seq<u8>, Seq<char>> {
    if b.len() % 2 != 0 {
        Err("hex input must have an even number of digits"@)
    } else if exists|i: int| 0 <= i < b.len() && !is_hex_byte(#[trigger] b[i]) {
        Err("hex input contains a non-hex character"@)
    } else {
        Ok(Seq::new(b.len() / 2, |k: int| (nibble_value(b[2 * k]) * 16 + nibble_value(b[2 * k + 1])) as u8))
    }
}

pub open spec fn result_bytes_view(r: Result<Vec<u8>, String>) -> Result<Seq<u8>, Seq<char>> {
    match r {
        Ok(v) => Ok(v@),
        Err(m) => Err(m@),
    }
}

/// Decodes hexadecimal text, e.g. a verification key.
pub fn hex_decode(input: &str) -> (r: Result<Vec<u8>, String>)
    ensures
        result_bytes_view(r) == hex_decoded(encode_utf8(input@)),
{
    let bytes = input.as_bytes();
    if bytes.len() % 2 != 0 {
        return Err(owned("hex input must have an even number of digits"));
    }
    let n = bytes.len();
    let mut out: Vec<u8> = Vec::new();
    let mut i: usize = 0;
    while i < n
        invariant
            n == bytes@.len(),
            bytes@ == encode_utf8(input@),
            n % 2 == 0,
            i % 2 == 0,
            i <= n,
            forall|j: int| 0 <= j < i ==> is_hex_byte(#[trigger] bytes@[j]),
            out@.len() == i / 2,
            forall|k: int| 0 <= k < out@.len() ==> #[trigger] out@[k] == (nibble_value(bytes@[2 * k]) * 16 + nibble_value(bytes@[2 * k + 1])) as u8,
        decreases n - i,
    {
        let hi = match hex_nibble(bytes[i]) {
            Ok(v) => v,
            Err(m) => {
                return Err(m);
            },
        };
        let lo = match hex_nibble(bytes[i + 1]) {
            Ok(v) => v,
            Err(m) => {
                return Err(m);
            },
        };
        let byte: u8 = (hi << 4) | lo;
        assert(byte == (hi * 16 + lo) as u8) by (bit_vector)
            requires
                hi < 16,
                lo < 16,
                byte == (hi << 4) | lo,
        ;
        out.push(byte);
        i = i + 2;
    }
    assert(out@ =~= Seq::new((n / 2) as nat, |k: int| (nibble_value(bytes@[2 * k]) * 16 + nibble_value(bytes@[2 * k + 1])) as u8));
    Ok(out)
}

} // verus!

verus! {

/// The value of a base64url (RFC 4648 §5) alphabet character.
pub open spec fn b64_value(c: char) -> Option<u8> {
    if 'A' <= c <= 'Z' {
        Some(((c as u32) - 65) as u8)
    } else if 'a' <= c <= 'z' {
        Some(((c as u32) - 97 + 26) as u8)
    } else if '0' <= c <= '9' {
        Some(((c as u32) - 48 + 52) as u8)
    } else if c == '-' {
        Some(62u8)
    } else if c == '_' {
        Some(63u8)
    } else {
        None
    }
}

/// The sextet at index `k`, or zero past the end.
pub open spec fn sextet_at(v: Seq<u8>, k: int) -> nat {
    if 0 <= k < v.len() {
        v[k] as nat
    } else {
        0
    }
}

/// The 24-bit value of group `g` of four sextets; missing trailing sextets
/// count as zero.
pub open spec fn group_value(v: Seq<u8>, g: int) -> nat {
    sextet_at(v, 4 * g) * 262144 + sextet_at(v, 4 * g + 1) * 4096 + sextet_at(v, 4 * g + 2) * 64
        + sextet_at(v, 4 * g + 3)
}

/// Output length for `n` sextets: three bytes per full group, one for a
/// trailing pair and two for a trailing triple.
pub open spec fn decoded_len(n: nat) -> nat {
    (n / 4) * 3 + if n % 4 == 2 {
        1nat
    } else if n % 4 == 3 {
        2nat
    } else {
        0nat
    }
}

/// Byte `j` of the decoding: byte `j % 3`, most significant first, of group `j / 3`.
pub open spec fn decoded_byte(v: Seq<u8>, j: int) -> u8 {
    let d: nat = if j % 3 == 0 {
        65536
    } else if j % 3 == 1 {
        256
    } else {
        1
    };
    ((group_value(v, j / 3) / d) % 256) as u8
}

pub open spec fn decode_sextets(v: Seq<u8>) -> Seq<u8> {
    Seq::new(decoded_len(v.len()), |j: int| decoded_byte(v, j))
}

/// Unpadded base64url decoding of a JWT segment; `=` padding, characters
/// outside the alphabet and a length of one more than a multiple of four
/// are refused, in that order of precedence.
pub open spec fn base64url_decoded(s: Seq<char>) -> Result<Seq<u8>, Seq<char>> {
    if s.len() == 0 {
        Ok(Seq::empty())
    } else if s.contains('=') {
        Err("base64url input must not include '=' padding"@)
    } else if exists|i: int| 0 <= i < s.len() && (#[trigger] b64_value(s[i])) is None {
        Err("base64url input contains invalid characters"@)
    } else if s.len() % 4 == 1 {
        Err("base64url input has invalid length"@)
    } else {
        Ok(decode_sextets(Seq::new(s.len(), |i: int| b64_value(s[i])->0)))
    }
}

proof fn lemma_group_bits(a: u32, b: u32, c: u32, d: u32, n: u32)
    by (bit_vector)
    requires
        a < 64,
        b < 64,
        c < 64,
        d < 64,
        n == (a << 18) | (b << 12) | (c << 6) | d,
    ensures
        n == a * 262144 + b * 4096 + c * 64 + d,
        (n >> 16) & 0xff == (n / 65536) % 256,
        (n >> 8) & 0xff == (n / 256) % 256,
        n & 0xff == n % 256,
        n < 16777216,
{
}

fn b64_char_value(ch: char) -> (r: Option<u8>)
    ensures
        r == b64_value(ch),
{
    if 'A' <= ch && ch <= 'Z' {
        Some(((ch as u32) - 65) as u8)
    } else if 'a' <= ch && ch <= 'z' {
        Some(((ch as u32) - 97 + 26) as u8)
    } else if '0' <= ch && ch <= '9' {
        Some(((ch as u32) - 48 + 52) as u8)
    } else if ch == '-' {
        Some(62)
    } else if ch == '_' {
        Some(63)
    } else {
        None
    }
}

/// Decodes one unpadded base64url segment of a JWT.
pub fn base64url_decode(input: &str) -> (r: Result<Vec<u8>, String>)
    ensures
        result_bytes_view(r) == base64url_decoded(input@),
{
    let v = chars_of(input);
    if v.len() == 0 {
        let empty: Vec<u8> = Vec::new();
        assert(empty@ =~= Seq::<u8>::empty());
        return Ok(empty);
    }
    if contains_char(v.as_slice(), '=') {
        return Err(owned("base64url input must not include '=' padding"));
    }
    let n = v.len();
    let mut sx: Vec<u8> = Vec::new();
    let mut i: usize = 0;
    while i < n
        invariant
            n == v@.len(),
            v@ == input@,
            n > 0,
            !v@.contains('='),
            i <= n,
            sx@.len() == i,
            forall|k: int| 0 <= k < i ==> (#[trigger] b64_value(v@[k])) is Some && sx@[k] == b64_value(v@[k])->0,
        decreases n - i,
    {
        match b64_char_value(v[i]) {
            Some(x) => {
                sx.push(x);
            },
            None => {
                return Err(owned("base64url input contains invalid characters"));
            },
        }
        i = i + 1;
    }
    let ghost s = Seq::new(input@.len(), |k: int| b64_value(input@[k])->0);
    assert(sx@ =~= s);
    if n % 4 == 1 {
        return Err(owned("base64url input has invalid length"));
    }
    let mut out: Vec<u8> = Vec::new();
    let mut g: usize = 0;
    while n - g >= 4
        invariant
            n == sx@.len(),
            forall|k: int| 0 <= k < n ==> #[trigger] sx@[k] < 64,
            g % 4 == 0,
            g <= n,
            out@.len() == (g / 4) * 3,
            forall|j: int| 0 <= j < out@.len() ==> #[trigger] out@[j] == decoded_byte(sx@, j),
        decreases n - g,
    {
        let a = sx[g] as u32;
        let b = sx[g + 1] as u32;
        let c = sx[g + 2] as u32;
        let d = sx[g + 3] as u32;
        let x: u32 = (a << 18) | (b << 12) | (c << 6) | d;
        proof {
            lemma_group_bits(a, b, c, d, x);
            let gi = (g / 4) as int;
            assert(4 * gi == g);
            assert(group_value(sx@, gi) == x);
        }
        let ghost base = out@.len() as int;
        out.push(((x >> 16) & 0xff) as u8);
        out.push(((x >> 8) & 0xff) as u8);
        out.push((x & 0xff) as u8);
        proof {
            let gi = (g / 4) as int;
            assert(base == 3 * gi);
            assert((base) / 3 == gi && (base) % 3 == 0);
            assert((base + 1) / 3 == gi && (base + 1) % 3 == 1);
            assert((base + 2) / 3 == gi && (base + 2) % 3 == 2);
        }
        g = g + 4;
    }
    let rem = n - g;
    if rem == 2 {
        let a = sx[g] as u32;
        let b = sx[g + 1] as u32;
        let x: u32 = (a << 18) | (b << 12) | (0u32 << 6) | 0u32;
        proof {
            lemma_group_bits(a, b, 0, 0, x);
            let gi = (g / 4) as int;
            assert(4 * gi == g);
            assert(group_value(sx@, gi) == x);
            let base = out@.len() as int;
            assert(base == 3 * gi);
            assert((base) / 3 == gi && (base) % 3 == 0);
        }
        out.push(((x >> 16) & 0xff) as u8);
    } else if rem == 3 {
        let a = sx[g] as u32;
        let b = sx[g + 1] as u32;
        let c = sx[g + 2] as u32;
        let x: u32 = (a << 18) | (b << 12) | (c << 6) | 0u32;
        proof {
            lemma_group_bits(a, b, c, 0, x);
            let gi = (g / 4) as int;
            assert(4 * gi == g);
            assert(group_value(sx@, gi) == x);
            let base = out@.len() as int;
            assert(base == 3 * gi);
            assert((base) / 3 == gi && (base) % 3 == 0);
            assert((base + 1) / 3 == gi && (base + 1) % 3 == 1);
        }
        out.push(((x >> 16) & 0xff) as u8);
        out.push(((x >> 8) & 0xff) as u8);
    }
    assert(out@ =~= decode_sextets(sx@));
    Ok(out)
}

} // verus!
