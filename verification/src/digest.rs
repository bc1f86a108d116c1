//! Content digests.

use vstd::prelude::*;

verus! {

/// The BLAKE3 digest of `bytes`.
pub uninterp spec fn blake3_digest(bytes: Seq<u8>) -> Seq<u8>;

/// `blake3::hash`, as the bytes of the hash. The digest depends on the bytes
/// alone; nothing else is claimed of it, in particular not that two different
/// inputs have different digests.
#[verifier::external_body]
pub(crate) fn digest(bytes: &[u8]) -> (hash: [u8; 32])
    ensures
        hash@ == blake3_digest(bytes@),
{
    *blake3::hash(bytes).as_bytes()
}

/// The lower-case character that writes one hexadecimal digit.
pub open spec fn hex_digit(d: nat) -> char {
    if d < 10 {
        ('0' as u32 + d) as char
    } else {
        ('a' as u32 + (d - 10)) as char
    }
}

/// The bytes in hexadecimal, two lower-case digits for each.
pub open spec fn hex(bytes: Seq<u8>) -> Seq<char>
    decreases bytes.len(),
{
    if bytes.len() == 0 {
        seq![]
    } else {
        hex(bytes.drop_last()).push(hex_digit(bytes.last() as nat / 16)).push(
            hex_digit(bytes.last() as nat % 16),
        )
    }
}

/// The digest of `bytes` in hexadecimal, as manifests write it.
pub open spec fn content_hash(bytes: Seq<u8>) -> Seq<char> {
    hex(blake3_digest(bytes))
}

pub fn hex_char(d: u8) -> (c: char)
    requires
        d < 16,
    ensures
        c == hex_digit(d as nat),
{
    if d < 10 {
        (48u8 + d) as char
    } else {
        (87u8 + d) as char
    }
}

/// The first `count` bytes in hexadecimal.
pub fn hex_text(bytes: &[u8], count: usize) -> (text: String)
    requires
        count <= bytes@.len(),
    ensures
        text@ == hex(bytes@.take(count as int)),
{
    let mut text = String::new();
    let mut i: usize = 0;
    while i < count
        invariant
            i <= count <= bytes@.len(),
            text@ == hex(bytes@.take(i as int)),
        decreases count - i,
    {
        text.push(hex_char(bytes[i] / 16));
        text.push(hex_char(bytes[i] % 16));
        assert(bytes@.take(i + 1).drop_last() =~= bytes@.take(i as int));
        i = i + 1;
    }
    text
}

/// The digest of `bytes` in hexadecimal.
pub fn hash_text(bytes: &[u8]) -> (text: String)
    ensures
        text@ == content_hash(bytes@),
{
    let hash = digest(bytes);
    let text = hex_text(hash.as_slice(), 32);
    assert(hash@.take(32) =~= hash@);
    text
}

pub proof fn lemma_hex_len(bytes: Seq<u8>)
    ensures
        hex(bytes).len() == 2 * bytes.len(),
    decreases bytes.len(),
{
    if bytes.len() > 0 {
        lemma_hex_len(bytes.drop_last());
    }
}

/// The number that a hexadecimal digit of either case stands for.
pub open spec fn hex_value(c: char) -> int {
    if '0' <= c <= '9' {
        c as int - '0' as int
    } else if 'a' <= c <= 'f' {
        c as int - 'a' as int + 10
    } else if 'A' <= c <= 'F' {
        c as int - 'A' as int + 10
    } else {
        -1
    }
}

/// Bytes in hexadecimal are two lower-case digits for each byte, which stand for the
/// byte. A content hash is the whole digest of the content, written like that.
pub proof fn law_hexadecimal_stands_for_its_bytes(bytes: Seq<u8>, i: int)
    requires
        0 <= i < bytes.len(),
    ensures
        hex(bytes).len() == 2 * bytes.len(),
        hex_value(hex(bytes)[2 * i]) * 16 + hex_value(hex(bytes)[2 * i + 1]) == bytes[i],
        !('A' <= hex(bytes)[2 * i] <= 'F'),
        !('A' <= hex(bytes)[2 * i + 1] <= 'F'),
        content_hash(bytes) == hex(blake3_digest(bytes)),
    decreases bytes.len(),
{
    lemma_hex_len(bytes);
    lemma_hex_len(bytes.drop_last());
    let n = bytes.len() - 1;
    if i < n {
        law_hexadecimal_stands_for_its_bytes(bytes.drop_last(), i);
        assert(hex(bytes)[2 * i] == hex(bytes.drop_last())[2 * i]);
        assert(hex(bytes)[2 * i + 1] == hex(bytes.drop_last())[2 * i + 1]);
    } else {
        let b = bytes.last() as nat;
        assert(hex(bytes)[2 * n] == hex_digit(b / 16));
        assert(hex(bytes)[2 * n + 1] == hex_digit(b % 16));
        assert(b == 16 * (b / 16) + b % 16);
    }
}

} // verus!
