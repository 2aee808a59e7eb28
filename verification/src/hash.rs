//! Content hashes: the 32 bytes of a SHA-256 digest.

use vstd::prelude::*;

verus! {

/// A SHA-256 digest, by which stored content is found.
#[derive(Clone, Copy, Debug)]
pub struct ContentHash {
    pub bytes: [u8; 32],
}

impl View for ContentHash {
    type V = Seq<u8>;

    open spec fn view(&self) -> Seq<u8> {
        self.bytes@
    }
}

/// The hexadecimal digit for `n`, which is below sixteen.
pub open spec fn hex_digit(n: int) -> char {
    if n < 10 {
        (48 + n) as char
    } else {
        (87 + n) as char
    }
}

/// Bytes in hexadecimal, two digits for each, in lower case.
pub open spec fn hex_text(bytes: Seq<u8>) -> Seq<char> {
    Seq::new(
        2 * bytes.len(),
        |i: int|
            if i % 2 == 0 {
                hex_digit(bytes[i / 2] as int / 16)
            } else {
                hex_digit(bytes[i / 2] as int % 16)
            },
    )
}

/// The number whose eight bytes, the least one first, a digest begins with.
pub open spec fn leading_number(bytes: Seq<u8>) -> int {
    bytes[0] + bytes[1] * 0x100 + bytes[2] * 0x1_0000 + bytes[3] * 0x100_0000 + bytes[4]
        * 0x1_0000_0000 + bytes[5] * 0x100_0000_0000 + bytes[6] * 0x1_0000_0000_0000 + bytes[7]
        * 0x100_0000_0000_0000
}

/// Calls `nono::undo::ContentHash::from_bytes` and shows the result: the display
/// of a content hash is each of its bytes in order as two hexadecimal digits in
/// lower case.
#[verifier::external_body]
fn show_digest(bytes: [u8; 32]) -> (r: String)
    ensures
        r@ == hex_text(bytes@),
{
    nono::undo::ContentHash::from_bytes(bytes).to_string()
}

impl ContentHash {
    /// The digest in hexadecimal, 64 characters long.
    pub fn hex(&self) -> (r: String)
        ensures
            r@ == hex_text(self@),
            r@.len() == 64,
    {
        show_digest(self.bytes)
    }

    /// A short text for the digest.
    pub fn __repr__(&self) -> (r: String)
        ensures
            r@ == "ContentHash("@ + hex_text(self@).take(16) + "...)"@,
    {
        let hex = self.hex();
        let head: &str = hex.as_str().substring_char(0, 16);
        assert(head@ == hex_text(self@).take(16));
        String::from_str("ContentHash(").concat(head).concat("...)")
    }

    /// The digest in hexadecimal.
    pub fn __str__(&self) -> (r: String)
        ensures
            r@ == hex_text(self@),
    {
        self.hex()
    }

    /// A hash of the digest: its first eight bytes, the least one first.
    pub fn __hash__(&self) -> (r: u64)
        ensures
            r == leading_number(self@),
    {
        let b = self.bytes;
        b[0] as u64 + b[1] as u64 * 0x100 + b[2] as u64 * 0x1_0000 + b[3] as u64 * 0x100_0000
            + b[4] as u64 * 0x1_0000_0000 + b[5] as u64 * 0x100_0000_0000 + b[6] as u64
            * 0x1_0000_0000_0000 + b[7] as u64 * 0x100_0000_0000_0000
    }

    /// Whether two digests are the same.
    pub fn __eq__(&self, other: &ContentHash) -> (r: bool)
        ensures
            r == (self@ == other@),
    {
        for i in 0..32usize
            invariant
                forall|j: int| 0 <= j < i ==> self@[j] == other@[j],
        {
            if self.bytes[i] != other.bytes[i] {
                assert(self@[i as int] != other@[i as int]);
                return false;
            }
        }
        assert(self@ =~= other@);
        true
    }
}

proof fn lemma_hex_digit_is_injective(a: int, b: int)
    requires
        0 <= a < 16,
        0 <= b < 16,
        hex_digit(a) == hex_digit(b),
    ensures
        a == b,
{
}

/// The hexadecimal text tells the digest: no two have the same.
pub proof fn lemma_hex_is_injective(a: Seq<u8>, b: Seq<u8>)
    requires
        hex_text(a) == hex_text(b),
    ensures
        a == b,
{
    assert(hex_text(a).len() == 2 * a.len());
    assert(hex_text(b).len() == 2 * b.len());
    assert forall|i: int| 0 <= i < a.len() implies a[i] == b[i] by {
        assert((2 * i) / 2 == i && (2 * i) % 2 == 0);
        assert((2 * i + 1) / 2 == i && (2 * i + 1) % 2 == 1);
        assert(hex_text(a)[2 * i] == hex_digit(a[i] as int / 16));
        assert(hex_text(b)[2 * i] == hex_digit(b[i] as int / 16));
        assert(hex_text(a)[2 * i + 1] == hex_digit(a[i] as int % 16));
        assert(hex_text(b)[2 * i + 1] == hex_digit(b[i] as int % 16));
        lemma_hex_digit_is_injective(a[i] as int / 16, b[i] as int / 16);
        lemma_hex_digit_is_injective(a[i] as int % 16, b[i] as int % 16);
    }
    assert(a =~= b);
}

/// The number whose bytes, the least one first, are `n` bytes of `bytes` from `i` on.
spec fn little_endian(bytes: Seq<u8>, i: int, n: nat) -> int
    decreases n,
{
    if n == 0 {
        0
    } else {
        bytes[i] + 0x100 * little_endian(bytes, i + 1, (n - 1) as nat)
    }
}

proof fn lemma_leading_number(bytes: Seq<u8>)
    ensures
        leading_number(bytes) == little_endian(bytes, 0, 8),
{
    reveal_with_fuel(little_endian, 9);
}

proof fn lemma_little_endian_tells_bytes(a: Seq<u8>, b: Seq<u8>, i: int, n: nat)
    requires
        little_endian(a, i, n) == little_endian(b, i, n),
    ensures
        forall|j: int| i <= j < i + n ==> a[j] == b[j],
    decreases n,
{
    if n > 0 {
        let x = little_endian(a, i + 1, (n - 1) as nat);
        let y = little_endian(b, i + 1, (n - 1) as nat);
        assert(a[i] + 0x100 * x == b[i] + 0x100 * y);
        assert(a[i] == b[i] && x == y);
        lemma_little_endian_tells_bytes(a, b, i + 1, (n - 1) as nat);
    }
}

/// Digests that are the same have the same hash, and digests with the same hash
/// begin with the same eight bytes.
pub proof fn lemma_hash_agrees_with_equality(a: ContentHash, b: ContentHash)
    ensures
        a@ == b@ ==> leading_number(a@) == leading_number(b@),
        leading_number(a@) == leading_number(b@) ==> a@.take(8) == b@.take(8),
{
    if leading_number(a@) == leading_number(b@) {
        lemma_leading_number(a@);
        lemma_leading_number(b@);
        lemma_little_endian_tells_bytes(a@, b@, 0, 8);
        assert(a@.take(8) =~= b@.take(8));
    }
}

} // verus!
