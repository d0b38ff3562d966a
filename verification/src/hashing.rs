//! Content hashing for move/rename detection. Full-file hashing of large
//! videos is too slow, so the hash covers the file size plus a bounded head
//! sample: a stable identity that survives a move but changes when the
//! content changes. Reading the sample happens outside the library.

use vstd::prelude::*;

verus! {

/// Bytes of file head folded into the hash (1 MiB).
pub const SAMPLE_BYTES: u64 = 1048576;

/// The BLAKE3 digest of some bytes.
pub uninterp spec fn blake3_of(data: Seq<u8>) -> Seq<u8>;

/// Calls `blake3::hash`. Claimed of it: the result is the named function
/// `blake3_of` of the input, and it is 32 bytes long (`Hash::as_bytes`
/// returns a `[u8; 32]`). Nothing is stated of the digest's bytes.
#[verifier::external_body]
pub(crate) fn blake3_digest(data: &[u8]) -> (r: Vec<u8>)
    ensures
        r@ == blake3_of(data@),
        r@.len() == 32,
{
    blake3::hash(data).as_bytes().to_vec()
}

/// The lower-case hexadecimal digit for `d < 16`.
pub open spec fn hex_digit(d: int) -> char {
    if d < 10 {
        (d + 48) as char
    } else {
        (d - 10 + 97) as char
    }
}

/// Lower-case hexadecimal, two digits per byte, high nibble first
/// (`blake3::Hash::to_hex`).
pub open spec fn hex_lower(b: Seq<u8>) -> Seq<char>
    decreases b.len(),
{
    if b.len() == 0 {
        Seq::empty()
    } else {
        hex_lower(b.drop_last()) + seq![hex_digit((b.last() / 16) as int), hex_digit((b.last() % 16) as int)]
    }
}

fn hex_char(d: u8) -> (c: char)
    requires
        d < 16,
    ensures
        c == hex_digit(d as int),
{
    if d < 10 {
        (d + 48) as char
    } else {
        (d - 10 + 97) as char
    }
}

/// Lower-case hexadecimal of some bytes.
pub fn to_hex(b: &Vec<u8>) -> (r: Vec<char>)
    ensures
        r@ == hex_lower(b@),
        r@.len() == 2 * b@.len(),
{
    let mut out: Vec<char> = Vec::new();
    let mut i: usize = 0;
    assert(b@.take(0) =~= Seq::<u8>::empty());
    while i < b.len()
        invariant
            i <= b.len(),
            out@ == hex_lower(b@.take(i as int)),
            out@.len() == 2 * i,
        decreases b.len() - i,
    {
        let x = b[i];
        out.push(hex_char(x / 16));
        out.push(hex_char(x % 16));
        assert(b@.take(i + 1).drop_last() =~= b@.take(i as int));
        assert(b@.take(i + 1).last() == x);
        assert(out@ =~= hex_lower(b@.take(i + 1)));
        i += 1;
    }
    assert(b@.take(b.len() as int) =~= b@);
    out
}

/// The `n` low-order bytes of `x`, least significant first.
pub open spec fn le_bytes(x: nat, n: nat) -> Seq<u8>
    decreases n,
{
    if n == 0 {
        Seq::empty()
    } else {
        seq![(x % 256) as u8] + le_bytes(x / 256, (n - 1) as nat)
    }
}

/// `u64::to_le_bytes`.
pub fn le_bytes_of(x: u64) -> (r: Vec<u8>)
    ensures
        r@ == le_bytes(x as nat, 8),
{
    let mut out: Vec<u8> = Vec::new();
    let mut v: u64 = x;
    let mut i: usize = 0;
    while i < 8
        invariant
            i <= 8,
            out@ + le_bytes(v as nat, (8 - i) as nat) == le_bytes(x as nat, 8),
        decreases 8 - i,
    {
        let ghost before = out@;
        let b = (v % 256) as u8;
        assert(le_bytes(v as nat, (8 - i) as nat) == seq![b] + le_bytes(
            (v / 256) as nat,
            (8 - i - 1) as nat,
        ));
        out.push(b);
        assert(out@ + le_bytes((v / 256) as nat, (8 - i - 1) as nat) =~= before + (seq![b]
            + le_bytes((v / 256) as nat, (8 - i - 1) as nat)));
        v = v / 256;
        i += 1;
    }
    assert(out@ + le_bytes(v as nat, 0) =~= out@);
    out
}

/// The content hash of a file of `size` bytes whose head sample is
/// `sample`: BLAKE3 over the size's little-endian bytes followed by the
/// sample, in lower-case hexadecimal.
pub open spec fn content_hash_spec(size: u64, sample: Seq<u8>) -> Seq<char> {
    hex_lower(blake3_of(le_bytes(size as nat, 8) + sample))
}

/// BLAKE3 over `size` + the head sample, as a hex string.
pub fn content_hash_of(size: u64, sample: &[u8]) -> (r: String)
    ensures
        r@ == content_hash_spec(size, sample@),
        r@.len() == 64,
{
    let mut data = le_bytes_of(size);
    let mut i: usize = 0;
    let ghost start = data@;
    while i < sample.len()
        invariant
            i <= sample@.len(),
            data@ == start + sample@.take(i as int),
        decreases sample.len() - i,
    {
        data.push(sample[i]);
        assert(data@ =~= start + sample@.take(i + 1));
        i += 1;
    }
    assert(sample@.take(sample@.len() as int) =~= sample@);
    let digest = blake3_digest(data.as_slice());
    let hex = to_hex(&digest);
    crate::text::string_of(&hex)
}

/// Whether the head sample still needs bytes after `read_total` were read.
pub fn sample_needs_more(read_total: u64) -> (r: bool)
    ensures
        r == (read_total < SAMPLE_BYTES),
{
    read_total < SAMPLE_BYTES
}


/// Hexadecimal text has two characters per byte: byte `i` gives characters
/// `2i` (its high nibble) and `2i + 1` (its low nibble), each a digit `0`-`9`
/// or a lower-case letter `a`-`f`.
pub proof fn law_hex_pairs(b: Seq<u8>, i: int)
    requires
        0 <= i < b.len(),
    ensures
        hex_lower(b).len() == 2 * b.len(),
        hex_lower(b)[2 * i] == hex_digit((b[i] / 16) as int),
        hex_lower(b)[2 * i + 1] == hex_digit((b[i] % 16) as int),
        b[i] / 16 < 10 ==> hex_lower(b)[2 * i] as int == '0' as int + b[i] / 16,
        b[i] / 16 >= 10 ==> hex_lower(b)[2 * i] as int == 'a' as int + b[i] / 16 - 10,
        b[i] % 16 < 10 ==> hex_lower(b)[2 * i + 1] as int == '0' as int + b[i] % 16,
        b[i] % 16 >= 10 ==> hex_lower(b)[2 * i + 1] as int == 'a' as int + b[i] % 16 - 10,
    decreases b.len(),
{
    lemma_hex_len(b);
    if i < b.len() - 1 {
        law_hex_pairs(b.drop_last(), i);
        lemma_hex_len(b.drop_last());
    }
}

proof fn lemma_hex_len(b: Seq<u8>)
    ensures
        hex_lower(b).len() == 2 * b.len(),
    decreases b.len(),
{
    if b.len() > 0 {
        lemma_hex_len(b.drop_last());
    }
}

} // verus!
