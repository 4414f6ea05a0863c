//! Checksums: finalized digests of a file's contents, and the hash
//! functions that produce them (SHA-256, XXH3 and BLAKE3). A hash function
//! collects the data it is fed and digests all of it on request.

use vstd::prelude::*;
use sha2::Digest;

verus! {

/// The lowercase hexadecimal digit of `n` (below 16).
pub open spec fn hex_digit(n: int) -> char {
    if n < 10 { (48 + n) as char } else { (87 + n) as char }
}

/// Two lowercase hexadecimal digits per byte, most significant first.
pub open spec fn hex_of(bytes: Seq<u8>) -> Seq<char>
    decreases bytes.len(),
{
    if bytes.len() == 0 {
        Seq::empty()
    } else {
        hex_of(bytes.drop_last()) + seq![hex_digit(bytes.last() as int / 16), hex_digit(bytes.last() as int % 16)]
    }
}

/// Calls `hex::encode`, which writes each byte as two lowercase hexadecimal
/// digits, most significant first.
#[verifier::external_body]
fn hex_encode(bytes: &[u8]) -> (r: String)
    ensures
        r@ == hex_of(bytes@),
{
    hex::encode(bytes)
}

/// The SHA-256 digest of `data`.
pub uninterp spec fn sha256_of(data: Seq<u8>) -> Seq<u8>;

/// The 64-bit XXH3 hash (seed 0) of `data`.
pub uninterp spec fn xxh3_64_of(data: Seq<u8>) -> u64;

/// The BLAKE3 hash of `data`.
pub uninterp spec fn blake3_of(data: Seq<u8>) -> Seq<u8>;

/// Calls `sha2::Sha256::digest`; a SHA-256 digest is 32 bytes long.
#[verifier::external_body]
fn sha256_digest(data: &[u8]) -> (r: Vec<u8>)
    ensures
        r@ == sha256_of(data@),
        r@.len() == 32,
{
    sha2::Sha256::digest(data).to_vec()
}

/// Calls `xxhash_rust::xxh3::xxh3_64`.
#[verifier::external_body]
fn xxh3_64(data: &[u8]) -> (r: u64)
    ensures
        r == xxh3_64_of(data@),
{
    xxhash_rust::xxh3::xxh3_64(data)
}

/// Calls `blake3::hash`; a BLAKE3 hash is 32 bytes long.
#[verifier::external_body]
pub(crate) fn blake3_digest(data: &[u8]) -> (r: Vec<u8>)
    ensures
        r@ == blake3_of(data@),
        r@.len() == 32,
{
    blake3::hash(data).as_bytes().to_vec()
}

/// The eight bytes of `v`, most significant first.
pub open spec fn be_bytes(v: u64) -> Seq<u8> {
    Seq::new(8, |i: int| ((v as int / pow256(7 - i)) % 256) as u8)
}

/// 256 to the power `n`.
pub open spec fn pow256(n: int) -> int
    decreases n,
{
    if n <= 0 { 1 } else { 256 * pow256(n - 1) }
}

/// The eight bytes of `v`, most significant first.
pub(crate) fn to_be_bytes(v: u64) -> (r: Vec<u8>)
    ensures
        r@ == be_bytes(v),
{
    let mut r: Vec<u8> = Vec::new();
    let mut i: usize = 0;
    while i < 8
        invariant
            0 <= i <= 8,
            r@.len() == i,
            forall|k: int| 0 <= k < i ==> r@[k] == be_bytes(v)[k],
        decreases 8 - i,
    {
        let shift: u64 = (7 - i as u64) * 8;
        let b = ((v >> shift) & 0xff) as u8;
        proof {
            lemma_shift_byte(v, (7 - i) as u64);
        }
        r.push(b);
        i = i + 1;
    }
    assert(r@ =~= be_bytes(v));
    r
}

/// The byte of `be_bytes(v)` at position `7 - n` is the `n`-th lowest byte of `v`.
proof fn lemma_be_byte(v: u64, n: u64)
    requires
        n < 8,
    ensures
        be_bytes(v)[7 - n] == ((v >> (n * 8)) & 0xff) as u8,
{
    lemma_shift_byte(v, n);
    let i = 7 - n;
    assert(be_bytes(v)[i] == ((v as int / pow256(7 - i)) % 256) as u8);
    assert(7 - i == n as int);
}

/// Different numbers have different big-endian bytes.
pub proof fn lemma_be_bytes_injective(v: u64, w: u64)
    requires
        be_bytes(v) == be_bytes(w),
    ensures
        v == w,
{
    lemma_be_byte(v, 0u64);
    lemma_be_byte(w, 0u64);
    lemma_be_byte(v, 1u64);
    lemma_be_byte(w, 1u64);
    lemma_be_byte(v, 2u64);
    lemma_be_byte(w, 2u64);
    lemma_be_byte(v, 3u64);
    lemma_be_byte(w, 3u64);
    lemma_be_byte(v, 4u64);
    lemma_be_byte(w, 4u64);
    lemma_be_byte(v, 5u64);
    lemma_be_byte(w, 5u64);
    lemma_be_byte(v, 6u64);
    lemma_be_byte(w, 6u64);
    lemma_be_byte(v, 7u64);
    lemma_be_byte(w, 7u64);
    assert(((v >> (0u64 * 8)) & 0xff) as u8 == ((w >> (0u64 * 8)) & 0xff) as u8 && ((v >> (1u64 * 8)) & 0xff) as u8 == ((w >> (1u64 * 8)) & 0xff) as u8 && ((v >> (2u64 * 8)) & 0xff) as u8 == ((w >> (2u64 * 8)) & 0xff) as u8 && ((v >> (3u64 * 8)) & 0xff) as u8 == ((w >> (3u64 * 8)) & 0xff) as u8 && ((v >> (4u64 * 8)) & 0xff) as u8 == ((w >> (4u64 * 8)) & 0xff) as u8 && ((v >> (5u64 * 8)) & 0xff) as u8 == ((w >> (5u64 * 8)) & 0xff) as u8 && ((v >> (6u64 * 8)) & 0xff) as u8 == ((w >> (6u64 * 8)) & 0xff) as u8 && ((v >> (7u64 * 8)) & 0xff) as u8 == ((w >> (7u64 * 8)) & 0xff) as u8 ==> v == w) by (bit_vector);
}

/// Shifting right by `8 * n` bits and masking a byte divides by `256^n`.
proof fn lemma_shift_byte(v: u64, n: u64)
    requires
        n < 8,
    ensures
        ((v >> (n * 8)) & 0xff) as u8 == ((v as int / pow256(n as int)) % 256) as u8,
{
    assert(pow256(0) == 1);
    assert(pow256(1) == 256);
    assert(pow256(2) == 65536);
    assert(pow256(3) == 16777216);
    assert(pow256(4) == 4294967296);
    assert(pow256(5) == 1099511627776);
    assert(pow256(6) == 281474976710656);
    assert(pow256(7) == 72057594037927936);
    if n == 0 {
        assert(((v >> 0u64) & 0xff) as u8 == ((v / 1) % 256) as u8) by (bit_vector);
    } else if n == 1 {
        assert(((v >> 8u64) & 0xff) as u8 == ((v / 256) % 256) as u8) by (bit_vector);
    } else if n == 2 {
        assert(((v >> 16u64) & 0xff) as u8 == ((v / 65536) % 256) as u8) by (bit_vector);
    } else if n == 3 {
        assert(((v >> 24u64) & 0xff) as u8 == ((v / 16777216) % 256) as u8) by (bit_vector);
    } else if n == 4 {
        assert(((v >> 32u64) & 0xff) as u8 == ((v / 4294967296) % 256) as u8) by (bit_vector);
    } else if n == 5 {
        assert(((v >> 40u64) & 0xff) as u8 == ((v / 1099511627776) % 256) as u8) by (bit_vector);
    } else if n == 6 {
        assert(((v >> 48u64) & 0xff) as u8 == ((v / 281474976710656) % 256) as u8) by (bit_vector);
    } else {
        assert(((v >> 56u64) & 0xff) as u8 == ((v / 72057594037927936) % 256) as u8) by (bit_vector);
    }
}

/// A finalized digest: a non-empty sequence of bytes.
#[derive(Debug, PartialEq, Eq, Hash)]
pub struct Checksum {
    bytes: Vec<u8>,
}

/// The error of a checksum made from no bytes at all.
#[derive(Debug, Clone, Copy, PartialEq, Eq, Structural)]
pub struct EmptyChecksum;

impl View for Checksum {
    type V = Seq<u8>;

    closed spec fn view(&self) -> Seq<u8> {
        self.bytes@
    }
}

impl Checksum {
    /// A checksum of the given bytes; fails for no bytes.
    pub fn new(bytes: Vec<u8>) -> (r: Result<Self, EmptyChecksum>)
        ensures
            match r {
                Ok(c) => bytes@.len() > 0 && c@ == bytes@,
                Err(_) => bytes@.len() == 0,
            },
    {
        if bytes.len() == 0 {
            Err(EmptyChecksum)
        } else {
            Ok(Checksum { bytes })
        }
    }

    /// The checksum's bytes as lowercase hexadecimal digits.
    pub fn encode(&self) -> (s: String)
        ensures
            s@ == hex_of(self@),
    {
        hex_encode(self.bytes.as_slice())
    }

    /// The number of bytes of the checksum.
    pub fn len(&self) -> (n: usize)
        ensures
            n == self@.len(),
    {
        self.bytes.len()
    }

    /// The checksum's bytes.
    pub fn as_bytes(&self) -> (b: &[u8])
        ensures
            b@ == self@,
    {
        self.bytes.as_slice()
    }
}

/// A streaming hash function: it is fed data, and digests all the data fed
/// since it was created or reset.
pub trait HashFunction: Sized {
    /// The data fed so far.
    spec fn fed(&self) -> Seq<u8>;

    /// The digest this hash function gives of `data`.
    spec fn digest_of(data: Seq<u8>) -> Seq<u8>;

    /// A hash function that has been fed nothing.
    fn new() -> (h: Self)
        ensures
            h.fed() == Seq::<u8>::empty();

    /// The digest of all the data fed so far.
    fn digest(&mut self) -> (c: Checksum)
        ensures
            c@ == Self::digest_of(old(self).fed()),
            final(self).fed() == old(self).fed();

    /// Feeds `bytes`.
    fn update(&mut self, bytes: &[u8])
        ensures
            final(self).fed() == old(self).fed() + bytes@;

    /// Forgets all the data fed so far.
    fn reset(&mut self)
        ensures
            final(self).fed() == Seq::<u8>::empty();
}

/// Appends `bytes` to `data`.
pub(crate) fn feed(data: &mut Vec<u8>, bytes: &[u8])
    ensures
        final(data)@ == old(data)@ + bytes@,
{
    let mut i: usize = 0;
    while i < bytes.len()
        invariant
            0 <= i <= bytes@.len(),
            data@ == old(data)@ + bytes@.take(i as int),
        decreases bytes@.len() - i,
    {
        data.push(bytes[i]);
        i = i + 1;
        assert(data@ =~= old(data)@ + bytes@.take(i as int));
    }
    assert(bytes@.take(i as int) =~= bytes@);
}

/// SHA-256.
pub struct Sha256 {
    data: Vec<u8>,
}

/// XXH3 with 64-bit output, as eight big-endian bytes.
pub struct Xxh3 {
    data: Vec<u8>,
}

/// BLAKE3.
pub struct Blake3 {
    data: Vec<u8>,
}

impl HashFunction for Sha256 {
    closed spec fn fed(&self) -> Seq<u8> {
        self.data@
    }

    open spec fn digest_of(data: Seq<u8>) -> Seq<u8> {
        sha256_of(data)
    }

    fn new() -> (h: Self) {
        Sha256 { data: Vec::new() }
    }

    fn digest(&mut self) -> (c: Checksum) {
        let d = sha256_digest(self.data.as_slice());
        Checksum { bytes: d }
    }

    fn update(&mut self, bytes: &[u8]) {
        feed(&mut self.data, bytes);
    }

    fn reset(&mut self) {
        self.data = Vec::new();
    }
}

impl HashFunction for Xxh3 {
    closed spec fn fed(&self) -> Seq<u8> {
        self.data@
    }

    open spec fn digest_of(data: Seq<u8>) -> Seq<u8> {
        be_bytes(xxh3_64_of(data))
    }

    fn new() -> (h: Self) {
        Xxh3 { data: Vec::new() }
    }

    fn digest(&mut self) -> (c: Checksum) {
        let v = xxh3_64(self.data.as_slice());
        Checksum { bytes: to_be_bytes(v) }
    }

    fn update(&mut self, bytes: &[u8]) {
        feed(&mut self.data, bytes);
    }

    fn reset(&mut self) {
        self.data = Vec::new();
    }
}

impl HashFunction for Blake3 {
    closed spec fn fed(&self) -> Seq<u8> {
        self.data@
    }

    open spec fn digest_of(data: Seq<u8>) -> Seq<u8> {
        blake3_of(data)
    }

    fn new() -> (h: Self) {
        Blake3 { data: Vec::new() }
    }

    fn digest(&mut self) -> (c: Checksum) {
        let d = blake3_digest(self.data.as_slice());
        Checksum { bytes: d }
    }

    fn update(&mut self, bytes: &[u8]) {
        feed(&mut self.data, bytes);
    }

    fn reset(&mut self) {
        self.data = Vec::new();
    }
}

} // verus!
