//! Hashes of what is written.

use sha2::{Digest, Sha256};
use vstd::prelude::*;
use vstd::string::*;

verus! {

/// The SHA-256 state of the sha2 crate.
#[verifier::external_type_specification]
#[verifier::external_body]
pub struct ExSha256(sha2::Sha256);

/// The bytes that a SHA-256 state has taken in.
pub uninterp spec fn absorbed(hasher: sha2::Sha256) -> Seq<u8>;

/// The SHA-256 digest of bytes.
pub uninterp spec fn sha256(data: Seq<u8>) -> Seq<u8>;

/// `Digest::new` for `Sha256` of sha2: a state that has taken in nothing.
#[verifier::external_body]
fn sha256_new() -> (r: Sha256)
    ensures
        absorbed(r) == Seq::<u8>::empty(),
{
    Sha256::new()
}

/// `Digest::update` for `Sha256` of sha2: the bytes are taken in after those before.
#[verifier::external_body]
fn sha256_update(hasher: &mut Sha256, data: &[u8])
    ensures
        absorbed(*final(hasher)) == absorbed(*old(hasher)) + data@,
{
    hasher.update(data);
}

/// `Digest::finalize` for `Sha256` of sha2: the digest, of 32 bytes, of what was taken in.
#[verifier::external_body]
fn sha256_finalize(hasher: Sha256) -> (r: Vec<u8>)
    ensures
        r@ == sha256(absorbed(hasher)),
        r@.len() == 32,
{
    hasher.finalize().to_vec()
}

/// The hexadecimal digit, in lower case, for a value below sixteen.
pub open spec fn hex_digit(d: int) -> char {
    if d < 10 {
        crate::text::digit(d)
    } else if d == 10 {
        'a'
    } else if d == 11 {
        'b'
    } else if d == 12 {
        'c'
    } else if d == 13 {
        'd'
    } else if d == 14 {
        'e'
    } else {
        'f'
    }
}

/// Bytes in hexadecimal: two digits for each, the high one first.
pub open spec fn hex_text(data: Seq<u8>) -> Seq<char> {
    Seq::new(
        2 * data.len(),
        |i: int| hex_digit(if i % 2 == 0 {
            data[i / 2] as int / 16
        } else {
            data[i / 2] as int % 16
        }),
    )
}

/// `hex::encode`: two lower-case digits for each byte, the high one first.
#[verifier::external_body]
fn hex_encode(data: &[u8]) -> (r: String)
    ensures
        r@ == hex_text(data@),
{
    hex::encode(data)
}

/// The SHA-256 digest of bytes, in hexadecimal.
pub open spec fn hex_digest(data: Seq<u8>) -> Seq<char> {
    hex_text(sha256(data))
}

/// Whether a character is a hexadecimal digit in lower case.
pub open spec fn is_hex_digit(c: char) -> bool {
    '0' <= c <= '9' || 'a' <= c <= 'f'
}

/// A digest is written with hexadecimal digits in lower case, two for each byte.
pub proof fn law_digest_is_hex(data: Seq<u8>)
    ensures
        hex_digest(data).len() == 2 * sha256(data).len(),
        forall|i: int|
            0 <= i < hex_digest(data).len() ==> is_hex_digit(#[trigger] hex_digest(data)[i]),
{
}

/// Hashes what passes through a writer.
pub struct HashingWriter<W> {
    inner: W,
    hasher: Sha256,
}

impl<W> HashingWriter<W> {
    /// The writer that the bytes go to.
    pub closed spec fn target(&self) -> W {
        self.inner
    }

    /// What was written so far.
    pub closed spec fn written(&self) -> Seq<u8> {
        absorbed(self.hasher)
    }

    /// A writer to which nothing was written.
    pub fn new(inner: W) -> (r: Self)
        ensures
            r.target() == inner,
            r.written() == Seq::<u8>::empty(),
    {
        HashingWriter { inner, hasher: sha256_new() }
    }

    /// Takes note that the first `n` bytes of `buf` were written to the inner writer.
    pub fn record(&mut self, buf: &[u8], n: usize)
        requires
            n <= buf@.len(),
        ensures
            final(self).written() == old(self).written() + buf@.take(n as int),
            final(self).target() == old(self).target(),
    {
        let part = &buf[0..n];
        assert(part@ =~= buf@.take(n as int));
        sha256_update(&mut self.hasher, part);
    }

    /// The writer that the bytes go to.
    pub fn inner_mut(&mut self) -> (r: &mut W)
        ensures
            *r == old(self).target(),
            final(self).target() == *final(r),
            final(self).written() == old(self).written(),
    {
        &mut self.inner
    }

    /// The digest of all that was written, in hexadecimal.
    pub fn finalize(self) -> (r: String)
        ensures
            r@ == hex_digest(self.written()),
            r@.len() == 64,
    {
        let digest = sha256_finalize(self.hasher);
        hex_encode(digest.as_slice())
    }
}

impl HashingWriter<Vec<u8>> {
    /// Appends bytes to the vector and takes note of them.
    pub fn write_all(&mut self, buf: &[u8])
        ensures
            final(self).target()@ == old(self).target()@ + buf@,
            final(self).written() == old(self).written() + buf@,
    {
        self.inner.extend_from_slice(buf);
        self.record(buf, buf.len());
        assert(buf@.take(buf@.len() as int) =~= buf@);
    }
}

/// Chunks of bytes, one after another.
pub open spec fn chunks_joined(chunks: Seq<Seq<u8>>) -> Seq<u8>
    decreases chunks.len(),
{
    if chunks.len() == 0 {
        Seq::empty()
    } else {
        chunks_joined(chunks.drop_last()) + chunks.last()
    }
}

/// How bytes are cut into chunks does not matter: a writer to which chunks are written one after
/// another gives the digest of all of them together.
pub proof fn law_chunks_do_not_matter(writers: Seq<HashingWriter<Vec<u8>>>, chunks: Seq<Seq<u8>>)
    requires
        writers.len() == chunks.len() + 1,
        writers[0].written() == Seq::<u8>::empty(),
        forall|i: int|
            0 <= i < chunks.len() ==> writers[i + 1].written() == writers[i].written()
                + #[trigger] chunks[i],
    ensures
        hex_digest(writers.last().written()) == hex_digest(chunks_joined(chunks)),
{
    lemma_chunks(writers, chunks);
}

proof fn lemma_chunks(writers: Seq<HashingWriter<Vec<u8>>>, chunks: Seq<Seq<u8>>)
    requires
        writers.len() == chunks.len() + 1,
        writers[0].written() == Seq::<u8>::empty(),
        forall|i: int|
            0 <= i < chunks.len() ==> writers[i + 1].written() == writers[i].written()
                + #[trigger] chunks[i],
    ensures
        writers.last().written() == chunks_joined(chunks),
    decreases chunks.len(),
{
    if chunks.len() > 0 {
        let before = chunks.drop_last();
        assert forall|i: int| 0 <= i < before.len() implies writers.drop_last()[i + 1].written()
            == writers.drop_last()[i].written() + #[trigger] before[i] by {
            assert(before[i] == chunks[i]);
        }
        lemma_chunks(writers.drop_last(), before);
        let last = chunks.len() - 1;
        assert(writers[last + 1].written() == writers[last].written() + chunks[last]);
    }
}

/// The digest of bytes, in hexadecimal.
pub fn hash_bytes(data: &[u8]) -> (r: String)
    ensures
        r@ == hex_digest(data@),
        r@.len() == 64,
{
    let mut writer: HashingWriter<()> = HashingWriter::new(());
    writer.record(data, data.len());
    assert(Seq::<u8>::empty() + data@.take(data@.len() as int) =~= data@);
    writer.finalize()
}


/// Bytes are told apart by their hexadecimal text, which for bytes one after another is one text
/// after the other.
pub proof fn law_hex(a: Seq<u8>, b: Seq<u8>)
    ensures
        hex_text(a + b) == hex_text(a) + hex_text(b),
        hex_text(a) == hex_text(b) ==> a == b,
{
    let s = hex_text(a + b);
    let t = hex_text(a) + hex_text(b);
    assert forall|i: int| 0 <= i < s.len() implies s[i] == t[i] by {
        if i >= 2 * a.len() {
            let j = i - 2 * a.len();
            assert(j / 2 == i / 2 - a.len());
            assert(j % 2 == i % 2);
        }
    }
    assert(s =~= t);
    if hex_text(a) == hex_text(b) {
        assert(hex_text(a).len() == 2 * a.len());
        assert(hex_text(b).len() == 2 * b.len());
        assert forall|i: int| 0 <= i < a.len() implies a[i] == b[i] by {
            assert(hex_text(a)[2 * i] == hex_text(b)[2 * i]);
            assert(hex_text(a)[2 * i + 1] == hex_text(b)[2 * i + 1]);
            assert((2 * i) / 2 == i && (2 * i + 1) / 2 == i);
            assert((2 * i) % 2 == 0 && (2 * i + 1) % 2 == 1);
            lemma_hex_digits(a[i] as int / 16, b[i] as int / 16);
            lemma_hex_digits(a[i] as int % 16, b[i] as int % 16);
        }
        assert(a =~= b);
    }
}

proof fn lemma_hex_digits(x: int, y: int)
    requires
        0 <= x < 16,
        0 <= y < 16,
        hex_digit(x) == hex_digit(y),
    ensures
        x == y,
{
}

} // verus!
