//! How metadata is written as bytes: each text with its length before it.

use vstd::prelude::*;
use vstd::utf8::*;

use crate::bytes::{byte_range, le_bytes, le_value};
use crate::format::{Metadata, MetadataText};

verus! {

/// The error that bincode gives where bytes do not decode.
#[verifier::external_type_specification]
#[verifier::external_body]
pub struct ExDecodeError(bincode::error::DecodeError);

/// The error that bincode gives where a value does not encode.
#[verifier::external_type_specification]
#[verifier::external_body]
pub struct ExEncodeError(bincode::error::EncodeError);

/// A length as bytes: one byte where it is small, else a mark and the length in as many bytes
/// as the mark says.
pub open spec fn length_bytes(n: nat) -> Seq<u8> {
    if n < 251 {
        seq![n as u8]
    } else if n < 0x1_0000 {
        seq![251u8] + le_bytes(n, 2)
    } else if n < 0x1_0000_0000 {
        seq![252u8] + le_bytes(n, 4)
    } else {
        seq![253u8] + le_bytes(n, 8)
    }
}

/// The length that bytes begin with, and how many bytes it takes.
pub open spec fn length_at(b: Seq<u8>) -> Option<(nat, nat)> {
    if b.len() == 0 {
        None
    } else if b[0] < 251 {
        Some((b[0] as nat, 1))
    } else if b[0] == 251 && b.len() >= 3 {
        Some((le_value(b.subrange(1, 3)), 3))
    } else if b[0] == 252 && b.len() >= 5 {
        Some((le_value(b.subrange(1, 5)), 5))
    } else if b[0] == 253 && b.len() >= 9 {
        Some((le_value(b.subrange(1, 9)), 9))
    } else {
        None
    }
}

/// The texts as bytes, one after another, each with its length before it.
pub open spec fn encoded_texts(texts: Seq<Seq<char>>) -> Seq<u8>
    decreases texts.len(),
{
    if texts.len() == 0 {
        Seq::empty()
    } else {
        let bytes = encode_utf8(texts[0]);
        length_bytes(bytes.len()) + bytes + encoded_texts(texts.drop_first())
    }
}

/// The first `n` byte strings of `b`, each with its length before it, where `b` holds so many.
pub open spec fn frames(b: Seq<u8>, n: nat) -> Option<Seq<Seq<u8>>>
    decreases n,
{
    if n == 0 {
        Some(Seq::empty())
    } else {
        match length_at(b) {
            None => None,
            Some((len, at)) => if at + len > b.len() {
                None
            } else {
                match frames(b.skip((at + len) as int), (n - 1) as nat) {
                    None => None,
                    Some(rest) => Some(seq![b.subrange(at as int, (at + len) as int)] + rest),
                }
            },
        }
    }
}

impl MetadataText {
    /// The texts in the order in which they are written.
    pub open spec fn texts(self) -> Seq<Seq<char>> {
        seq![
            self.name,
            self.version,
            self.entry_module,
            self.erts_version,
            self.erts_hash,
            self.app_hash,
            self.boot_path,
        ]
    }
}

/// How many texts metadata has.
pub const FIELD_COUNT: u64 = 7;

/// The metadata that bytes begin with: seven byte strings, each of them UTF-8.
pub open spec fn decoded(b: Seq<u8>) -> Option<MetadataText> {
    match frames(b, FIELD_COUNT as nat) {
        None => None,
        Some(f) => if forall|i: int| 0 <= i < f.len() ==> valid_utf8(#[trigger] f[i]) {
            Some(
                MetadataText {
                    name: decode_utf8(f[0]),
                    version: decode_utf8(f[1]),
                    entry_module: decode_utf8(f[2]),
                    erts_version: decode_utf8(f[3]),
                    erts_hash: decode_utf8(f[4]),
                    app_hash: decode_utf8(f[5]),
                    boot_path: decode_utf8(f[6]),
                },
            )
        } else {
            None
        },
    }
}

/// `bincode::encode_to_vec` with the standard configuration, on the seven texts in order: for
/// each its length, in the variable form of [`length_bytes`], and its UTF-8 bytes. Encoding
/// texts into a vector does not fail.
#[verifier::external_body]
fn encode_fields(m: &Metadata) -> (r: Result<Vec<u8>, bincode::error::EncodeError>)
    ensures
        r is Ok,
        r matches Ok(b) ==> b@ == encoded_texts(m@.texts()),
{
    let head = (&m.name, &m.version, &m.entry_module);
    let tail = (&m.erts_version, &m.erts_hash, &m.app_hash, &m.boot_path);
    bincode::encode_to_vec((head, tail), bincode::config::standard())
}

/// `bincode::decode_from_slice` with the standard configuration, into seven texts in order,
/// where the bytes hold the seven byte strings that the lengths announce: it succeeds exactly
/// where each of them is UTF-8, and gives their texts. What follows them is left alone.
#[verifier::external_body]
fn decode_fields(b: &[u8]) -> (r: Result<Metadata, bincode::error::DecodeError>)
    requires
        frames(b@, FIELD_COUNT as nat) is Some,
    ensures
        match r {
            Ok(m) => decoded(b@) == Some(m@),
            Err(_) => decoded(b@) is None,
        },
{
    let decoded: Result<([String; 7], usize), _> =
        bincode::decode_from_slice(b, bincode::config::standard());
    decoded.map(|(texts, _)| {
        let [name, version, entry_module, erts_version, erts_hash, app_hash, boot_path] = texts;
        Metadata { name, version, entry_module, erts_version, erts_hash, app_hash, boot_path }
    })
}

/// The metadata as bytes.
pub fn encode(m: &Metadata) -> (r: Vec<u8>)
    ensures
        r@ == encoded_texts(m@.texts()),
{
    match encode_fields(m) {
        Ok(b) => b,
        Err(_) => Vec::new(),
    }
}

proof fn lemma_le_value_bound(b: Seq<u8>)
    ensures
        le_value(b) < byte_range(b.len()),
    decreases b.len(),
{
    if b.len() > 0 {
        lemma_le_value_bound(b.drop_first());
    }
}

proof fn lemma_byte_ranges()
    ensures
        byte_range(2) == 0x1_0000,
        byte_range(4) == 0x1_0000_0000,
        byte_range(8) == 0x1_0000_0000_0000_0000,
{
    reveal_with_fuel(byte_range, 9);
}

proof fn lemma_byte_range_grows(a: nat, b: nat)
    requires
        a <= b,
    ensures
        byte_range(a) <= byte_range(b),
    decreases b,
{
    if a < b {
        lemma_byte_range_grows(a, (b - 1) as nat);
    }
}

fn le_number(data: &[u8], from: usize, to: usize) -> (r: u64)
    requires
        from <= to <= data@.len(),
        to - from <= 8,
    ensures
        r as nat == le_value(data@.subrange(from as int, to as int)),
{
    let mut v: u64 = 0;
    let mut i: usize = to;
    while i > from
        invariant
            from <= i <= to <= data@.len(),
            to - from <= 8,
            v as nat == le_value(data@.subrange(i as int, to as int)),
        decreases i,
    {
        proof {
            let rest = data@.subrange(i as int, to as int);
            let next = data@.subrange(i - 1, to as int);
            assert(next.drop_first() =~= rest);
            lemma_le_value_bound(next);
            lemma_byte_range_grows(next.len(), 8);
            lemma_byte_ranges();
        }
        i = i - 1;
        v = v * 256 + data[i] as u64;
    }
    v
}

fn read_length(b: &[u8], pos: usize) -> (r: Option<(u64, usize)>)
    requires
        pos <= b@.len(),
    ensures
        match r {
            None => length_at(b@.skip(pos as int)) is None,
            Some((len, at)) => length_at(b@.skip(pos as int)) == Some((len as nat, at as nat)) && at
                + pos <= b@.len(),
        },
{
    let ghost rest = b@.skip(pos as int);
    let left: usize = b.len() - pos;
    if left == 0 {
        return None;
    }
    let mark: u8 = b[pos];
    let width: usize = if mark < 251 {
        return Some((mark as u64, 1));
    } else if mark == 251 {
        2
    } else if mark == 252 {
        4
    } else if mark == 253 {
        8
    } else {
        return None;
    };
    if left < 1 + width {
        return None;
    }
    let len: u64 = le_number(b, pos + 1, pos + 1 + width);
    assert(rest.subrange(1, 1 + width) =~= b@.subrange(pos + 1, pos + 1 + width));
    Some((len, 1 + width))
}

/// Whether the bytes hold the seven byte strings that their lengths announce.
fn well_framed(b: &[u8]) -> (r: bool)
    ensures
        r == (frames(b@, FIELD_COUNT as nat) is Some),
{
    let mut pos: usize = 0;
    let mut n: u64 = FIELD_COUNT;
    assert(b@.skip(0) =~= b@);
    while n > 0
        invariant
            pos <= b@.len(),
            (frames(b@, FIELD_COUNT as nat) is Some) == (frames(b@.skip(pos as int), n as nat)
                is Some),
        decreases n,
    {
        match read_length(b, pos) {
            None => {
                return false;
            },
            Some((len, at)) => {
                let left: usize = b.len() - pos - at;
                if len > left as u64 {
                    return false;
                }
                assert(b@.skip(pos as int).skip(at + len) =~= b@.skip(pos + at + len));
                pos = pos + at + len as usize;
                n = n - 1;
            },
        }
    }
    true
}

/// Reads the metadata that bytes begin with.
pub fn decode(b: &[u8]) -> (r: Option<Metadata>)
    ensures
        match r {
            Some(m) => decoded(b@) == Some(m@),
            None => decoded(b@) is None,
        },
{
    if !well_framed(b) {
        return None;
    }
    match decode_fields(b) {
        Ok(m) => Some(m),
        Err(_) => None,
    }
}

/// Whether the length of each text fits in eight bytes.
pub open spec fn lengths_fit(texts: Seq<Seq<char>>) -> bool {
    forall|i: int| 0 <= i < texts.len() ==> encode_utf8(#[trigger] texts[i]).len() <= u64::MAX
}

proof fn lemma_length_round_trip(n: nat, rest: Seq<u8>)
    requires
        n <= u64::MAX,
    ensures
        length_at(length_bytes(n) + rest) == Some((n, length_bytes(n).len())),
{
    let b = length_bytes(n) + rest;
    lemma_byte_ranges();
    if n < 251 {
        assert(b[0] == n);
    } else if n < 0x1_0000 {
        crate::bytes::lemma_le_round_trip(n, 2);
        assert(b.subrange(1, 3) =~= le_bytes(n, 2));
        assert(b[0] == 251);
    } else if n < 0x1_0000_0000 {
        crate::bytes::lemma_le_round_trip(n, 4);
        assert(b.subrange(1, 5) =~= le_bytes(n, 4));
        assert(b[0] == 252);
    } else {
        crate::bytes::lemma_le_round_trip(n, 8);
        assert(b.subrange(1, 9) =~= le_bytes(n, 8));
        assert(b[0] == 253);
    }
}

proof fn lemma_frames_round_trip(texts: Seq<Seq<char>>, rest: Seq<u8>)
    requires
        lengths_fit(texts),
    ensures
        frames(encoded_texts(texts) + rest, texts.len()) == Some(
            Seq::new(texts.len(), |i: int| encode_utf8(texts[i])),
        ),
    decreases texts.len(),
{
    let all = Seq::new(texts.len(), |i: int| encode_utf8(texts[i]));
    if texts.len() == 0 {
        assert(all =~= Seq::empty());
    } else {
        let first = encode_utf8(texts[0]);
        let head = length_bytes(first.len());
        let tail = texts.drop_first();
        let after = encoded_texts(tail) + rest;
        let b = encoded_texts(texts) + rest;
        assert(b =~= head + (first + after));
        lemma_length_round_trip(first.len(), first + after);
        assert forall|i: int| 0 <= i < tail.len() implies encode_utf8(#[trigger] tail[i]).len()
            <= u64::MAX by {
            assert(tail[i] == texts[i + 1]);
        }
        lemma_frames_round_trip(tail, rest);
        let at = head.len() as int;
        assert(b.subrange(at, at + first.len()) =~= first);
        assert(b.skip(at + first.len()) =~= after);
        assert(all =~= seq![first] + Seq::new(tail.len(), |i: int| encode_utf8(tail[i])));
    }
}

/// Metadata is read back from the bytes it was written as, whatever follows them.
pub proof fn law_metadata_round_trip(m: MetadataText, rest: Seq<u8>)
    requires
        lengths_fit(m.texts()),
    ensures
        decoded(encoded_texts(m.texts()) + rest) == Some(m),
{
    let t = m.texts();
    lemma_frames_round_trip(t, rest);
    let f = frames(encoded_texts(t) + rest, FIELD_COUNT as nat)->0;
    assert forall|i: int| 0 <= i < f.len() implies valid_utf8(#[trigger] f[i]) && decode_utf8(f[i])
        == t[i] by {
        encode_utf8_valid_utf8(t[i]);
        encode_utf8_decode_utf8(t[i]);
    }
    assert(decode_utf8(f[0]) == t[0]);
    assert(decode_utf8(f[1]) == t[1]);
    assert(decode_utf8(f[2]) == t[2]);
    assert(decode_utf8(f[3]) == t[3]);
    assert(decode_utf8(f[4]) == t[4]);
    assert(decode_utf8(f[5]) == t[5]);
    assert(decode_utf8(f[6]) == t[6]);
}


/// Texts are written one after another: what is written for some and then others is what is
/// written for each. A short text takes its bytes and one more.
pub proof fn law_texts_in_parts(a: Seq<Seq<char>>, b: Seq<Seq<char>>)
    ensures
        encoded_texts(a + b) == encoded_texts(a) + encoded_texts(b),
        forall|s: Seq<char>|
            encode_utf8(s).len() < 251 ==> encoded_texts(#[trigger] seq![s]) == seq![
                encode_utf8(s).len() as u8,
            ] + encode_utf8(s),
    decreases a.len(),
{
    assert forall|s: Seq<char>| encode_utf8(s).len() < 251 implies encoded_texts(
        #[trigger] seq![s],
    ) == seq![encode_utf8(s).len() as u8] + encode_utf8(s) by {
        assert(seq![s].drop_first() =~= Seq::empty());
        assert(encoded_texts(seq![s].drop_first()) =~= Seq::empty());
        assert(encoded_texts(seq![s]) =~= seq![encode_utf8(s).len() as u8] + encode_utf8(s));
    }
    if a.len() == 0 {
        assert(a + b =~= b);
        assert(encoded_texts(a) + encoded_texts(b) =~= encoded_texts(b));
    } else {
        law_texts_in_parts(a.drop_first(), b);
        assert((a + b).drop_first() =~= a.drop_first() + b);
        assert((a + b)[0] == a[0]);
        assert(encoded_texts(a + b) =~= encoded_texts(a) + encoded_texts(b));
    }
}

/// The order in which the texts of metadata are written.
pub proof fn law_text_order(m: MetadataText)
    ensures
        m.texts().len() == 7,
        m.texts()[0] == m.name,
        m.texts()[1] == m.version,
        m.texts()[2] == m.entry_module,
        m.texts()[3] == m.erts_version,
        m.texts()[4] == m.erts_hash,
        m.texts()[5] == m.app_hash,
        m.texts()[6] == m.boot_path,
{
}

} // verus!
