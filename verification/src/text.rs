//! Text operations whose results are fixed character by character.

use vstd::prelude::*;
use vstd::string::*;
use vstd::utf8::*;

verus! {

broadcast use {vstd::seq_lib::group_seq_properties};

/// `String::push` of the standard library: the text gains the one character at its end.
pub assume_specification[ String::push ](s: &mut String, c: char)
    ensures
        final(s)@ == old(s)@.push(c),
;

/// The texts that a sequence of strings holds.
pub open spec fn views(v: Seq<String>) -> Seq<Seq<char>> {
    Seq::new(v.len(), |i: int| v[i]@)
}

/// Two texts with the same UTF-8 bytes are the same text.
pub proof fn lemma_encoding_injective(a: Seq<char>, b: Seq<char>)
    requires
        encode_utf8(a) == encode_utf8(b),
    ensures
        a == b,
{
    encode_utf8_decode_utf8(a);
    encode_utf8_decode_utf8(b);
}

/// The bytes of two texts one after another are those of the first and then of the second.
pub proof fn lemma_encoding_concat(a: Seq<char>, b: Seq<char>)
    ensures
        encode_utf8(a + b) == encode_utf8(a) + encode_utf8(b),
    decreases a.len(),
{
    if a.len() == 0 {
        assert(a + b =~= b);
    } else {
        assert((a + b).drop_first() =~= a.drop_first() + b);
        lemma_encoding_concat(a.drop_first(), b);
    }
}

proof fn lemma_scalar_bytes(c: u32)
    by (bit_vector)
    requires
        2 <= c,
    ensures
        c <= 0x7F ==> leading_byte_width_1(c) >= 2,
        leading_byte_width_2(c) >= 2,
        leading_byte_width_3(c) >= 2,
        leading_byte_width_4(c) >= 2,
        last_continuation_byte(c) >= 2,
        second_last_continuation_byte(c) >= 2,
        third_last_continuation_byte(c) >= 2,
{
}

/// A text without the characters 0 and 1 has no such bytes.
pub proof fn lemma_encoding_bytes(s: Seq<char>)
    requires
        forall|i: int| 0 <= i < s.len() ==> (#[trigger] s[i]) as u32 >= 2,
    ensures
        forall|i: int| 0 <= i < encode_utf8(s).len() ==> (#[trigger] encode_utf8(s)[i]) >= 2,
    decreases s.len(),
{
    if s.len() > 0 {
        let rest = s.drop_first();
        assert forall|i: int| 0 <= i < rest.len() implies (#[trigger] rest[i]) as u32 >= 2 by {
            assert(rest[i] == s[i + 1]);
        }
        lemma_encoding_bytes(rest);
        let first = encode_scalar(s[0] as u32);
        assert(s[0] as u32 >= 2);
        lemma_scalar_bytes(s[0] as u32);
        assert forall|i: int| 0 <= i < encode_utf8(s).len() implies (#[trigger] encode_utf8(s)[i])
            >= 2 by {
            if i < first.len() {
                assert(encode_utf8(s)[i] == first[i]);
            } else {
                assert(encode_utf8(s)[i] == encode_utf8(rest)[i - first.len()]);
            }
        }
    }
}

/// Whether two texts are equal.
pub fn same(a: &str, b: &str) -> (r: bool)
    ensures
        r == (a@ == b@),
{
    let x = a.as_bytes();
    let y = b.as_bytes();
    if x.len() != y.len() {
        return false;
    }
    let mut i: usize = 0;
    while i < x.len()
        invariant
            i <= x.len(),
            x.len() == y.len(),
            x@ == encode_utf8(a@),
            y@ == encode_utf8(b@),
            forall|j: int| 0 <= j < i ==> x@[j] == y@[j],
        decreases x.len() - i,
    {
        if x[i] != y[i] {
            return false;
        }
        i = i + 1;
    }
    proof {
        assert(x@ =~= y@);
        lemma_encoding_injective(a@, b@);
    }
    true
}

/// The characters of a text.
pub fn to_chars(s: &str) -> (r: Vec<char>)
    ensures
        r@ == s@,
{
    let mut out: Vec<char> = Vec::new();
    for c in it: s.chars()
        invariant
            out@ == s@.take(it.index() as int),
            it.seq() == s@,
    {
        out.push(c);
        assert(out@ =~= s@.take(it.index() + 1));
    }
    assert(s@.take(s@.len() as int) =~= s@);
    out
}

/// The text made of the characters from `from` up to `to`.
pub fn text_of(chars: &Vec<char>, from: usize, to: usize) -> (r: String)
    requires
        from <= to <= chars@.len(),
    ensures
        r@ == chars@.subrange(from as int, to as int),
{
    let mut out = String::new();
    let mut i: usize = from;
    while i < to
        invariant
            from <= i <= to <= chars@.len(),
            out@ == chars@.subrange(from as int, i as int),
        decreases to - i,
    {
        out.push(chars[i]);
        i = i + 1;
        assert(out@ =~= chars@.subrange(from as int, i as int));
    }
    out
}

/// Whether `s` begins with `prefix`.
pub fn starts_with(s: &str, prefix: &str) -> (r: bool)
    ensures
        r == prefix@.is_prefix_of(s@),
{
    strip_prefix(s, prefix).is_some()
}

/// What follows `prefix` in `s`, where `s` begins with it.
pub fn strip_prefix(s: &str, prefix: &str) -> (r: Option<String>)
    ensures
        r is Some == prefix@.is_prefix_of(s@),
        r matches Some(rest) ==> s@ == prefix@ + rest@,
{
    let x = to_chars(s);
    let p = to_chars(prefix);
    if p.len() > x.len() {
        return None;
    }
    let mut i: usize = 0;
    while i < p.len()
        invariant
            i <= p.len() <= x.len(),
            x@ == s@,
            p@ == prefix@,
            forall|j: int| 0 <= j < i ==> x@[j] == p@[j],
        decreases p.len() - i,
    {
        if p[i] != x[i] {
            assert(prefix@[i as int] != s@[i as int]);
            return None;
        }
        i = i + 1;
    }
    let rest = text_of(&x, p.len(), x.len());
    assert(s@ =~= prefix@ + rest@);
    Some(rest)
}

/// Whether the text holds the character.
pub fn has_char(s: &str, c: char) -> (r: bool)
    ensures
        r == s@.contains(c),
{
    let x = to_chars(s);
    let mut i: usize = 0;
    while i < x.len()
        invariant
            i <= x.len(),
            x@ == s@,
            forall|j: int| 0 <= j < i ==> x@[j] != c,
        decreases x.len() - i,
    {
        if x[i] == c {
            return true;
        }
        i = i + 1;
    }
    false
}

/// The pieces between the characters `a` and `b` of a text, empty ones among them.
pub open spec fn pieces(s: Seq<char>, a: char, b: char) -> Seq<Seq<char>>
    decreases s.len(),
{
    if s.len() == 0 {
        seq![Seq::<char>::empty()]
    } else {
        let before = pieces(s.drop_last(), a, b);
        if s.last() == a || s.last() == b {
            before.push(Seq::<char>::empty())
        } else {
            before.drop_last().push(before.last().push(s.last()))
        }
    }
}

pub proof fn lemma_pieces_some(s: Seq<char>, a: char, b: char)
    ensures
        pieces(s, a, b).len() >= 1,
    decreases s.len(),
{
    if s.len() > 0 {
        lemma_pieces_some(s.drop_last(), a, b);
    }
}

proof fn lemma_one_piece(s: Seq<char>, a: char, b: char)
    requires
        !s.contains(a),
        !s.contains(b),
    ensures
        pieces(s, a, b) == seq![s],
    decreases s.len(),
{
    if s.len() > 0 {
        let rest = s.drop_last();
        assert(s[s.len() - 1] == s.last());
        if rest.contains(a) {
            let i = rest.index_of(a);
            assert(s[i] == a);
        }
        if rest.contains(b) {
            let i = rest.index_of(b);
            assert(s[i] == b);
        }
        lemma_one_piece(rest, a, b);
        assert(rest.push(s.last()) =~= s);
        assert(pieces(s, a, b) =~= seq![s]);
    } else {
        assert(s =~= Seq::empty());
    }
}

/// A text that begins with a piece and a separator splits into the piece and what the rest
/// splits into.
pub proof fn lemma_pieces_split(head: Seq<char>, sep: char, rest: Seq<char>, a: char, b: char)
    requires
        !head.contains(a),
        !head.contains(b),
        sep == a || sep == b,
    ensures
        pieces(head.push(sep) + rest, a, b) == seq![head] + pieces(rest, a, b),
    decreases rest.len(),
{
    let s = head.push(sep) + rest;
    lemma_pieces_some(rest, a, b);
    if rest.len() == 0 {
        lemma_one_piece(head, a, b);
        assert(s.drop_last() =~= head);
        assert(s.last() == sep);
        assert(pieces(rest, a, b) =~= seq![Seq::<char>::empty()]);
        assert(pieces(s, a, b) =~= seq![head] + pieces(rest, a, b));
    } else {
        let before = rest.drop_last();
        lemma_pieces_split(head, sep, before, a, b);
        lemma_pieces_some(before, a, b);
        assert(s.drop_last() =~= head.push(sep) + before);
        assert(s.last() == rest.last());
        assert(pieces(s, a, b) =~= seq![head] + pieces(rest, a, b));
    }
}

/// A text without separators is one piece.
pub proof fn lemma_pieces_whole(s: Seq<char>, a: char, b: char)
    requires
        !s.contains(a),
        !s.contains(b),
    ensures
        pieces(s, a, b) == seq![s],
{
    lemma_one_piece(s, a, b);
}

/// A character that a text does not have makes no difference to its pieces.
pub proof fn lemma_pieces_absent(s: Seq<char>, a: char, b: char)
    requires
        !s.contains(b),
    ensures
        pieces(s, a, b) == pieces(s, a, a),
    decreases s.len(),
{
    if s.len() > 0 {
        let rest = s.drop_last();
        assert(s[s.len() - 1] == s.last());
        assert(!rest.contains(b)) by {
            if rest.contains(b) {
                let i = rest.index_of(b);
                assert(s[i] == b);
            }
        }
        lemma_pieces_absent(rest, a, b);
    }
}

/// No piece has one of the characters that it was cut at, and each of its characters is one of the
/// text.
pub proof fn lemma_piece_chars(s: Seq<char>, a: char, b: char, i: int, j: int)
    requires
        0 <= i < pieces(s, a, b).len(),
        0 <= j < pieces(s, a, b)[i].len(),
    ensures
        s.contains(pieces(s, a, b)[i][j]),
        pieces(s, a, b)[i][j] != a,
        pieces(s, a, b)[i][j] != b,
    decreases s.len(),
{
    if s.len() > 0 {
        let rest = s.drop_last();
        let before = pieces(rest, a, b);
        lemma_pieces_some(rest, a, b);
        assert(s[s.len() - 1] == s.last());
        if i < before.len() && j < before[i].len() {
            lemma_piece_chars(rest, a, b, i, j);
            let k = rest.index_of(before[i][j]);
            assert(s[k] == before[i][j]);
        }
    }
}

/// Splits a text at every occurrence of `a` or `b`.
pub fn split(s: &str, a: char, b: char) -> (r: Vec<String>)
    ensures
        views(r@) == pieces(s@, a, b),
{
    let x = to_chars(s);
    let mut done: Vec<String> = Vec::new();
    let mut current = String::new();
    let mut i: usize = 0;
    assert(s@.take(0) =~= Seq::<char>::empty());
    assert(views(done@).push(current@) =~= pieces(s@.take(0), a, b));
    while i < x.len()
        invariant
            i <= x.len(),
            x@ == s@,
            views(done@).push(current@) == pieces(s@.take(i as int), a, b),
        decreases x.len() - i,
    {
        let c = x[i];
        let ghost before = pieces(s@.take(i as int), a, b);
        let ghost seen = s@.take(i + 1);
        assert(seen.drop_last() =~= s@.take(i as int));
        if c == a || c == b {
            done.push(current);
            current = String::new();
            assert(views(done@) =~= before);
        } else {
            current.push(c);
            assert(before.drop_last() =~= views(done@));
        }
        i = i + 1;
        assert(views(done@).push(current@) =~= pieces(s@.take(i as int), a, b));
    }
    assert(s@.take(s@.len() as int) =~= s@);
    let ghost kept = views(done@);
    let ghost end = current@;
    done.push(current);
    assert(views(done@) =~= kept.push(end));
    done
}

/// Splits a text at the first occurrence of `c`.
pub fn split_once(s: &str, c: char) -> (r: Option<(String, String)>)
    ensures
        r is Some == s@.contains(c),
        r matches Some(parts) ==> !parts.0@.contains(c) && s@ == parts.0@.push(c) + parts.1@,
{
    let x = to_chars(s);
    let mut i: usize = 0;
    while i < x.len()
        invariant
            i <= x.len(),
            x@ == s@,
            forall|j: int| 0 <= j < i ==> x@[j] != c,
        decreases x.len() - i,
    {
        if x[i] == c {
            let head = text_of(&x, 0, i);
            let tail = text_of(&x, i + 1, x.len());
            assert(s@ =~= head@.push(c) + tail@);
            return Some((head, tail));
        }
        i = i + 1;
    }
    None
}

/// The text with `to` in place of every character `from`.
pub open spec fn replaced(s: Seq<char>, from: char, to: Seq<char>) -> Seq<char>
    decreases s.len(),
{
    if s.len() == 0 {
        s
    } else if s.last() == from {
        replaced(s.drop_last(), from, to) + to
    } else {
        replaced(s.drop_last(), from, to).push(s.last())
    }
}

/// Puts `to` in place of every character `from`.
pub fn replace(s: &str, from: char, to: &str) -> (r: String)
    ensures
        r@ == replaced(s@, from, to@),
{
    let x = to_chars(s);
    let mut out = String::new();
    let mut i: usize = 0;
    assert(s@.take(0) =~= Seq::<char>::empty());
    while i < x.len()
        invariant
            i <= x.len(),
            x@ == s@,
            out@ == replaced(s@.take(i as int), from, to@),
        decreases x.len() - i,
    {
        assert(s@.take(i + 1).drop_last() =~= s@.take(i as int));
        if x[i] == from {
            out.append(to);
        } else {
            out.push(x[i]);
        }
        i = i + 1;
    }
    assert(s@.take(s@.len() as int) =~= s@);
    out
}

/// The texts one after another, with `sep` between each two.
pub open spec fn joined(parts: Seq<Seq<char>>, sep: Seq<char>) -> Seq<char>
    decreases parts.len(),
{
    if parts.len() == 0 {
        Seq::empty()
    } else if parts.len() == 1 {
        parts[0]
    } else {
        joined(parts.drop_last(), sep) + sep + parts.last()
    }
}

/// Joins texts with `sep` between each two.
pub fn join(parts: &Vec<String>, sep: &str) -> (r: String)
    ensures
        r@ == joined(views(parts@), sep@),
{
    let mut out = String::new();
    let mut i: usize = 0;
    while i < parts.len()
        invariant
            i <= parts.len(),
            out@ == joined(views(parts@).take(i as int), sep@),
        decreases parts.len() - i,
    {
        let ghost seen = views(parts@).take(i + 1);
        assert(seen.drop_last() =~= views(parts@).take(i as int));
        assert(seen.last() == parts@[i as int]@);
        if i > 0 {
            out.append(sep);
            out.append(parts[i].as_str());
        } else {
            out.append(parts[i].as_str());
            assert(out@ =~= seen[0]);
        }
        i = i + 1;
    }
    assert(views(parts@).take(parts@.len() as int) =~= views(parts@));
    out
}

/// Whether the character has Unicode's `White_Space` property.
pub open spec fn is_white(c: char) -> bool {
    let n = c as u32;
    ||| 0x9 <= n <= 0xD
    ||| n == 0x20
    ||| n == 0x85
    ||| n == 0xA0
    ||| n == 0x1680
    ||| 0x2000 <= n <= 0x200A
    ||| n == 0x2028
    ||| n == 0x2029
    ||| n == 0x202F
    ||| n == 0x205F
    ||| n == 0x3000
}

/// Decides [`is_white`].
pub fn white(c: char) -> (r: bool)
    ensures
        r == is_white(c),
{
    let n: u32 = c as u32;
    (0x9 <= n && n <= 0xD) || n == 0x20 || n == 0x85 || n == 0xA0 || n == 0x1680 || (0x2000 <= n
        && n <= 0x200A) || n == 0x2028 || n == 0x2029 || n == 0x202F || n == 0x205F || n == 0x3000
}

/// The text without the white space at its end.
pub open spec fn end_trimmed(s: Seq<char>) -> Seq<char>
    decreases s.len(),
{
    if s.len() > 0 && is_white(s.last()) {
        end_trimmed(s.drop_last())
    } else {
        s
    }
}

/// The text without the white space at its start.
pub open spec fn start_trimmed(s: Seq<char>) -> Seq<char>
    decreases s.len(),
{
    if s.len() > 0 && is_white(s[0]) {
        start_trimmed(s.drop_first())
    } else {
        s
    }
}

/// Removes the white space at the end.
pub fn trim_end(s: &str) -> (r: String)
    ensures
        r@ == end_trimmed(s@),
{
    let x = to_chars(s);
    let mut n: usize = x.len();
    assert(s@.take(s@.len() as int) =~= s@);
    while n > 0 && white(x[n - 1])
        invariant
            n <= x.len(),
            x@ == s@,
            end_trimmed(s@.take(n as int)) == end_trimmed(s@),
        decreases n,
    {
        assert(s@.take(n as int).drop_last() =~= s@.take(n - 1));
        n = n - 1;
    }
    let r = text_of(&x, 0, n);
    assert(r@ =~= s@.take(n as int));
    r
}

/// Removes the white space at both ends.
pub fn trim(s: &str) -> (r: String)
    ensures
        r@ == end_trimmed(start_trimmed(s@)),
{
    let x = to_chars(s);
    let mut n: usize = 0;
    assert(s@.skip(0) =~= s@);
    while n < x.len() && white(x[n])
        invariant
            n <= x.len(),
            x@ == s@,
            start_trimmed(s@.skip(n as int)) == start_trimmed(s@),
        decreases x.len() - n,
    {
        assert(s@.skip(n as int).drop_first() =~= s@.skip(n + 1));
        n = n + 1;
    }
    let tail = text_of(&x, n, x.len());
    assert(tail@ =~= s@.skip(n as int));
    trim_end(tail.as_str())
}

/// The text without the repetitions of `prefix` that it begins with.
pub open spec fn prefix_trimmed(s: Seq<char>, prefix: Seq<char>) -> Seq<char>
    decreases s.len(),
{
    if prefix.len() > 0 && prefix.is_prefix_of(s) {
        prefix_trimmed(s.skip(prefix.len() as int), prefix)
    } else {
        s
    }
}

/// Removes every repetition of `prefix` at the start.
pub fn trim_start_matches(s: &str, prefix: &str) -> (r: String)
    ensures
        r@ == prefix_trimmed(s@, prefix@),
{
    let mut rest = String::from_str(s);
    if prefix.is_empty() {
        return rest;
    }
    loop
        invariant
            prefix@.len() > 0,
            prefix_trimmed(rest@, prefix@) == prefix_trimmed(s@, prefix@),
        decreases rest@.len(),
    {
        match strip_prefix(rest.as_str(), prefix) {
            Some(next) => {
                assert(rest@.skip(prefix@.len() as int) =~= next@);
                rest = next;
            },
            None => {
                return rest;
            },
        }
    }
}

/// The digit for a value below ten.
pub open spec fn digit(d: int) -> char {
    if d == 0 {
        '0'
    } else if d == 1 {
        '1'
    } else if d == 2 {
        '2'
    } else if d == 3 {
        '3'
    } else if d == 4 {
        '4'
    } else if d == 5 {
        '5'
    } else if d == 6 {
        '6'
    } else if d == 7 {
        '7'
    } else if d == 8 {
        '8'
    } else {
        '9'
    }
}

/// The decimal digits of a number.
pub open spec fn decimal(n: nat) -> Seq<char>
    decreases n,
{
    if n < 10 {
        seq![digit(n as int)]
    } else {
        decimal(n / 10).push(digit((n % 10) as int))
    }
}

fn digit_char(d: u64) -> (c: char)
    requires
        d < 10,
    ensures
        c == digit(d as int),
{
    match d {
        0 => '0',
        1 => '1',
        2 => '2',
        3 => '3',
        4 => '4',
        5 => '5',
        6 => '6',
        7 => '7',
        8 => '8',
        _ => '9',
    }
}

/// Writes a number in decimal.
pub fn decimal_text(n: u64) -> (r: String)
    ensures
        r@ == decimal(n as nat),
    decreases n,
{
    let mut out = if n < 10 {
        String::new()
    } else {
        decimal_text(n / 10)
    };
    out.push(digit_char(n % 10));
    assert(n < 10 ==> out@ =~= seq![digit(n as int)]);
    out
}

/// A number in decimal, with a leading minus sign where it is negative.
pub open spec fn signed_decimal(n: int) -> Seq<char> {
    if n < 0 {
        seq!['-'] + decimal((-n) as nat)
    } else {
        decimal(n as nat)
    }
}

/// Writes a signed number in decimal.
pub fn signed_decimal_text(n: i32) -> (r: String)
    ensures
        r@ == signed_decimal(n as int),
{
    if n < 0 {
        let m: i64 = -(n as i64);
        let mut out = String::new();
        out.push('-');
        out.append(decimal_text(m as u64).as_str());
        assert(out@ =~= seq!['-'] + decimal(m as nat));
        out
    } else {
        decimal_text(n as u64)
    }
}

/// White space is a tab, a line feed, a vertical tab, a form feed, a carriage return, a space or one
/// of the spaces and line breaks beyond ASCII; no character that is seen is.
pub proof fn law_white_space(c: char)
    ensures
        is_white(c) <==> {
            ||| c == '\t' || c == '\n' || c == '\x0b' || c == '\x0c' || c == '\r' || c == ' '
            ||| c == '\u{85}' || c == '\u{a0}' || c == '\u{1680}'
            ||| '\u{2000}' <= c <= '\u{200a}'
            ||| c == '\u{2028}' || c == '\u{2029}' || c == '\u{202f}' || c == '\u{205f}'
            ||| c == '\u{3000}'
        },
        '!' <= c <= '~' ==> !is_white(c),
{
}

pub proof fn lemma_pieces_add(head: Seq<char>, sep: char, piece: Seq<char>, a: char, b: char)
    requires
        !piece.contains(a),
        !piece.contains(b),
        sep == a || sep == b,
    ensures
        pieces(head.push(sep) + piece, a, b) == pieces(head, a, b).push(piece),
    decreases piece.len(),
{
    let s = head.push(sep) + piece;
    if piece.len() == 0 {
        assert(s =~= head.push(sep));
        assert(s.drop_last() =~= head);
        assert(piece =~= Seq::empty());
    } else {
        let rest = piece.drop_last();
        assert(piece.contains(piece.last())) by {
            assert(piece[piece.len() - 1] == piece.last());
        }
        assert(!rest.contains(a) && !rest.contains(b)) by {
            if rest.contains(a) {
                assert(piece[rest.index_of(a)] == a);
            }
            if rest.contains(b) {
                assert(piece[rest.index_of(b)] == b);
            }
        }
        lemma_pieces_add(head, sep, rest, a, b);
        assert(s.drop_last() =~= head.push(sep) + rest);
        assert(s.last() == piece.last());
        assert(rest.push(piece.last()) =~= piece);
        assert(pieces(s, a, b) =~= pieces(head, a, b).push(piece));
    }
}

/// Texts that are joined with a character are what the result is split into at that character,
/// where none of them holds it.
pub proof fn law_join_then_split(parts: Seq<Seq<char>>, sep: char)
    requires
        parts.len() > 0,
        forall|i: int| 0 <= i < parts.len() ==> !(#[trigger] parts[i]).contains(sep),
    ensures
        pieces(joined(parts, seq![sep]), sep, sep) == parts,
    decreases parts.len(),
{
    let last = parts.last();
    assert(last == parts[parts.len() - 1]);
    if parts.len() == 1 {
        lemma_one_piece(parts[0], sep, sep);
        assert(parts =~= seq![parts[0]]);
    } else {
        let before = parts.drop_last();
        assert forall|i: int| 0 <= i < before.len() implies !(#[trigger] before[i]).contains(
            sep,
        ) by {
            assert(before[i] == parts[i]);
        }
        law_join_then_split(before, sep);
        lemma_pieces_add(joined(before, seq![sep]), sep, last, sep, sep);
        assert(joined(parts, seq![sep]) =~= joined(before, seq![sep]).push(sep) + last);
        assert(parts =~= before.push(last));
    }
}

/// What a text is split into at a character gives the text when it is joined with the character,
/// and none of the pieces holds it.
pub proof fn law_split_then_join(s: Seq<char>, sep: char)
    ensures
        joined(pieces(s, sep, sep), seq![sep]) == s,
        pieces(s, sep, sep).len() >= 1,
        forall|i: int|
            0 <= i < pieces(s, sep, sep).len() ==> !(#[trigger] pieces(s, sep, sep)[i]).contains(
                sep,
            ),
    decreases s.len(),
{
    lemma_pieces_some(s, sep, sep);
    let all = pieces(s, sep, sep);
    assert forall|i: int| 0 <= i < all.len() implies !(#[trigger] all[i]).contains(sep) by {
        if all[i].contains(sep) {
            lemma_piece_chars(s, sep, sep, i, all[i].index_of(sep));
        }
    }
    if s.len() == 0 {
        assert(all =~= seq![Seq::<char>::empty()]);
        assert(s =~= Seq::empty());
    } else {
        let rest = s.drop_last();
        law_split_then_join(rest, sep);
        let before = pieces(rest, sep, sep);
        if s.last() == sep {
            assert(all.drop_last() =~= before);
            assert(s =~= joined(before, seq![sep]) + seq![sep] + Seq::<char>::empty());
        } else {
            assert(all.last() == before.last().push(s.last()));
            assert(all.drop_last() =~= before.drop_last());
            if before.len() == 1 {
                assert(all.len() == 1);
                assert(all[0] == before[0].push(s.last()));
                assert(before[0] == rest);
                assert(s =~= rest.push(s.last()));
            } else {
                let head = joined(before.drop_last(), seq![sep]) + seq![sep];
                assert(rest == head + before.last());
                let c = s.last();
                assert(s =~= rest.push(c));
                assert((head + before.last()).push(c) =~= head + before.last().push(c));
            }
        }
    }
}

/// To split at either of two characters is to put the one for the other and split at it.
pub proof fn law_split_at_either(s: Seq<char>, a: char, b: char)
    ensures
        pieces(s, a, b) == pieces(replaced(s, b, seq![a]), a, a),
    decreases s.len(),
{
    if s.len() > 0 {
        law_split_at_either(s.drop_last(), a, b);
        let before = replaced(s.drop_last(), b, seq![a]);
        let all = replaced(s, b, seq![a]);
        if s.last() == b {
            assert(all =~= before.push(a));
        }
        assert(all.drop_last() =~= before);
    }
}

/// What is put for a character is put character by character: it is put for each of two texts
/// one after another, and of one character it is either all or nothing.
pub proof fn law_replaced_in_parts(x: Seq<char>, y: Seq<char>, c: char, from: char, to: Seq<char>)
    ensures
        replaced(x + y, from, to) == replaced(x, from, to) + replaced(y, from, to),
        replaced(seq![c], from, to) == (if c == from {
            to
        } else {
            seq![c]
        }),
    decreases y.len(),
{
    let one = seq![c];
    let none = one.drop_last();
    assert(none =~= Seq::empty());
    assert(replaced(none, from, to) == none);
    assert(none + to =~= to);
    assert(none.push(c) =~= one);
    assert(one.last() == c);
    assert(replaced(one, from, to) =~= if c == from {
        to
    } else {
        one
    });
    if y.len() == 0 {
        assert(x + y =~= x);
        assert(replaced(x + y, from, to) =~= replaced(x, from, to) + replaced(y, from, to));
    } else {
        law_replaced_in_parts(x, y.drop_last(), c, from, to);
        assert((x + y).drop_last() =~= x + y.drop_last());
        assert((x + y).last() == y.last());
        assert(replaced(x + y, from, to) =~= replaced(x, from, to) + replaced(y, from, to));
    }
}

/// One character put for another changes the text in no other place.
pub proof fn law_replaced_by_one(s: Seq<char>, from: char, to: char)
    ensures
        replaced(s, from, seq![to]).len() == s.len(),
        forall|i: int|
            0 <= i < s.len() ==> (#[trigger] replaced(s, from, seq![to])[i]) == (if s[i] == from {
                to
            } else {
                s[i]
            }),
    decreases s.len(),
{
    if s.len() > 0 {
        law_replaced_by_one(s.drop_last(), from, to);
    }
}

/// Whether a text is white space alone.
pub open spec fn all_white(s: Seq<char>) -> bool {
    forall|i: int| 0 <= i < s.len() ==> is_white(#[trigger] s[i])
}

/// Whether a text neither begins nor ends with white space.
pub open spec fn is_trim(s: Seq<char>) -> bool {
    s.len() > 0 ==> !is_white(s[0]) && !is_white(s.last())
}

pub proof fn lemma_end_trimmed(s: Seq<char>, space: Seq<char>)
    requires
        s.len() > 0 ==> !is_white(s.last()),
        all_white(space),
    ensures
        end_trimmed(s + space) == s,
    decreases space.len(),
{
    let all = s + space;
    if space.len() == 0 {
        assert(all =~= s);
    } else {
        let rest = space.drop_last();
        assert forall|i: int| 0 <= i < rest.len() implies is_white(#[trigger] rest[i]) by {
            assert(rest[i] == space[i]);
        }
        assert(is_white(space[space.len() - 1]));
        assert(all.last() == space.last());
        assert(all.drop_last() =~= s + rest);
        lemma_end_trimmed(s, rest);
    }
}

proof fn lemma_start_trimmed(space: Seq<char>, s: Seq<char>)
    requires
        s.len() > 0 ==> !is_white(s[0]),
        all_white(space),
    ensures
        start_trimmed(space + s) == s,
    decreases space.len(),
{
    let all = space + s;
    if space.len() == 0 {
        assert(all =~= s);
    } else {
        let rest = space.drop_first();
        assert forall|i: int| 0 <= i < rest.len() implies is_white(#[trigger] rest[i]) by {
            assert(rest[i] == space[i + 1]);
        }
        assert(is_white(space[0]));
        assert(all[0] == space[0]);
        assert(all.drop_first() =~= rest + s);
        lemma_start_trimmed(rest, s);
    }
}

/// Trimming takes the white space away that stands before and after a text, and nothing else.
pub proof fn law_trimmed(before: Seq<char>, s: Seq<char>, after: Seq<char>)
    requires
        all_white(before),
        all_white(after),
        is_trim(s),
    ensures
        end_trimmed(start_trimmed(before + s + after)) == s,
        end_trimmed(s + after) == s,
{
    lemma_end_trimmed(s, after);
    if s.len() > 0 {
        assert(before + s + after =~= before + (s + after));
        assert((s + after)[0] == s[0]);
        lemma_start_trimmed(before, s + after);
    } else {
        let all = before + s + after;
        assert forall|i: int| 0 <= i < all.len() implies is_white(#[trigger] all[i]) by {
            if i < before.len() {
                assert(all[i] == before[i]);
            } else {
                assert(all[i] == after[i - before.len()]);
            }
        }
        let none = Seq::<char>::empty();
        assert(all =~= all + none);
        lemma_start_trimmed(all, none);
        assert(s =~= none);
    }
}

/// A text that is repeated before another, which does not begin with it, is taken away however
/// often it is there.
pub proof fn law_prefix_trimmed(prefix: Seq<char>, count: nat, rest: Seq<char>)
    requires
        prefix.len() > 0,
        !prefix.is_prefix_of(rest),
    ensures
        prefix_trimmed(repeats(prefix, count) + rest, prefix) == rest,
    decreases count,
{
    let s = repeats(prefix, count) + rest;
    if count == 0 {
        assert(s =~= rest);
    } else {
        let less = repeats(prefix, (count - 1) as nat) + rest;
        assert(s =~= prefix + less);
        assert(s.skip(prefix.len() as int) =~= less);
        assert(s.take(prefix.len() as int) =~= prefix);
        law_prefix_trimmed(prefix, (count - 1) as nat, rest);
    }
}

/// A text so many times, one after another.
pub open spec fn repeats(s: Seq<char>, count: nat) -> Seq<char>
    decreases count,
{
    if count == 0 {
        Seq::empty()
    } else {
        s + repeats(s, (count - 1) as nat)
    }
}

/// The number that decimal digits stand for.
pub open spec fn digits_value(s: Seq<char>) -> int
    decreases s.len(),
{
    if s.len() == 0 {
        0
    } else {
        10 * digits_value(s.drop_last()) + (s.last() as int - '0' as int)
    }
}

/// A number is read back from its digits, which begin with a zero only where the number is zero.
pub proof fn law_decimal_round_trip(n: nat)
    ensures
        digits_value(decimal(n)) == n,
        decimal(n).len() > 0,
        forall|i: int| 0 <= i < decimal(n).len() ==> '0' <= (#[trigger] decimal(n)[i]) <= '9',
        n > 0 ==> decimal(n)[0] != '0',
    decreases n,
{
    let s = decimal(n);
    if n < 10 {
        assert(s.drop_last() =~= Seq::empty());
        assert(digits_value(s.drop_last()) == 0);
        assert(s.last() as int - '0' as int == n);
    } else {
        law_decimal_round_trip(n / 10);
        assert(s.drop_last() =~= decimal(n / 10));
        assert(s.last() == digit((n % 10) as int));
        assert(s.last() as int - '0' as int == n % 10);
        assert(s[0] == decimal(n / 10)[0]);
    }
}

/// Different numbers have different digits, with a minus sign before those of negative ones.
pub proof fn law_signed_decimal_distinct(a: int, b: int)
    requires
        signed_decimal(a) == signed_decimal(b),
    ensures
        a == b,
{
    let s = signed_decimal(a);
    if a < 0 {
        law_decimal_round_trip((-a) as nat);
        assert(s.skip(1) =~= decimal((-a) as nat));
    } else {
        law_decimal_round_trip(a as nat);
        assert(s[0] != '-');
    }
    if b < 0 {
        law_decimal_round_trip((-b) as nat);
        assert(s.skip(1) =~= decimal((-b) as nat));
    } else {
        law_decimal_round_trip(b as nat);
        assert(s[0] != '-');
    }
}

/// A negative number is written as the number without its sign is, with a minus sign before it.
pub proof fn law_signed_decimal(n: int)
    ensures
        n >= 0 ==> digits_value(signed_decimal(n)) == n,
        n < 0 ==> signed_decimal(n).len() > 1 && signed_decimal(n)[0] == '-' && digits_value(
            signed_decimal(n).skip(1),
        ) == -n,
{
    if n < 0 {
        law_decimal_round_trip((-n) as nat);
        assert(signed_decimal(n).skip(1) =~= decimal((-n) as nat));
    } else {
        law_decimal_round_trip(n as nat);
    }
}


/// A text with a separator in it has more than one piece.
pub proof fn lemma_pieces_count(s: Seq<char>, a: char, b: char, i: int)
    requires
        0 <= i < s.len(),
        s[i] == a || s[i] == b,
    ensures
        pieces(s, a, b).len() >= 2,
    decreases s.len(),
{
    let before = s.drop_last();
    lemma_pieces_some(before, a, b);
    if i < before.len() {
        lemma_pieces_count(before, a, b, i);
    }
}

} // verus!
