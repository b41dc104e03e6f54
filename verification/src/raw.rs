//! Paths as bytes, as systems other than Windows have them.

use vstd::prelude::*;

verus! {

/// The byte that stands between the names in a path.
pub const SLASH: u8 = 0x2F;

/// The byte that names the directory itself and, twice, its parent.
pub const DOT: u8 = 0x2E;

/// The byte strings that a list holds.
pub open spec fn byte_views(v: Seq<Vec<u8>>) -> Seq<Seq<u8>> {
    Seq::new(v.len(), |i: int| v[i]@)
}

/// The pieces between the slashes of a path, empty ones among them.
pub open spec fn byte_pieces(path: Seq<u8>) -> Seq<Seq<u8>>
    decreases path.len(),
{
    if path.len() == 0 {
        seq![Seq::<u8>::empty()]
    } else {
        let before = byte_pieces(path.drop_last());
        if path.last() == SLASH {
            before.push(Seq::<u8>::empty())
        } else {
            before.drop_last().push(before.last().push(path.last()))
        }
    }
}

/// Whether a piece is the name of a file or directory: it is not empty, `.` or `..`.
pub open spec fn is_byte_name(piece: Seq<u8>) -> bool {
    piece.len() > 0 && piece != seq![DOT] && piece != seq![DOT, DOT]
}

/// The names among pieces, in their order.
pub open spec fn names_among(pieces: Seq<Seq<u8>>) -> Seq<Seq<u8>>
    decreases pieces.len(),
{
    if pieces.len() == 0 {
        Seq::empty()
    } else {
        let before = names_among(pieces.drop_last());
        if is_byte_name(pieces.last()) {
            before.push(pieces.last())
        } else {
            before
        }
    }
}

/// The names in a path, in their order.
pub open spec fn byte_names(path: Seq<u8>) -> Seq<Seq<u8>> {
    names_among(byte_pieces(path))
}

proof fn lemma_piece_bytes(path: Seq<u8>)
    ensures
        byte_pieces(path).len() >= 1,
        forall|i: int|
            0 <= i < byte_pieces(path).len() ==> !(#[trigger] byte_pieces(path)[i]).contains(SLASH),
    decreases path.len(),
{
    if path.len() > 0 {
        let rest = path.drop_last();
        lemma_piece_bytes(rest);
        let before = byte_pieces(rest);
        let all = byte_pieces(path);
        assert forall|i: int| 0 <= i < all.len() implies !(#[trigger] all[i]).contains(SLASH) by {
            if i < all.len() - 1 {
                assert(all[i] == before[i]);
            } else if all[i].contains(SLASH) {
                let j = all[i].index_of(SLASH);
                assert(before.last() == before[before.len() - 1]);
                if j < before.last().len() {
                    assert(before.last()[j] == SLASH);
                }
            }
        }
    }
}

proof fn lemma_names_among(pieces: Seq<Seq<u8>>)
    requires
        forall|i: int| 0 <= i < pieces.len() ==> !(#[trigger] pieces[i]).contains(SLASH),
    ensures
        forall|i: int|
            0 <= i < names_among(pieces).len() ==> is_byte_name(#[trigger] names_among(pieces)[i])
                && !names_among(pieces)[i].contains(SLASH),
    decreases pieces.len(),
{
    if pieces.len() > 0 {
        let before = pieces.drop_last();
        assert forall|i: int| 0 <= i < before.len() implies !(#[trigger] before[i]).contains(
            SLASH,
        ) by {
            assert(before[i] == pieces[i]);
        }
        lemma_names_among(before);
        assert(pieces.last() == pieces[pieces.len() - 1]);
        let names = names_among(pieces);
        assert forall|i: int| 0 <= i < names.len() implies is_byte_name(#[trigger] names[i])
            && !names[i].contains(SLASH) by {
            if i < names_among(before).len() {
                assert(names[i] == names_among(before)[i]);
            }
        }
    }
}

/// Each name in a path is one: it is not empty, `.` or `..` and has no slash.
pub proof fn law_byte_names(path: Seq<u8>)
    ensures
        forall|i: int|
            0 <= i < byte_names(path).len() ==> is_byte_name(#[trigger] byte_names(path)[i])
                && !byte_names(path)[i].contains(SLASH),
{
    lemma_piece_bytes(path);
    lemma_names_among(byte_pieces(path));
}

fn byte_name(piece: &Vec<u8>) -> (r: bool)
    ensures
        r == is_byte_name(piece@),
{
    let one = piece.len() == 1 && piece[0] == DOT;
    let two = piece.len() == 2 && piece[0] == DOT && piece[1] == DOT;
    proof {
        if one {
            assert(piece@ =~= seq![DOT]);
        }
        if two {
            assert(piece@ =~= seq![DOT, DOT]);
        }
    }
    piece.len() > 0 && !one && !two
}

/// The names in a path, in their order.
pub fn names_in(path: &[u8]) -> (r: Vec<Vec<u8>>)
    ensures
        byte_views(r@) == byte_names(path@),
{
    let mut out: Vec<Vec<u8>> = Vec::new();
    let mut current: Vec<u8> = Vec::new();
    let mut i: usize = 0;
    let ghost mut done: Seq<Seq<u8>> = Seq::empty();
    proof {
        assert(path@.take(0) =~= Seq::empty());
        assert(done.push(current@) =~= byte_pieces(path@.take(0)));
        assert(byte_views(out@) =~= names_among(done));
    }
    while i < path.len()
        invariant
            i <= path.len(),
            done.push(current@) == byte_pieces(path@.take(i as int)),
            byte_views(out@) == names_among(done),
        decreases path.len() - i,
    {
        let c: u8 = path[i];
        let ghost before = byte_pieces(path@.take(i as int));
        let ghost piece = current@;
        let ghost names = byte_views(out@);
        proof {
            assert(path@.take(i + 1).drop_last() =~= path@.take(i as int));
            assert(before.drop_last() =~= done);
        }
        if c == SLASH {
            if byte_name(&current) {
                out.push(current);
                assert(byte_views(out@) =~= names.push(piece));
            }
            current = Vec::new();
            proof {
                done = done.push(piece);
                assert(done.drop_last() =~= before.drop_last());
            }
        } else {
            current.push(c);
        }
        i = i + 1;
        assert(done.push(current@) =~= byte_pieces(path@.take(i as int)));
    }
    let ghost piece = current@;
    let ghost names = byte_views(out@);
    if byte_name(&current) {
        out.push(current);
        assert(byte_views(out@) =~= names.push(piece));
    }
    proof {
        assert(path@.take(path@.len() as int) =~= path@);
        assert(done.push(piece).drop_last() =~= done);
    }
    out
}

/// A path with a name, or a relative path, after it, and a slash between them where one is needed.
pub open spec fn byte_join(base: Seq<u8>, child: Seq<u8>) -> Seq<u8> {
    if base.len() == 0 || base.last() == SLASH {
        base + child
    } else {
        base.push(SLASH) + child
    }
}

/// Joins a name, or a relative path, to a path.
pub fn join_bytes(base: &mut Vec<u8>, child: &[u8])
    ensures
        final(base)@ == byte_join(old(base)@, child@),
{
    let n: usize = base.len();
    if n > 0 && base[n - 1] != SLASH {
        base.push(SLASH);
    }
    base.extend_from_slice(child);
    assert(base@ =~= byte_join(old(base)@, child@));
}

/// A path with names joined to it one after another.
pub open spec fn byte_path(base: Seq<u8>, names: Seq<Seq<u8>>) -> Seq<u8>
    decreases names.len(),
{
    if names.len() == 0 {
        base
    } else {
        byte_join(byte_path(base, names.drop_last()), names.last())
    }
}

/// What names lead to from a directory lies under it: its path begins with the directory.
pub proof fn law_byte_path_under(base: Seq<u8>, names: Seq<Seq<u8>>)
    ensures
        base.is_prefix_of(byte_path(base, names)),
    decreases names.len(),
{
    if names.len() > 0 {
        law_byte_path_under(base, names.drop_last());
    }
}

/// Joins names to a path one after another.
pub fn place_bytes(base: &[u8], names: &Vec<Vec<u8>>) -> (r: Vec<u8>)
    ensures
        r@ == byte_path(base@, byte_views(names@)),
{
    let mut out: Vec<u8> = Vec::new();
    out.extend_from_slice(base);
    let ghost all = byte_views(names@);
    let mut i: usize = 0;
    proof {
        assert(out@ =~= base@);
        assert(all.take(0) =~= Seq::empty());
    }
    while i < names.len()
        invariant
            i <= names.len(),
            all == byte_views(names@),
            out@ == byte_path(base@, all.take(i as int)),
        decreases names.len() - i,
    {
        proof {
            assert(all.take(i + 1).drop_last() =~= all.take(i as int));
            assert(all.take(i + 1).last() == names@[i as int]@);
        }
        join_bytes(&mut out, names[i].as_slice());
        i = i + 1;
    }
    assert(all.take(all.len() as int) =~= all);
    out
}

/// A path that is absolute as it stands, and another joined to the base.
pub open spec fn byte_resolved(base: Seq<u8>, path: Seq<u8>) -> Seq<u8> {
    if path.len() > 0 && path[0] == SLASH {
        path
    } else {
        byte_join(base, path)
    }
}

/// Joins a path to a base, where it is not absolute.
pub fn resolve_bytes(base: &[u8], path: &[u8]) -> (r: Vec<u8>)
    ensures
        r@ == byte_resolved(base@, path@),
{
    let mut out: Vec<u8> = Vec::new();
    if path.len() > 0 && path[0] == SLASH {
        out.extend_from_slice(path);
        assert(out@ =~= path@);
        return out;
    }
    out.extend_from_slice(base);
    assert(out@ =~= base@);
    join_bytes(&mut out, path);
    out
}


proof fn lemma_byte_pieces_add(head: Seq<u8>, piece: Seq<u8>)
    requires
        !piece.contains(0x2F),
    ensures
        byte_pieces(head.push(0x2F) + piece) == byte_pieces(head).push(piece),
    decreases piece.len(),
{
    let s = head.push(0x2F) + piece;
    if piece.len() == 0 {
        assert(s =~= head.push(0x2F));
        assert(s.drop_last() =~= head);
        assert(piece =~= Seq::empty());
    } else {
        let rest = piece.drop_last();
        assert forall|i: int| 0 <= i < rest.len() implies rest[i] != 0x2F by {
            assert(piece.contains(piece[i]));
        }
        lemma_byte_pieces_add(head, rest);
        assert(s.drop_last() =~= head.push(0x2F) + rest);
        assert(piece.contains(piece.last()));
        assert(rest.push(piece.last()) =~= piece);
        assert(byte_pieces(s) =~= byte_pieces(head).push(piece));
    }
}

/// A path is read name by name: with another name behind it, it has the names that it had and then
/// that one; with nothing, `.` or `..` behind it, it has the names that it had.
pub proof fn law_names_in_parts(path: Seq<u8>, name: Seq<u8>)
    requires
        !name.contains(0x2F),
    ensures
        byte_names(path.push(0x2F) + name) == if name.len() == 0 || name == seq![0x2Eu8] || name
            == seq![0x2Eu8, 0x2E] {
            byte_names(path)
        } else {
            byte_names(path).push(name)
        },
        byte_names(Seq::empty()) == Seq::<Seq<u8>>::empty(),
{
    lemma_byte_pieces_add(path, name);
    let p = byte_pieces(path).push(name);
    assert(p.drop_last() =~= byte_pieces(path));
    let none = seq![Seq::<u8>::empty()];
    assert(byte_pieces(Seq::empty()) =~= none);
    assert(none.drop_last() =~= Seq::empty());
    assert(names_among(none.drop_last()) =~= Seq::empty());
}

/// A name that is joined to a path is the last of its names, and where the path ends in a slash no
/// other is put between.
pub proof fn law_joined_name(base: Seq<u8>, name: Seq<u8>)
    requires
        base.len() > 0,
    ensures
        byte_join(base, name) == byte_join(base.push(0x2F), name) || base.last() == 0x2F,
        name.is_suffix_of(byte_join(base, name)),
        base.is_prefix_of(byte_join(base, name)),
        base.last() == 0x2F ==> byte_join(base, name).len() == base.len() + name.len(),
        base.last() != 0x2F ==> byte_join(base, name).len() == base.len() + name.len() + 1
            && byte_join(base, name)[base.len() as int] == 0x2F,
        byte_join(Seq::empty(), name) == name,
{
    let r = byte_join(base, name);
    assert(r.skip(r.len() - name.len()) =~= name);
    assert(r.take(base.len() as int) =~= base);
    assert(Seq::<u8>::empty() + name =~= name);
}

/// An absolute path is taken as it stands, whatever the base, and another goes on from the base.
pub proof fn law_resolved(base: Seq<u8>, path: Seq<u8>)
    ensures
        byte_resolved(base, seq![0x2Fu8] + path) == seq![0x2Fu8] + path,
        path.len() == 0 || path[0] != 0x2F ==> base.is_prefix_of(byte_resolved(base, path))
            && path.is_suffix_of(byte_resolved(base, path)),
{
    if path.len() == 0 || path[0] != 0x2F {
        let r = byte_resolved(base, path);
        assert(r.take(base.len() as int) =~= base);
        assert(r.skip(r.len() - path.len()) =~= path);
    }
}

} // verus!
