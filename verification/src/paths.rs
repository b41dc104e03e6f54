//! Paths as texts: joining them and taking them apart.

use camino::{Utf8Component, Utf8Path};
use vstd::prelude::*;
use vstd::string::*;

use crate::text::{pieces, views};

verus! {

/// Whether a path can be extended by a plain child: it does not begin with two backslashes, with
/// which Windows marks paths that it treats otherwise.
pub open spec fn plain_base(base: Seq<char>) -> bool {
    !(base.len() >= 2 && base[0] == '\\' && base[1] == '\\')
}

/// Whether a colon is the second character of a path, as it is after a drive's letter.
pub open spec fn has_drive(path: Seq<char>) -> bool {
    path.len() >= 2 && path[1] == ':'
}

/// Whether a path goes on from where it is joined to, on every system: it is not empty, does not
/// begin with a separator and has no drive letter.
pub open spec fn plain_child(child: Seq<char>) -> bool {
    &&& child.len() > 0
    &&& child[0] != '/'
    &&& child[0] != '\\'
    &&& !has_drive(child)
}

/// Whether `r` is `base` with `child` after it, and between them the separator of the system
/// where one is needed. It is not needed where `base` is empty or ends in a separator or, on
/// Windows, is a drive alone.
pub open spec fn is_join(base: Seq<char>, child: Seq<char>, r: Seq<char>) -> bool {
    ||| r == base + child && (base.len() == 0 || base.last() == '/' || base.last() == '\\' || (
    base.len() == 2 && has_drive(base)))
    ||| r == base.push('/') + child && base.len() > 0 && base.last() != '/'
    ||| r == base.push('\\') + child && base.len() > 0 && base.last() != '/' && base.last() != '\\'
}

/// Whether `r` is reached from `base` by joining the parts one after another.
pub open spec fn is_path(base: Seq<char>, parts: Seq<Seq<char>>, r: Seq<char>) -> bool
    decreases parts.len(),
{
    if parts.len() == 0 {
        r == base
    } else {
        exists|m: Seq<char>|
            is_path(base, parts.drop_last(), m) && #[trigger] is_join(m, parts.last(), r)
    }
}

/// `Utf8Path::join` of camino, which adjoins as the standard library's paths do: where neither
/// text is one that the system treats otherwise, `child` follows `base` and its separator.
/// Nothing is said of a child that is absolute or empty or begins as with a drive, nor of a base
/// that begins with two backslashes.
#[verifier::external_body]
pub(crate) fn join(base: &str, child: &str) -> (r: String)
    ensures
        plain_base(base@) && plain_child(child@) ==> is_join(base@, child@, r@),
{
    Utf8Path::new(base).join(child).into_string()
}

pub proof fn lemma_join_plain(base: Seq<char>, child: Seq<char>, r: Seq<char>)
    requires
        plain_base(base),
        plain_child(child),
        is_join(base, child, r),
    ensures
        plain_base(r),
        base.is_prefix_of(r),
        r.len() > base.len(),
{
}

/// Two parts joined one after another.
pub fn join2(base: &str, a: &str, b: &str) -> (r: String)
    ensures
        plain_base(base@) && plain_child(a@) && plain_child(b@) ==> is_path(
            base@,
            seq![a@, b@],
            r@,
        ),
{
    let first = join(base, a);
    let r = join(first.as_str(), b);
    proof {
        if plain_base(base@) && plain_child(a@) && plain_child(b@) {
            lemma_join_plain(base@, a@, first@);
            lemma_path_one(base@, a@, first@);
            lemma_path_push(base@, seq![a@], b@, first@, r@);
            assert(seq![a@].push(b@) =~= seq![a@, b@]);
        }
    }
    r
}

/// Three parts joined one after another.
pub fn join3(base: &str, a: &str, b: &str, c: &str) -> (r: String)
    ensures
        plain_base(base@) && plain_child(a@) && plain_child(b@) && plain_child(c@) ==> is_path(
            base@,
            seq![a@, b@, c@],
            r@,
        ),
{
    let first = join2(base, a, b);
    let r = join(first.as_str(), c);
    proof {
        if plain_base(base@) && plain_child(a@) && plain_child(b@) && plain_child(c@) {
            let two = seq![a@, b@];
            assert forall|i: int| 0 <= i < two.len() implies plain_child(#[trigger] two[i]) by {}
            lemma_path_plain(base@, two, first@);
            lemma_path_push(base@, two, c@, first@, r@);
            assert(two.push(c@) =~= seq![a@, b@, c@]);
        }
    }
    r
}

pub proof fn lemma_path_one(base: Seq<char>, child: Seq<char>, r: Seq<char>)
    requires
        is_join(base, child, r),
    ensures
        is_path(base, seq![child], r),
{
    let parts = seq![child];
    assert(parts.drop_last() =~= Seq::<Seq<char>>::empty());
    assert(is_path(base, parts.drop_last(), base));
    assert(is_join(base, parts.last(), r));
}

pub proof fn lemma_path_push(
    base: Seq<char>,
    parts: Seq<Seq<char>>,
    child: Seq<char>,
    m: Seq<char>,
    r: Seq<char>,
)
    requires
        is_path(base, parts, m),
        is_join(m, child, r),
    ensures
        is_path(base, parts.push(child), r),
{
    let all = parts.push(child);
    assert(all.drop_last() =~= parts);
    assert(is_join(m, all.last(), r));
}

/// A path that is reached from a base by plain parts lies under it: it begins with the base.
pub proof fn lemma_path_plain(base: Seq<char>, parts: Seq<Seq<char>>, r: Seq<char>)
    requires
        plain_base(base),
        forall|i: int| 0 <= i < parts.len() ==> plain_child(#[trigger] parts[i]),
        is_path(base, parts, r),
    ensures
        plain_base(r),
        base.is_prefix_of(r),
        parts.len() > 0 ==> r.len() > base.len(),
    decreases parts.len(),
{
    if parts.len() > 0 {
        let before = parts.drop_last();
        let m = choose|m: Seq<char>|
            is_path(base, before, m) && #[trigger] is_join(m, parts.last(), r);
        assert forall|i: int| 0 <= i < before.len() implies plain_child(#[trigger] before[i]) by {
            assert(before[i] == parts[i]);
        }
        lemma_path_plain(base, before, m);
        assert(parts.last() == parts[parts.len() - 1]);
        lemma_join_plain(m, parts.last(), r);
    }
}

/// A component of a path.
#[derive(Debug)]
pub enum Component {
    Prefix(String),
    RootDir,
    CurDir,
    ParentDir,
    Normal(String),
}

/// What a component is, with its text.
pub enum Part {
    Prefix(Seq<char>),
    RootDir,
    CurDir,
    ParentDir,
    Normal(Seq<char>),
}

impl View for Component {
    type V = Part;

    open spec fn view(&self) -> Part {
        match self {
            Component::Prefix(s) => Part::Prefix(s@),
            Component::RootDir => Part::RootDir,
            Component::CurDir => Part::CurDir,
            Component::ParentDir => Part::ParentDir,
            Component::Normal(s) => Part::Normal(s@),
        }
    }
}

/// What a list of components is.
pub open spec fn part_views(v: Seq<Component>) -> Seq<Part> {
    Seq::new(v.len(), |i: int| v[i]@)
}

/// Whether every system reads the path alike: `/` is its only separator and it has no prefix.
pub open spec fn portable(path: Seq<char>) -> bool {
    &&& !path.contains('\\')
    &&& !has_drive(path)
    &&& !(path.len() >= 2 && path[0] == '/' && path[1] == '/')
}

/// What the pieces between separators stand for: empty ones and `.` for nothing, `..` for the
/// parent.
pub open spec fn piece_parts(p: Seq<Seq<char>>) -> Seq<Part>
    decreases p.len(),
{
    if p.len() == 0 {
        Seq::empty()
    } else {
        let before = piece_parts(p.drop_last());
        let s = p.last();
        if s.len() == 0 || s == "."@ {
            before
        } else if s == ".."@ {
            before.push(Part::ParentDir)
        } else {
            before.push(Part::Normal(s))
        }
    }
}

/// The components of a path whose separators are `/` and `sep`.
pub open spec fn parts_at(path: Seq<char>, sep: char) -> Seq<Part> {
    let p = pieces(path, '/', sep);
    let lead = if path.len() > 0 && (path[0] == '/' || path[0] == sep) {
        seq![Part::RootDir]
    } else if p[0] == "."@ {
        seq![Part::CurDir]
    } else {
        Seq::empty()
    };
    lead + piece_parts(p)
}

/// The components of a path that every system reads alike.
pub open spec fn path_parts(path: Seq<char>) -> Seq<Part> {
    parts_at(path, '/')
}

/// Whether a character separates the names in a path on some system.
pub open spec fn is_separator(c: char) -> bool {
    c == '/' || c == '\\'
}

/// Whether a path begins with the letter of a drive.
pub open spec fn has_drive_letter(path: Seq<char>) -> bool {
    has_drive(path) && ('a' <= path[0] <= 'z' || 'A' <= path[0] <= 'Z')
}

/// The components of a path as Windows or another system reads it: on Windows `\` separates names
/// too, and a drive is a component of its own.
pub open spec fn parts_by(path: Seq<char>, windows: bool) -> Seq<Part> {
    if !windows {
        parts_at(path, '/')
    } else if has_drive_letter(path) {
        seq![Part::Prefix(path.take(2))] + parts_at(path.skip(2), '\\')
    } else {
        parts_at(path, '\\')
    }
}

/// Whether a path is a common one on every system: it does not begin with two separators, with
/// which Windows marks paths of other kinds.
pub open spec fn is_common(path: Seq<char>) -> bool {
    !(path.len() >= 2 && is_separator(path[0]) && is_separator(path[1]))
}

/// Whether the names are the last of all of them.
pub open spec fn is_tail(names: Seq<Seq<char>>, all: Seq<Seq<char>>) -> bool {
    exists|n: int| 0 <= n <= all.len() && names == #[trigger] all.skip(n)
}

/// Whether the components are what a system reads in a path: Windows, another system, or, where
/// the path is no common one, Windows with its first names in a prefix.
pub open spec fn is_reading(path: Seq<char>, parts: Seq<Part>) -> bool {
    ||| parts == parts_by(path, false)
    ||| if is_common(path) {
        parts == parts_by(path, true)
    } else {
        is_tail(normal_names(parts), normal_names(parts_by(path, true)))
    }
}

/// Whether the names are those that a system reads in a path.
pub open spec fn reads_names(path: Seq<char>, names: Seq<Seq<char>>) -> bool {
    ||| names == normal_names(parts_by(path, false))
    ||| if is_common(path) {
        names == normal_names(parts_by(path, true))
    } else {
        is_tail(names, normal_names(parts_by(path, true)))
    }
}

/// Where every system reads a path alike, Windows reads it as the others do.
pub proof fn lemma_portable_parts(path: Seq<char>)
    requires
        portable(path),
    ensures
        is_common(path),
        parts_by(path, true) == path_parts(path),
        parts_by(path, false) == path_parts(path),
{
    crate::text::lemma_pieces_absent(path, '/', '\\');
    if path.len() > 0 && path[0] == '\\' {
        assert(path.contains(path[0]));
    }
    if path.len() > 1 && path[1] == '\\' {
        assert(path.contains(path[1]));
    }
}

/// Whether a text can be the name of one file or directory.
pub open spec fn is_name(s: Seq<char>) -> bool {
    s.len() > 0 && s != "."@ && s != ".."@ && !s.contains('/')
}

/// Whether a component, where it is an ordinary one, is the name of one file or directory.
pub open spec fn is_ordinary(p: Part) -> bool {
    match p {
        Part::Normal(s) => is_name(s),
        _ => true,
    }
}

/// `Utf8Path::components` of camino, which takes paths apart as the standard library does. Of a
/// path that does not begin with two backslashes the components are what a system reads in it:
/// those of a common path are what Windows or another system does; where a path begins with two
/// separators, Windows may have its first names in a prefix, and the others come after it. An
/// ordinary component is the name of one file or directory.
#[verifier::external_body]
fn system_components(path: &str) -> (r: Vec<Component>)
    ensures
        plain_base(path@) ==> is_reading(path@, part_views(r@)),
        plain_base(path@) ==> forall|i: int| 0 <= i < r@.len() ==> is_ordinary((#[trigger] r@[i])@),
{
    Utf8Path::new(path).components().map(|c| match c {
        Utf8Component::Prefix(p) => Component::Prefix(p.as_str().to_string()),
        Utf8Component::RootDir => Component::RootDir,
        Utf8Component::CurDir => Component::CurDir,
        Utf8Component::ParentDir => Component::ParentDir,
        Utf8Component::Normal(s) => Component::Normal(s.to_string()),
    }).collect()
}

/// The components of a path, as the system reads it.
pub fn components(path: &str) -> (r: Vec<Component>)
    ensures
        portable(path@) ==> part_views(r@) == path_parts(path@),
        is_common(path@) ==> part_views(r@) == parts_by(path@, false) || part_views(r@) == parts_by(
            path@,
            true,
        ),
        plain_base(path@) ==> reads_names(path@, normal_names(part_views(r@))),
        plain_base(path@) ==> forall|i: int| 0 <= i < r@.len() ==> is_ordinary((#[trigger] r@[i])@),
{
    proof {
        if portable(path@) {
            lemma_portable_parts(path@);
        }
    }
    system_components(path)
}

/// Whether two paths are the same to Windows or to another system: they have the same components.
pub open spec fn same_by(a: Seq<char>, b: Seq<char>, windows: bool) -> bool {
    parts_by(a, windows) == parts_by(b, windows)
}

/// Whether what two paths are to a system can be told from their components: they are common
/// ones, and where both begin with the letter of a drive it is one letter.
pub open spec fn is_comparable(a: Seq<char>, b: Seq<char>) -> bool {
    &&& is_common(a)
    &&& is_common(b)
    &&& has_drive_letter(a) && has_drive_letter(b) ==> a[0] == b[0]
}

/// The equality of camino's `Utf8Path`, which compares paths by their components: equal texts are
/// equal paths, and comparable ones are equal where they are the same to Windows or, on another
/// system, to that.
#[verifier::external_body]
pub(crate) fn same_path(a: &str, b: &str) -> (r: bool)
    ensures
        a@ == b@ ==> r,
        is_comparable(a@, b@) ==> r == same_by(a@, b@, false) || r == same_by(a@, b@, true),
{
    Utf8Path::new(a) == Utf8Path::new(b)
}

/// The names among the components, in their order.
pub open spec fn normal_names(p: Seq<Part>) -> Seq<Seq<char>>
    decreases p.len(),
{
    if p.len() == 0 {
        Seq::empty()
    } else {
        match p.last() {
            Part::Normal(s) => normal_names(p.drop_last()).push(s),
            _ => normal_names(p.drop_last()),
        }
    }
}

/// The names among the components, in their order.
pub fn names_of(parts: &Vec<Component>) -> (r: Vec<String>)
    ensures
        views(r@) == normal_names(part_views(parts@)),
{
    let mut out: Vec<String> = Vec::new();
    let mut i: usize = 0;
    let ghost all = part_views(parts@);
    assert(all.take(0) =~= Seq::empty());
    assert(views(out@) =~= Seq::empty());
    while i < parts.len()
        invariant
            i <= parts.len(),
            all == part_views(parts@),
            views(out@) == normal_names(all.take(i as int)),
        decreases parts.len() - i,
    {
        let ghost seen = all.take(i + 1);
        assert(seen.drop_last() =~= all.take(i as int));
        assert(seen.last() == parts@[i as int]@);
        let ghost before = views(out@);
        if let Component::Normal(s) = &parts[i] {
            out.push(s.clone());
            assert(views(out@) =~= before.push(s@));
        }
        i = i + 1;
    }
    assert(all.take(all.len() as int) =~= all);
    out
}

/// The text of a component, with `/` for the root.
pub open spec fn part_text(p: Part) -> Seq<char> {
    match p {
        Part::Prefix(s) => s,
        Part::RootDir => "/"@,
        Part::CurDir => "."@,
        Part::ParentDir => ".."@,
        Part::Normal(s) => s,
    }
}

/// The texts of components.
pub open spec fn part_texts(p: Seq<Part>) -> Seq<Seq<char>> {
    Seq::new(p.len(), |i: int| part_text(p[i]))
}

/// The texts of components.
pub fn texts_of(parts: &Vec<Component>) -> (r: Vec<String>)
    ensures
        views(r@) == part_texts(part_views(parts@)),
{
    let mut out: Vec<String> = Vec::new();
    let mut i: usize = 0;
    while i < parts.len()
        invariant
            i <= parts.len(),
            out@.len() == i,
            forall|j: int|
                0 <= j < i ==> (#[trigger] out@[j])@ == part_text(parts@[j]@),
        decreases parts.len() - i,
    {
        let text = match &parts[i] {
            Component::Prefix(s) => s.clone(),
            Component::RootDir => String::from_str("/"),
            Component::CurDir => String::from_str("."),
            Component::ParentDir => String::from_str(".."),
            Component::Normal(s) => s.clone(),
        };
        out.push(text);
        i = i + 1;
    }
    assert(views(out@) =~= part_texts(part_views(parts@)));
    out
}


/// The names among components are those among some and then those among the others: each ordinary
/// component, and nothing else, is one.
pub proof fn law_names_among(a: Seq<Part>, b: Seq<Part>, s: Seq<char>)
    ensures
        normal_names(a + b) == normal_names(a) + normal_names(b),
        normal_names(seq![Part::Normal(s)]) == seq![s],
        normal_names(seq![Part::Prefix(s), Part::RootDir, Part::CurDir, Part::ParentDir])
            == Seq::<Seq<char>>::empty(),
    decreases b.len(),
{
    reveal_with_fuel(normal_names, 5);
    let one = seq![Part::Normal(s)];
    assert(one.drop_last() =~= Seq::empty());
    assert(normal_names(one) =~= seq![s]);
    let none = seq![Part::Prefix(s), Part::RootDir, Part::CurDir, Part::ParentDir];
    assert(none.drop_last() =~= seq![Part::Prefix(s), Part::RootDir, Part::CurDir]);
    assert(none.drop_last().drop_last() =~= seq![Part::Prefix(s), Part::RootDir]);
    assert(none.drop_last().drop_last().drop_last() =~= seq![Part::Prefix(s)]);
    assert(none.drop_last().drop_last().drop_last().drop_last() =~= Seq::empty());
    if b.len() == 0 {
        assert(a + b =~= a);
        assert(normal_names(a) + normal_names(b) =~= normal_names(a));
    } else {
        law_names_among(a, b.drop_last(), s);
        assert((a + b).drop_last() =~= a + b.drop_last());
        assert(normal_names(a + b) =~= normal_names(a) + normal_names(b));
    }
}

/// How components are written: those that stand for the root, the directory itself and its parent
/// in their own signs, and the others as they are.
pub proof fn law_component_texts(p: Part)
    ensures
        p == Part::RootDir ==> part_text(p) == seq!['/'],
        p == Part::CurDir ==> part_text(p) == seq!['.'],
        p == Part::ParentDir ==> part_text(p) == seq!['.', '.'],
        p matches Part::Normal(s) ==> part_text(p) == s,
        p matches Part::Prefix(s) ==> part_text(p) == s,
{
    reveal_strlit("/");
    reveal_strlit(".");
    reveal_strlit("..");
    assert("/"@ =~= seq!['/']);
    assert("."@ =~= seq!['.']);
    assert(".."@ =~= seq!['.', '.']);
}

} // verus!
