//! Which files are compiled modules.

use vstd::prelude::*;
use vstd::string::*;

use crate::paths::{
    components, is_common, part_views, parts_by, path_parts, portable, Component, Part,
};
use crate::text::{to_chars, views};

verus! {

/// Whether the name of a file has the extension `beam`: it ends in it, and something stands
/// before the dot.
pub open spec fn is_beam_name(name: Seq<char>) -> bool {
    name.len() > ".beam"@.len() && ".beam"@.is_suffix_of(name)
}

/// Whether a path leads to a compiled module, by its components: the last is a name with the
/// extension `beam`.
pub open spec fn is_beam_path(parts: Seq<Part>) -> bool {
    parts.len() > 0 && (parts.last() matches Part::Normal(name) && is_beam_name(name))
}

fn beam_name(name: &str) -> (r: bool)
    ensures
        r == is_beam_name(name@),
{
    let x = to_chars(name);
    let suffix = to_chars(".beam");
    if x.len() <= suffix.len() {
        return false;
    }
    let at: usize = x.len() - suffix.len();
    let mut i: usize = 0;
    while i < suffix.len()
        invariant
            i <= suffix.len(),
            at + suffix.len() == x.len(),
            at > 0,
            x@ == name@,
            suffix@ == ".beam"@,
            forall|j: int| 0 <= j < i ==> x@[at + j] == suffix@[j],
        decreases suffix.len() - i,
    {
        if x[at + i] != suffix[i] {
            assert(name@.subrange(at as int, name@.len() as int)[i as int] != ".beam"@[i as int]);
            return false;
        }
        i = i + 1;
    }
    assert(name@.subrange(at as int, name@.len() as int) =~= ".beam"@);
    true
}

/// Decides [`is_beam_path`].
pub fn beam_path(parts: &Vec<Component>) -> (r: bool)
    ensures
        r == is_beam_path(part_views(parts@)),
{
    if parts.len() == 0 {
        return false;
    }
    assert(part_views(parts@).last() == parts@[parts@.len() - 1]@);
    match &parts[parts.len() - 1] {
        Component::Normal(name) => beam_name(name.as_str()),
        _ => false,
    }
}

/// Whether a path leads to a compiled module.
pub fn is_beam_file(path: &str) -> (r: bool)
    ensures
        portable(path@) ==> r == is_beam_path(path_parts(path@)),
        is_common(path@) ==> r == is_beam_path(parts_by(path@, false)) || r == is_beam_path(
            parts_by(path@, true),
        ),
{
    let parts = components(path);
    beam_path(&parts)
}

/// The compiled modules among files, in their order.
pub open spec fn beam_files(paths: Seq<Seq<char>>) -> Seq<Seq<char>> {
    paths.filter(|path: Seq<char>| is_beam_path(path_parts(path)))
}

/// Picks out the compiled modules among files.
pub fn collect_beam_files(paths: &Vec<String>) -> (r: Vec<String>)
    ensures
        (forall|i: int| 0 <= i < paths@.len() ==> portable((#[trigger] paths@[i])@)) ==> views(r@)
            == beam_files(views(paths@)),
        forall|i: int|
            0 <= i < paths@.len() && portable((#[trigger] paths@[i])@) ==> (views(r@).contains(
                paths@[i]@,
            ) <==> is_beam_path(path_parts(paths@[i]@))),
        forall|i: int|
            0 <= i < paths@.len() && is_common((#[trigger] paths@[i])@) && is_beam_path(
                parts_by(paths@[i]@, false),
            ) && is_beam_path(parts_by(paths@[i]@, true)) ==> views(r@).contains(paths@[i]@),
        forall|k: int|
            0 <= k < r@.len() ==> views(paths@).contains((#[trigger] r@[k])@) && (is_common(r@[k]@)
                ==> is_beam_path(parts_by(r@[k]@, false)) || is_beam_path(
                parts_by(r@[k]@, true),
            )),
{
    let ghost all = views(paths@);
    let ghost wanted = |path: Seq<char>| is_beam_path(path_parts(path));
    let mut out: Vec<String> = Vec::new();
    let mut i: usize = 0;
    proof {
        reveal(Seq::filter);
        assert(all.take(0).filter(wanted) =~= Seq::empty());
        assert(views(out@) =~= Seq::empty());
    }
    while i < paths.len()
        invariant
            i <= paths.len(),
            all == views(paths@),
            wanted == (|path: Seq<char>| is_beam_path(path_parts(path))),
            (forall|j: int| 0 <= j < i ==> portable((#[trigger] paths@[j])@)) ==> views(out@)
                == all.take(i as int).filter(wanted),
            forall|k: int|
                0 <= k < out@.len() ==> all.contains((#[trigger] out@[k])@) && (portable(out@[k]@)
                    ==> is_beam_path(path_parts(out@[k]@))) && (is_common(out@[k]@) ==> is_beam_path(
                    parts_by(out@[k]@, false),
                ) || is_beam_path(parts_by(out@[k]@, true))),
            forall|j: int|
                0 <= j < i && is_common(#[trigger] all[j]) && is_beam_path(
                    parts_by(all[j], false),
                ) && is_beam_path(parts_by(all[j], true)) ==> views(out@).contains(all[j]),
            forall|j: int|
                0 <= j < i && portable(#[trigger] all[j]) && is_beam_path(path_parts(all[j]))
                    ==> views(out@).contains(all[j]),
        decreases paths.len() - i,
    {
        let ghost before = views(out@);
        proof {
            assert(all.take(i + 1).drop_last() =~= all.take(i as int));
            assert(all.take(i + 1).last() == paths@[i as int]@);
            reveal(Seq::filter);
        }
        if is_beam_file(paths[i].as_str()) {
            out.push(paths[i].clone());
            proof {
                assert(views(out@) =~= before.push(paths@[i as int]@));
                assert(all[i as int] == paths@[i as int]@);
                assert(views(out@)[before.len() as int] == all[i as int]);
                assert forall|j: int|
                    0 <= j < i && portable(#[trigger] all[j]) && is_beam_path(
                        path_parts(all[j]),
                    ) implies views(out@).contains(all[j]) by {
                    let k = before.index_of(all[j]);
                    assert(views(out@)[k] == all[j]);
                }
                assert forall|j: int|
                    0 <= j < i && is_common(#[trigger] all[j]) && is_beam_path(
                        parts_by(all[j], false),
                    ) && is_beam_path(parts_by(all[j], true)) implies views(out@).contains(all[j]) by {
                    let k = before.index_of(all[j]);
                    assert(views(out@)[k] == all[j]);
                }
            }
        }
        i = i + 1;
    }
    proof {
        assert(all.take(all.len() as int) =~= all);
        assert forall|i: int|
            0 <= i < paths@.len() && portable((#[trigger] paths@[i])@) implies (views(
            out@,
        ).contains(paths@[i]@) <==> is_beam_path(path_parts(paths@[i]@))) by {
            assert(all[i] == paths@[i]@);
            if views(out@).contains(paths@[i]@) {
                let k = views(out@).index_of(paths@[i]@);
                assert(out@[k]@ == paths@[i]@);
            }
        }
        assert forall|i: int|
            0 <= i < paths@.len() && is_common((#[trigger] paths@[i])@) && is_beam_path(
                parts_by(paths@[i]@, false),
            ) && is_beam_path(parts_by(paths@[i]@, true)) implies views(out@).contains(
            paths@[i]@,
        ) by {
            assert(all[i] == paths@[i]@);
        }
    }
    out
}


/// A file is a compiled module by its extension alone: whatever name, not empty, stands before the
/// extension, and no other file is.
pub proof fn law_module_files(stem: Seq<char>, name: Seq<char>)
    ensures
        is_beam_name(stem + seq!['.', 'b', 'e', 'a', 'm']) <==> stem.len() > 0,
        is_beam_name(name) ==> name == name.take(name.len() - 5) + seq!['.', 'b', 'e', 'a', 'm'],
{
    reveal_strlit(".beam");
    assert(".beam"@ =~= seq!['.', 'b', 'e', 'a', 'm']);
    let s = stem + ".beam"@;
    assert(s.skip(s.len() - 5) =~= ".beam"@);
    if is_beam_name(name) {
        assert(name =~= name.take(name.len() - 5) + name.skip(name.len() - 5));
    }
}

/// Only the last name of a path decides whether it leads to a compiled module, and nothing but a
/// name does.
pub proof fn law_module_paths(before: Seq<Part>, other: Seq<Part>, last: Part, name: Seq<char>)
    ensures
        is_beam_path(before.push(last)) == is_beam_path(other.push(last)),
        is_beam_path(before.push(Part::Normal(name))) == is_beam_name(name),
        !(last is Normal) ==> !is_beam_path(before.push(last)),
        !is_beam_path(Seq::empty()),
{
}

/// The compiled modules among files are those among some and then those among the others.
pub proof fn law_modules_in_parts(a: Seq<Seq<char>>, b: Seq<Seq<char>>)
    ensures
        beam_files(a + b) == beam_files(a) + beam_files(b),
{
    Seq::filter_distributes_over_add(a, b, |path: Seq<char>| is_beam_path(path_parts(path)));
}

} // verus!
