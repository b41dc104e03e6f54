//! What goes into the runtime archive and the application archive.

use vstd::prelude::*;
use vstd::string::*;
use vstd::utf8::*;

use crate::archive::{
    all_storable, all_taken, are_right, are_stored, file_entry, file_views, has_refused, is_kept, is_placed,
    is_refused, pack, written_at, zstd_entries, EntryKind, FileText, PackFile, Placement,
};
use crate::digest::{hash_bytes, hex_digest};
use crate::order::listing;
use crate::paths::{
    components, is_common, is_comparable, is_name, is_path, join3, part_texts, parts_by, path_parts,
    piece_parts, plain_base, plain_child, portable, same_by, same_path, texts_of,
};
use crate::target::{Os, Target};
use crate::text::{joined, pieces, same, signed_decimal, signed_decimal_text, split, starts_with, views};
use crate::tree_shake::NameSet;

verus! {

/// Whether a directory of an application is of no use at run time.
pub open spec fn is_stripped_dir(name: Seq<char>) -> bool {
    ||| name == "src"@
    ||| name == "doc"@
    ||| name == "examples"@
    ||| name == "include"@
    ||| name == "c_src"@
}

fn stripped_dir(name: &str) -> (r: bool)
    ensures
        r == is_stripped_dir(name@),
{
    same(name, "src") || same(name, "doc") || same(name, "examples") || same(name, "include")
        || same(name, "c_src")
}

/// Whether the runtime needs the program to run an application.
pub open spec fn is_kept_program(name: Seq<char>) -> bool {
    ||| name == "beam.smp"@
    ||| name == "erl"@
    ||| name == "erl_child_setup"@
    ||| name == "erlexec"@
    ||| name == "inet_gethost"@
}

/// Whether the file in the directory of the runtime's programs is kept for the target: a needed
/// program with the target's suffix or, on Windows, its library.
pub open spec fn is_kept_binary(target: Target, name: Seq<char>) -> bool {
    exists|program: Seq<char>| #[trigger]
        is_kept_program(program) && (name == program + target.suffix() || (target.os
            == Os::Windows && name == program + ".dll"@))
}

fn with_suffix(name: &str, suffix: &str) -> (r: String)
    ensures
        r@ == name@ + suffix@,
{
    let mut out = String::from_str(name);
    out.append(suffix);
    out
}

/// The files in the directory of the runtime's programs that are kept for the target.
pub fn kept_erts_binary_names(target: Target) -> (r: NameSet)
    ensures
        forall|name: Seq<char>| #[trigger] r@.contains(name) <==> is_kept_binary(target, name),
{
    let suffix = target.exe_suffix();
    let programs = vec!["beam.smp", "erl", "erl_child_setup", "erlexec", "inet_gethost"];
    let windows = target.os == Os::Windows;
    let mut names = NameSet::new();
    let mut i: usize = 0;
    while i < programs.len()
        invariant
            i <= programs@.len(),
            programs@.len() == 5,
            suffix@ == target.suffix(),
            windows == (target.os == Os::Windows),
            forall|name: Seq<char>| #[trigger]
                names@.contains(name) <==> exists|j: int|
                    0 <= j < i && (name == (#[trigger] programs@[j])@ + suffix@ || (windows && name
                        == programs@[j]@ + ".dll"@)),
        decreases programs.len() - i,
    {
        let ghost before = names@;
        names.insert(with_suffix(programs[i], suffix).as_str());
        if windows {
            names.insert(with_suffix(programs[i], ".dll").as_str());
        }
        proof {
            assert forall|name: Seq<char>| #[trigger] names@.contains(name) <==> exists|j: int|
                0 <= j < i + 1 && (name == (#[trigger] programs@[j])@ + suffix@ || (windows && name
                    == programs@[j]@ + ".dll"@)) by {
                let here = name == programs@[i as int]@ + suffix@ || (windows && name
                    == programs@[i as int]@ + ".dll"@);
                assert(names@.contains(name) <==> before.contains(name) || here);
                if before.contains(name) {
                    let j = choose|j: int|
                        0 <= j < i && (name == (#[trigger] programs@[j])@ + suffix@ || (windows
                            && name == programs@[j]@ + ".dll"@));
                    assert(0 <= j < i + 1);
                }
            }
        }
        i = i + 1;
    }
    proof {
        assert forall|name: Seq<char>| #[trigger] names@.contains(name) <==> is_kept_binary(
            target,
            name,
        ) by {
            if names@.contains(name) {
                let j = choose|j: int|
                    0 <= j < 5 && (name == (#[trigger] programs@[j])@ + suffix@ || (windows && name
                        == programs@[j]@ + ".dll"@));
                assert(is_kept_program(programs@[j]@));
            }
            if is_kept_binary(target, name) {
                let p = choose|program: Seq<char>| #[trigger]
                    is_kept_program(program) && (name == program + target.suffix() || (target.os
                        == Os::Windows && name == program + ".dll"@));
                let j = if p == "beam.smp"@ {
                    0int
                } else if p == "erl"@ {
                    1int
                } else if p == "erl_child_setup"@ {
                    2int
                } else if p == "erlexec"@ {
                    3int
                } else {
                    4int
                };
                assert(programs@[j]@ == p);
            }
        }
    }
    names
}

/// Whether the path, by its components, is one of a program of the runtime.
pub open spec fn is_binary_path(p: Seq<Seq<char>>) -> bool {
    ||| p.len() == 3 && "erts-"@.is_prefix_of(p[0]) && p[1] == "bin"@
    ||| p.len() == 2 && p[0] == "bin"@
}

/// Decides [`is_binary_path`].
pub fn binary_path(parts: &Vec<String>) -> (r: bool)
    ensures
        r == is_binary_path(views(parts@)),
{
    if parts.len() == 3 {
        starts_with(parts[0].as_str(), "erts-") && same(parts[1].as_str(), "bin")
    } else if parts.len() == 2 {
        same(parts[0].as_str(), "bin")
    } else {
        false
    }
}

/// The components of a path, as texts, where every system reads it alike.
pub open spec fn path_texts(path: Seq<char>) -> Seq<Seq<char>> {
    part_texts(path_parts(path))
}

/// The components of a path, as texts, as Windows or another system reads it.
pub open spec fn texts_by(path: Seq<char>, windows: bool) -> Seq<Seq<char>> {
    part_texts(parts_by(path, windows))
}

fn texts(path: &str) -> (r: Vec<String>)
    ensures
        portable(path@) ==> views(r@) == path_texts(path@),
        is_common(path@) ==> views(r@) == texts_by(path@, false) || views(r@) == texts_by(
            path@,
            true,
        ),
{
    let parts = components(path);
    texts_of(&parts)
}

/// Whether a file of the runtime is a program, by its path under the runtime's root.
pub fn is_erts_binary(relative: &str) -> (r: bool)
    ensures
        portable(relative@) ==> r == is_binary_path(path_texts(relative@)),
        is_common(relative@) ==> r == is_binary_path(texts_by(relative@, false)) || r
            == is_binary_path(texts_by(relative@, true)),
{
    let parts = texts(relative);
    binary_path(&parts)
}

/// Whether a file of the runtime is needed, by the components of its path under the runtime's
/// root: it belongs to an application that is needed and is not in a directory of no use, or it
/// is a kept program, a module of the runtime itself or the boot file.
pub open spec fn is_needed(
    p: Seq<Seq<char>>,
    allowed: Set<Seq<char>>,
    kept: Set<Seq<char>>,
) -> bool {
    if p.len() >= 3 && p[0] == "lib"@ && is_stripped_dir(p[2]) {
        false
    } else if p.len() >= 2 && p[0] == "lib"@ {
        allowed.contains(pieces(p[1], '-', '-')[0])
    } else if p.len() == 3 && "erts-"@.is_prefix_of(p[0]) && p[1] == "bin"@ {
        kept.contains(p[2])
    } else if p.len() >= 2 && "erts-"@.is_prefix_of(p[0]) && p[1] == "ebin"@ {
        true
    } else {
        p.len() == 3 && p[0] == "releases"@ && p[2] == "no_dot_erlang.boot"@
    }
}

/// Decides [`is_needed`].
pub fn needed(parts: &Vec<String>, allowed: &NameSet, kept: &NameSet) -> (r: bool)
    ensures
        r == is_needed(views(parts@), allowed@, kept@),
{
    let n: usize = parts.len();
    if n >= 3 && same(parts[0].as_str(), "lib") && stripped_dir(parts[2].as_str()) {
        return false;
    }
    if n >= 2 && same(parts[0].as_str(), "lib") {
        let app = split(parts[1].as_str(), '-', '-');
        proof {
            crate::text::lemma_pieces_some(parts@[1]@, '-', '-');
            assert(views(app@)[0] == app@[0]@);
        }
        return allowed.contains(app[0].as_str());
    }
    if n == 3 && starts_with(parts[0].as_str(), "erts-") && same(parts[1].as_str(), "bin") {
        return kept.contains(parts[2].as_str());
    }
    if n >= 2 && starts_with(parts[0].as_str(), "erts-") && same(parts[1].as_str(), "ebin") {
        return true;
    }
    n == 3 && same(parts[0].as_str(), "releases") && same(
        parts[2].as_str(),
        "no_dot_erlang.boot",
    )
}

/// Whether a file of the runtime is needed, by its path under the runtime's root.
pub fn should_include_erts_file(relative: &str, allowed: &NameSet, kept_binaries: &NameSet) -> (r:
    bool)
    ensures
        portable(relative@) ==> r == is_needed(
            path_texts(relative@),
            allowed@,
            kept_binaries@,
        ),
        is_common(relative@) ==> r == is_needed(
            texts_by(relative@, false),
            allowed@,
            kept_binaries@,
        ) || r == is_needed(texts_by(relative@, true), allowed@, kept_binaries@),
{
    let parts = texts(relative);
    needed(&parts, allowed, kept_binaries)
}

/// A file found on disk: its path under the root, and its mode there.
#[derive(Debug)]
pub struct FoundFile {
    pub relative: String,
    pub mode: u32,
}

/// A file to be packed: which of those found, and the mode it gets.
#[derive(Debug, Clone, Copy, PartialEq, Eq, Structural)]
pub struct PlannedFile {
    pub index: usize,
    pub mode: u32,
}

/// Whether a found file is packed.
pub open spec fn is_packed(
    relative: Seq<char>,
    allowed: Option<Set<Seq<char>>>,
    target: Target,
) -> bool {
    match allowed {
        None => true,
        Some(apps) => is_needed(
            path_texts(relative),
            apps,
            Set::new(|name: Seq<char>| is_kept_binary(target, name)),
        ),
    }
}

/// Whether a found file is packed, as Windows or another system reads its path.
pub open spec fn is_packed_by(
    relative: Seq<char>,
    allowed: Option<Set<Seq<char>>>,
    target: Target,
    windows: bool,
) -> bool {
    match allowed {
        None => true,
        Some(apps) => is_needed(
            texts_by(relative, windows),
            apps,
            Set::new(|name: Seq<char>| is_kept_binary(target, name)),
        ),
    }
}

/// The mode that a file of the runtime gets, as Windows or another system reads its path.
pub open spec fn packed_mode_by(relative: Seq<char>, mode: u32, windows: bool) -> u32 {
    if is_binary_path(texts_by(relative, windows)) {
        0o755
    } else {
        mode
    }
}

/// The mode that a file of the runtime gets: programs can be run by everyone.
pub open spec fn packed_mode(relative: Seq<char>, mode: u32) -> u32 {
    if is_binary_path(path_texts(relative)) {
        0o755
    } else {
        mode
    }
}

/// The files of the runtime that are packed, in their order.
pub open spec fn erts_plan(
    files: Seq<FoundFile>,
    allowed: Option<Set<Seq<char>>>,
    target: Target,
) -> Seq<PlannedFile>
    decreases files.len(),
{
    if files.len() == 0 {
        Seq::empty()
    } else {
        let before = erts_plan(files.drop_last(), allowed, target);
        let f = files.last();
        if is_packed(f.relative@, allowed, target) {
            before.push(
                PlannedFile {
                    index: (files.len() - 1) as usize,
                    mode: packed_mode(f.relative@, f.mode),
                },
            )
        } else {
            before
        }
    }
}

/// The set that the allowed applications are.
pub open spec fn allowed_view(allowed: Option<&NameSet>) -> Option<Set<Seq<char>>> {
    match allowed {
        Some(s) => Some(s@),
        None => None,
    }
}

/// Whether the file with the given number is packed by the plan.
pub open spec fn is_planned(plan: Seq<PlannedFile>, i: int) -> bool {
    exists|k: int| 0 <= k < plan.len() && (#[trigger] plan[k]).index == i
}

/// Whether the plan is right for one file, whose path every system reads alike: it is packed
/// where it is to be, with its mode.
pub open spec fn is_planned_right(
    plan: Seq<PlannedFile>,
    files: Seq<FoundFile>,
    allowed: Option<Set<Seq<char>>>,
    target: Target,
    i: int,
) -> bool {
    &&& is_planned(plan, i) <==> is_packed(files[i].relative@, allowed, target)
    &&& forall|k: int|
        0 <= k < plan.len() && (#[trigger] plan[k]).index == i ==> plan[k].mode == packed_mode(
            files[i].relative@,
            files[i].mode,
        )
}

/// Whether the plan is right for one file with a common path: it is packed where Windows or
/// another system says so by its path, and has the mode that one of them says.
pub open spec fn is_planned_by_system(
    plan: Seq<PlannedFile>,
    files: Seq<FoundFile>,
    allowed: Option<Set<Seq<char>>>,
    target: Target,
    i: int,
) -> bool {
    let f = files[i];
    &&& is_planned(plan, i) == is_packed_by(f.relative@, allowed, target, false) || is_planned(
        plan,
        i,
    ) == is_packed_by(f.relative@, allowed, target, true)
    &&& forall|k: int|
        0 <= k < plan.len() && (#[trigger] plan[k]).index == i ==> plan[k].mode == packed_mode_by(
            f.relative@,
            f.mode,
            false,
        ) || plan[k].mode == packed_mode_by(f.relative@, f.mode, true)
}

/// Which files of the runtime are packed, and with what mode, in the order of the files. Without
/// a set of applications all of them are. The files whose paths every system reads alike are
/// packed as they are to be, whatever other files there are.
pub fn plan_erts(files: &Vec<FoundFile>, allowed_otp_apps: Option<&NameSet>, target: Target) -> (r:
    Vec<PlannedFile>)
    ensures
        (forall|i: int| 0 <= i < files@.len() ==> portable((#[trigger] files@[i]).relative@))
            ==> r@ == erts_plan(files@, allowed_view(allowed_otp_apps), target),
        forall|i: int|
            0 <= i < files@.len() && portable((#[trigger] files@[i]).relative@) ==> is_planned_right(
                r@,
                files@,
                allowed_view(allowed_otp_apps),
                target,
                i,
            ),
        forall|i: int|
            0 <= i < files@.len() && is_common((#[trigger] files@[i]).relative@)
                ==> is_planned_by_system(
                r@,
                files@,
                allowed_view(allowed_otp_apps),
                target,
                i,
            ),
        allowed_otp_apps is None ==> r@.len() == files@.len(),
        forall|k: int| 0 <= k < r@.len() ==> (#[trigger] r@[k]).index < files@.len(),
        forall|j: int, k: int|
            0 <= j < k < r@.len() ==> (#[trigger] r@[j]).index < (#[trigger] r@[k]).index,
{
    let kept = kept_erts_binary_names(target);
    let ghost allowed = allowed_view(allowed_otp_apps);
    let mut out: Vec<PlannedFile> = Vec::new();
    let mut i: usize = 0;
    proof {
        assert(files@.take(0) =~= Seq::empty());
        assert(kept@ =~= Set::new(|name: Seq<char>| is_kept_binary(target, name)));
    }
    while i < files.len()
        invariant
            i <= files.len(),
            allowed == allowed_view(allowed_otp_apps),
            kept@ == Set::new(|name: Seq<char>| is_kept_binary(target, name)),
            (forall|j: int| 0 <= j < i ==> portable((#[trigger] files@[j]).relative@)) ==> out@
                == erts_plan(files@.take(i as int), allowed, target),
            forall|j: int|
                0 <= j < i && portable((#[trigger] files@[j]).relative@) ==> is_planned_right(
                    out@,
                    files@,
                    allowed,
                    target,
                    j,
                ),
            forall|j: int|
                0 <= j < i && is_common((#[trigger] files@[j]).relative@) ==> is_planned_by_system(
                    out@,
                    files@,
                    allowed,
                    target,
                    j,
                ),
            allowed_otp_apps is None ==> out@.len() == i,
            forall|k: int| 0 <= k < out@.len() ==> (#[trigger] out@[k]).index < i,
            forall|j: int, k: int|
                0 <= j < k < out@.len() ==> (#[trigger] out@[j]).index < (#[trigger] out@[k]).index,
        decreases files.len() - i,
    {
        let ghost before = out@;
        let ghost seen = files@.take(i + 1);
        proof {
            assert(seen.drop_last() =~= files@.take(i as int));
            assert(seen.last() == files@[i as int]);
        }
        let relative = files[i].relative.as_str();
        let include_it = match allowed_otp_apps {
            Some(apps) => should_include_erts_file(relative, apps, &kept),
            None => true,
        };
        if include_it {
            let mode: u32 = if is_erts_binary(relative) {
                0o755
            } else {
                files[i].mode
            };
            out.push(PlannedFile { index: i, mode });
        }
        proof {
            assert forall|j: int|
                0 <= j < i + 1 && portable((#[trigger] files@[j]).relative@) implies is_planned_right(
                out@,
                files@,
                allowed,
                target,
                j,
            ) by {
                if j == i {
                    if include_it {
                        assert(out@[before.len() as int].index == i);
                    }
                } else {
                    assert(is_planned_right(before, files@, allowed, target, j));
                    if is_planned(before, j) {
                        let k = choose|k: int|
                            0 <= k < before.len() && (#[trigger] before[k]).index == j;
                        assert(out@[k].index == j);
                    }
                    if is_planned(out@, j) {
                        let k = choose|k: int|
                            0 <= k < out@.len() && (#[trigger] out@[k]).index == j;
                        assert(before[k].index == j);
                    }
                    assert forall|k: int|
                        0 <= k < out@.len() && (#[trigger] out@[k]).index == j implies out@[k].mode
                        == packed_mode(files@[j].relative@, files@[j].mode) by {
                        assert(before[k] == out@[k]);
                    }
                }
            }
            assert forall|j: int|
                0 <= j < i + 1 && is_common(
                    (#[trigger] files@[j]).relative@,
                ) implies is_planned_by_system(out@, files@, allowed, target, j) by {
                if j == i {
                    if include_it {
                        assert(out@[before.len() as int].index == i);
                    }
                } else {
                    assert(is_planned_by_system(before, files@, allowed, target, j));
                    if is_planned(before, j) {
                        let k = choose|k: int|
                            0 <= k < before.len() && (#[trigger] before[k]).index == j;
                        assert(out@[k].index == j);
                    }
                    if is_planned(out@, j) {
                        let k = choose|k: int|
                            0 <= k < out@.len() && (#[trigger] out@[k]).index == j;
                        assert(before[k].index == j);
                    }
                    assert forall|k: int|
                        0 <= k < out@.len() && (#[trigger] out@[k]).index == j implies out@[k].mode
                        == packed_mode_by(files@[j].relative@, files@[j].mode, false)
                        || out@[k].mode == packed_mode_by(
                        files@[j].relative@,
                        files@[j].mode,
                        true,
                    ) by {
                        assert(before[k] == out@[k]);
                    }
                }
            }
        }
        i = i + 1;
    }
    assert(files@.take(files@.len() as int) =~= files@);
    out
}

/// The bytes that tell one runtime archive from another.
pub open spec fn config_bytes(
    erts_version: Seq<char>,
    target: Target,
    allowed: Option<Set<Seq<char>>>,
    strip_beam: bool,
) -> Seq<u8> {
    encode_utf8(erts_version) + encode_utf8(target.text()) + seq![if strip_beam {
        1u8
    } else {
        0u8
    }] + apps_bytes(allowed)
}

/// The bytes that tell the applications of one runtime archive from those of another.
pub open spec fn apps_bytes(allowed: Option<Set<Seq<char>>>) -> Seq<u8> {
    match allowed {
        Some(apps) => all_bytes(listing(apps)),
        None => encode_utf8("full_erts"@),
    }
}

/// The bytes of texts, one after another.
pub open spec fn all_bytes(texts: Seq<Seq<char>>) -> Seq<u8>
    decreases texts.len(),
{
    if texts.len() == 0 {
        Seq::empty()
    } else {
        all_bytes(texts.drop_last()) + encode_utf8(texts.last())
    }
}

/// The hash that names a runtime archive: of the runtime's version, the target, whether debug
/// information is removed, and the applications in ascending order.
pub fn erts_config_hash(
    erts_version: &str,
    target: Target,
    allowed_otp_apps: Option<&NameSet>,
    strip_beam: bool,
) -> (r: String)
    ensures
        r@ == hex_digest(
            config_bytes(erts_version@, target, allowed_view(allowed_otp_apps), strip_beam),
        ),
        r@.len() == 64,
{
    let mut bytes: Vec<u8> = Vec::new();
    bytes.extend_from_slice(erts_version.as_bytes());
    assert(bytes@ =~= encode_utf8(erts_version@));
    let target_text = target.to_string();
    bytes.extend_from_slice(target_text.as_str().as_bytes());
    bytes.push(
        if strip_beam {
            1u8
        } else {
            0u8
        },
    );
    let ghost head = encode_utf8(erts_version@) + encode_utf8(target.text()) + seq![if strip_beam {
        1u8
    } else {
        0u8
    }];
    assert(bytes@ =~= head);
    match allowed_otp_apps {
        Some(apps) => {
            let sorted = apps.sorted();
            let ghost all = views(sorted@);
            let mut i: usize = 0;
            assert(all.take(0) =~= Seq::empty());
            assert(bytes@ =~= head + all_bytes(all.take(0)));
            while i < sorted.len()
                invariant
                    i <= sorted.len(),
                    all == views(sorted@),
                    bytes@ == head + all_bytes(all.take(i as int)),
                decreases sorted.len() - i,
            {
                bytes.extend_from_slice(sorted[i].as_str().as_bytes());
                proof {
                    assert(all.take(i + 1).drop_last() =~= all.take(i as int));
                    assert(all.take(i + 1).last() == sorted@[i as int]@);
                    assert(bytes@ =~= head + all_bytes(all.take(i + 1)));
                }
                i = i + 1;
            }
            assert(all.take(all.len() as int) =~= all);
        },
        None => {
            bytes.extend_from_slice("full_erts".as_bytes());
        },
    }
    assert(bytes@ =~= config_bytes(
        erts_version@,
        target,
        allowed_view(allowed_otp_apps),
        strip_beam,
    ));
    hash_bytes(bytes.as_slice())
}

/// The name of a cached runtime archive.
pub open spec fn cache_name(hash: Seq<char>, compression_level: int) -> Seq<char> {
    "erts_"@ + hash + "_zstd"@ + signed_decimal(compression_level) + ".tar.zst"@
}

/// Where a runtime archive is cached, under the directory of all cached files.
pub fn erts_cache_path(cache_dir: &str, hash: &str, target: Target, compression_level: i32) -> (r:
    String)
    ensures
        plain_base(cache_dir@) && plain_child(cache_name(hash@, compression_level as int))
            ==> is_path(
            cache_dir@,
            seq!["payload"@, target.text(), cache_name(hash@, compression_level as int)],
            r@,
        ),
{
    let mut name = String::from_str("erts_");
    name.append(hash);
    name.append("_zstd");
    name.append(signed_decimal_text(compression_level).as_str());
    name.append(".tar.zst");
    let target_text = target.to_string();
    proof {
        crate::target::lemma_text_plain(target);
        reveal_strlit("payload");
        assert("payload"@[0] == 'p');
        assert(plain_child("payload"@));
    }
    join3(cache_dir, "payload", target_text.as_str(), name.as_str())
}

/// A compiled module without its debug information, with the path of the file it was.
#[derive(Debug)]
pub struct StrippedFile {
    pub path: String,
    pub data: Vec<u8>,
}

/// The last of the stripped files whose path is the given one, where every system reads the paths
/// alike: it has the same components.
pub open spec fn stripped_at(stripped: Seq<StrippedFile>, path: Seq<char>) -> Option<Seq<u8>>
    decreases stripped.len(),
{
    if stripped.len() == 0 {
        None
    } else if path_parts(stripped.last().path@) == path_parts(path) {
        Some(stripped.last().data@)
    } else {
        stripped_at(stripped.drop_last(), path)
    }
}

/// Whether two paths are the same to every system.
pub open spec fn surely_same(a: Seq<char>, b: Seq<char>) -> bool {
    a == b || (is_comparable(a, b) && same_by(a, b, false) && same_by(a, b, true))
}

/// Whether two paths may be the same to a system.
pub open spec fn maybe_same(a: Seq<char>, b: Seq<char>) -> bool {
    is_comparable(a, b) ==> same_by(a, b, false) || same_by(a, b, true)
}

/// Whether the data is that of the stripped file with the given path: it is one whose path may be
/// the same, and no later one has a path that is surely the same. There is none where no stripped
/// file has a path that is surely the same.
pub open spec fn is_stripped_data(
    stripped: Seq<StrippedFile>,
    path: Seq<char>,
    data: Option<Seq<u8>>,
) -> bool {
    match data {
        Some(d) => exists|i: int|
            {
                &&& 0 <= i < stripped.len()
                &&& (#[trigger] stripped[i]).data@ == d
                &&& maybe_same(stripped[i].path@, path)
                &&& forall|j: int|
                    i < j < stripped.len() ==> !surely_same((#[trigger] stripped[j]).path@, path)
            },
        None => forall|j: int|
            0 <= j < stripped.len() ==> !surely_same((#[trigger] stripped[j]).path@, path),
    }
}

/// What is packed in place of the file, where it was stripped: what the last of the stripped files
/// with its path holds. A file that was not stripped is packed as it is on disk.
pub fn stripped_data<'a>(stripped: &'a Vec<StrippedFile>, path: &str) -> (r: Option<&'a Vec<u8>>)
    ensures
        is_stripped_data(
            stripped@,
            path@,
            match r {
                Some(d) => Some(d@),
                None => None,
            },
        ),
        portable(path@) && (forall|i: int|
            0 <= i < stripped@.len() ==> portable((#[trigger] stripped@[i]).path@)) ==> (match r {
            Some(d) => stripped_at(stripped@, path@) == Some(d@),
            None => stripped_at(stripped@, path@) is None,
        }),
{
    let mut n: usize = stripped.len();
    let ghost plain = portable(path@) && forall|i: int|
        0 <= i < stripped@.len() ==> portable((#[trigger] stripped@[i]).path@);
    assert(stripped@.take(stripped@.len() as int) =~= stripped@);
    while n > 0
        invariant
            n <= stripped.len(),
            plain == (portable(path@) && forall|i: int|
                0 <= i < stripped@.len() ==> portable((#[trigger] stripped@[i]).path@)),
            plain ==> stripped_at(stripped@.take(n as int), path@) == stripped_at(
                stripped@,
                path@,
            ),
            forall|j: int|
                n <= j < stripped@.len() ==> !surely_same((#[trigger] stripped@[j]).path@, path@),
        decreases n,
    {
        proof {
            assert(stripped@.take(n as int).drop_last() =~= stripped@.take(n - 1));
            if plain {
                assert(portable(stripped@[n - 1].path@));
                crate::paths::lemma_portable_parts(stripped@[n - 1].path@);
                crate::paths::lemma_portable_parts(path@);
            }
        }
        if same_path(stripped[n - 1].path.as_str(), path) {
            return Some(&stripped[n - 1].data);
        }
        n = n - 1;
    }
    None
}

/// A file of the application, with its path under the directory that was compiled.
#[derive(Debug)]
pub struct AppFile {
    pub relative: String,
    pub mode: u32,
    pub data: Vec<u8>,
}

/// What a file of the application is in the archive: it stands under `lib`.
pub open spec fn app_file(f: AppFile) -> FileText {
    FileText { path: "lib/"@ + f.relative@, mode: f.mode, data: f.data@ }
}

/// What the files of an application are in the archive.
pub open spec fn app_files(files: Seq<AppFile>) -> Seq<FileText> {
    Seq::new(files.len(), |i: int| app_file(files[i]))
}

/// The files of an application as they are packed, in their order.
pub fn app_pack_files<'a>(files: &'a Vec<AppFile>) -> (r: Vec<PackFile<'a>>)
    ensures
        r@.len() == files@.len(),
        forall|i: int| 0 <= i < files@.len() ==> (#[trigger] r@[i])@ == app_file(files@[i]),
{
    let mut packed: Vec<PackFile<'a>> = Vec::new();
    let mut i: usize = 0;
    while i < files.len()
        invariant
            i <= files.len(),
            packed@.len() == i,
            forall|j: int| 0 <= j < i ==> (#[trigger] packed@[j])@ == app_file(files@[j]),
        decreases files.len() - i,
    {
        let file = &files[i];
        let mut path = String::from_str("lib/");
        path.append(file.relative.as_str());
        packed.push(PackFile { path, mode: file.mode, data: file.data.as_slice() });
        i = i + 1;
    }
    packed
}

/// What packing an application comes to, by what packing its files came to: the archive with its
/// hash, or the error.
pub fn app_packed(packed: Result<Vec<u8>, std::io::Error>) -> (r: Result<
    (Vec<u8>, String),
    std::io::Error,
>)
    ensures
        match packed {
            Ok(archive) => r matches Ok((bytes, hash)) && bytes == archive && hash@ == hex_digest(
                archive@,
            ),
            Err(e) => r == Err::<(Vec<u8>, String), std::io::Error>(e),
        },
{
    match packed {
        Ok(bytes) => {
            let hash = hash_bytes(bytes.as_slice());
            Ok((bytes, hash))
        },
        Err(e) => Err(e),
    }
}

/// Packs the application, and hashes what was packed.
pub fn assemble_app(files: &Vec<AppFile>, compression_level: i32) -> (r: Result<
    (Vec<u8>, String),
    std::io::Error,
>)
    ensures
        all_taken(app_files(files@)) ==> r is Ok,
        r matches Ok((bytes, hash)) ==> {
            &&& bytes@.len() > 0
            &&& hash@ == hex_digest(bytes@)
            &&& written_at(bytes@, compression_level)
            &&& (forall|i: int| 0 <= i < files@.len() ==> is_kept(app_file(#[trigger] files@[i])))
                ==> zstd_entries(bytes@) == Some(
                Seq::new(files@.len(), |i: int| file_entry(app_file(files@[i]))),
            )
            &&& all_storable(app_files(files@)) ==> are_stored(
                app_files(files@),
                zstd_entries(bytes@),
            )
        },
        (exists|i: int|
            0 <= i < files@.len() && is_refused(app_file(#[trigger] files@[i]).path)) ==> r is Err,
{
    let packed = app_pack_files(files);
    proof {
        assert(file_views(packed@) =~= app_files(files@));
        if forall|i: int| 0 <= i < files@.len() ==> is_kept(app_file(#[trigger] files@[i])) {
            assert forall|i: int| 0 <= i < packed@.len() implies is_kept(
                (#[trigger] packed@[i])@,
            ) by {
                assert(is_kept(app_file(files@[i])));
            }
            assert(Seq::new(packed@.len(), |i: int| file_entry(packed@[i]@)) =~= Seq::new(
                files@.len(),
                |i: int| file_entry(app_file(files@[i])),
            ));
        }
        if exists|i: int|
            0 <= i < files@.len() && is_refused(app_file(#[trigger] files@[i]).path) {
            let i = choose|i: int|
                0 <= i < files@.len() && is_refused(app_file(#[trigger] files@[i]).path);
            assert(packed@[i]@ == app_file(files@[i]));
            assert(has_refused(packed@));
        }
    }
    app_packed(pack(&packed, compression_level))
}

/// What was packed of an application is unpacked: where its archive keeps its files as they are,
/// each goes under `lib` in the destination, by the names in its path, with its mode.
pub proof fn law_app_unpacks(files: Seq<AppFile>, dest: Seq<char>, v: Seq<Placement>)
    requires
        forall|i: int| 0 <= i < files.len() ==> is_kept(app_file(#[trigger] files[i])),
        plain_base(dest),
        are_right(dest, Seq::new(files.len(), |i: int| file_entry(app_file(files[i]))), v),
    ensures
        v.len() == files.len(),
        forall|i: int|
            0 <= i < files.len() ==> {
                &&& (#[trigger] v[i]).index == i
                &&& v[i].kind == EntryKind::File
                &&& v[i].mode == Some(files[i].mode)
                &&& is_placed(
                    dest,
                    seq!["lib"@] + pieces(files[i].relative@, '/', '/'),
                    v[i].path@,
                )
            },
{
    let texts = Seq::new(files.len(), |i: int| app_file(files[i]));
    assert forall|i: int| 0 <= i < texts.len() implies is_kept(#[trigger] texts[i]) by {
        assert(is_kept(app_file(files[i])));
    }
    assert(crate::archive::file_entries(texts) =~= Seq::new(
        files.len(),
        |i: int| file_entry(app_file(files[i])),
    ));
    crate::archive::law_packed_unpacks(texts, dest, v);
    reveal_strlit("lib/");
    reveal_strlit("lib");
    assert("lib/"@ =~= "lib"@.push('/'));
    assert(!"lib"@.contains('/'));
    assert forall|i: int| 0 <= i < files.len() implies {
        &&& (#[trigger] v[i]).index == i
        &&& v[i].kind == EntryKind::File
        &&& v[i].mode == Some(files[i].mode)
        &&& is_placed(dest, seq!["lib"@] + pieces(files[i].relative@, '/', '/'), v[i].path@)
    } by {
        let relative = files[i].relative@;
        crate::text::lemma_pieces_split("lib"@, '/', relative, '/', '/');
        assert(texts[i].path == "lib"@.push('/') + relative);
    }
}

/// What a planned file of the runtime is in the archive.
pub open spec fn erts_file(
    files: Seq<FoundFile>,
    plan: Seq<PlannedFile>,
    data: Seq<Vec<u8>>,
    k: int,
) -> FileText {
    FileText {
        path: files[plan[k].index as int].relative@,
        mode: plan[k].mode,
        data: data[k]@,
    }
}

/// What the planned files of the runtime are in the archive.
pub open spec fn erts_files(
    files: Seq<FoundFile>,
    plan: Seq<PlannedFile>,
    data: Seq<Vec<u8>>,
) -> Seq<FileText> {
    Seq::new(plan.len(), |k: int| erts_file(files, plan, data, k))
}

/// The planned files of the runtime as they are packed, each with its data, in their order.
pub fn erts_pack_files<'a>(
    files: &Vec<FoundFile>,
    plan: &Vec<PlannedFile>,
    data: &'a Vec<Vec<u8>>,
) -> (r: Vec<PackFile<'a>>)
    requires
        data@.len() == plan@.len(),
        forall|k: int| 0 <= k < plan@.len() ==> (#[trigger] plan@[k]).index < files@.len(),
    ensures
        r@.len() == plan@.len(),
        forall|k: int|
            0 <= k < plan@.len() ==> (#[trigger] r@[k])@ == erts_file(files@, plan@, data@, k),
{
    let mut packed: Vec<PackFile<'a>> = Vec::new();
    let mut k: usize = 0;
    while k < plan.len()
        invariant
            k <= plan.len(),
            data@.len() == plan@.len(),
            forall|j: int| 0 <= j < plan@.len() ==> (#[trigger] plan@[j]).index < files@.len(),
            packed@.len() == k,
            forall|j: int|
                0 <= j < k ==> (#[trigger] packed@[j])@ == erts_file(files@, plan@, data@, j),
        decreases plan.len() - k,
    {
        let planned = plan[k];
        packed.push(
            PackFile {
                path: files[planned.index].relative.clone(),
                mode: planned.mode,
                data: data[k].as_slice(),
            },
        );
        k = k + 1;
    }
    packed
}

/// What packing the runtime comes to, by what packing its files came to: the archive with the
/// hash that names it, or the error.
pub fn erts_packed(
    packed: Result<Vec<u8>, std::io::Error>,
    erts_version: &str,
    allowed_otp_apps: Option<&NameSet>,
    strip_beam: bool,
    target: Target,
) -> (r: Result<(Vec<u8>, String), std::io::Error>)
    ensures
        match packed {
            Ok(archive) => r matches Ok((bytes, hash)) && bytes == archive && hash@ == hex_digest(
                config_bytes(erts_version@, target, allowed_view(allowed_otp_apps), strip_beam),
            ),
            Err(e) => r == Err::<(Vec<u8>, String), std::io::Error>(e),
        },
{
    match packed {
        Ok(bytes) => {
            let hash = erts_config_hash(erts_version, target, allowed_otp_apps, strip_beam);
            Ok((bytes, hash))
        },
        Err(e) => Err(e),
    }
}

/// Packs the planned files of the runtime, each with its data, and gives the hash that names the
/// archive.
pub fn assemble_erts(
    files: &Vec<FoundFile>,
    plan: &Vec<PlannedFile>,
    data: &Vec<Vec<u8>>,
    erts_version: &str,
    allowed_otp_apps: Option<&NameSet>,
    strip_beam: bool,
    target: Target,
    compression_level: i32,
) -> (r: Result<(Vec<u8>, String), std::io::Error>)
    requires
        data@.len() == plan@.len(),
        forall|k: int| 0 <= k < plan@.len() ==> (#[trigger] plan@[k]).index < files@.len(),
    ensures
        all_taken(erts_files(files@, plan@, data@)) ==> r is Ok,
        r matches Ok((bytes, hash)) ==> {
            &&& bytes@.len() > 0
            &&& hash@ == hex_digest(
                config_bytes(erts_version@, target, allowed_view(allowed_otp_apps), strip_beam),
            )
            &&& written_at(bytes@, compression_level)
            &&& (forall|k: int|
                0 <= k < plan@.len() ==> is_kept(#[trigger] erts_file(files@, plan@, data@, k)))
                ==> zstd_entries(bytes@) == Some(
                Seq::new(plan@.len(), |k: int| file_entry(erts_file(files@, plan@, data@, k))),
            )
            &&& all_storable(erts_files(files@, plan@, data@)) ==> are_stored(
                erts_files(files@, plan@, data@),
                zstd_entries(bytes@),
            )
        },
        (exists|k: int|
            0 <= k < plan@.len() && is_refused(
                (#[trigger] erts_file(files@, plan@, data@, k)).path,
            )) ==> r is Err,
{
    let packed = erts_pack_files(files, plan, data);
    proof {
        assert(file_views(packed@) =~= erts_files(files@, plan@, data@));
        if forall|k: int|
            0 <= k < plan@.len() ==> is_kept(#[trigger] erts_file(files@, plan@, data@, k)) {
            assert forall|k: int| 0 <= k < packed@.len() implies is_kept(
                (#[trigger] packed@[k])@,
            ) by {
                assert(is_kept(erts_file(files@, plan@, data@, k)));
            }
            assert(Seq::new(packed@.len(), |k: int| file_entry(packed@[k]@)) =~= Seq::new(
                plan@.len(),
                |k: int| file_entry(erts_file(files@, plan@, data@, k)),
            ));
        }
        if exists|k: int|
            0 <= k < plan@.len() && is_refused(
                (#[trigger] erts_file(files@, plan@, data@, k)).path,
            ) {
            let k = choose|k: int|
                0 <= k < plan@.len() && is_refused(
                    (#[trigger] erts_file(files@, plan@, data@, k)).path,
                );
            assert(packed@[k]@ == erts_file(files@, plan@, data@, k));
            assert(has_refused(packed@));
        }
    }
    erts_packed(
        pack(&packed, compression_level),
        erts_version,
        allowed_otp_apps,
        strip_beam,
        target,
    )
}

/// What is hashed tells apart archives that differ in the runtime's version, the target, whether
/// debug information was removed or the bytes of the applications, where no version has the two
/// control characters whose codes are 0 and 1.
pub proof fn law_config_told_apart(
    version_a: Seq<char>,
    target_a: Target,
    allowed_a: Option<Set<Seq<char>>>,
    strip_a: bool,
    version_b: Seq<char>,
    target_b: Target,
    allowed_b: Option<Set<Seq<char>>>,
    strip_b: bool,
)
    requires
        forall|i: int| 0 <= i < version_a.len() ==> (#[trigger] version_a[i]) as u32 >= 2,
        forall|i: int| 0 <= i < version_b.len() ==> (#[trigger] version_b[i]) as u32 >= 2,
        config_bytes(version_a, target_a, allowed_a, strip_a) == config_bytes(
            version_b,
            target_b,
            allowed_b,
            strip_b,
        ),
    ensures
        version_a == version_b,
        target_a == target_b,
        strip_a == strip_b,
        apps_bytes(allowed_a) == apps_bytes(allowed_b),
{
    let x = config_bytes(version_a, target_a, allowed_a, strip_a);
    let y = config_bytes(version_b, target_b, allowed_b, strip_b);
    let head_a = version_a + target_a.text();
    let head_b = version_b + target_b.text();
    lemma_target_chars(target_a);
    lemma_target_chars(target_b);
    crate::text::lemma_encoding_concat(version_a, target_a.text());
    crate::text::lemma_encoding_concat(version_b, target_b.text());
    assert forall|i: int| 0 <= i < head_a.len() implies (#[trigger] head_a[i]) as u32 >= 2 by {
        if i >= version_a.len() {
            assert(head_a[i] == target_a.text()[i - version_a.len()]);
        }
    }
    assert forall|i: int| 0 <= i < head_b.len() implies (#[trigger] head_b[i]) as u32 >= 2 by {
        if i >= version_b.len() {
            assert(head_b[i] == target_b.text()[i - version_b.len()]);
        }
    }
    crate::text::lemma_encoding_bytes(head_a);
    crate::text::lemma_encoding_bytes(head_b);
    let n = encode_utf8(head_a).len() as int;
    let m = encode_utf8(head_b).len() as int;
    assert(x[n] == if strip_a {
        1u8
    } else {
        0u8
    });
    assert(y[m] == if strip_b {
        1u8
    } else {
        0u8
    });
    if n < m {
        assert(y[n] == encode_utf8(head_b)[n]);
    }
    if m < n {
        assert(x[m] == encode_utf8(head_a)[m]);
    }
    assert(x.take(n) =~= encode_utf8(head_a));
    assert(y.take(n) =~= encode_utf8(head_b));
    crate::text::lemma_encoding_injective(head_a, head_b);
    crate::target::lemma_text_ending(version_a, target_a, version_b, target_b);
    assert(x.skip(n + 1) =~= apps_bytes(allowed_a));
    assert(y.skip(n + 1) =~= apps_bytes(allowed_b));
}

proof fn lemma_all_bytes_insert(texts: Seq<Seq<char>>, i: int, x: Seq<char>)
    requires
        0 <= i <= texts.len(),
    ensures
        all_bytes(texts.insert(i, x)).len() == all_bytes(texts).len() + encode_utf8(x).len(),
    decreases texts.len(),
{
    let more = texts.insert(i, x);
    if i == texts.len() {
        assert(more.drop_last() =~= texts);
        assert(more.last() == x);
    } else {
        lemma_all_bytes_insert(texts.drop_last(), i, x);
        assert(more.drop_last() =~= texts.drop_last().insert(i, x));
        assert(more.last() == texts.last());
    }
}

/// What is hashed tells apart a runtime archive and one with another application besides.
pub proof fn law_added_app_told_apart(
    erts_version: Seq<char>,
    target: Target,
    apps: Set<Seq<char>>,
    app: Seq<char>,
    strip_beam: bool,
)
    requires
        apps.finite(),
        !apps.contains(app),
        app.len() > 0,
    ensures
        config_bytes(erts_version, target, Some(apps), strip_beam) != config_bytes(
            erts_version,
            target,
            Some(apps.insert(app)),
            strip_beam,
        ),
{
    crate::order::lemma_listing(apps);
    let i = crate::order::lemma_listing_insert(apps, app);
    lemma_all_bytes_insert(listing(apps), i, app);
    if encode_utf8(app).len() == 0 {
        let none = Seq::<char>::empty();
        assert(encode_utf8(app) =~= encode_utf8(none));
        crate::text::lemma_encoding_injective(app, none);
    }
    assert(config_bytes(erts_version, target, Some(apps), strip_beam).len() != config_bytes(
        erts_version,
        target,
        Some(apps.insert(app)),
        strip_beam,
    ).len());
}

/// Texts, one after another.
pub open spec fn spelled(texts: Seq<Seq<char>>) -> Seq<char>
    decreases texts.len(),
{
    if texts.len() == 0 {
        Seq::empty()
    } else {
        spelled(texts.drop_last()) + texts.last()
    }
}

proof fn lemma_spelled(texts: Seq<Seq<char>>)
    ensures
        all_bytes(texts) == encode_utf8(spelled(texts)),
    decreases texts.len(),
{
    if texts.len() > 0 {
        lemma_spelled(texts.drop_last());
        crate::text::lemma_encoding_concat(spelled(texts.drop_last()), texts.last());
    } else {
        assert(all_bytes(texts) =~= encode_utf8(spelled(texts)));
    }
}

/// What is hashed tells apart the archive of the whole runtime and one of some applications, where
/// their names, in ascending order and one after another, do not spell `full_erts`.
pub proof fn law_full_erts_told_apart(
    erts_version: Seq<char>,
    target: Target,
    apps: Set<Seq<char>>,
    strip_beam: bool,
)
    requires
        spelled(listing(apps)) != "full_erts"@,
    ensures
        config_bytes(erts_version, target, Some(apps), strip_beam) != config_bytes(
            erts_version,
            target,
            None,
            strip_beam,
        ),
{
    lemma_spelled(listing(apps));
    let x = config_bytes(erts_version, target, Some(apps), strip_beam);
    let y = config_bytes(erts_version, target, None, strip_beam);
    if x == y {
        let n = x.len() - apps_bytes(Some(apps)).len();
        let m = y.len() - apps_bytes(None).len();
        assert(n == m);
        assert(x.skip(n) =~= apps_bytes(Some(apps)));
        assert(y.skip(n) =~= apps_bytes(None));
        crate::text::lemma_encoding_injective(spelled(listing(apps)), "full_erts"@);
    }
}

proof fn lemma_target_chars(target: Target)
    ensures
        forall|i: int| 0 <= i < target.text().len() ==> (#[trigger] target.text()[i]) as u32 >= 2,
{
    reveal_strlit("x86_64");
    reveal_strlit("aarch64");
    reveal_strlit("-linux-");
    reveal_strlit("-");
    reveal_strlit("macos");
    reveal_strlit("windows");
    reveal_strlit("glibc");
    reveal_strlit("musl");
    reveal_strlit("static");
}

/// Whether a directory's name is that of a version of an application, or the application's own:
/// what stands before its first hyphen is the application's name.
pub open spec fn is_app_dir(dir: Seq<char>, app: Seq<char>) -> bool {
    !app.contains('-') && (dir == app || app.push('-').is_prefix_of(dir))
}

proof fn lemma_app_dir(dir: Seq<char>, app: Seq<char>)
    requires
        is_app_dir(dir, app),
    ensures
        pieces(dir, '-', '-')[0] == app,
{
    if dir == app {
        crate::text::lemma_pieces_whole(app, '-', '-');
    } else {
        let rest = dir.skip(app.len() as int + 1);
        assert(dir =~= app.push('-') + rest);
        crate::text::lemma_pieces_split(app, '-', rest, '-', '-');
    }
}

proof fn lemma_path_words()
    ensures
        "lib"@.len() == 3 && "bin"@.len() == 3 && "ebin"@.len() == 4,
        "erts-"@.len() == 5 && "releases"@.len() == 8,
        "lib"@[0] == 'l' && "erts-"@[0] == 'e' && "releases"@[0] == 'r' && "bin"@[0] == 'b',
{
    reveal_strlit("lib");
    reveal_strlit("bin");
    reveal_strlit("ebin");
    reveal_strlit("erts-");
    reveal_strlit("releases");
}

/// Of an application that is needed everything is packed but its sources, documentation and
/// examples, and of another nothing: a file under `lib` and the directory of an application is
/// needed just where the application is allowed and the third component of its path, where there
/// is one, is none of the five directories of no use. What follows makes no difference.
pub proof fn law_app_files_needed(
    p: Seq<Seq<char>>,
    app: Seq<char>,
    allowed: Set<Seq<char>>,
    kept: Set<Seq<char>>,
)
    requires
        p.len() >= 2,
        p[0] == "lib"@,
        is_app_dir(p[1], app),
    ensures
        is_needed(p, allowed, kept) <==> allowed.contains(app) && (p.len() > 2 ==> p[2] != "src"@
            && p[2] != "doc"@ && p[2] != "examples"@ && p[2] != "include"@ && p[2] != "c_src"@),
{
    lemma_app_dir(p[1], app);
}

/// Whether a file under `lib` is needed depends on the first three components of its path alone,
/// and not on which programs are kept.
pub proof fn law_app_files_alike(
    p: Seq<Seq<char>>,
    q: Seq<Seq<char>>,
    allowed: Set<Seq<char>>,
    kept_p: Set<Seq<char>>,
    kept_q: Set<Seq<char>>,
)
    requires
        p.len() >= 3,
        q.len() >= 3,
        p.take(3) == q.take(3),
        p[0] == "lib"@,
    ensures
        is_needed(p, allowed, kept_p) == is_needed(q, allowed, kept_q),
{
    assert(p.take(3)[0] == p[0] && p.take(3)[1] == p[1] && p.take(3)[2] == p[2]);
    assert(q.take(3)[0] == q[0] && q.take(3)[1] == q[1] && q.take(3)[2] == q[2]);
}

/// Of the runtime's own directory the kept programs and all modules are needed, and nothing else,
/// whichever applications are allowed.
pub proof fn law_runtime_files_needed(
    p: Seq<Seq<char>>,
    allowed: Set<Seq<char>>,
    kept: Set<Seq<char>>,
)
    requires
        p.len() > 0,
        "erts-"@.is_prefix_of(p[0]),
    ensures
        is_needed(p, allowed, kept) <==> (p.len() == 3 && p[1] == "bin"@ && kept.contains(p[2]))
            || (p.len() > 1 && p[1] == "ebin"@),
{
    lemma_path_words();
    assert(p[0][0] == 'e');
}

/// Outside the applications and the runtime's own directory the boot file of a release is needed,
/// and nothing else.
pub proof fn law_other_files_needed(
    p: Seq<Seq<char>>,
    allowed: Set<Seq<char>>,
    kept: Set<Seq<char>>,
)
    requires
        p.len() < 2 || p[0] != "lib"@,
        p.len() == 0 || !"erts-"@.is_prefix_of(p[0]),
    ensures
        is_needed(p, allowed, kept) <==> p.len() == 3 && p[0] == "releases"@ && p[2]
            == "no_dot_erlang.boot"@,
{
}

/// Where more applications are allowed, or more programs are kept, no file that was needed drops
/// out.
pub proof fn law_needs_more_files(
    p: Seq<Seq<char>>,
    allowed: Set<Seq<char>>,
    more_allowed: Set<Seq<char>>,
    kept: Set<Seq<char>>,
    more_kept: Set<Seq<char>>,
)
    requires
        allowed.subset_of(more_allowed),
        kept.subset_of(more_kept),
        is_needed(p, allowed, kept),
    ensures
        is_needed(p, more_allowed, more_kept),
{
}

/// The programs that are kept: the same five for every target, each with the target's suffix, and
/// on Windows their libraries too.
pub proof fn law_kept_programs(target: Target, name: Seq<char>)
    ensures
        target.os != Os::Windows ==> (is_kept_binary(target, name) <==> name == "beam.smp"@ || name
            == "erl"@ || name == "erl_child_setup"@ || name == "erlexec"@ || name
            == "inet_gethost"@),
        target.os == Os::Windows ==> (is_kept_binary(target, name) <==> {
            ||| name == "beam.smp"@ + ".exe"@ || name == "beam.smp"@ + ".dll"@
            ||| name == "erl"@ + ".exe"@ || name == "erl"@ + ".dll"@
            ||| name == "erl_child_setup"@ + ".exe"@ || name == "erl_child_setup"@ + ".dll"@
            ||| name == "erlexec"@ + ".exe"@ || name == "erlexec"@ + ".dll"@
            ||| name == "inet_gethost"@ + ".exe"@ || name == "inet_gethost"@ + ".dll"@
        }),
{
    reveal_strlit("");
    assert(is_kept_program("beam.smp"@) && is_kept_program("erl"@));
    assert(is_kept_program("erl_child_setup"@) && is_kept_program("erlexec"@));
    assert(is_kept_program("inet_gethost"@));
    if target.os != Os::Windows {
        assert forall|program: Seq<char>| #[trigger] is_kept_program(program) implies program
            + target.suffix() == program by {
            assert(program + target.suffix() =~= program);
        }
        assert(name + target.suffix() =~= name);
    }
}

/// Two targets that are not for Windows keep the same programs, and so do two that are.
pub proof fn law_kept_programs_alike(a: Target, b: Target, name: Seq<char>)
    requires
        a.os == Os::Windows <==> b.os == Os::Windows,
    ensures
        is_kept_binary(a, name) == is_kept_binary(b, name),
{
    law_kept_programs(a, name);
    law_kept_programs(b, name);
}

/// The programs of a runtime are what stands directly in a `bin` directory at its root or in its
/// own directory; every program that is kept is one.
pub proof fn law_programs(p: Seq<Seq<char>>, allowed: Set<Seq<char>>, kept: Set<Seq<char>>)
    ensures
        is_binary_path(p) <==> p.len() >= 2 && p[p.len() - 2] == "bin"@ && (p.len() == 2 || (p.len()
            == 3 && "erts-"@.is_prefix_of(p[0]))),
        p.len() == 3 && "erts-"@.is_prefix_of(p[0]) && p[1] == "bin"@ && is_needed(p, allowed, kept)
            ==> is_binary_path(p) && kept.contains(p[2]),
{
    lemma_path_words();
    if p.len() == 3 && "erts-"@.is_prefix_of(p[0]) {
        assert(p[0][0] == 'e');
    }
}

/// Programs can be run by everyone, whatever their mode was; every other file keeps its mode.
pub proof fn law_modes(relative: Seq<char>, mode: u32, other: u32)
    ensures
        packed_mode(relative, mode) == packed_mode(relative, other) <==> mode == other
            || is_binary_path(path_texts(relative)),
        is_binary_path(path_texts(relative)) ==> packed_mode(relative, mode) == 0o755,
        !is_binary_path(path_texts(relative)) ==> packed_mode(relative, mode) == mode,
{
}

/// Without a choice of applications every file is packed, in its place in the order.
pub proof fn law_whole_runtime(files: Seq<FoundFile>, target: Target)
    requires
        files.len() <= usize::MAX,
    ensures
        erts_plan(files, None, target).len() == files.len(),
        forall|i: int|
            0 <= i < files.len() ==> (#[trigger] erts_plan(files, None, target)[i]).index == i
                && erts_plan(files, None, target)[i].mode == packed_mode(
                files[i].relative@,
                files[i].mode,
            ),
    decreases files.len(),
{
    if files.len() > 0 {
        let before = files.drop_last();
        law_whole_runtime(before, target);
        let plan = erts_plan(files, None, target);
        assert forall|i: int| 0 <= i < files.len() implies (#[trigger] plan[i]).index == i
            && plan[i].mode == packed_mode(files[i].relative@, files[i].mode) by {
            if i < before.len() {
                assert(plan[i] == erts_plan(before, None, target)[i]);
                assert(before[i] == files[i]);
            }
        }
    }
}

/// A file is packed by what it is alone: what is packed of files one after another is what is
/// packed of the first and then of the others.
pub proof fn law_packed_one_by_one(
    files: Seq<FoundFile>,
    file: FoundFile,
    allowed: Option<Set<Seq<char>>>,
    target: Target,
)
    requires
        files.len() < usize::MAX,
    ensures
        ({
            let before = erts_plan(files, allowed, target);
            let after = erts_plan(files.push(file), allowed, target);
            &&& before.is_prefix_of(after)
            &&& after.len() <= before.len() + 1
            &&& after.len() > before.len() <==> (allowed matches Some(apps) ==> is_needed(
                path_texts(file.relative@),
                apps,
                Set::new(|name: Seq<char>| is_kept_binary(target, name)),
            ))
            &&& after.len() > before.len() ==> after.last().index == files.len()
        }),
{
    assert(files.push(file).drop_last() =~= files);
}

/// The name of a cached runtime archive tells apart archives of different hashes and of different
/// compression levels.
pub proof fn law_cache_names_differ(hash_a: Seq<char>, level_a: int, hash_b: Seq<char>, level_b: int)
    requires
        hash_a.len() == hash_b.len(),
        cache_name(hash_a, level_a) == cache_name(hash_b, level_b),
    ensures
        hash_a == hash_b,
        level_a == level_b,
{
    let a = cache_name(hash_a, level_a);
    let b = cache_name(hash_b, level_b);
    let n = "erts_"@.len() as int;
    let m = n + hash_a.len();
    let k = m + "_zstd"@.len();
    let end = a.len() - ".tar.zst"@.len();
    assert(a.subrange(n, m) =~= hash_a);
    assert(b.subrange(n, m) =~= hash_b);
    assert(a.subrange(k, end) =~= signed_decimal(level_a));
    assert(b.subrange(k, end) =~= signed_decimal(level_b));
    crate::text::law_signed_decimal_distinct(level_a, level_b);
}

/// What a file of the application is in the archive: it is the same file, one directory down.
pub proof fn law_app_file(f: AppFile)
    ensures
        app_file(f).path == seq!['l', 'i', 'b', '/'] + f.relative@,
        app_file(f).mode == f.mode,
        app_file(f).data == f.data@,
{
    reveal_strlit("lib/");
    assert("lib/"@ =~= seq!['l', 'i', 'b', '/']);
}

/// What a planned file of the runtime is in the archive: the file that was found, at its path, with
/// the mode that was planned and the data that was read for it.
pub proof fn law_erts_file(
    files: Seq<FoundFile>,
    plan: Seq<PlannedFile>,
    data: Seq<Vec<u8>>,
    k: int,
)
    requires
        0 <= k < plan.len(),
        plan[k].index < files.len(),
        data.len() == plan.len(),
    ensures
        erts_file(files, plan, data, k).path == files[plan[k].index as int].relative@,
        erts_file(files, plan, data, k).mode == plan[k].mode,
        erts_file(files, plan, data, k).data == data[k]@,
        erts_files(files, plan, data).len() == plan.len(),
        erts_files(files, plan, data)[k] == erts_file(files, plan, data, k),
{
}

/// A file is packed as it was stripped last, and one that was not stripped as it is.
pub proof fn law_stripped_last(stripped: Seq<StrippedFile>, path: Seq<char>)
    ensures
        match stripped_at(stripped, path) {
            Some(d) => exists|i: int|
                {
                    &&& 0 <= i < stripped.len()
                    &&& path_parts((#[trigger] stripped[i]).path@) == path_parts(path)
                    &&& stripped[i].data@ == d
                    &&& forall|j: int|
                        i < j < stripped.len() ==> path_parts((#[trigger] stripped[j]).path@)
                            != path_parts(path)
                },
            None => forall|j: int|
                0 <= j < stripped.len() ==> path_parts((#[trigger] stripped[j]).path@)
                    != path_parts(path),
        },
    decreases stripped.len(),
{
    if stripped.len() > 0 {
        let n = stripped.len() - 1;
        assert(stripped[n] == stripped.last());
        let before = stripped.drop_last();
        law_stripped_last(before, path);
        assert forall|j: int| 0 <= j < n implies #[trigger] stripped[j] == before[j] by {}
        if path_parts(stripped.last().path@) != path_parts(path) {
            if stripped_at(before, path) is Some {
                let d = stripped_at(before, path)->0;
                let i = choose|i: int|
                    {
                        &&& 0 <= i < before.len()
                        &&& path_parts((#[trigger] before[i]).path@) == path_parts(path)
                        &&& before[i].data@ == d
                        &&& forall|j: int|
                            i < j < before.len() ==> path_parts((#[trigger] before[j]).path@)
                                != path_parts(path)
                    };
                assert(stripped[i] == before[i]);
                assert forall|j: int| i < j < stripped.len() implies path_parts(
                    (#[trigger] stripped[j]).path@,
                ) != path_parts(path) by {
                    if j < n {
                        assert(stripped[j] == before[j]);
                    }
                }
            }
        }
    }
}

/// What is hashed for a runtime archive: the version, the target's text, a byte for whether debug
/// information is removed, and then the applications, the same whatever the rest is.
pub proof fn law_config_parts(
    erts_version: Seq<char>,
    target: Target,
    allowed: Option<Set<Seq<char>>>,
    strip_beam: bool,
)
    ensures
        ({
            let bytes = config_bytes(erts_version, target, allowed, strip_beam);
            let n = encode_utf8(erts_version).len() as int;
            let m = n + encode_utf8(target.text()).len();
            &&& bytes.take(n) == encode_utf8(erts_version)
            &&& bytes.subrange(n, m) == encode_utf8(target.text())
            &&& bytes[m] == (if strip_beam {
                1u8
            } else {
                0u8
            })
            &&& bytes.skip(m + 1) == apps_bytes(allowed)
        }),
        allowed matches Some(apps) ==> apps_bytes(allowed) == encode_utf8(spelled(listing(apps))),
{
    let bytes = config_bytes(erts_version, target, allowed, strip_beam);
    let n = encode_utf8(erts_version).len() as int;
    let m = n + encode_utf8(target.text()).len();
    assert(bytes.take(n) =~= encode_utf8(erts_version));
    assert(bytes.subrange(n, m) =~= encode_utf8(target.text()));
    assert(bytes.skip(m + 1) =~= apps_bytes(allowed));
    if let Some(apps) = allowed {
        lemma_spelled(listing(apps));
    }
}

proof fn lemma_name_texts(names: Seq<Seq<char>>)
    requires
        forall|i: int| 0 <= i < names.len() ==> is_name(#[trigger] names[i]),
    ensures
        part_texts(piece_parts(names)) == names,
    decreases names.len(),
{
    if names.len() > 0 {
        let before = names.drop_last();
        assert forall|i: int| 0 <= i < before.len() implies is_name(#[trigger] before[i]) by {
            assert(before[i] == names[i]);
        }
        lemma_name_texts(before);
        assert(is_name(names[names.len() - 1]));
        let all = part_texts(piece_parts(names));
        assert(all.len() == part_texts(piece_parts(before)).len() + 1);
        assert forall|i: int| 0 <= i < all.len() implies all[i] == names[i] by {
            if i < before.len() {
                assert(all[i] == part_texts(piece_parts(before))[i]);
                assert(before[i] == names[i]);
            }
        }
    }
    assert(part_texts(piece_parts(names)) =~= names);
}

/// The components of a path that is written as names with slashes between them are the names.
pub proof fn law_path_of_names(names: Seq<Seq<char>>)
    requires
        names.len() > 0,
        forall|i: int| 0 <= i < names.len() ==> is_name(#[trigger] names[i]),
    ensures
        path_texts(joined(names, seq!['/'])) == names,
{
    let path = joined(names, seq!['/']);
    crate::text::law_join_then_split(names, '/');
    lemma_name_texts(names);
    assert(is_name(names[0]));
    lemma_joined_first(names, '/');
    assert(path_parts(path) =~= piece_parts(names));
}

proof fn lemma_joined_first(parts: Seq<Seq<char>>, sep: char)
    requires
        parts.len() > 0,
        parts[0].len() > 0,
    ensures
        joined(parts, seq![sep]).len() > 0,
        joined(parts, seq![sep])[0] == parts[0][0],
    decreases parts.len(),
{
    if parts.len() > 1 {
        lemma_joined_first(parts.drop_last(), sep);
    }
}

/// Whether a file of the runtime is packed, and as a program, where its path is written as names
/// with slashes between them and means the same everywhere: by its names.
pub proof fn law_decided_by_names(
    names: Seq<Seq<char>>,
    relative: &str,
    allowed: &NameSet,
    kept: &NameSet,
    packed: bool,
    program: bool,
)
    requires
        names.len() > 0,
        forall|i: int| 0 <= i < names.len() ==> is_name(#[trigger] names[i]),
        relative@ == joined(names, seq!['/']),
        portable(relative@),
        call_ensures(should_include_erts_file, (relative, allowed, kept), packed),
        call_ensures(is_erts_binary, (relative,), program),
    ensures
        packed == is_needed(names, allowed@, kept@),
        program == is_binary_path(names),
{
    law_path_of_names(names);
}


/// Where every system reads a path alike, so it is decided alike on each what is packed and with
/// what mode.
pub proof fn law_systems_agree(
    relative: Seq<char>,
    mode: u32,
    allowed: Option<Set<Seq<char>>>,
    target: Target,
    windows: bool,
)
    requires
        portable(relative),
    ensures
        texts_by(relative, windows) == path_texts(relative),
        is_packed_by(relative, allowed, target, windows) == is_packed(relative, allowed, target),
        packed_mode_by(relative, mode, windows) == packed_mode(relative, mode),
{
    crate::paths::lemma_portable_parts(relative);
}

/// Whatever system reads it, a program gets the mode of one and any other file keeps its own; and
/// without a choice of applications everything is packed.
pub proof fn law_by_system(relative: Seq<char>, mode: u32, target: Target, windows: bool)
    ensures
        packed_mode_by(relative, mode, windows) == mode || packed_mode_by(relative, mode, windows)
            == 493,
        packed_mode_by(relative, mode, windows) != mode ==> is_binary_path(
            texts_by(relative, windows),
        ),
        is_binary_path(texts_by(relative, windows)) ==> packed_mode_by(relative, mode, windows)
            == 493,
        is_packed_by(relative, None, target, windows),
        is_packed(relative, None, target),
{
}

} // verus!
