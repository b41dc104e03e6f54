//! The archive of the launcher's source.

use vstd::prelude::*;
use vstd::string::*;

use crate::archive::{
    all_storable, all_taken, are_raw_source_places, are_source_places, are_stored, entries_with,
    file_entries, file_entry, file_views, has_refused, is_kept, is_refused, is_source_place, pack,
    written_at, zstd_entries, EntryKind, FileText, PackFile, Placement, RawPlacement,
};
use crate::paths::{is_join, is_path, join, join2, plain_base, plain_child};

verus! {

/// A file of the launcher's source, with its path under the root of the source.
#[derive(Debug)]
pub struct SourceFile {
    pub relative: String,
    pub data: Vec<u8>,
}

/// What a file of the launcher's source is in the archive: everyone can read it.
pub open spec fn source_file(f: SourceFile) -> FileText {
    FileText { path: f.relative@, mode: 0o644, data: f.data@ }
}

/// What the files of the launcher's source are in the archive.
pub open spec fn source_files(files: Seq<SourceFile>) -> Seq<FileText> {
    Seq::new(files.len(), |i: int| source_file(files[i]))
}

/// The files of the launcher's source as they are packed, in their order.
pub fn source_pack_files<'a>(files: &'a Vec<SourceFile>) -> (r: Vec<PackFile<'a>>)
    ensures
        r@.len() == files@.len(),
        forall|i: int| 0 <= i < files@.len() ==> (#[trigger] r@[i])@ == source_file(files@[i]),
{
    let mut packed: Vec<PackFile<'a>> = Vec::new();
    let mut i: usize = 0;
    while i < files.len()
        invariant
            i <= files.len(),
            packed@.len() == i,
            forall|j: int| 0 <= j < i ==> (#[trigger] packed@[j])@ == source_file(files@[j]),
        decreases files.len() - i,
    {
        packed.push(
            PackFile {
                path: files[i].relative.clone(),
                mode: 0o644,
                data: files[i].data.as_slice(),
            },
        );
        i = i + 1;
    }
    packed
}

/// Packs the source of the launcher.
pub fn pack_launcher_source(files: &Vec<SourceFile>) -> (r: Result<Vec<u8>, std::io::Error>)
    ensures
        all_taken(source_files(files@)) ==> r is Ok,
        r matches Ok(bytes) ==> bytes@.len() > 0 && written_at(bytes@, 3),
        r matches Ok(bytes) ==> (forall|i: int|
            0 <= i < files@.len() ==> is_kept(source_file(#[trigger] files@[i]))) ==> zstd_entries(
            bytes@,
        ) == Some(Seq::new(files@.len(), |i: int| file_entry(source_file(files@[i])))),
        r matches Ok(bytes) ==> all_storable(source_files(files@)) ==> are_stored(
            source_files(files@),
            zstd_entries(bytes@),
        ),
        (exists|i: int| 0 <= i < files@.len() && is_refused((#[trigger] files@[i]).relative@))
            ==> r is Err,
{
    let packed = source_pack_files(files);
    proof {
        assert(file_views(packed@) =~= source_files(files@));
        if forall|i: int| 0 <= i < files@.len() ==> is_kept(source_file(#[trigger] files@[i])) {
            assert forall|i: int| 0 <= i < packed@.len() implies is_kept(
                (#[trigger] packed@[i])@,
            ) by {
                assert(is_kept(source_file(files@[i])));
            }
            assert(Seq::new(packed@.len(), |i: int| file_entry(packed@[i]@)) =~= Seq::new(
                files@.len(),
                |i: int| file_entry(source_file(files@[i])),
            ));
        }
        if exists|i: int| 0 <= i < files@.len() && is_refused((#[trigger] files@[i]).relative@) {
            let i = choose|i: int|
                0 <= i < files@.len() && is_refused((#[trigger] files@[i]).relative@);
            assert(packed@[i]@ == source_file(files@[i]));
            assert(has_refused(packed@));
        }
    }
    pack(&packed, 3)
}

/// What the source of the launcher is made of, under the root of the source: its manifest, its
/// lock file, its modules and those that it shares.
#[must_use]
pub fn source_trigger_paths(manifest_dir: &str) -> (r: Vec<String>)
    ensures
        r@.len() == 4,
        plain_base(manifest_dir@) ==> {
            &&& is_path(manifest_dir@, seq!["launcher"@, "Cargo.toml"@], r@[0]@)
            &&& is_path(manifest_dir@, seq!["launcher"@, "Cargo.lock"@], r@[1]@)
            &&& is_path(manifest_dir@, seq!["launcher"@, "src"@], r@[2]@)
            &&& is_join(manifest_dir@, "shared"@, r@[3]@)
        },
{
    proof {
        reveal_strlit("launcher");
        reveal_strlit("Cargo.toml");
        reveal_strlit("Cargo.lock");
        reveal_strlit("src");
        reveal_strlit("shared");
        assert("launcher"@[0] == 'l' && "Cargo.toml"@[0] == 'C' && "Cargo.lock"@[0] == 'C');
        assert("src"@[0] == 's' && "shared"@[0] == 's');
        assert(plain_child("launcher"@) && plain_child("Cargo.toml"@));
        assert(plain_child("Cargo.lock"@) && plain_child("src"@) && plain_child("shared"@));
    }
    let mut out: Vec<String> = Vec::new();
    out.push(join2(manifest_dir, "launcher", "Cargo.toml"));
    out.push(join2(manifest_dir, "launcher", "Cargo.lock"));
    out.push(join2(manifest_dir, "launcher", "src"));
    out.push(join(manifest_dir, "shared"));
    out
}

/// The source that was packed is unpacked: each file goes under the destination by its path, and
/// there is nothing else.
pub proof fn law_source_unpacks(
    files: Seq<FileText>,
    dest: Seq<char>,
    v: Seq<Placement>,
    raw: Seq<RawPlacement>,
)
    requires
        forall|i: int| 0 <= i < files.len() ==> is_kept(#[trigger] files[i]),
        plain_base(dest),
        are_source_places(dest, file_entries(files), v),
        are_raw_source_places(dest, file_entries(files), raw),
    ensures
        v.len() == files.len(),
        raw.len() == 0,
        forall|i: int|
            0 <= i < files.len() ==> {
                &&& (#[trigger] v[i]).index == i
                &&& v[i].kind == EntryKind::File
                &&& is_join(dest, files[i].path, v[i].path@)
            },
{
    let e = file_entries(files);
    crate::archive::lemma_all_with(e);
    let indices = Seq::new(v.len(), |k: int| v[k].index as int);
    assert(indices == entries_with(e, true));
    assert(v.len() == indices.len());
    assert(raw.len() == Seq::new(raw.len(), |k: int| raw[k].index as int).len());
    assert forall|i: int| 0 <= i < files.len() implies {
        &&& (#[trigger] v[i]).index == i
        &&& v[i].kind == EntryKind::File
        &&& is_join(dest, files[i].path, v[i].path@)
    } by {
        assert(indices[i] == i);
        assert(is_source_place(dest, e, v[i]));
        assert(is_kept(files[i]));
        crate::archive::lemma_plain_child(files[i].path);
    }
}


/// Each file of the source is packed under its own path with its own data, and for everyone to
/// read.
pub proof fn law_source_files(files: Vec<SourceFile>, r: Vec<PackFile>)
    requires
        call_ensures(source_pack_files, (&files,), r),
    ensures
        r@.len() == files@.len(),
        forall|i: int|
            0 <= i < files@.len() ==> {
                &&& (#[trigger] r@[i]).path@ == files@[i].relative@
                &&& r@[i].data@ == files@[i].data@
                &&& r@[i].mode == 420
            },
{
    assert forall|i: int| 0 <= i < files@.len() implies {
        &&& (#[trigger] r@[i]).path@ == files@[i].relative@
        &&& r@[i].data@ == files@[i].data@
        &&& r@[i].mode == 420
    } by {
        assert(r@[i]@ == source_file(files@[i]));
    }
}

} // verus!
