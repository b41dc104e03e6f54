//! Compressed archives of files: packing them, and where their entries go when they are
//! unpacked.

use std::io::Read;

use vstd::prelude::*;
use vstd::string::*;
use vstd::utf8::*;

use crate::paths::{
    components, has_drive, is_common, is_join, is_name, is_ordinary, is_path, is_separator, join,
    names_of, normal_names, part_views, parts_by, path_parts, plain_base, plain_child, portable,
    reads_names, Part,
};
use crate::raw::{
    byte_names, byte_path, byte_resolved, byte_views, is_byte_name, names_in, place_bytes,
    resolve_bytes, SLASH,
};
use crate::text::{pieces, replaced, views};

verus! {

/// The error of reading and writing that the standard library has.
#[verifier::external_type_specification]
#[verifier::external_body]
pub struct ExIoError(std::io::Error);

/// The error that the zip crate gives where it cannot read an archive.
#[verifier::external_type_specification]
#[verifier::external_body]
pub struct ExZipError(zip::result::ZipError);

/// What an entry of an archive is.
#[derive(Debug, Clone, Copy, PartialEq, Eq, Structural)]
pub enum EntryKind {
    Directory,
    File,
    Other,
}

/// An entry read from an archive. Its path is absent where its bytes are not UTF-8.
#[derive(Debug)]
pub struct ArchiveEntry {
    pub path: Option<String>,
    pub raw_path: Vec<u8>,
    pub kind: EntryKind,
    pub mode: Option<u32>,
    pub data: Vec<u8>,
}

/// What an entry holds.
pub struct EntryText {
    pub path: Option<Seq<char>>,
    pub raw_path: Seq<u8>,
    pub kind: EntryKind,
    pub mode: Option<u32>,
    pub data: Seq<u8>,
}

impl View for ArchiveEntry {
    type V = EntryText;

    open spec fn view(&self) -> EntryText {
        EntryText {
            path: match self.path {
                Some(p) => Some(p@),
                None => None,
            },
            raw_path: self.raw_path@,
            kind: self.kind,
            mode: self.mode,
            data: self.data@,
        }
    }
}

/// What a list of entries holds.
pub open spec fn entry_views(v: Seq<ArchiveEntry>) -> Seq<EntryText> {
    Seq::new(v.len(), |i: int| v[i]@)
}

/// Whether an entry's path is the text of its bytes, where they are UTF-8.
pub open spec fn reads_path(e: EntryText) -> bool {
    match e.path {
        Some(p) => e.raw_path == encode_utf8(p),
        None => !valid_utf8(e.raw_path),
    }
}

/// A file to be packed, under the path it has in the archive.
#[derive(Debug)]
pub struct PackFile<'a> {
    pub path: String,
    pub mode: u32,
    pub data: &'a [u8],
}

/// What a file to be packed holds.
pub struct FileText {
    pub path: Seq<char>,
    pub mode: u32,
    pub data: Seq<u8>,
}

impl<'a> View for PackFile<'a> {
    type V = FileText;

    open spec fn view(&self) -> FileText {
        FileText { path: self.path@, mode: self.mode, data: self.data@ }
    }
}

/// What a list of files holds.
pub open spec fn file_views<'a>(v: Seq<PackFile<'a>>) -> Seq<FileText> {
    Seq::new(v.len(), |i: int| v[i]@)
}

/// Whether a text is a name that can be joined to a path on every system.
pub open spec fn plain_name(s: Seq<char>) -> bool {
    is_name(s) && plain_child(s)
}

/// Whether a path is one or more names with `/` between them, which every system reads alike.
pub open spec fn plain_path(path: Seq<char>) -> bool {
    &&& portable(path)
    &&& !path.contains('\0')
    &&& forall|i: int|
        0 <= i < pieces(path, '/', '/').len() ==> plain_name(#[trigger] pieces(path, '/', '/')[i])
}

/// Whether a file is kept by an archive as it is: its path is plain and its mode fits the seven
/// octal digits that an archive has for it.
pub open spec fn is_kept(f: FileText) -> bool {
    plain_path(f.path) && f.mode < 0o10000000
}

/// The entry that a file becomes.
pub open spec fn file_entry(f: FileText) -> EntryText {
    EntryText {
        path: Some(f.path),
        raw_path: encode_utf8(f.path),
        kind: EntryKind::File,
        mode: Some(f.mode),
        data: f.data,
    }
}

/// The path with `/` for each backslash, as archives made on Windows have it.
pub open spec fn slashed(path: Seq<char>) -> Seq<char> {
    replaced(path, '\\', "/"@)
}

/// Whether what stands between `/` and backslash in a path are names, and there is no null
/// character.
pub open spec fn is_named(path: Seq<char>) -> bool {
    &&& !path.contains('\0')
    &&& forall|i: int|
        0 <= i < pieces(path, '/', '\\').len() ==> plain_name(
            #[trigger] pieces(path, '/', '\\')[i],
        )
}

/// Whether a file is kept by an archive but for the separators in its path: the path is made of
/// names, and the mode fits the seven octal digits that an archive has for it.
pub open spec fn is_storable(f: FileText) -> bool {
    is_named(f.path) && f.mode < 0o10000000
}

/// Whether an entry is what a file became: its path is the file's, as it stands or with `/` for
/// each backslash.
pub open spec fn is_stored(f: FileText, e: EntryText) -> bool {
    &&& e.path == Some(f.path) || e.path == Some(slashed(f.path))
    &&& e.raw_path == encode_utf8(e.path->0)
    &&& e.kind == EntryKind::File
    &&& e.mode == Some(f.mode)
    &&& e.data == f.data
}

/// Whether the entries of an archive are what the files became, in their order.
pub open spec fn are_stored(files: Seq<FileText>, e: Option<Seq<EntryText>>) -> bool {
    &&& e is Some
    &&& e->0.len() == files.len()
    &&& forall|i: int| 0 <= i < files.len() ==> is_stored(#[trigger] files[i], e->0[i])
}

/// Whether an archive keeps each file but for the separators in its path.
pub open spec fn all_storable(files: Seq<FileText>) -> bool {
    forall|i: int| 0 <= i < files.len() ==> is_storable(#[trigger] files[i])
}

proof fn lemma_slashed(path: Seq<char>)
    requires
        !path.contains('\\'),
    ensures
        slashed(path) == path,
    decreases path.len(),
{
    if path.len() > 0 {
        let rest = path.drop_last();
        assert(path[path.len() - 1] == path.last());
        assert(!rest.contains('\\')) by {
            if rest.contains('\\') {
                let i = rest.index_of('\\');
                assert(path[i] == '\\');
            }
        }
        lemma_slashed(rest);
        assert(rest.push(path.last()) =~= path);
    }
}

/// Files that an archive keeps, if but for the separators in their paths, are taken.
pub proof fn law_storable_taken(files: Seq<FileText>)
    requires
        all_storable(files),
    ensures
        all_taken(files),
{
    assert forall|i: int| 0 <= i < files.len() implies is_taken((#[trigger] files[i]).path) by {
        assert(is_storable(files[i]));
    }
}

/// Files that an archive keeps as they are become the entries that they are.
pub proof fn lemma_kept_stored(files: Seq<FileText>, e: Option<Seq<EntryText>>)
    requires
        forall|i: int| 0 <= i < files.len() ==> is_kept(#[trigger] files[i]),
    ensures
        all_storable(files),
        are_stored(files, e) ==> e == Some(file_entries(files)),
{
    assert forall|i: int| 0 <= i < files.len() implies is_storable(#[trigger] files[i]) by {
        assert(is_kept(files[i]));
        crate::text::lemma_pieces_absent(files[i].path, '/', '\\');
    }
    if are_stored(files, e) {
        assert forall|i: int| 0 <= i < files.len() implies e->0[i] == file_entry(
            #[trigger] files[i],
        ) by {
            assert(is_kept(files[i]));
            assert(is_stored(files[i], e->0[i]));
            lemma_slashed(files[i].path);
        }
        assert(e->0 =~= file_entries(files));
    }
}

/// Whether no archive takes a file with this path: it is empty or absolute or, where it is
/// shorter than a hundred bytes and every system reads it alike, it has a `..` or a null
/// character.
pub open spec fn is_refused(path: Seq<char>) -> bool {
    ||| path.len() == 0
    ||| path[0] == '/'
    ||| portable(path) && encode_utf8(path).len() < 100 && (path.contains('\0') || pieces(
        path,
        '/',
        '/',
    ).contains(".."@))
}

/// Whether every archive takes a file with this path: it is made of names or, where every system
/// reads it alike, it is neither empty nor absolute and has no `..` and no null character.
pub open spec fn is_taken(path: Seq<char>) -> bool {
    ||| is_named(path)
    ||| {
        &&& portable(path)
        &&& path.len() > 0
        &&& path[0] != '/'
        &&& !path.contains('\0')
        &&& !pieces(path, '/', '/').contains(".."@)
    }
}

/// Whether every archive takes the files.
pub open spec fn all_taken(files: Seq<FileText>) -> bool {
    forall|i: int| 0 <= i < files.len() ==> is_taken((#[trigger] files[i]).path)
}

/// An archive that is being written: a tar archive that is compressed as it grows.
#[verifier::external_body]
pub struct ArchiveWriter {
    builder: tar::Builder<zstd::Encoder<'static, Vec<u8>>>,
}

/// The files that an archive being written has, in their order.
pub uninterp spec fn packed(w: ArchiveWriter) -> Seq<FileText>;

/// The compression level that an archive being written was begun with.
pub uninterp spec fn level_of(w: ArchiveWriter) -> i32;

/// Whether the bytes are what an archive begun with the compression level came to. At one level
/// the same files may come to different bytes on different machines.
pub uninterp spec fn written_at(data: Seq<u8>, level: i32) -> bool;

/// The entries of a zstd-compressed tar archive, in their order. It is absent where the bytes
/// are no such archive.
pub uninterp spec fn zstd_entries(data: Seq<u8>) -> Option<Seq<EntryText>>;

/// The entries of a gzip-compressed tar archive, in their order. It is absent where the bytes
/// are no such archive.
pub uninterp spec fn gzip_entries(data: Seq<u8>) -> Option<Seq<EntryText>>;

/// `tar::Builder::new` on a `zstd::Encoder::new` with the given level: an archive without files.
/// It succeeds at every level; zstd moves one that is out of its range to the nearest in it.
#[verifier::external_body]
fn writer_new(level: i32) -> (r: Result<ArchiveWriter, std::io::Error>)
    ensures
        r is Ok,
        r matches Ok(w) ==> packed(w) == Seq::<FileText>::empty() && level_of(w) == level,
{
    let encoder = zstd::Encoder::new(Vec::new(), level)?;
    Ok(ArchiveWriter { builder: tar::Builder::new(encoder) })
}

/// `tar::Builder::append_data` with a GNU header for a regular file of the given mode and the
/// length of its data: where it succeeds, the archive has the file after those before. It writes
/// to memory, so that only the path can make it fail: it succeeds on a path that every archive
/// takes and fails on one that is refused. Nothing is said of others: systems read them
/// differently, or they are long and have a `..` or a null character, for which tar looks in the
/// first hundred bytes only.
#[verifier::external_body]
fn writer_append(w: &mut ArchiveWriter, file: &PackFile) -> (r: Result<(), std::io::Error>)
    ensures
        r is Ok ==> packed(*final(w)) == packed(*old(w)).push(file@),
        is_taken(file.path@) ==> r is Ok,
        is_refused(file.path@) ==> r is Err,
        level_of(*final(w)) == level_of(*old(w)),
{
    let mut header = tar::Header::new_gnu();
    header.set_size(file.data.len() as u64);
    header.set_mode(file.mode);
    header.set_entry_type(tar::EntryType::Regular);
    header.set_cksum();
    w.builder.append_data(&mut header, &file.path, file.data)
}

/// `tar::Builder::into_inner` and `zstd::Encoder::finish`, which write to memory and succeed: there
/// are bytes, they were compressed at the level that the archive was begun with, and they are an
/// archive whose entries are what the files that were appended became, provided that an archive
/// keeps each of them but for its separators. On Windows tar writes `/` for each backslash in a
/// path, elsewhere it does not.
#[verifier::external_body]
fn writer_finish(w: ArchiveWriter) -> (r: Result<Vec<u8>, std::io::Error>)
    ensures
        r is Ok,
        r matches Ok(bytes) ==> bytes@.len() > 0 && written_at(bytes@, level_of(w)),
        r matches Ok(bytes) ==> all_storable(packed(w)) ==> are_stored(
            packed(w),
            zstd_entries(bytes@),
        ),
{
    w.builder.into_inner()?.finish()
}

/// `tar::Archive::entries` on a `zstd::Decoder`, with the bytes of each entry's path and their text
/// where they are UTF-8, its type, mode and data.
#[verifier::external_body]
fn read_zstd(data: &[u8]) -> (r: Result<Vec<ArchiveEntry>, std::io::Error>)
    ensures
        match r {
            Ok(v) => zstd_entries(data@) == Some(entry_views(v@)) && forall|i: int|
                0 <= i < v@.len() ==> reads_path((#[trigger] v@[i])@),
            Err(_) => zstd_entries(data@) is None,
        },
{
    let mut archive = tar::Archive::new(zstd::Decoder::new(data)?);
    archive.entries()?.map(|entry| {
        let mut entry = entry?;
        let raw_path = entry.path_bytes().into_owned();
        let path = String::from_utf8(raw_path.clone()).ok();
        let kind = match entry.header().entry_type() {
            tar::EntryType::Directory => EntryKind::Directory,
            tar::EntryType::Regular => EntryKind::File,
            _ => EntryKind::Other,
        };
        let mode = entry.header().mode().ok();
        let mut data = Vec::new();
        entry.read_to_end(&mut data).map(|_| ArchiveEntry { path, raw_path, kind, mode, data })
    }).collect()
}

/// `tar::Archive::entries` on a `flate2::read::GzDecoder`, with the bytes of each entry's path and
/// their text where they are UTF-8, its type, mode and data.
#[verifier::external_body]
fn read_gzip(data: &[u8]) -> (r: Result<Vec<ArchiveEntry>, std::io::Error>)
    ensures
        match r {
            Ok(v) => gzip_entries(data@) == Some(entry_views(v@)) && forall|i: int|
                0 <= i < v@.len() ==> reads_path((#[trigger] v@[i])@),
            Err(_) => gzip_entries(data@) is None,
        },
{
    let mut archive = tar::Archive::new(flate2::read::GzDecoder::new(data));
    archive.entries()?.map(|entry| {
        let mut entry = entry?;
        let raw_path = entry.path_bytes().into_owned();
        let path = String::from_utf8(raw_path.clone()).ok();
        let kind = match entry.header().entry_type() {
            tar::EntryType::Directory => EntryKind::Directory,
            tar::EntryType::Regular => EntryKind::File,
            _ => EntryKind::Other,
        };
        let mode = entry.header().mode().ok();
        let mut data = Vec::new();
        entry.read_to_end(&mut data).map(|_| ArchiveEntry { path, raw_path, kind, mode, data })
    }).collect()
}

/// Appends a file to an archive, where it was begun and nothing failed before. An error from
/// before is handed on.
pub fn append_file(begun: Result<ArchiveWriter, std::io::Error>, file: &PackFile) -> (r: Result<
    ArchiveWriter,
    std::io::Error,
>)
    ensures
        match begun {
            Err(e) => r == Err::<ArchiveWriter, std::io::Error>(e),
            Ok(w) => {
                &&& r matches Ok(v) ==> packed(v) == packed(w).push(file@) && level_of(v)
                    == level_of(w)
                &&& is_taken(file.path@) ==> r is Ok
                &&& is_refused(file.path@) ==> r is Err
            },
        },
{
    let mut writer = match begun {
        Ok(w) => w,
        Err(e) => {
            return Err(e);
        },
    };
    match writer_append(&mut writer, file) {
        Ok(_) => Ok(writer),
        Err(e) => Err(e),
    }
}

/// Whether one of the files has a path that no archive takes.
pub open spec fn has_refused<'a>(files: Seq<PackFile<'a>>) -> bool {
    exists|i: int| 0 <= i < files.len() && is_refused((#[trigger] files[i]).path@)
}

/// Appends files to an archive, one after another, where it was begun. The first error is handed
/// on. Without files the archive stays as it was.
pub fn append_files(begun: Result<ArchiveWriter, std::io::Error>, files: &Vec<PackFile>) -> (r:
    Result<ArchiveWriter, std::io::Error>)
    ensures
        files@.len() == 0 ==> r == begun,
        match begun {
            Err(e) => r == Err::<ArchiveWriter, std::io::Error>(e),
            Ok(w) => {
                &&& r matches Ok(v) ==> packed(v) == packed(w) + file_views(files@) && level_of(v)
                    == level_of(w)
                &&& all_taken(file_views(files@)) ==> r is Ok
                &&& has_refused(files@) ==> r is Err
            },
        },
{
    let ghost start = begun;
    let ghost all = file_views(files@);
    let mut appended = begun;
    let mut i: usize = 0;
    proof {
        assert(all.take(0) =~= Seq::empty());
        if start is Ok {
            assert(packed(start->Ok_0) + all.take(0) =~= packed(start->Ok_0));
        }
    }
    while i < files.len()
        invariant
            i <= files.len(),
            all == file_views(files@),
            i == 0 ==> appended == start,
            match start {
                Err(e) => appended == Err::<ArchiveWriter, std::io::Error>(e),
                Ok(w) => {
                    &&& all_taken(all) ==> appended is Ok
                    &&& appended matches Ok(v) ==> {
                        &&& packed(v) == packed(w) + all.take(i as int)
                        &&& level_of(v) == level_of(w)
                        &&& forall|j: int|
                            0 <= j < i ==> !is_refused((#[trigger] files@[j]).path@)
                    }
                },
            },
        decreases files.len() - i,
    {
        assert(all[i as int] == files@[i as int]@);
        appended = append_file(appended, &files[i]);
        proof {
            if start is Ok {
                let before = packed(start->Ok_0);
                assert(before + all.take(i + 1) =~= (before + all.take(i as int)).push(
                    files@[i as int]@,
                ));
            }
        }
        i = i + 1;
    }
    assert(all.take(all.len() as int) =~= all);
    appended
}

/// Finishes an archive, where nothing failed before, and gives its bytes. An error from before is
/// handed on.
pub fn finish_archive(appended: Result<ArchiveWriter, std::io::Error>) -> (r: Result<
    Vec<u8>,
    std::io::Error,
>)
    ensures
        match appended {
            Err(e) => r == Err::<Vec<u8>, std::io::Error>(e),
            Ok(w) => {
                &&& r matches Ok(bytes)
                &&& bytes@.len() > 0
                &&& written_at(bytes@, level_of(w))
                &&& all_storable(packed(w)) ==> are_stored(packed(w), zstd_entries(bytes@))
                &&& (forall|i: int| 0 <= i < packed(w).len() ==> is_kept(#[trigger] packed(w)[i]))
                    ==> zstd_entries(bytes@) == Some(file_entries(packed(w)))
            },
        },
{
    match appended {
        Ok(w) => {
            let ghost files = packed(w);
            let r = writer_finish(w);
            proof {
                if (forall|i: int| 0 <= i < files.len() ==> is_kept(#[trigger] files[i])) && r is Ok {
                    lemma_kept_stored(files, zstd_entries(r->Ok_0@));
                }
            }
            r
        },
        Err(e) => Err(e),
    }
}

/// Packs files into a compressed archive. It succeeds where every archive takes their paths and
/// fails where one has a path that no archive takes; else tar decides.
pub fn pack(files: &Vec<PackFile>, level: i32) -> (r: Result<Vec<u8>, std::io::Error>)
    ensures
        all_taken(file_views(files@)) ==> r is Ok,
        r matches Ok(bytes) ==> bytes@.len() > 0 && written_at(bytes@, level),
        r matches Ok(bytes) ==> (forall|i: int|
            0 <= i < files@.len() ==> is_kept((#[trigger] files@[i])@)) ==> zstd_entries(bytes@)
            == Some(Seq::new(files@.len(), |i: int| file_entry(files@[i]@))),
        r matches Ok(bytes) ==> all_storable(file_views(files@)) ==> are_stored(
            file_views(files@),
            zstd_entries(bytes@),
        ),
        has_refused(files@) ==> r is Err,
{
    let appended = append_files(writer_new(level), files);
    proof {
        if appended is Ok {
            let all = packed(appended->Ok_0);
            assert(all =~= file_views(files@));
            if forall|i: int| 0 <= i < files@.len() ==> is_kept((#[trigger] files@[i])@) {
                assert forall|i: int| 0 <= i < all.len() implies is_kept(#[trigger] all[i]) by {
                    assert(is_kept(files@[i]@));
                }
                assert(file_entries(all) =~= Seq::new(
                    files@.len(),
                    |i: int| file_entry(files@[i]@),
                ));
            }
        }
    }
    finish_archive(appended)
}

/// Why an archive cannot be unpacked.
#[derive(Debug)]
pub enum UnpackError {
    Unreadable(std::io::Error),
    NotUtf8,
}

/// One thing to do when an archive is unpacked: the path to make, what the entry is, and which
/// entry it is. The parent directories of the path come first. A directory is made; a file is
/// written, with the mode where there is one; of any other entry only the parents are made.
#[derive(Debug)]
pub struct Placement {
    pub path: String,
    pub kind: EntryKind,
    pub mode: Option<u32>,
    pub index: usize,
}

/// Whether the names are such that every system joins them one after another.
pub open spec fn all_plain(names: Seq<Seq<char>>) -> bool {
    forall|i: int| 0 <= i < names.len() ==> plain_child(#[trigger] names[i])
}

/// Whether `r` is `dest` with the names joined to it one after another.
pub open spec fn is_placed(dest: Seq<char>, names: Seq<Seq<char>>, r: Seq<char>) -> bool {
    exists|inner: Seq<char>|
        is_path(Seq::empty(), names, inner) && #[trigger] is_join(dest, inner, r)
}

proof fn lemma_inner_plain(names: Seq<Seq<char>>, inner: Seq<char>)
    requires
        all_plain(names),
        is_path(Seq::empty(), names, inner),
    ensures
        names.len() > 0 ==> plain_child(inner),
        plain_base(inner),
        names.len() == 0 ==> inner.len() == 0,
    decreases names.len(),
{
    if names.len() > 0 {
        let before = names.drop_last();
        let m = choose|m: Seq<char>|
            is_path(Seq::empty(), before, m) && #[trigger] is_join(m, names.last(), inner);
        assert forall|i: int| 0 <= i < before.len() implies plain_child(#[trigger] before[i]) by {
            assert(before[i] == names[i]);
        }
        lemma_inner_plain(before, m);
        let c = names.last();
        assert(c == names[names.len() - 1]);
        crate::paths::lemma_join_plain(m, c, inner);
        if m.len() >= 2 {
            assert(inner[1] == m[1]);
        } else if m.len() == 1 {
            assert(m.last() == m[0]);
        }
    }
}

/// What is placed under a directory lies under it: its path begins with the directory.
pub proof fn law_placed_under(dest: Seq<char>, names: Seq<Seq<char>>, r: Seq<char>)
    requires
        plain_base(dest),
        names.len() > 0,
        all_plain(names),
        is_placed(dest, names, r),
    ensures
        dest.is_prefix_of(r),
        r.len() > dest.len(),
{
    let inner = choose|inner: Seq<char>|
        is_path(Seq::empty(), names, inner) && #[trigger] is_join(dest, inner, r);
    lemma_inner_plain(names, inner);
    crate::paths::lemma_join_plain(dest, inner, r);
}

/// Joins the names one after another, and all of them to `dest`.
pub fn place(dest: &str, names: &Vec<String>) -> (r: String)
    requires
        names@.len() > 0,
    ensures
        plain_base(dest@) && all_plain(views(names@)) ==> is_placed(dest@, views(names@), r@),
{
    let mut inner = String::new();
    let mut i: usize = 0;
    let ghost all = views(names@);
    assert(all.take(0) =~= Seq::empty());
    while i < names.len()
        invariant
            i <= names.len(),
            all == views(names@),
            all_plain(all) ==> is_path(Seq::empty(), all.take(i as int), inner@),
        decreases names.len() - i,
    {
        let ghost before = inner@;
        inner = join(inner.as_str(), names[i].as_str());
        proof {
            if all_plain(all) {
                let seen = all.take(i as int);
                assert forall|j: int| 0 <= j < seen.len() implies plain_child(
                    #[trigger] seen[j],
                ) by {
                    assert(seen[j] == all[j]);
                }
                lemma_inner_plain(seen, before);
                assert(plain_child(all[i as int]));
                crate::paths::lemma_path_push(
                    Seq::empty(),
                    seen,
                    all[i as int],
                    before,
                    inner@,
                );
                assert(all.take(i + 1) =~= seen.push(all[i as int]));
            }
        }
        i = i + 1;
    }
    let r = join(dest, inner.as_str());
    proof {
        assert(all.take(all.len() as int) =~= all);
        if plain_base(dest@) && all_plain(all) {
            lemma_inner_plain(all, inner@);
            assert(is_join(dest@, inner@, r@));
        }
    }
    r
}

/// The names that the path of an entry has, where every system reads it alike.
pub open spec fn entry_names(e: EntryText) -> Seq<Seq<char>> {
    normal_names(path_parts(e.path->0))
}

/// The names that the path of an entry has, as Windows or another system reads it.
pub open spec fn names_by(e: EntryText, windows: bool) -> Seq<Seq<char>> {
    normal_names(parts_by(e.path->0, windows))
}

/// The entries whose paths have a name in them, in their order.
pub open spec fn named_entries(e: Seq<EntryText>) -> Seq<int>
    decreases e.len(),
{
    if e.len() == 0 {
        Seq::empty()
    } else {
        let before = named_entries(e.drop_last());
        if e.last().path is Some && entry_names(e.last()).len() > 0 {
            before.push(e.len() - 1)
        } else {
            before
        }
    }
}

/// Whether the entry goes to `r` by these names: there is one at least, each is the name of one
/// file or directory, they are those that a system reads in the entry's path, the same where every
/// system reads it alike, and `r` is `dest` with them joined to it, where every system joins them.
pub open spec fn goes_by(
    dest: Seq<char>,
    e: EntryText,
    names: Seq<Seq<char>>,
    r: Seq<char>,
) -> bool {
    &&& names.len() > 0
    &&& forall|i: int| 0 <= i < names.len() ==> is_name(#[trigger] names[i])
    &&& portable(e.path->0) ==> names == entry_names(e)
    &&& reads_names(e.path->0, names)
    &&& all_plain(names) ==> is_placed(dest, names, r)
}

/// Whether a placement is right for the entries: its entry is there and has a path, kind and
/// mode are the entry's, and it goes to its place by names.
pub open spec fn is_right(dest: Seq<char>, e: Seq<EntryText>, p: Placement) -> bool {
    &&& p.index < e.len()
    &&& p.kind == e[p.index as int].kind
    &&& p.mode == e[p.index as int].mode
    &&& e[p.index as int].path is Some
    &&& plain_base(dest) && plain_base(e[p.index as int].path->0) ==> exists|
        names: Seq<Seq<char>>,
    | #[trigger] goes_by(dest, e[p.index as int], names, p.path@)
}

/// Whether every entry has a path.
pub open spec fn has_paths(e: Seq<EntryText>) -> bool {
    forall|i: int| 0 <= i < e.len() ==> (#[trigger] e[i]).path is Some
}

/// Whether an entry has a path that every system reads alike.
pub open spec fn has_portable(e: EntryText) -> bool {
    e.path matches Some(p) && portable(p)
}

/// Whether an entry has a path that does not begin with two backslashes.
pub open spec fn has_plain(e: EntryText) -> bool {
    e.path matches Some(p) && plain_base(p)
}

/// Whether every system reads the path of an entry alike, where it has one.
pub open spec fn is_portable_or_raw(e: EntryText) -> bool {
    e.path matches Some(p) ==> portable(p)
}

/// Whether one of the placements is that of the entry with the given number.
pub open spec fn has_place(v: Seq<Placement>, i: int) -> bool {
    exists|k: int| 0 <= k < v.len() && (#[trigger] v[k]).index == i
}

/// Whether the entry with the given number has a placement where a system reads a name in its
/// path: another than Windows, or Windows. Windows may read none in a path that is no common one.
pub open spec fn has_place_by_system(v: Seq<Placement>, e: Seq<EntryText>, i: int) -> bool {
    ||| has_place(v, i) == (names_by(e[i], false).len() > 0)
    ||| if is_common(e[i].path->0) {
        has_place(v, i) == (names_by(e[i], true).len() > 0)
    } else {
        has_place(v, i) ==> names_by(e[i], true).len() > 0
    }
}

/// Whether the placements are right for the entries of an archive that have a path: each is, they
/// come in the order of the entries, and an entry whose path every system reads alike has one
/// where its path has a name in it; another, where a system reads a name in it. Where every system
/// reads all paths alike, they are those of the entries whose paths have a name in them.
pub open spec fn are_right(dest: Seq<char>, e: Seq<EntryText>, v: Seq<Placement>) -> bool {
    &&& forall|k: int| 0 <= k < v.len() ==> is_right(dest, e, #[trigger] v[k])
    &&& forall|j: int, k: int|
        0 <= j < k < v.len() ==> (#[trigger] v[j]).index < (#[trigger] v[k]).index
    &&& forall|i: int| 0 <= i < e.len() && has_portable(#[trigger] e[i]) ==> (has_place(v, i)
        <==> entry_names(e[i]).len() > 0)
    &&& forall|i: int|
        0 <= i < e.len() && has_plain(#[trigger] e[i]) ==> has_place_by_system(v, e, i)
    &&& (forall|i: int| 0 <= i < e.len() ==> is_portable_or_raw(#[trigger] e[i])) ==> Seq::new(
        v.len(),
        |k: int| v[k].index as int,
    ) == named_entries(e)
}

proof fn lemma_normal_names(parts: Seq<Part>)
    requires
        forall|i: int| 0 <= i < parts.len() ==> is_ordinary(#[trigger] parts[i]),
    ensures
        forall|i: int|
            0 <= i < normal_names(parts).len() ==> is_name(#[trigger] normal_names(parts)[i]),
    decreases parts.len(),
{
    if parts.len() > 0 {
        let before = parts.drop_last();
        assert forall|i: int| 0 <= i < before.len() implies is_ordinary(#[trigger] before[i]) by {
            assert(before[i] == parts[i]);
        }
        lemma_normal_names(before);
        let last = parts[parts.len() - 1];
        let names = normal_names(parts);
        assert forall|i: int| 0 <= i < names.len() implies is_name(#[trigger] names[i]) by {
            if i < normal_names(before).len() {
                assert(names[i] == normal_names(before)[i]);
            } else {
                assert(last matches Part::Normal(s) && names[i] == s);
            }
        }
    }
}

/// Where the entries of an archive that have a path go under `dest`. Only the names in a path
/// count; an entry without a name is left out.
pub fn text_placements(entries: &Vec<ArchiveEntry>, dest: &str) -> (r: Vec<Placement>)
    ensures
        are_right(dest@, entry_views(entries@), r@),
{
    let mut out: Vec<Placement> = Vec::new();
    let ghost all = entry_views(entries@);
    let mut i: usize = 0;
    assert(all.take(0) =~= Seq::empty());
    assert(Seq::new(out@.len(), |k: int| out@[k].index as int) =~= Seq::empty());
    while i < entries.len()
        invariant
            i <= entries.len(),
            all == entry_views(entries@),
            forall|k: int|
                0 <= k < out@.len() ==> is_right(dest@, all, #[trigger] out@[k]) && out@[k].index
                    < i,
            forall|j: int, k: int|
                0 <= j < k < out@.len() ==> (#[trigger] out@[j]).index < (#[trigger] out@[k]).index,
            forall|j: int|
                0 <= j < i && has_portable(#[trigger] all[j]) ==> (has_place(out@, j)
                    <==> entry_names(all[j]).len() > 0),
            forall|j: int|
                0 <= j < i && has_plain(#[trigger] all[j]) ==> has_place_by_system(out@, all, j),
            (forall|j: int| 0 <= j < i ==> is_portable_or_raw(#[trigger] all[j])) ==> Seq::new(
                out@.len(),
                |k: int| out@[k].index as int,
            ) == named_entries(all.take(i as int)),
        decreases entries.len() - i,
    {
        let ghost before = out@;
        let ghost seen = all.take(i + 1);
        let ghost mut names_here: Seq<Seq<char>> = Seq::empty();
        proof {
            assert(seen.drop_last() =~= all.take(i as int));
            assert(seen.last() == entries@[i as int]@);
            assert(seen.last() == all[i as int]);
        }
        if let Some(path) = &entries[i].path {
            let parts = components(path.as_str());
            let names = names_of(&parts);
            proof {
                assert(all[i as int].path == Some(path@));
                names_here = views(names@);
            }
            if names.len() > 0 {
                let placed = place(dest, &names);
                let item = Placement {
                    path: placed,
                    kind: entries[i].kind,
                    mode: entries[i].mode,
                    index: i,
                };
                proof {
                    if plain_base(path@) {
                        let p = part_views(parts@);
                        assert forall|j: int| 0 <= j < p.len() implies is_ordinary(
                            #[trigger] p[j],
                        ) by {
                            assert(p[j] == parts@[j]@);
                        }
                        lemma_normal_names(p);
                    }
                    if plain_base(dest@) && plain_base(path@) {
                        assert(goes_by(dest@, all[i as int], names_here, item.path@));
                    }
                    assert(is_right(dest@, all, item));
                }
                out.push(item);
                proof {
                    assert(Seq::new(out@.len(), |k: int| out@[k].index as int) =~= Seq::new(
                        before.len(),
                        |k: int| before[k].index as int,
                    ).push(i as int));
                }
            }
        }
        proof {
            assert forall|j: int| 0 <= j < i implies has_place(out@, j) == #[trigger] has_place(
                before,
                j,
            ) by {
                if has_place(before, j) {
                    let k = choose|k: int|
                        0 <= k < before.len() && (#[trigger] before[k]).index == j;
                    assert(out@[k].index == j);
                }
                if has_place(out@, j) {
                    let k = choose|k: int| 0 <= k < out@.len() && (#[trigger] out@[k]).index == j;
                    assert(before[k].index == j);
                }
            }
            assert(has_place(out@, i as int) == (names_here.len() > 0)) by {
                if names_here.len() > 0 {
                    assert(out@[before.len() as int].index == i);
                }
            }
            assert forall|j: int| 0 <= j < i + 1 && has_portable(#[trigger] all[j]) implies (
            has_place(out@, j) <==> entry_names(all[j]).len() > 0) by {
                if j < i {
                    assert(has_place(before, j) == has_place(out@, j));
                }
            }
            assert forall|j: int|
                0 <= j < i + 1 && has_plain(#[trigger] all[j]) implies has_place_by_system(
                out@,
                all,
                j,
            ) by {
                if j < i {
                    assert(has_place_by_system(before, all, j));
                    assert(has_place(before, j) == has_place(out@, j));
                }
            }
            if forall|j: int| 0 <= j < i + 1 ==> is_portable_or_raw(#[trigger] all[j]) {
                assert(is_portable_or_raw(all[i as int]));
            }
        }
        i = i + 1;
    }
    assert(all.take(all.len() as int) =~= all);
    out
}

/// Whether every entry has a path.
fn all_have_paths(entries: &Vec<ArchiveEntry>) -> (r: bool)
    ensures
        r == has_paths(entry_views(entries@)),
{
    let ghost all = entry_views(entries@);
    let mut i: usize = 0;
    while i < entries.len()
        invariant
            i <= entries.len(),
            all == entry_views(entries@),
            forall|j: int| 0 <= j < i ==> (#[trigger] all[j]).path is Some,
        decreases entries.len() - i,
    {
        if entries[i].path.is_none() {
            assert(all[i as int].path is None);
            return false;
        }
        assert(all[i as int].path is Some);
        i = i + 1;
    }
    true
}

/// Where the entries of an archive go under `dest`, all of which must have a path. Only the names
/// in a path count; an entry without a name is left out.
pub fn placements(entries: &Vec<ArchiveEntry>, dest: &str) -> (r: Result<
    Vec<Placement>,
    UnpackError,
>)
    ensures
        match r {
            Ok(v) => {
                &&& has_paths(entry_views(entries@))
                &&& are_right(dest@, entry_views(entries@), v@)
            },
            Err(e) => {
                &&& e is NotUtf8
                &&& !has_paths(entry_views(entries@))
            },
        },
{
    if all_have_paths(entries) {
        Ok(text_placements(entries, dest))
    } else {
        Err(UnpackError::NotUtf8)
    }
}

/// Whether the entry's place lies inside `dest`: it goes there by names, none of which is `..` or
/// holds a `/`, and begins with `dest`, where every system joins the names.
pub open spec fn lies_inside(
    dest: Seq<char>,
    e: EntryText,
    names: Seq<Seq<char>>,
    r: Seq<char>,
) -> bool {
    &&& goes_by(dest, e, names, r)
    &&& all_plain(names) ==> dest.is_prefix_of(r) && r.len() > dest.len()
}

/// Nothing is placed outside the destination, whatever the paths in an archive say, but for those
/// that begin with two backslashes and, on Windows, those that have a name with a colon as its
/// second character, which is joined as one on another drive.
pub proof fn law_nothing_outside(dest: Seq<char>, e: Seq<EntryText>, v: Seq<Placement>)
    requires
        plain_base(dest),
        are_right(dest, e, v),
    ensures
        forall|k: int|
            #![trigger v[k]]
            0 <= k < v.len() && plain_base(e[v[k].index as int].path->0) ==> exists|
                names: Seq<Seq<char>>,
            | #[trigger] lies_inside(dest, e[v[k].index as int], names, v[k].path@),
{
    assert forall|k: int|
        #![trigger v[k]]
        0 <= k < v.len() && plain_base(e[v[k].index as int].path->0) implies exists|
        names: Seq<Seq<char>>,
    | #[trigger] lies_inside(dest, e[v[k].index as int], names, v[k].path@) by {
        assert(is_right(dest, e, v[k]));
        let entry = e[v[k].index as int];
        let names = choose|names: Seq<Seq<char>>| #[trigger]
            goes_by(dest, entry, names, v[k].path@);
        if all_plain(names) {
            law_placed_under(dest, names, v[k].path@);
        }
        assert(lies_inside(dest, entry, names, v[k].path@));
    }
}

/// Reads a zstd-compressed archive and says where its entries go under `dest`.
pub fn unpack_zstd(data: &[u8], dest: &str) -> (r: Result<
    (Vec<ArchiveEntry>, Vec<Placement>),
    UnpackError,
>)
    ensures
        match r {
            Ok((entries, v)) => {
                &&& zstd_entries(data@) == Some(entry_views(entries@))
                &&& has_paths(entry_views(entries@))
                &&& are_right(dest@, entry_views(entries@), v@)
            },
            Err(UnpackError::Unreadable(_)) => zstd_entries(data@) is None,
            Err(UnpackError::NotUtf8) => zstd_entries(data@) matches Some(e) && !has_paths(e),
        },
{
    let entries = match read_zstd(data) {
        Ok(entries) => entries,
        Err(e) => {
            return Err(UnpackError::Unreadable(e));
        },
    };
    match placements(&entries, dest) {
        Ok(v) => Ok((entries, v)),
        Err(e) => Err(e),
    }
}

/// The place of an entry whose path is not UTF-8: as [`Placement`], with a path of bytes.
#[derive(Debug)]
pub struct RawPlacement {
    pub path: Vec<u8>,
    pub kind: EntryKind,
    pub mode: Option<u32>,
    pub index: usize,
}

/// Whether an entry has a name in its path, which is not UTF-8.
pub open spec fn is_raw(e: EntryText) -> bool {
    e.path is None && byte_names(e.raw_path).len() > 0
}

/// The entries whose paths are not UTF-8 and have a name in them, in their order.
pub open spec fn raw_entries(e: Seq<EntryText>) -> Seq<int>
    decreases e.len(),
{
    if e.len() == 0 {
        Seq::empty()
    } else {
        let before = raw_entries(e.drop_last());
        if is_raw(e.last()) {
            before.push(e.len() - 1)
        } else {
            before
        }
    }
}

/// Whether a placement is right for the entries, one of whose paths is not UTF-8: kind and mode are
/// the entry's, and its place is `dest` with the names in its path joined to it.
pub open spec fn is_raw_right(dest: Seq<char>, e: Seq<EntryText>, p: RawPlacement) -> bool {
    &&& p.index < e.len()
    &&& p.kind == e[p.index as int].kind
    &&& p.mode == e[p.index as int].mode
    &&& p.path@ == byte_path(encode_utf8(dest), byte_names(e[p.index as int].raw_path))
}

/// Whether the placements are right for the entries whose paths are not UTF-8: they are those of
/// the entries with a name in their paths, in their order.
pub open spec fn are_raw_right(dest: Seq<char>, e: Seq<EntryText>, v: Seq<RawPlacement>) -> bool {
    &&& forall|k: int| 0 <= k < v.len() ==> is_raw_right(dest, e, #[trigger] v[k])
    &&& Seq::new(v.len(), |k: int| v[k].index as int) == raw_entries(e)
}

/// Where the entries of an archive whose paths are not UTF-8 go under `dest`, on a system whose
/// paths are bytes. Only the names in a path count; an entry without a name is left out.
pub fn raw_placements(entries: &Vec<ArchiveEntry>, dest: &str) -> (r: Vec<RawPlacement>)
    ensures
        are_raw_right(dest@, entry_views(entries@), r@),
{
    let mut out: Vec<RawPlacement> = Vec::new();
    let ghost all = entry_views(entries@);
    let mut i: usize = 0;
    assert(all.take(0) =~= Seq::empty());
    assert(Seq::new(out@.len(), |k: int| out@[k].index as int) =~= Seq::empty());
    while i < entries.len()
        invariant
            i <= entries.len(),
            all == entry_views(entries@),
            forall|k: int| 0 <= k < out@.len() ==> is_raw_right(dest@, all, #[trigger] out@[k]),
            Seq::new(out@.len(), |k: int| out@[k].index as int) == raw_entries(
                all.take(i as int),
            ),
        decreases entries.len() - i,
    {
        let ghost before = out@;
        proof {
            assert(all.take(i + 1).drop_last() =~= all.take(i as int));
            assert(all.take(i + 1).last() == all[i as int]);
            assert(all[i as int] == entries@[i as int]@);
        }
        if entries[i].path.is_none() {
            let names = names_in(entries[i].raw_path.as_slice());
            assert(names@.len() == byte_views(names@).len());
            if names.len() > 0 {
                let path = place_bytes(dest.as_bytes(), &names);
                out.push(
                    RawPlacement { path, kind: entries[i].kind, mode: entries[i].mode, index: i },
                );
                assert(Seq::new(out@.len(), |k: int| out@[k].index as int) =~= Seq::new(
                    before.len(),
                    |k: int| before[k].index as int,
                ).push(i as int));
            }
        }
        i = i + 1;
    }
    assert(all.take(all.len() as int) =~= all);
    out
}

/// Nothing whose path is not UTF-8 is placed outside the destination: its place begins with the
/// destination and goes on by names, none of which is `..` or has a slash.
pub proof fn law_raw_nothing_outside(dest: Seq<char>, e: Seq<EntryText>, v: Seq<RawPlacement>)
    requires
        are_raw_right(dest, e, v),
    ensures
        forall|k: int|
            #![trigger v[k]]
            0 <= k < v.len() ==> {
                let names = byte_names(e[v[k].index as int].raw_path);
                &&& encode_utf8(dest).is_prefix_of(v[k].path@)
                &&& v[k].path@ == byte_path(encode_utf8(dest), names)
                &&& forall|i: int|
                    0 <= i < names.len() ==> is_byte_name(#[trigger] names[i]) && !names[i].contains(
                        SLASH,
                    )
            },
{
    assert forall|k: int|
        #![trigger v[k]]
        0 <= k < v.len() implies {
        let names = byte_names(e[v[k].index as int].raw_path);
        &&& encode_utf8(dest).is_prefix_of(v[k].path@)
        &&& v[k].path@ == byte_path(encode_utf8(dest), names)
        &&& forall|i: int|
            0 <= i < names.len() ==> is_byte_name(#[trigger] names[i]) && !names[i].contains(SLASH)
    } by {
        assert(is_raw_right(dest, e, v[k]));
        let raw = e[v[k].index as int].raw_path;
        crate::raw::law_byte_names(raw);
        crate::raw::law_byte_path_under(encode_utf8(dest), byte_names(raw));
    }
}

/// What is read from an archive, and where its entries go: those whose paths are UTF-8, and, on a
/// system whose paths are bytes, the others.
#[derive(Debug)]
pub struct Unpacked {
    pub entries: Vec<ArchiveEntry>,
    pub placements: Vec<Placement>,
    pub raw_placements: Vec<RawPlacement>,
}

/// Reads a gzip-compressed archive and says where its entries go under `dest`. A path that is not
/// UTF-8 is refused where the paths of the system are not bytes.
pub fn unpack_gzip(data: &[u8], dest: &str, byte_paths: bool) -> (r: Result<Unpacked, UnpackError>)
    ensures
        match r {
            Ok(u) => {
                &&& byte_paths || has_paths(entry_views(u.entries@))
                &&& gzip_entries(data@) == Some(entry_views(u.entries@))
                &&& are_right(dest@, entry_views(u.entries@), u.placements@)
                &&& are_raw_right(dest@, entry_views(u.entries@), u.raw_placements@)
            },
            Err(UnpackError::Unreadable(_)) => gzip_entries(data@) is None,
            Err(UnpackError::NotUtf8) => {
                &&& !byte_paths
                &&& gzip_entries(data@) matches Some(e)
                &&& !has_paths(e)
            },
        },
{
    match read_gzip(data) {
        Ok(entries) => {
            if !byte_paths && !all_have_paths(&entries) {
                return Err(UnpackError::NotUtf8);
            }
            let placements = text_placements(&entries, dest);
            let raw_placements = raw_placements(&entries, dest);
            Ok(Unpacked { entries, placements, raw_placements })
        },
        Err(e) => Err(UnpackError::Unreadable(e)),
    }
}

proof fn lemma_first_piece(s: Seq<char>, a: char, b: char)
    requires
        s.len() > 0,
        s[0] == a,
    ensures
        pieces(s, a, b).len() >= 2,
        pieces(s, a, b)[0].len() == 0,
    decreases s.len(),
{
    let rest = s.drop_last();
    if rest.len() > 0 {
        assert(rest[0] == a);
        lemma_first_piece(rest, a, b);
    } else {
        assert(pieces(rest, a, b) =~= seq![Seq::<char>::empty()]);
        assert(s.last() == s[0]);
    }
}

proof fn lemma_parts_of_names(p: Seq<Seq<char>>)
    requires
        forall|i: int| 0 <= i < p.len() ==> is_name(#[trigger] p[i]),
    ensures
        normal_names(crate::paths::piece_parts(p)) == p,
    decreases p.len(),
{
    if p.len() > 0 {
        let before = p.drop_last();
        assert forall|i: int| 0 <= i < before.len() implies is_name(#[trigger] before[i]) by {
            assert(before[i] == p[i]);
        }
        lemma_parts_of_names(before);
        assert(is_name(p[p.len() - 1]));
        let parts = crate::paths::piece_parts(p);
        assert(parts.drop_last() =~= crate::paths::piece_parts(before));
        assert(before.push(p.last()) =~= p);
    } else {
        assert(p =~= Seq::empty());
    }
}

/// The names in a plain path are what stands between its separators.
pub proof fn lemma_plain_names(path: Seq<char>)
    requires
        plain_path(path),
    ensures
        normal_names(path_parts(path)) == pieces(path, '/', '/'),
        pieces(path, '/', '/').len() > 0,
        all_plain(pieces(path, '/', '/')),
        plain_base(path),
{
    let p = pieces(path, '/', '/');
    crate::text::lemma_pieces_some(path, '/', '/');
    assert(plain_name(p[0]));
    if path.len() > 0 && path[0] == '/' {
        lemma_first_piece(path, '/', '/');
    }
    lemma_parts_of_names(p);
    assert(path_parts(path) =~= crate::paths::piece_parts(p));
    assert forall|i: int| 0 <= i < p.len() implies is_name(#[trigger] p[i]) && plain_child(p[i]) by {
        assert(plain_name(p[i]));
    }
    if path.len() >= 2 && path[0] == '\\' {
        assert(path.contains(path[0]));
    }
}

/// No path is both taken and refused, and one of fewer than a hundred bytes that every system
/// reads alike is one or the other.
pub proof fn law_taken_or_refused(path: Seq<char>)
    ensures
        is_taken(path) ==> !is_refused(path),
        portable(path) && encode_utf8(path).len() < 100 ==> is_taken(path) || is_refused(path),
{
    if is_named(path) {
        let p = pieces(path, '/', '\\');
        crate::text::lemma_pieces_some(path, '/', '\\');
        assert(plain_name(p[0]));
        if path.len() > 0 && path[0] == '/' {
            lemma_first_piece(path, '/', '\\');
        }
        if portable(path) && pieces(path, '/', '/').contains(".."@) {
            crate::text::lemma_pieces_absent(path, '/', '\\');
            let i = p.index_of(".."@);
            assert(plain_name(p[i]));
        }
    }
}

/// A plain path can be joined to another on every system.
pub proof fn lemma_plain_child(path: Seq<char>)
    requires
        plain_path(path),
    ensures
        plain_child(path),
{
    let p = pieces(path, '/', '/');
    crate::text::lemma_pieces_some(path, '/', '/');
    assert(plain_name(p[0]));
    if path.len() > 0 && path[0] == '/' {
        lemma_first_piece(path, '/', '/');
    }
    if path.len() == 0 {
        assert(p[0].len() == 0);
    } else if path[0] == '\\' {
        assert(path.contains(path[0]));
    }
}

proof fn lemma_all_named(e: Seq<EntryText>)
    requires
        forall|i: int|
            0 <= i < e.len() ==> (#[trigger] e[i]).path is Some && entry_names(e[i]).len() > 0,
    ensures
        named_entries(e) == Seq::new(e.len(), |i: int| i),
    decreases e.len(),
{
    if e.len() > 0 {
        let before = e.drop_last();
        assert forall|i: int| 0 <= i < before.len() implies (#[trigger] before[i]).path is Some
            && entry_names(before[i]).len() > 0 by {
            assert(before[i] == e[i]);
        }
        lemma_all_named(before);
        assert(e[e.len() - 1].path is Some && entry_names(e[e.len() - 1]).len() > 0);
        assert(named_entries(e) =~= Seq::new(e.len(), |i: int| i));
    } else {
        assert(named_entries(e) =~= Seq::new(e.len(), |i: int| i));
    }
}

/// Whether the placements are those of the files, in their order: each goes under the
/// destination by the names in its path, as a file with its mode.
pub open spec fn unpacks_to(dest: Seq<char>, files: Seq<FileText>, v: Seq<Placement>) -> bool {
    &&& v.len() == files.len()
    &&& forall|i: int|
        0 <= i < files.len() ==> {
            &&& (#[trigger] v[i]).index == i
            &&& v[i].kind == EntryKind::File
            &&& v[i].mode == Some(files[i].mode)
            &&& is_placed(dest, pieces(files[i].path, '/', '/'), v[i].path@)
        }
}

/// The entries that files become.
pub open spec fn file_entries(files: Seq<FileText>) -> Seq<EntryText> {
    Seq::new(files.len(), |i: int| file_entry(files[i]))
}

/// What was packed is unpacked: of files that an archive keeps as they are, the placements put
/// each, in their order, under the destination by the names in its path, as a file with its
/// mode.
pub proof fn law_packed_unpacks(files: Seq<FileText>, dest: Seq<char>, v: Seq<Placement>)
    requires
        forall|i: int| 0 <= i < files.len() ==> is_kept(#[trigger] files[i]),
        plain_base(dest),
        are_right(dest, file_entries(files), v),
    ensures
        unpacks_to(dest, files, v),
{
    let e = Seq::new(files.len(), |i: int| file_entry(files[i]));
    assert forall|i: int| 0 <= i < e.len() implies (#[trigger] e[i]).path is Some && entry_names(
        e[i],
    ).len() > 0 && is_portable_or_raw(e[i]) by {
        assert(is_kept(files[i]));
        lemma_plain_names(files[i].path);
    }
    lemma_all_named(e);
    let indices = Seq::new(v.len(), |k: int| v[k].index as int);
    assert(indices == named_entries(e));
    assert(v.len() == indices.len());
    assert forall|i: int| 0 <= i < files.len() implies {
        &&& (#[trigger] v[i]).index == i
        &&& v[i].kind == EntryKind::File
        &&& v[i].mode == Some(files[i].mode)
        &&& is_placed(dest, pieces(files[i].path, '/', '/'), v[i].path@)
    } by {
        assert(indices[i] == i);
        assert(is_right(dest, e, v[i]));
        assert(is_kept(files[i]));
        lemma_plain_names(files[i].path);
        let names = choose|names: Seq<Seq<char>>| #[trigger]
            goes_by(dest, e[v[i].index as int], names, v[i].path@);
        assert(goes_by(dest, e[i], names, v[i].path@));
        assert(names == entry_names(e[i]));
    }
}

/// Whether a placement is the one that an entry of an archive of source files has.
pub open spec fn is_source_place(dest: Seq<char>, e: Seq<EntryText>, p: Placement) -> bool {
    &&& p.index < e.len()
    &&& p.kind == source_kind(e[p.index as int])
    &&& p.mode is None
    &&& e[p.index as int].path is Some
    &&& plain_base(dest) && plain_child(e[p.index as int].path->0) ==> is_join(
        dest,
        e[p.index as int].path->0,
        p.path@,
    )
}

/// What is made of an entry of an archive of source files: a file, or only its parents.
pub open spec fn source_kind(e: EntryText) -> EntryKind {
    if e.kind == EntryKind::File {
        EntryKind::File
    } else {
        EntryKind::Other
    }
}

/// The entries whose paths are UTF-8, or those whose paths are not, in their order.
pub open spec fn entries_with(e: Seq<EntryText>, utf8: bool) -> Seq<int>
    decreases e.len(),
{
    if e.len() == 0 {
        Seq::empty()
    } else {
        let before = entries_with(e.drop_last(), utf8);
        if (e.last().path is Some) == utf8 {
            before.push(e.len() - 1)
        } else {
            before
        }
    }
}

/// Whether the placements are right for the entries of an archive of source files: they are those
/// of the entries whose paths are UTF-8, in their order.
pub open spec fn are_source_places(dest: Seq<char>, e: Seq<EntryText>, v: Seq<Placement>) -> bool {
    &&& forall|k: int| 0 <= k < v.len() ==> is_source_place(dest, e, #[trigger] v[k])
    &&& Seq::new(v.len(), |k: int| v[k].index as int) == entries_with(e, true)
}

/// Where the entries of an archive of source files that have a path go under `dest`: each file by
/// its path as it stands, with no mode. Of any other entry only the parent directories are made.
pub fn source_placements(entries: &Vec<ArchiveEntry>, dest: &str) -> (r: Vec<Placement>)
    ensures
        are_source_places(dest@, entry_views(entries@), r@),
{
    let mut out: Vec<Placement> = Vec::new();
    let ghost all = entry_views(entries@);
    let mut i: usize = 0;
    assert(all.take(0) =~= Seq::empty());
    assert(Seq::new(out@.len(), |k: int| out@[k].index as int) =~= Seq::empty());
    while i < entries.len()
        invariant
            i <= entries.len(),
            all == entry_views(entries@),
            forall|k: int| 0 <= k < out@.len() ==> is_source_place(dest@, all, #[trigger] out@[k]),
            Seq::new(out@.len(), |k: int| out@[k].index as int) == entries_with(
                all.take(i as int),
                true,
            ),
        decreases entries.len() - i,
    {
        let ghost before = out@;
        proof {
            assert(all.take(i + 1).drop_last() =~= all.take(i as int));
            assert(all.take(i + 1).last() == all[i as int]);
            assert(all[i as int] == entries@[i as int]@);
        }
        if let Some(path) = &entries[i].path {
            let kind = match entries[i].kind {
                EntryKind::File => EntryKind::File,
                _ => EntryKind::Other,
            };
            out.push(Placement { path: join(dest, path.as_str()), kind, mode: None, index: i });
            assert(Seq::new(out@.len(), |k: int| out@[k].index as int) =~= Seq::new(
                before.len(),
                |k: int| before[k].index as int,
            ).push(i as int));
        }
        i = i + 1;
    }
    assert(all.take(all.len() as int) =~= all);
    out
}

/// Whether a placement is the one that an entry of an archive of source files has, whose path is
/// not UTF-8.
pub open spec fn is_raw_source_place(dest: Seq<char>, e: Seq<EntryText>, p: RawPlacement) -> bool {
    &&& p.index < e.len()
    &&& p.kind == source_kind(e[p.index as int])
    &&& p.mode is None
    &&& p.path@ == byte_resolved(encode_utf8(dest), e[p.index as int].raw_path)
}

/// Whether the placements are right for the entries of an archive of source files: they are those
/// of the entries whose paths are not UTF-8, in their order.
pub open spec fn are_raw_source_places(
    dest: Seq<char>,
    e: Seq<EntryText>,
    v: Seq<RawPlacement>,
) -> bool {
    &&& forall|k: int| 0 <= k < v.len() ==> is_raw_source_place(dest, e, #[trigger] v[k])
    &&& Seq::new(v.len(), |k: int| v[k].index as int) == entries_with(e, false)
}

/// Where the entries of an archive of source files whose paths are not UTF-8 go under `dest`, on a
/// system whose paths are bytes.
pub fn raw_source_placements(entries: &Vec<ArchiveEntry>, dest: &str) -> (r: Vec<RawPlacement>)
    ensures
        are_raw_source_places(dest@, entry_views(entries@), r@),
{
    let mut out: Vec<RawPlacement> = Vec::new();
    let ghost all = entry_views(entries@);
    let mut i: usize = 0;
    assert(all.take(0) =~= Seq::empty());
    assert(Seq::new(out@.len(), |k: int| out@[k].index as int) =~= Seq::empty());
    while i < entries.len()
        invariant
            i <= entries.len(),
            all == entry_views(entries@),
            forall|k: int|
                0 <= k < out@.len() ==> is_raw_source_place(dest@, all, #[trigger] out@[k]),
            Seq::new(out@.len(), |k: int| out@[k].index as int) == entries_with(
                all.take(i as int),
                false,
            ),
        decreases entries.len() - i,
    {
        let ghost before = out@;
        proof {
            assert(all.take(i + 1).drop_last() =~= all.take(i as int));
            assert(all.take(i + 1).last() == all[i as int]);
            assert(all[i as int] == entries@[i as int]@);
        }
        if entries[i].path.is_none() {
            let kind = match entries[i].kind {
                EntryKind::File => EntryKind::File,
                _ => EntryKind::Other,
            };
            let path = resolve_bytes(dest.as_bytes(), entries[i].raw_path.as_slice());
            out.push(RawPlacement { path, kind, mode: None, index: i });
            assert(Seq::new(out@.len(), |k: int| out@[k].index as int) =~= Seq::new(
                before.len(),
                |k: int| before[k].index as int,
            ).push(i as int));
        }
        i = i + 1;
    }
    assert(all.take(all.len() as int) =~= all);
    out
}

/// Reads a zstd-compressed archive of source files and says where they go under `dest`. A path that
/// is not UTF-8 is refused where the paths of the system are not bytes.
pub fn unpack_source(data: &[u8], dest: &str, byte_paths: bool) -> (r: Result<
    Unpacked,
    UnpackError,
>)
    ensures
        match r {
            Ok(u) => {
                &&& byte_paths || has_paths(entry_views(u.entries@))
                &&& zstd_entries(data@) == Some(entry_views(u.entries@))
                &&& are_source_places(dest@, entry_views(u.entries@), u.placements@)
                &&& are_raw_source_places(dest@, entry_views(u.entries@), u.raw_placements@)
            },
            Err(UnpackError::Unreadable(_)) => zstd_entries(data@) is None,
            Err(UnpackError::NotUtf8) => {
                &&& !byte_paths
                &&& zstd_entries(data@) matches Some(e)
                &&& !has_paths(e)
            },
        },
{
    match read_zstd(data) {
        Ok(entries) => {
            if !byte_paths && !all_have_paths(&entries) {
                return Err(UnpackError::NotUtf8);
            }
            let placements = source_placements(&entries, dest);
            let raw_placements = raw_source_placements(&entries, dest);
            Ok(Unpacked { entries, placements, raw_placements })
        },
        Err(e) => Err(UnpackError::Unreadable(e)),
    }
}

/// Where every entry has a path, each is among those with one, and none among the others.
pub proof fn lemma_all_with(e: Seq<EntryText>)
    requires
        has_paths(e),
    ensures
        entries_with(e, true) == Seq::new(e.len(), |i: int| i),
        entries_with(e, false) == Seq::<int>::empty(),
    decreases e.len(),
{
    if e.len() > 0 {
        let before = e.drop_last();
        assert forall|i: int| 0 <= i < before.len() implies (#[trigger] before[i]).path is Some by {
            assert(before[i] == e[i]);
        }
        lemma_all_with(before);
        assert(e[e.len() - 1].path is Some);
    }
    assert(entries_with(e, true) =~= Seq::new(e.len(), |i: int| i));
}

/// An entry read from a zip archive. Its name is absent where it cannot be read; its path is
/// absent where it leads outside; its data is absent where it cannot be read.
#[derive(Debug)]
pub struct ZipEntry {
    pub name: Option<String>,
    pub path: Option<String>,
    pub is_dir: bool,
    pub data: Option<Vec<u8>>,
}

/// What an entry of a zip archive holds on every system. Its path is its name with the separators
/// of the system.
pub struct ZipText {
    pub name: Option<Seq<char>>,
    pub is_dir: bool,
    pub data: Option<Seq<u8>>,
}

impl View for ZipEntry {
    type V = ZipText;

    open spec fn view(&self) -> ZipText {
        ZipText {
            name: match self.name {
                Some(n) => Some(n@),
                None => None,
            },
            is_dir: self.is_dir,
            data: match self.data {
                Some(d) => Some(d@),
                None => None,
            },
        }
    }
}

/// What a list of entries of a zip archive holds on every system.
pub open spec fn zip_views(v: Seq<ZipEntry>) -> Seq<ZipText> {
    Seq::new(v.len(), |i: int| v[i]@)
}

/// The entries of a zip archive, in their order. It is absent where the bytes are no such
/// archive.
pub uninterp spec fn zip_entries(data: Seq<u8>) -> Option<Seq<ZipText>>;

/// Whether a relative path stays inside: it does not begin with a separator and has no `..`.
pub open spec fn is_enclosed(path: Seq<char>) -> bool {
    &&& path.len() > 0 ==> path[0] != '/' && path[0] != '\\'
    &&& !pieces(path, '/', '\\').contains(".."@)
}

/// Whether the entry's path, where it has one, stays inside.
pub open spec fn stays_inside(e: ZipEntry) -> bool {
    match e.path {
        Some(p) => is_enclosed(p@),
        None => true,
    }
}

/// The names that pieces of a path lead to, one after another: empty pieces and `.` lead nowhere,
/// and `..` leads back. There are none where it leads back from the start.
pub open spec fn resolved(p: Seq<Seq<char>>) -> Option<Seq<Seq<char>>>
    decreases p.len(),
{
    if p.len() == 0 {
        Some(Seq::empty())
    } else {
        match resolved(p.drop_last()) {
            None => None,
            Some(before) => if p.last().len() == 0 || p.last() == "."@ {
                Some(before)
            } else if p.last() == ".."@ {
                if before.len() == 0 {
                    None
                } else {
                    Some(before.drop_last())
                }
            } else {
                Some(before.push(p.last()))
            },
        }
    }
}

/// The names that the name of an entry in a zip archive leads to.
pub open spec fn zip_names(name: Seq<char>) -> Option<Seq<Seq<char>>> {
    resolved(pieces(name, '/', '\\'))
}

/// Whether the name of an entry leads to the same place on every system: it has no null character,
/// does not begin with two separators and has nothing like a drive between them.
pub open spec fn is_zip_name(name: Seq<char>) -> bool {
    &&& !name.contains('\0')
    &&& !(name.len() >= 2 && is_separator(name[0]) && is_separator(name[1]))
    &&& forall|i: int|
        0 <= i < pieces(name, '/', '\\').len() ==> !has_drive(
            #[trigger] pieces(name, '/', '\\')[i],
        )
}

/// Whether an entry's path is that of its name: where the name leads to the same place on every
/// system, the names it leads to joined one after another, or none where it leads outside. A name
/// that cannot be read or has a null character gives no path.
pub open spec fn keeps_name(e: ZipEntry) -> bool {
    match e.name {
        None => e.path is None,
        Some(n) => {
            &&& n@.contains('\0') ==> e.path is None
            &&& is_zip_name(n@) ==> match zip_names(n@) {
                None => e.path is None,
                Some(names) => e.path matches Some(p) && is_path(Seq::empty(), names, p@),
            }
        },
    }
}

/// `zip::ZipArchive` with `by_index` for each entry, and of the entry `name`, `enclosed_name`,
/// `is_dir` and the data. The path that `enclosed_name` gives is relative and has no `..`. It is
/// the name, read with `/` and backslash as separators, with what is between them joined by the
/// separator of the system; where a name begins with two separators or has a drive in it, how it
/// is written depends on the system and is not stated.
#[verifier::external_body]
fn read_zip(data: &[u8]) -> (r: Result<Vec<ZipEntry>, zip::result::ZipError>)
    ensures
        match r {
            Ok(v) => {
                &&& zip_entries(data@) == Some(zip_views(v@))
                &&& forall|i: int|
                    0 <= i < v@.len() ==> stays_inside(#[trigger] v@[i]) && keeps_name(v@[i])
            },
            Err(_) => zip_entries(data@) is None,
        },
{
    let mut archive = zip::ZipArchive::new(std::io::Cursor::new(data))?;
    (0..archive.len()).map(|i| {
        let mut file = archive.by_index(i)?;
        let name = file.name().ok().map(|n| n.into_owned());
        let path = file.enclosed_name().and_then(|p| p.into_os_string().into_string().ok());
        let is_dir = file.is_dir();
        let mut data = Vec::new();
        let data = file.read_to_end(&mut data).ok().map(|_| data);
        Ok(ZipEntry { name, path, is_dir, data })
    }).collect()
}

/// Why a zip archive cannot be unpacked.
#[derive(Debug)]
pub enum ZipUnpackError {
    Unreadable(zip::result::ZipError),
    Damaged,
}

/// Whether the entry goes somewhere: it has a path.
pub open spec fn zip_kept(e: ZipEntry) -> bool {
    e.path is Some
}

/// The entries that have a path, in their order.
pub open spec fn kept_entries(e: Seq<ZipEntry>) -> Seq<int>
    decreases e.len(),
{
    if e.len() == 0 {
        Seq::empty()
    } else {
        let before = kept_entries(e.drop_last());
        if zip_kept(e.last()) {
            before.push(e.len() - 1)
        } else {
            before
        }
    }
}

/// Whether a placement is the one that the entry has: its path joined to `dest`.
pub open spec fn is_zip_place(dest: Seq<char>, e: Seq<ZipEntry>, p: Placement) -> bool {
    &&& p.index < e.len()
    &&& zip_kept(e[p.index as int])
    &&& p.kind == (if e[p.index as int].is_dir {
        EntryKind::Directory
    } else {
        EntryKind::File
    })
    &&& p.mode is None
    &&& p.kind == EntryKind::File ==> e[p.index as int].data is Some
    &&& plain_base(dest) && plain_child(e[p.index as int].path->0@) ==> is_join(
        dest,
        e[p.index as int].path->0@,
        p.path@,
    )
}

/// Whether a file that is to be unpacked has no data.
pub open spec fn has_damage(e: Seq<ZipEntry>) -> bool {
    exists|i: int|
        0 <= i < e.len() && zip_kept(#[trigger] e[i]) && !e[i].is_dir && e[i].data is None
}

/// Whether the placements are right for the entries of a zip archive: they are those of the
/// entries that have a path, in their order.
pub open spec fn are_zip_places(dest: Seq<char>, e: Seq<ZipEntry>, v: Seq<Placement>) -> bool {
    &&& forall|k: int| 0 <= k < v.len() ==> is_zip_place(dest, e, #[trigger] v[k])
    &&& Seq::new(v.len(), |k: int| v[k].index as int) == kept_entries(e)
}

/// Where the entries of a zip archive go under `dest`. An entry without a path is left out.
pub fn zip_placements(entries: &Vec<ZipEntry>, dest: &str) -> (r: Result<
    Vec<Placement>,
    ZipUnpackError,
>)
    ensures
        match r {
            Ok(v) => !has_damage(entries@) && are_zip_places(dest@, entries@, v@),
            Err(e) => e is Damaged && has_damage(entries@),
        },
{
    let mut out: Vec<Placement> = Vec::new();
    let mut i: usize = 0;
    assert(entries@.take(0) =~= Seq::empty());
    assert(Seq::new(out@.len(), |k: int| out@[k].index as int) =~= Seq::empty());
    while i < entries.len()
        invariant
            i <= entries.len(),
            forall|j: int|
                0 <= j < i ==> !(zip_kept(#[trigger] entries@[j]) && !entries@[j].is_dir
                    && entries@[j].data is None),
            forall|k: int| 0 <= k < out@.len() ==> is_zip_place(dest@, entries@, #[trigger] out@[k]),
            Seq::new(out@.len(), |k: int| out@[k].index as int) == kept_entries(
                entries@.take(i as int),
            ),
        decreases entries.len() - i,
    {
        let ghost seen = entries@.take(i + 1);
        proof {
            assert(seen.drop_last() =~= entries@.take(i as int));
            assert(seen.last() == entries@[i as int]);
        }
        let ghost before = out@;
        let entry = &entries[i];
        if let Some(path) = &entry.path {
            let kind = if entry.is_dir {
                EntryKind::Directory
            } else {
                if entry.data.is_none() {
                    assert(zip_kept(entries@[i as int]));
                    return Err(ZipUnpackError::Damaged);
                }
                EntryKind::File
            };
            let item = Placement { path: join(dest, path.as_str()), kind, mode: None, index: i };
            assert(is_zip_place(dest@, entries@, item));
            out.push(item);
            proof {
                assert(Seq::new(out@.len(), |k: int| out@[k].index as int) =~= Seq::new(
                    before.len(),
                    |k: int| before[k].index as int,
                ).push(i as int));
            }
        }
        i = i + 1;
    }
    assert(entries@.take(entries@.len() as int) =~= entries@);
    Ok(out)
}

/// Nothing is placed outside the destination, whatever the names in a zip archive say: a place
/// begins with the destination and goes on by the entry's path, where every system joins it, and
/// that has no `..`.
pub proof fn law_zip_nothing_outside(dest: Seq<char>, e: Seq<ZipEntry>, v: Seq<Placement>)
    requires
        plain_base(dest),
        forall|i: int| 0 <= i < e.len() ==> stays_inside(#[trigger] e[i]),
        are_zip_places(dest, e, v),
    ensures
        forall|k: int|
            #![trigger v[k]]
            0 <= k < v.len() ==> is_enclosed(e[v[k].index as int].path->0@) && (plain_child(
                e[v[k].index as int].path->0@,
            ) ==> dest.is_prefix_of(v[k].path@) && v[k].path@.len() > dest.len()),
{
    assert forall|k: int|
        #![trigger v[k]]
        0 <= k < v.len() implies is_enclosed(e[v[k].index as int].path->0@) && (plain_child(
        e[v[k].index as int].path->0@,
    ) ==> dest.is_prefix_of(v[k].path@) && v[k].path@.len() > dest.len()) by {
        assert(is_zip_place(dest, e, v[k]));
        assert(stays_inside(e[v[k].index as int]));
    }
}

proof fn lemma_resolved_plain(p: Seq<Seq<char>>)
    requires
        forall|i: int|
            0 <= i < p.len() ==> !has_drive(#[trigger] p[i]) && (p[i].len() > 0 ==> !is_separator(
                p[i][0],
            )),
    ensures
        resolved(p) matches Some(names) ==> all_plain(names),
    decreases p.len(),
{
    if p.len() > 0 {
        let before = p.drop_last();
        assert forall|i: int| 0 <= i < before.len() implies !has_drive(#[trigger] before[i]) && (
        before[i].len() > 0 ==> !is_separator(before[i][0])) by {
            assert(before[i] == p[i]);
        }
        lemma_resolved_plain(before);
        assert(p.last() == p[p.len() - 1]);
        if resolved(p) is Some {
            let names = resolved(p)->0;
            let earlier = resolved(before)->0;
            assert forall|i: int| 0 <= i < names.len() implies plain_child(#[trigger] names[i]) by {
                if i < earlier.len() {
                    assert(names[i] == earlier[i]);
                }
            }
        }
    }
}

/// The names that an entry's name leads to can be joined on every system, where it leads to the
/// same place on every system.
pub proof fn lemma_zip_names_plain(name: Seq<char>)
    requires
        is_zip_name(name),
    ensures
        zip_names(name) matches Some(names) ==> all_plain(names),
{
    let p = pieces(name, '/', '\\');
    assert forall|i: int| 0 <= i < p.len() implies !has_drive(#[trigger] p[i]) && (p[i].len() > 0
        ==> !is_separator(p[i][0])) by {
        if p[i].len() > 0 {
            crate::text::lemma_piece_chars(name, '/', '\\', i, 0);
        }
    }
    lemma_resolved_plain(p);
}

proof fn lemma_kept_entries(e: Seq<ZipEntry>, i: int)
    ensures
        kept_entries(e).contains(i) <==> 0 <= i < e.len() && zip_kept(e[i]),
    decreases e.len(),
{
    if e.len() > 0 {
        lemma_kept_entries(e.drop_last(), i);
        let before = kept_entries(e.drop_last());
        if zip_kept(e.last()) {
            let all = kept_entries(e);
            assert(all == before.push(e.len() - 1));
            assert(all[before.len() as int] == e.len() - 1);
            if before.contains(i) {
                let k = before.index_of(i);
                assert(all[k] == i);
            }
            if all.contains(i) {
                let k = all.index_of(i);
                if k < before.len() {
                    assert(before[k] == i);
                }
            }
        }
    }
}

/// Whether the entry with the given number goes where its name leads: it has a place where its
/// name leads inside, which is `dest` with the names joined to it.
pub open spec fn goes_by_name(dest: Seq<char>, e: Seq<ZipText>, v: Seq<Placement>, i: int) -> bool {
    match e[i].name {
        None => !has_place(v, i),
        Some(n) => {
            &&& n.contains('\0') ==> !has_place(v, i)
            &&& is_zip_name(n) ==> {
                &&& has_place(v, i) <==> zip_names(n) is Some
                &&& forall|k: int|
                    0 <= k < v.len() && (#[trigger] v[k]).index == i && plain_base(dest)
                        && zip_names(n)->0.len() > 0 ==> is_placed(
                        dest,
                        zip_names(n)->0,
                        v[k].path@,
                    )
            }
        },
    }
}

/// Every entry of a zip archive goes where its name leads.
pub proof fn law_zip_goes_by_name(dest: Seq<char>, e: Seq<ZipEntry>, v: Seq<Placement>, i: int)
    requires
        0 <= i < e.len(),
        keeps_name(e[i]),
        are_zip_places(dest, e, v),
    ensures
        goes_by_name(dest, zip_views(e), v, i),
{
    let indices = Seq::new(v.len(), |k: int| v[k].index as int);
    assert(indices == kept_entries(e));
    lemma_kept_entries(e, i);
    assert(has_place(v, i) <==> zip_kept(e[i])) by {
        if has_place(v, i) {
            let k = choose|k: int| 0 <= k < v.len() && (#[trigger] v[k]).index == i;
            assert(indices[k] == i);
            assert(indices.contains(i));
        }
        if zip_kept(e[i]) {
            let k = indices.index_of(i);
            assert(indices[k] == i);
            assert(v[k].index == i);
        }
    }
    assert(zip_views(e)[i] == e[i]@);
    if e[i].name is Some && is_zip_name(e[i].name->0@) {
        let n = e[i].name->0@;
        lemma_zip_names_plain(n);
        assert forall|k: int|
            0 <= k < v.len() && (#[trigger] v[k]).index == i && plain_base(dest)
                && zip_names(n)->0.len() > 0 implies is_placed(
            dest,
            zip_names(n)->0,
            v[k].path@,
        ) by {
            assert(is_zip_place(dest, e, v[k]));
            let names = zip_names(n)->0;
            lemma_inner_plain(names, e[i].path->0@);
        }
    }
}

/// Whether a name may lead to a place: it can be read, has no null character and, where it leads to
/// the same place on every system, leads inside.
pub open spec fn may_lead(name: Option<Seq<char>>) -> bool {
    name matches Some(n) && !n.contains('\0') && (is_zip_name(n) ==> zip_names(n) is Some)
}

/// Whether the data of some file that may have a place cannot be read.
pub open spec fn lacks_data(e: Seq<ZipText>) -> bool {
    exists|i: int|
        0 <= i < e.len() && !(#[trigger] e[i]).is_dir && e[i].data is None && may_lead(e[i].name)
}

/// Reads a zip archive and says where its entries go under `dest`.
pub fn unpack_zip(data: &[u8], dest: &str) -> (r: Result<
    (Vec<ZipEntry>, Vec<Placement>),
    ZipUnpackError,
>)
    ensures
        match r {
            Ok((entries, v)) => {
                &&& zip_entries(data@) == Some(zip_views(entries@))
                &&& forall|i: int|
                    0 <= i < entries@.len() ==> stays_inside(#[trigger] entries@[i]) && keeps_name(
                        entries@[i],
                    ) && goes_by_name(dest@, zip_views(entries@), v@, i)
                &&& are_zip_places(dest@, entries@, v@)
            },
            Err(ZipUnpackError::Unreadable(_)) => zip_entries(data@) is None,
            Err(ZipUnpackError::Damaged) => zip_entries(data@) matches Some(e) && lacks_data(e),
        },
{
    let entries = match read_zip(data) {
        Ok(entries) => entries,
        Err(e) => {
            return Err(ZipUnpackError::Unreadable(e));
        },
    };
    match zip_placements(&entries, dest) {
        Ok(v) => {
            proof {
                assert forall|i: int| 0 <= i < entries@.len() implies stays_inside(
                    #[trigger] entries@[i],
                ) && keeps_name(entries@[i]) && goes_by_name(
                    dest@,
                    zip_views(entries@),
                    v@,
                    i,
                ) by {
                    law_zip_goes_by_name(dest@, entries@, v@, i);
                }
            }
            Ok((entries, v))
        },
        Err(e) => {
            proof {
                let i = choose|i: int|
                    0 <= i < entries@.len() && zip_kept(#[trigger] entries@[i])
                        && !entries@[i].is_dir && entries@[i].data is None;
                let all = zip_views(entries@);
                assert(!all[i].is_dir && all[i].data is None && may_lead(all[i].name));
                assert(lacks_data(all));
            }
            Err(e)
        },
    }
}


/// Where the pieces of a name lead: a name goes one further, `..` takes back the name before it,
/// and `.` or nothing goes nowhere. What leads back from the start leads nowhere at all, whatever
/// comes after it.
pub proof fn law_pieces_lead(p: Seq<Seq<char>>, name: Seq<char>)
    requires
        name.len() > 0,
        name != seq!['.'] && name != seq!['.', '.'],
        resolved(p) is Some,
    ensures
        resolved(p.push(name)) == Some(resolved(p)->0.push(name)),
        resolved(p.push(name).push(seq!['.', '.'])) == resolved(p),
        resolved(p.push(seq!['.'])) == resolved(p),
        resolved(p.push(Seq::empty())) == resolved(p),
        resolved(p)->0.len() == 0 ==> resolved(p.push(seq!['.', '.'])) is None,
        resolved(p)->0.len() == 0 ==> resolved(p.push(seq!['.', '.']).push(name)) is None,
        resolved(Seq::empty()) == Some(Seq::<Seq<char>>::empty()),
{
    reveal_strlit(".");
    reveal_strlit("..");
    assert("."@ =~= seq!['.']);
    assert(".."@ =~= seq!['.', '.']);
    let up = seq!['.', '.'];
    let q = p.push(name);
    assert(up.len() == 2 && seq!['.'].len() == 1);
    assert(q.drop_last() =~= p);
    assert(q.push(up).drop_last() =~= q);
    assert(p.push(seq!['.']).drop_last() =~= p);
    assert(p.push(Seq::empty()).drop_last() =~= p);
    assert(p.push(up).drop_last() =~= p);
    assert(p.push(up).push(name).drop_last() =~= p.push(up));
    assert(resolved(p)->0.push(name).drop_last() =~= resolved(p)->0);
}

/// Which entries of a zip archive are unpacked, and as what: each that has a path, once and in
/// order, as a directory or a file, and with no mode.
pub proof fn law_zip_kinds(dest: Seq<char>, e: Seq<ZipEntry>, v: Seq<Placement>, i: int)
    requires
        0 <= i < e.len(),
        are_zip_places(dest, e, v),
    ensures
        has_place(v, i) <==> e[i].path is Some,
        forall|k: int|
            0 <= k < v.len() && (#[trigger] v[k]).index == i ==> v[k].mode is None && v[k].kind == (
            if e[i].is_dir {
                EntryKind::Directory
            } else {
                EntryKind::File
            }),
{
    let indices = Seq::new(v.len(), |k: int| v[k].index as int);
    assert(indices == kept_entries(e));
    lemma_kept_entries(e, i);
    if has_place(v, i) {
        let k = choose|k: int| 0 <= k < v.len() && (#[trigger] v[k]).index == i;
        assert(indices[k] == i);
        assert(indices.contains(i));
    }
    if e[i].path is Some {
        let k = indices.index_of(i);
        assert(indices[k] == i);
        assert(v[k].index == i);
    }
    assert forall|k: int| 0 <= k < v.len() && (#[trigger] v[k]).index == i implies v[k].mode is None
        && v[k].kind == (if e[i].is_dir {
        EntryKind::Directory
    } else {
        EntryKind::File
    }) by {
        assert(is_zip_place(dest, e, v[k]));
    }
}

proof fn lemma_selected(e: Seq<EntryText>, i: int)
    requires
        0 <= i < e.len(),
    ensures
        named_entries(e).contains(i) <==> e[i].path is Some && entry_names(e[i]).len() > 0,
        raw_entries(e).contains(i) <==> is_raw(e[i]),
        forall|utf8: bool| #[trigger]
            entries_with(e, utf8).contains(i) <==> (e[i].path is Some) == utf8,
        forall|j: int|
            0 <= j < named_entries(e).len() ==> 0 <= (#[trigger] named_entries(e)[j]) < e.len(),
        forall|j: int|
            0 <= j < raw_entries(e).len() ==> 0 <= (#[trigger] raw_entries(e)[j]) < e.len(),
        forall|utf8: bool, j: int|
            0 <= j < entries_with(e, utf8).len() ==> 0 <= (#[trigger] entries_with(e, utf8)[j])
                < e.len(),
    decreases e.len(),
{
    let rest = e.drop_last();
    let n = e.len() - 1;
    if rest.len() > 0 {
        lemma_selected(
            rest,
            if i < n {
                i
            } else {
                0
            },
        );
    }
    let a = named_entries(rest);
    let b = raw_entries(rest);
    lemma_in_push(a, n, i);
    lemma_in_push(b, n, i);
    assert forall|utf8: bool| #[trigger] entries_with(e, utf8).contains(i) <==> (e[i].path is Some)
        == utf8 by {
        lemma_in_push(entries_with(rest, utf8), n, i);
        if rest.len() > 0 && i < n {
            assert(entries_with(rest, utf8).contains(i) <==> (rest[i].path is Some) == utf8);
        }
    }
    assert forall|utf8: bool, j: int| 0 <= j < entries_with(e, utf8).len() implies 0 <= (
    #[trigger] entries_with(e, utf8)[j]) < e.len() by {
        let before = entries_with(rest, utf8);
        if j < before.len() {
            assert(entries_with(e, utf8)[j] == before[j]);
        }
    }
}

proof fn lemma_in_push(s: Seq<int>, x: int, i: int)
    ensures
        s.push(x).contains(i) <==> s.contains(i) || x == i,
{
    if s.contains(i) {
        let k = s.index_of(i);
        assert(s.push(x)[k] == i);
    }
    if x == i {
        assert(s.push(x)[s.len() as int] == i);
    }
    if s.push(x).contains(i) && x != i {
        let k = s.push(x).index_of(i);
        assert(s[k] == i);
    }
}

/// Which entries of an archive of source files are unpacked, and as what: each whose path is
/// UTF-8, a file as a file and of anything else the parents alone, and none with a mode.
pub proof fn law_source_kinds(dest: Seq<char>, e: Seq<EntryText>, v: Seq<Placement>, i: int)
    requires
        0 <= i < e.len(),
        are_source_places(dest, e, v),
    ensures
        has_place(v, i) <==> e[i].path is Some,
        forall|k: int|
            0 <= k < v.len() && (#[trigger] v[k]).index == i ==> v[k].mode is None && (v[k].kind
                == EntryKind::File <==> e[i].kind == EntryKind::File) && (v[k].kind
                == EntryKind::File || v[k].kind == EntryKind::Other),
{
    let indices = Seq::new(v.len(), |k: int| v[k].index as int);
    assert(indices == entries_with(e, true));
    lemma_selected(e, i);
    if has_place(v, i) {
        let k = choose|k: int| 0 <= k < v.len() && (#[trigger] v[k]).index == i;
        assert(indices[k] == i);
        assert(indices.contains(i));
    }
    if e[i].path is Some {
        assert(indices.contains(i));
        let k = indices.index_of(i);
        assert(indices[k] == i);
        assert(v[k].index == i);
    }
    assert forall|k: int| 0 <= k < v.len() && (#[trigger] v[k]).index == i implies v[k].mode is None
        && (v[k].kind == EntryKind::File <==> e[i].kind == EntryKind::File) && (v[k].kind
        == EntryKind::File || v[k].kind == EntryKind::Other) by {
        assert(is_source_place(dest, e, v[k]));
    }
}

/// The entries of an archive whose paths are not UTF-8 are unpacked just where a name is left in
/// the path, each as it was packed.
pub proof fn law_raw_kinds(dest: Seq<char>, e: Seq<EntryText>, v: Seq<RawPlacement>, i: int)
    requires
        0 <= i < e.len(),
        are_raw_right(dest, e, v),
    ensures
        (exists|k: int| 0 <= k < v.len() && (#[trigger] v[k]).index == i) <==> e[i].path is None
            && byte_names(e[i].raw_path).len() > 0,
        forall|k: int|
            0 <= k < v.len() && (#[trigger] v[k]).index == i ==> v[k].mode == e[i].mode && v[k].kind
                == e[i].kind,
{
    let indices = Seq::new(v.len(), |k: int| v[k].index as int);
    assert(indices == raw_entries(e));
    lemma_selected(e, i);
    if exists|k: int| 0 <= k < v.len() && (#[trigger] v[k]).index == i {
        let k = choose|k: int| 0 <= k < v.len() && (#[trigger] v[k]).index == i;
        assert(indices[k] == i);
        assert(indices.contains(i));
    }
    if is_raw(e[i]) {
        let k = indices.index_of(i);
        assert(indices[k] == i);
        assert(v[k].index == i);
    }
    assert forall|k: int| 0 <= k < v.len() && (#[trigger] v[k]).index == i implies v[k].mode
        == e[i].mode && v[k].kind == e[i].kind by {
        assert(is_raw_right(dest, e, v[k]));
    }
}


/// What is unpacked of an archive whose paths every system reads alike: each entry with a name in
/// its path, once and in order, as it was packed.
pub proof fn law_entry_kinds(dest: Seq<char>, e: Seq<EntryText>, v: Seq<Placement>, i: int)
    requires
        0 <= i < e.len(),
        has_portable(e[i]),
        are_right(dest, e, v),
    ensures
        has_place(v, i) <==> normal_names(path_parts(e[i].path->0)).len() > 0,
        forall|k: int|
            0 <= k < v.len() && (#[trigger] v[k]).index == i ==> v[k].kind == e[i].kind && v[k].mode
                == e[i].mode,
        forall|j: int, k: int|
            0 <= j < k < v.len() ==> (#[trigger] v[j]).index < (#[trigger] v[k]).index,
{
    assert(has_portable(e[i]));
    assert forall|k: int| 0 <= k < v.len() && (#[trigger] v[k]).index == i implies v[k].kind
        == e[i].kind && v[k].mode == e[i].mode by {
        assert(is_right(dest, e, v[k]));
    }
}

/// A file comes out of an archive as it went in: with its data and its mode, as a file, and under
/// its path, in which backslashes may have become slashes and nothing else has changed.
pub proof fn law_stored(f: FileText, e: EntryText)
    requires
        is_stored(f, e),
    ensures
        e.data == f.data,
        e.mode == Some(f.mode),
        e.kind == EntryKind::File,
        e.path is Some,
        e.path->0.len() == f.path.len(),
        forall|i: int|
            0 <= i < f.path.len() ==> (#[trigger] e.path->0[i]) == f.path[i] || (f.path[i] == '\\'
                && e.path->0[i] == '/'),
        is_stored(f, file_entry(f)),
{
    reveal_strlit("/");
    assert("/"@ =~= seq!['/']);
    crate::text::law_replaced_by_one(f.path, '\\', '/');
}

/// Of source files whose paths are not UTF-8, each is unpacked, a file as a file and of anything
/// else the parents alone, and none with a mode.
pub proof fn law_raw_source_kinds(dest: Seq<char>, e: Seq<EntryText>, v: Seq<RawPlacement>, i: int)
    requires
        0 <= i < e.len(),
        are_raw_source_places(dest, e, v),
    ensures
        (exists|k: int| 0 <= k < v.len() && (#[trigger] v[k]).index == i) <==> e[i].path is None,
        forall|k: int|
            0 <= k < v.len() && (#[trigger] v[k]).index == i ==> v[k].mode is None && (v[k].kind
                == EntryKind::File <==> e[i].kind == EntryKind::File),
{
    let indices = Seq::new(v.len(), |k: int| v[k].index as int);
    assert(indices == entries_with(e, false));
    lemma_selected(e, i);
    assert(entries_with(e, false).contains(i) <==> e[i].path is None);
    if exists|k: int| 0 <= k < v.len() && (#[trigger] v[k]).index == i {
        let k = choose|k: int| 0 <= k < v.len() && (#[trigger] v[k]).index == i;
        assert(indices[k] == i);
        assert(indices.contains(i));
    }
    if e[i].path is None {
        let k = indices.index_of(i);
        assert(indices[k] == i);
        assert(v[k].index == i);
    }
    assert forall|k: int| 0 <= k < v.len() && (#[trigger] v[k]).index == i implies v[k].mode is None
        && (v[k].kind == EntryKind::File <==> e[i].kind == EntryKind::File) by {
        assert(is_raw_source_place(dest, e, v[k]));
    }
}

} // verus!
