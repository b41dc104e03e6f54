//! What a packaged executable does when it is started: it reads its metadata, unpacks its
//! archives into a cache on the first run, and starts the Erlang runtime.

use vstd::prelude::*;
use vstd::string::*;
use vstd::utf8::*;

use crate::archive::{
    are_right, file_entries, is_kept, unpacks_to, zstd_entries, FileText, Placement,
};
use crate::codec::{decode, decoded};
use crate::format::{
    Metadata, MetadataError, MetadataText, Trailer, TrailerError, TRAILER_SIZE,
};
use crate::order::{sort, sorted_form};
use crate::paths::{
    components, is_common, is_join, is_path, join, join2, join3, part_views, parts_by, path_parts,
    plain_base, plain_child, portable, Component, Part,
};
use crate::text::{same, starts_with, views};

verus! {

/// Why the metadata of an executable cannot be read.
#[derive(Debug, Clone, Copy, PartialEq, Eq, Structural)]
pub enum ReadError {
    TooSmall,
    OffsetPastEnd,
    Malformed,
    Invalid(MetadataError),
}

impl ReadError {
    /// The message for this error.
    pub open spec fn message(self) -> Seq<char> {
        match self {
            ReadError::TooSmall => "file too small to contain trailer"@,
            ReadError::OffsetPastEnd => "meta_offset past end of metadata region"@,
            ReadError::Malformed => "metadata cannot be decoded"@,
            ReadError::Invalid(e) => e.message(),
        }
    }

    pub fn to_string(&self) -> (r: String)
        ensures
            r@ == self.message(),
    {
        match self {
            ReadError::TooSmall => String::from_str("file too small to contain trailer"),
            ReadError::OffsetPastEnd => String::from_str(
                "meta_offset past end of metadata region",
            ),
            ReadError::Malformed => String::from_str("metadata cannot be decoded"),
            ReadError::Invalid(e) => e.to_string(),
        }
    }
}

/// Where the metadata of a file is: from the trailer's offset up to the trailer.
pub open spec fn window_of(file_len: nat, trailer: Trailer) -> Result<(nat, nat), ReadError> {
    if file_len < TRAILER_SIZE {
        Err(ReadError::TooSmall)
    } else if trailer.meta_offset > file_len - TRAILER_SIZE {
        Err(ReadError::OffsetPastEnd)
    } else {
        Ok((trailer.meta_offset as nat, (file_len - TRAILER_SIZE - trailer.meta_offset) as nat))
    }
}

/// Where the metadata of a file begins, and how long it is.
pub fn metadata_window(file_len: u64, trailer: &Trailer) -> (r: Result<(u64, u64), ReadError>)
    ensures
        match r {
            Ok((start, len)) => window_of(file_len as nat, *trailer) == Ok::<
                (nat, nat),
                ReadError,
            >((start as nat, len as nat)),
            Err(e) => window_of(file_len as nat, *trailer) == Err::<(nat, nat), ReadError>(e),
        },
{
    if file_len < TRAILER_SIZE as u64 {
        return Err(ReadError::TooSmall);
    }
    let meta_end: u64 = file_len - TRAILER_SIZE as u64;
    if trailer.meta_offset > meta_end {
        return Err(ReadError::OffsetPastEnd);
    }
    Ok((trailer.meta_offset, meta_end - trailer.meta_offset))
}

/// The metadata that bytes hold, where it is acceptable.
pub open spec fn accepted(bytes: Seq<u8>) -> Result<MetadataText, ReadError> {
    match decoded(bytes) {
        None => Err(ReadError::Malformed),
        Some(m) => match m.fault() {
            Some(e) => Err(ReadError::Invalid(e)),
            None => Ok(m),
        },
    }
}

/// Reads metadata and checks it.
pub fn accept_metadata(bytes: &[u8]) -> (r: Result<Metadata, ReadError>)
    ensures
        match r {
            Ok(m) => accepted(bytes@) == Ok::<MetadataText, ReadError>(m@),
            Err(e) => accepted(bytes@) == Err::<MetadataText, ReadError>(e),
        },
{
    let metadata = match decode(bytes) {
        Some(m) => m,
        None => {
            return Err(ReadError::Malformed);
        },
    };
    match metadata.validate() {
        Ok(_) => Ok(metadata),
        Err(e) => Err(ReadError::Invalid(e)),
    }
}

/// The metadata of an executable.
pub open spec fn metadata_of(data: Seq<u8>, trailer: Trailer) -> Result<MetadataText, ReadError> {
    match window_of(data.len(), trailer) {
        Err(e) => Err(e),
        Ok((start, len)) => accepted(data.subrange(start as int, (start + len) as int)),
    }
}

/// Reads the metadata of an executable and checks it.
pub fn read_metadata(data: &[u8], trailer: &Trailer) -> (r: Result<Metadata, ReadError>)
    ensures
        match r {
            Ok(m) => metadata_of(data@, *trailer) == Ok::<MetadataText, ReadError>(m@),
            Err(e) => metadata_of(data@, *trailer) == Err::<MetadataText, ReadError>(e),
        },
{
    match metadata_window(data.len() as u64, trailer) {
        Err(e) => Err(e),
        Ok((start, len)) => {
            let from: usize = start as usize;
            let to: usize = data.len() - TRAILER_SIZE;
            accept_metadata(&data[from..to])
        },
    }
}

/// Whatever was packed with acceptable metadata starts with that metadata: reading an assembled
/// executable gives back what was put in.
pub proof fn law_metadata_comes_back(
    launcher: Seq<u8>,
    erts: Seq<u8>,
    app: Seq<u8>,
    metadata: MetadataText,
)
    requires
        metadata.fault() is None,
        crate::codec::lengths_fit(metadata.texts()),
        crate::image::assembled(launcher, erts, app, metadata).len() <= u64::MAX,
    ensures
        crate::format::trailer_of(crate::image::assembled(launcher, erts, app, metadata)) is Ok,
        metadata_of(
            crate::image::assembled(launcher, erts, app, metadata),
            crate::format::trailer_of(crate::image::assembled(launcher, erts, app, metadata))->Ok_0,
        ) == Ok::<MetadataText, ReadError>(metadata),
{
    crate::image::law_assembled_metadata(launcher, erts, app, metadata);
}

/// The archives come back: the regions of an assembled executable hold the archives that were
/// put in, so that what can be read from them is what can be read from those.
pub proof fn law_archives_come_back(
    launcher: Seq<u8>,
    erts: Seq<u8>,
    app: Seq<u8>,
    metadata: MetadataText,
)
    requires
        erts.len() > 0,
        app.len() > 0,
        crate::codec::lengths_fit(metadata.texts()),
        crate::image::assembled(launcher, erts, app, metadata).len() <= u64::MAX,
    ensures
        ({
            let image = crate::image::assembled(launcher, erts, app, metadata);
            let trailer = crate::format::trailer_of(image)->Ok_0;
            &&& crate::format::trailer_of(image) is Ok
            &&& trailer.validity(image.len()) is Ok
            &&& zstd_entries(
                image.subrange(trailer.erts_offset as int, trailer.app_offset as int),
            ) == zstd_entries(erts)
            &&& zstd_entries(
                image.subrange(trailer.app_offset as int, trailer.meta_offset as int),
            ) == zstd_entries(app)
        }),
{
    crate::image::law_assembled_reads_back(launcher, erts, app, metadata);
}

/// The first run of an executable unpacks what was packed into it: where its archives hold the
/// given files, and archives keep them as they are, the placements of what is read from its
/// regions are those of the files.
pub proof fn law_first_run_unpacks(
    launcher: Seq<u8>,
    erts: Seq<u8>,
    app: Seq<u8>,
    metadata: MetadataText,
    erts_files: Seq<FileText>,
    app_files: Seq<FileText>,
    erts_dir: Seq<char>,
    app_dir: Seq<char>,
    erts_placements: Seq<Placement>,
    app_placements: Seq<Placement>,
)
    requires
        erts.len() > 0,
        app.len() > 0,
        crate::codec::lengths_fit(metadata.texts()),
        crate::image::assembled(launcher, erts, app, metadata).len() <= u64::MAX,
        forall|i: int| 0 <= i < erts_files.len() ==> is_kept(#[trigger] erts_files[i]),
        forall|i: int| 0 <= i < app_files.len() ==> is_kept(#[trigger] app_files[i]),
        zstd_entries(erts) == Some(file_entries(erts_files)),
        zstd_entries(app) == Some(file_entries(app_files)),
        plain_base(erts_dir),
        plain_base(app_dir),
        ({
            let image = crate::image::assembled(launcher, erts, app, metadata);
            let trailer = crate::format::trailer_of(image)->Ok_0;
            &&& are_right(
                erts_dir,
                zstd_entries(
                    image.subrange(trailer.erts_offset as int, trailer.app_offset as int),
                )->0,
                erts_placements,
            )
            &&& are_right(
                app_dir,
                zstd_entries(
                    image.subrange(trailer.app_offset as int, trailer.meta_offset as int),
                )->0,
                app_placements,
            )
        }),
    ensures
        unpacks_to(erts_dir, erts_files, erts_placements),
        unpacks_to(app_dir, app_files, app_placements),
{
    law_archives_come_back(launcher, erts, app, metadata);
    crate::archive::law_packed_unpacks(erts_files, erts_dir, erts_placements);
    crate::archive::law_packed_unpacks(app_files, app_dir, app_placements);
}

/// Where an archive is in the executable, and how long it is.
#[derive(Debug, Clone, Copy, PartialEq, Eq, Structural)]
pub struct Region {
    pub offset: u64,
    pub length: u64,
}

/// Where the runtime archive is.
pub fn erts_region(trailer: &Trailer) -> (r: Region)
    requires
        trailer.erts_offset <= trailer.app_offset,
    ensures
        r.offset == trailer.erts_offset,
        r.offset + r.length == trailer.app_offset,
{
    Region { offset: trailer.erts_offset, length: trailer.app_offset - trailer.erts_offset }
}

/// Where the application archive is.
pub fn app_region(trailer: &Trailer) -> (r: Region)
    requires
        trailer.app_offset <= trailer.meta_offset,
    ensures
        r.offset == trailer.app_offset,
        r.offset + r.length == trailer.meta_offset,
{
    Region { offset: trailer.app_offset, length: trailer.meta_offset - trailer.app_offset }
}

/// The start of a hash that names a cache directory: its first twelve bytes, or all of it where
/// it is shorter. There is none where that cuts a character in two.
pub open spec fn fingerprint_of(hash: Seq<char>) -> Option<Seq<char>> {
    let bytes = encode_utf8(hash);
    let n = if bytes.len() < 12 {
        bytes.len() as int
    } else {
        12
    };
    if is_char_boundary(bytes, n) {
        Some(decode_utf8(bytes.subrange(0, n)))
    } else {
        None
    }
}

/// The start of a hash that names a cache directory.
pub fn fingerprint(hash: &str) -> (r: Option<String>)
    ensures
        match r {
            Some(s) => fingerprint_of(hash@) == Some(s@),
            None => fingerprint_of(hash@) is None,
        },
{
    let len: usize = hash.as_bytes().len();
    let n: usize = if len < 12 {
        len
    } else {
        12
    };
    if !hash.is_char_boundary(n) {
        return None;
    }
    let (head, _tail) = hash.split_at(n);
    proof {
        encode_utf8_decode_utf8(head@);
    }
    Some(String::from_str(head))
}

/// A hash in ASCII, as hexadecimal digits are, has a fingerprint: its first twelve characters.
pub proof fn law_ascii_fingerprint(hash: Seq<char>)
    requires
        is_ascii_chars(hash),
    ensures
        fingerprint_of(hash) == Some(
            hash.take(
                if hash.len() < 12 {
                    hash.len() as int
                } else {
                    12
                },
            ),
        ),
{
    is_ascii_chars_encode_utf8(hash);
    let bytes = encode_utf8(hash);
    let n = if bytes.len() < 12 {
        bytes.len() as int
    } else {
        12
    };
    let head = hash.take(n);
    assert(is_ascii_chars(head)) by {
        assert forall|i: int| 0 <= i < head.len() implies (#[trigger] head[i]) as u32 <= 127 by {
            assert(head[i] == hash[i]);
        }
    }
    is_ascii_chars_encode_utf8(head);
    assert(bytes.subrange(0, n) =~= encode_utf8(head));
    encode_utf8_decode_utf8(head);
    assert(hash =~= head + hash.skip(n));
    crate::text::lemma_encoding_concat(head, hash.skip(n));
    encode_utf8_valid_utf8(hash);
    if n == bytes.len() {
        is_char_boundary_start_end_of_seq(bytes);
    } else {
        assert(bytes[n] as u32 <= 127);
        is_char_boundary_iff_not_is_continuation_byte(bytes, n);
        utf8_byte_ranges_bitwise(bytes[n]);
    }
}

/// The name of the directory that the application is unpacked to.
pub open spec fn app_dir_name(version: Seq<char>, fingerprint: Seq<char>) -> Seq<char> {
    version + "-"@ + fingerprint
}

/// Where the runtime and the application are unpacked, under the cache directory of the
/// application.
pub fn cache_paths(base_dir: &str, metadata: &Metadata) -> (r: (String, String))
    requires
        fingerprint_of(metadata.erts_hash@) is Some,
        fingerprint_of(metadata.app_hash@) is Some,
    ensures
        plain_base(base_dir@) && plain_child(fingerprint_of(metadata.erts_hash@)->0) ==> is_path(
            base_dir@,
            seq!["erts"@, fingerprint_of(metadata.erts_hash@)->0],
            r.0@,
        ),
        plain_base(base_dir@) && plain_child(
            app_dir_name(metadata.version@, fingerprint_of(metadata.app_hash@)->0),
        ) ==> is_path(
            base_dir@,
            seq![
                "app"@,
                app_dir_name(metadata.version@, fingerprint_of(metadata.app_hash@)->0),
            ],
            r.1@,
        ),
{
    proof {
        reveal_strlit("erts");
        reveal_strlit("app");
        assert("erts"@[0] == 'e' && "app"@[0] == 'a');
        assert(plain_child("erts"@) && plain_child("app"@));
    }
    let erts = match fingerprint(metadata.erts_hash.as_str()) {
        Some(s) => s,
        None => String::new(),
    };
    let app = match fingerprint(metadata.app_hash.as_str()) {
        Some(s) => s,
        None => String::new(),
    };
    let mut name = metadata.version.clone();
    name.append("-");
    name.append(app.as_str());
    (join2(base_dir, "erts", erts.as_str()), join2(base_dir, "app", name.as_str()))
}

/// Applications of different versions, or with different contents by their fingerprints, are
/// unpacked to different directories, where the fingerprints are equally long.
pub proof fn law_app_dirs_differ(
    version_a: Seq<char>,
    fingerprint_a: Seq<char>,
    version_b: Seq<char>,
    fingerprint_b: Seq<char>,
)
    requires
        fingerprint_a.len() == fingerprint_b.len(),
        app_dir_name(version_a, fingerprint_a) == app_dir_name(version_b, fingerprint_b),
    ensures
        version_a == version_b,
        fingerprint_a == fingerprint_b,
{
    let a = app_dir_name(version_a, fingerprint_a);
    let b = app_dir_name(version_b, fingerprint_b);
    assert(a.len() == version_a.len() + "-"@.len() + fingerprint_a.len());
    assert(b.len() == version_b.len() + "-"@.len() + fingerprint_b.len());
    assert(a.take(version_a.len() as int) =~= version_a);
    assert(b.take(version_b.len() as int) =~= version_b);
    let n = a.len() - fingerprint_a.len();
    assert(a.skip(n) =~= fingerprint_a);
    assert(b.skip(n) =~= fingerprint_b);
}

/// The start of the names of directories that are being unpacked to.
pub open spec fn tmp_prefix() -> Seq<char> {
    ".tmp-extract-"@
}

/// What a directory that is being unpacked to begins with.
pub fn extract_tmp_prefix() -> (r: &'static str)
    ensures
        r@ == tmp_prefix(),
{
    ".tmp-extract-"
}

/// Whether something in the cache is out of date: it is not what is in use, and nothing is being
/// unpacked to it.
pub open spec fn is_stale_name(name: Seq<char>, current: Seq<char>) -> bool {
    name != current && !tmp_prefix().is_prefix_of(name)
}

/// Decides [`is_stale_name`].
pub fn is_stale(name: &str, current: &str) -> (r: bool)
    ensures
        r == is_stale_name(name@, current@),
{
    !(same(name, current) || starts_with(name, extract_tmp_prefix()))
}

/// What is removed from the cache: what is out of date, in the order it was found.
pub open spec fn stale_names(names: Seq<Seq<char>>, current: Seq<char>) -> Seq<Seq<char>> {
    names.filter(|name: Seq<char>| is_stale_name(name, current))
}

/// Picks out what is removed from the cache.
pub fn stale_entries(names: &Vec<String>, current: &str) -> (r: Vec<String>)
    ensures
        views(r@) == stale_names(views(names@), current@),
{
    let ghost all = views(names@);
    let ghost stale = |name: Seq<char>| is_stale_name(name, current@);
    let mut out: Vec<String> = Vec::new();
    let mut i: usize = 0;
    proof {
        assert(all.take(0) =~= Seq::empty());
        assert(views(out@) =~= Seq::empty());
        reveal(Seq::filter);
        assert(all.take(0).filter(stale) =~= Seq::empty());
    }
    while i < names.len()
        invariant
            i <= names.len(),
            all == views(names@),
            stale == (|name: Seq<char>| is_stale_name(name, current@)),
            views(out@) == all.take(i as int).filter(stale),
        decreases names.len() - i,
    {
        let ghost before = views(out@);
        proof {
            assert(all.take(i + 1).drop_last() =~= all.take(i as int));
            assert(all.take(i + 1).last() == names@[i as int]@);
            reveal(Seq::filter);
        }
        if is_stale(names[i].as_str(), current) {
            out.push(names[i].clone());
            assert(views(out@) =~= before.push(names@[i as int]@));
        }
        i = i + 1;
    }
    assert(all.take(all.len() as int) =~= all);
    out
}

/// Cleaning the cache keeps what is in use and what is being unpacked to, and nothing else.
pub proof fn law_cleaning(names: Seq<Seq<char>>, current: Seq<char>, name: Seq<char>)
    requires
        names.contains(name),
    ensures
        stale_names(names, current).contains(name) <==> name != current
            && !tmp_prefix().is_prefix_of(name),
{
    broadcast use vstd::seq_lib::group_filter_ensures;

    let stale = |n: Seq<char>| is_stale_name(n, current);
    if stale(name) {
        let i = names.index_of(name);
        assert(names[i] == name);
        assert(names.filter(stale).contains(name));
    } else if names.filter(stale).contains(name) {
        let j = names.filter(stale).index_of(name);
        assert(stale(names.filter(stale)[j]));
    }
}

/// The name that the last of the components is, where it is one.
pub open spec fn last_name(parts: Seq<Part>) -> Option<Seq<char>> {
    if parts.len() == 0 {
        None
    } else {
        match parts.last() {
            Part::Normal(s) => Some(s),
            _ => None,
        }
    }
}

/// Whether a name is the text, where there is one.
pub open spec fn is_text(name: Option<String>, text: Option<Seq<char>>) -> bool {
    match name {
        Some(s) => text == Some(s@),
        None => text is None,
    }
}

/// The name of a directory in the cache, which is what is in use there. A path that ends in `..`
/// has none, and then nothing is removed.
pub fn current_name(dir: &str) -> (r: Option<String>)
    ensures
        portable(dir@) ==> match r {
            Some(s) => last_name(path_parts(dir@)) == Some(s@),
            None => last_name(path_parts(dir@)) is None,
        },
        is_common(dir@) ==> is_text(r, last_name(parts_by(dir@, false))) || is_text(
            r,
            last_name(parts_by(dir@, true)),
        ),
{
    let parts = components(dir);
    let n: usize = parts.len();
    if n == 0 {
        return None;
    }
    assert(part_views(parts@).last() == parts@[n - 1]@);
    match &parts[n - 1] {
        Component::Normal(s) => Some(s.clone()),
        _ => None,
    }
}

/// How moving an unpacked directory to its place came out.
#[derive(Debug, Clone, Copy, PartialEq, Eq, Structural)]
pub enum MoveOutcome {
    /// It is in its place.
    Moved,
    /// Something is there already.
    Occupied,
    /// It failed for another reason.
    Failed,
}

/// What is left to do after an unpacked directory was to be moved to its place.
#[derive(Debug, Clone, Copy, PartialEq, Eq, Structural)]
pub enum Finish {
    /// Nothing.
    Done,
    /// Remove the unpacked directory; another process was faster.
    Discard,
    /// Remove the unpacked directory and report the failed move.
    Report,
}

/// Decides what is left to do: where a directory is in the place already, it is used.
pub fn finish_extraction(outcome: MoveOutcome, place_is_dir: bool) -> (r: Finish)
    ensures
        r == (if outcome == MoveOutcome::Moved {
            Finish::Done
        } else if outcome == MoveOutcome::Occupied && place_is_dir {
            Finish::Discard
        } else {
            Finish::Report
        }),
{
    match outcome {
        MoveOutcome::Moved => Finish::Done,
        MoveOutcome::Occupied => if place_is_dir {
            Finish::Discard
        } else {
            Finish::Report
        },
        MoveOutcome::Failed => Finish::Report,
    }
}

/// Where the compiled modules of a library are.
pub fn ebin_path(app_dir: &str, name: &str) -> (r: String)
    ensures
        plain_base(app_dir@) && plain_child(name@) ==> is_path(
            app_dir@,
            seq!["lib"@, name@, "ebin"@],
            r@,
        ),
{
    proof {
        reveal_strlit("lib");
        reveal_strlit("ebin");
        assert("lib"@[0] == 'l' && "ebin"@[0] == 'e');
        assert(plain_child("lib"@) && plain_child("ebin"@));
    }
    join3(app_dir, "lib", name, "ebin")
}

/// Whether two arguments add a library: `-pa` and where its compiled modules are.
pub open spec fn adds_lib(
    app_dir: Seq<char>,
    name: Seq<char>,
    flag: Seq<char>,
    path: Seq<char>,
) -> bool {
    &&& flag == "-pa"@
    &&& plain_base(app_dir) && plain_child(name) ==> is_path(
        app_dir,
        seq!["lib"@, name, "ebin"@],
        path,
    )
}

/// Whether the arguments add the libraries in this order, two for each.
pub open spec fn adds_libs(
    app_dir: Seq<char>,
    names: Seq<Seq<char>>,
    args: Seq<Seq<char>>,
) -> bool {
    &&& args.len() == 2 * names.len()
    &&& forall|i: int|
        0 <= i < names.len() ==> adds_lib(
            app_dir,
            #[trigger] names[i],
            args[2 * i],
            args[2 * i + 1],
        )
}

/// Something found in the directory of an application's libraries: its name, whether it is a
/// directory, and whether it has one of compiled modules.
#[derive(Debug)]
pub struct LibProbe {
    pub name: String,
    pub is_dir: bool,
    pub has_ebin: bool,
}

/// Whether what was found is a library with compiled modules.
pub open spec fn is_lib(p: LibProbe) -> bool {
    p.is_dir && p.has_ebin
}

/// The names of the libraries with compiled modules, in the order they were found.
pub open spec fn lib_names(libs: Seq<LibProbe>) -> Seq<Seq<char>>
    decreases libs.len(),
{
    if libs.len() == 0 {
        Seq::empty()
    } else {
        let before = lib_names(libs.drop_last());
        if is_lib(libs.last()) {
            before.push(libs.last().name@)
        } else {
            before
        }
    }
}

fn names_of_libs(libs: &Vec<LibProbe>) -> (r: Vec<String>)
    ensures
        views(r@) == lib_names(libs@),
{
    let mut out: Vec<String> = Vec::new();
    let mut i: usize = 0;
    assert(libs@.take(0) =~= Seq::empty());
    assert(views(out@) =~= Seq::empty());
    while i < libs.len()
        invariant
            i <= libs.len(),
            views(out@) == lib_names(libs@.take(i as int)),
        decreases libs.len() - i,
    {
        let ghost before = views(out@);
        proof {
            assert(libs@.take(i + 1).drop_last() =~= libs@.take(i as int));
            assert(libs@.take(i + 1).last() == libs@[i as int]);
        }
        if libs[i].is_dir && libs[i].has_ebin {
            out.push(libs[i].name.clone());
            assert(views(out@) =~= before.push(libs@[i as int].name@));
        }
        i = i + 1;
    }
    assert(libs@.take(libs@.len() as int) =~= libs@);
    out
}

/// The arguments that add the libraries of an application, those that have compiled modules, in
/// the order of their names. What else was found is left out.
pub fn add_lib_paths(app_dir: &str, libs: &Vec<LibProbe>) -> (r: Vec<String>)
    ensures
        exists|sorted: Seq<Seq<char>>|
            sorted_form(lib_names(libs@), sorted) && #[trigger] adds_libs(
                app_dir@,
                sorted,
                views(r@),
            ),
{
    let names = names_of_libs(libs);
    let sorted = sort(&names);
    let ghost all = views(sorted@);
    let mut out: Vec<String> = Vec::new();
    let mut i: usize = 0;
    while i < sorted.len()
        invariant
            i <= sorted.len(),
            all == views(sorted@),
            out@.len() == 2 * i,
            forall|j: int|
                0 <= j < i ==> adds_lib(
                    app_dir@,
                    #[trigger] all[j],
                    out@[2 * j]@,
                    out@[2 * j + 1]@,
                ),
        decreases sorted.len() - i,
    {
        let path = ebin_path(app_dir, sorted[i].as_str());
        let ghost before = out@;
        out.push(String::from_str("-pa"));
        out.push(path);
        proof {
            assert(all[i as int] == sorted@[i as int]@);
            assert forall|j: int| 0 <= j < i + 1 implies adds_lib(
                app_dir@,
                #[trigger] all[j],
                out@[2 * j]@,
                out@[2 * j + 1]@,
            ) by {
                if j < i {
                    assert(out@[2 * j] == before[2 * j]);
                    assert(out@[2 * j + 1] == before[2 * j + 1]);
                }
            }
        }
        i = i + 1;
    }
    proof {
        let args = views(out@);
        assert(args.len() == 2 * all.len());
        assert forall|j: int| 0 <= j < all.len() implies adds_lib(
            app_dir@,
            #[trigger] all[j],
            args[2 * j],
            args[2 * j + 1],
        ) by {
            assert(args[2 * j] == out@[2 * j]@);
            assert(args[2 * j + 1] == out@[2 * j + 1]@);
        }
        assert(adds_libs(app_dir@, all, args));
    }
    out
}

/// How the runtime is started.
#[derive(Debug)]
pub struct BootCommand {
    pub program: String,
    pub args: Vec<String>,
    pub env: Vec<(String, String)>,
}

/// The name of the program that starts the runtime.
pub open spec fn erl_name(windows: bool) -> Seq<char> {
    if windows {
        "erl.exe"@
    } else {
        "erlexec"@
    }
}

/// The Erlang expression that calls the entry module.
pub open spec fn eval_text(entry_module: Seq<char>) -> Seq<char> {
    "'"@ + entry_module + "':main()"@
}

/// The arguments that the runtime is started with.
pub open spec fn boot_args(
    boot_file: Seq<char>,
    lib_args: Seq<Seq<char>>,
    entry_module: Seq<char>,
    extra_args: Seq<Seq<char>>,
) -> Seq<Seq<char>> {
    seq!["-boot"@, boot_file] + lib_args + seq![
        "-noshell"@,
        "-eval"@,
        eval_text(entry_module),
        "-s"@,
        "erlang"@,
        "halt"@,
    ] + if extra_args.len() == 0 {
        Seq::empty()
    } else {
        seq!["-extra"@] + extra_args
    }
}

/// Whether the runtime's directories are these: that of its programs and the program that
/// starts it, and the boot file.
pub open spec fn is_boot_place(
    erts_dir: Seq<char>,
    metadata: MetadataText,
    windows: bool,
    bin_dir: Seq<char>,
    program: Seq<char>,
    boot_file: Seq<char>,
) -> bool {
    let release = "erts-"@ + metadata.erts_version;
    &&& plain_base(erts_dir) && plain_child(release) ==> is_path(
        erts_dir,
        seq![release, "bin"@],
        bin_dir,
    ) && is_join(bin_dir, erl_name(windows), program)
    &&& plain_base(erts_dir) && plain_child(metadata.boot_path) ==> is_join(
        erts_dir,
        metadata.boot_path,
        boot_file,
    )
}

fn push_all(args: &mut Vec<String>, more: &Vec<String>)
    ensures
        views(final(args)@) == views(old(args)@) + views(more@),
{
    let ghost start = views(args@);
    let ghost all = views(more@);
    let mut i: usize = 0;
    assert(all.take(0) =~= Seq::empty());
    assert(views(args@) =~= start + all.take(0));
    while i < more.len()
        invariant
            i <= more.len(),
            all == views(more@),
            views(args@) == start + all.take(i as int),
        decreases more.len() - i,
    {
        let ghost before = views(args@);
        args.push(more[i].clone());
        proof {
            assert(views(args@) =~= before.push(all[i as int]));
            assert(all.take(i + 1) =~= all.take(i as int).push(all[i as int]));
            assert(views(args@) =~= start + all.take(i + 1));
        }
        i = i + 1;
    }
    assert(all.take(all.len() as int) =~= all);
}

fn push_text(args: &mut Vec<String>, text: &str)
    ensures
        views(final(args)@) == views(old(args)@).push(text@),
{
    let ghost before = views(args@);
    args.push(String::from_str(text));
    assert(views(args@) =~= before.push(text@));
}

/// How the runtime is started: on the boot file, with the libraries of the application, to call
/// the entry module and stop. What the user adds follows.
pub fn boot_erts(
    erts_dir: &str,
    metadata: &Metadata,
    lib_args: &Vec<String>,
    extra_args: &Vec<String>,
    windows: bool,
) -> (r: BootCommand)
    ensures
        exists|boot_file: Seq<char>|
            {
                &&& #[trigger] is_boot_place(
                    erts_dir@,
                    metadata@,
                    windows,
                    r.env@[1].1@,
                    r.program@,
                    boot_file,
                )
                &&& views(r.args@) == boot_args(
                    boot_file,
                    views(lib_args@),
                    metadata.entry_module@,
                    views(extra_args@),
                )
            },
        r.env@.len() == 4,
        r.env@[0].0@ == "ROOTDIR"@ && r.env@[0].1@ == erts_dir@,
        r.env@[1].0@ == "BINDIR"@,
        r.env@[2].0@ == "EMU"@ && r.env@[2].1@ == "beam"@,
        r.env@[3].0@ == "PROGNAME"@ && r.env@[3].1@ == "erl"@,
{
    let mut release = String::from_str("erts-");
    release.append(metadata.erts_version.as_str());
    let bin_dir = join2(erts_dir, release.as_str(), "bin");
    let name = if windows {
        "erl.exe"
    } else {
        "erlexec"
    };
    let program = join(bin_dir.as_str(), name);
    let boot_file = join(erts_dir, metadata.boot_path.as_str());
    let ghost boot = boot_file@;
    let ghost bin = bin_dir@;
    proof {
        reveal_strlit("bin");
        reveal_strlit("erl.exe");
        reveal_strlit("erlexec");
        assert("bin"@[0] == 'b' && "erl.exe"@[0] == 'e' && "erlexec"@[0] == 'e');
        assert(plain_child("bin"@));
        assert(plain_child(name@));
        if plain_base(erts_dir@) && plain_child(release@) {
            let parts = seq![release@, "bin"@];
            assert forall|i: int| 0 <= i < parts.len() implies plain_child(
                #[trigger] parts[i],
            ) by {}
            crate::paths::lemma_path_plain(erts_dir@, parts, bin_dir@);
        }
        assert(is_boot_place(erts_dir@, metadata@, windows, bin_dir@, program@, boot));
    }
    let mut eval = String::from_str("'");
    eval.append(metadata.entry_module.as_str());
    eval.append("':main()");
    let mut args: Vec<String> = Vec::new();
    assert(views(args@) =~= Seq::empty());
    push_text(&mut args, "-boot");
    push_text(&mut args, boot_file.as_str());
    assert(views(args@) =~= seq!["-boot"@, boot]);
    push_all(&mut args, lib_args);
    push_text(&mut args, "-noshell");
    push_text(&mut args, "-eval");
    push_text(&mut args, eval.as_str());
    push_text(&mut args, "-s");
    push_text(&mut args, "erlang");
    push_text(&mut args, "halt");
    if extra_args.len() > 0 {
        push_text(&mut args, "-extra");
        push_all(&mut args, extra_args);
    }
    assert(views(args@) =~= boot_args(
        boot,
        views(lib_args@),
        metadata.entry_module@,
        views(extra_args@),
    ));
    let mut env: Vec<(String, String)> = Vec::new();
    env.push((String::from_str("ROOTDIR"), String::from_str(erts_dir)));
    env.push((String::from_str("BINDIR"), bin_dir));
    env.push((String::from_str("EMU"), String::from_str("beam")));
    env.push((String::from_str("PROGNAME"), String::from_str("erl")));
    let r = BootCommand { program, args, env };
    proof {
        assert(r.env@[1].1@ == bin);
        assert(is_boot_place(erts_dir@, metadata@, windows, r.env@[1].1@, r.program@, boot));
        assert(views(r.args@) == boot_args(
            boot,
            views(lib_args@),
            metadata.entry_module@,
            views(extra_args@),
        ));
    }
    r
}

/// The expression that the runtime evaluates is one call, whatever acceptable metadata says: the
/// quotes around the module's name are the only ones.
pub proof fn law_eval_is_one_call(metadata: MetadataText)
    requires
        metadata.fault() is None,
    ensures
        forall|i: int|
            0 <= i < eval_text(metadata.entry_module).len() ==> ((#[trigger] eval_text(
                metadata.entry_module,
            )[i]) == '\'' <==> i == 0 || i == metadata.entry_module.len() + 1),
{
    reveal_strlit("'");
    reveal_strlit("':main()");
    let m = metadata.entry_module;
    let e = eval_text(m);
    assert forall|i: int| 0 <= i < e.len() implies ((#[trigger] e[i]) == '\'' <==> i == 0 || i
        == m.len() + 1) by {
        if 1 <= i <= m.len() {
            assert(e[i] == m[i - 1]);
            assert(crate::format::is_module_char(m[i - 1]));
        }
    }
}

/// What a started executable does, one after another.
#[derive(Debug, Clone, Copy, PartialEq, Eq, Structural)]
pub enum LaunchStep {
    UnpackErts(Region),
    UnpackApp(Region),
    CleanErts,
    CleanApp,
    Boot,
}

/// What is left to do when an executable is started: to unpack what is not in the cache, to
/// remove what is out of date, and to start the runtime.
pub open spec fn launch_text(
    trailer: Trailer,
    erts_present: bool,
    app_present: bool,
) -> Seq<LaunchStep> {
    (if erts_present {
        Seq::empty()
    } else {
        seq![
            LaunchStep::UnpackErts(
                Region {
                    offset: trailer.erts_offset,
                    length: (trailer.app_offset - trailer.erts_offset) as u64,
                },
            ),
        ]
    }) + (if app_present {
        Seq::empty()
    } else {
        seq![
            LaunchStep::UnpackApp(
                Region {
                    offset: trailer.app_offset,
                    length: (trailer.meta_offset - trailer.app_offset) as u64,
                },
            ),
        ]
    }) + seq![LaunchStep::CleanErts, LaunchStep::CleanApp, LaunchStep::Boot]
}

/// Why an executable is not started.
#[derive(Debug, Clone, Copy, PartialEq, Eq, Structural)]
pub enum LaunchError {
    Trailer(TrailerError),
    Metadata(MetadataError),
}

impl LaunchError {
    /// The message for this error.
    pub open spec fn message(self) -> Seq<char> {
        match self {
            LaunchError::Trailer(e) => e.message(),
            LaunchError::Metadata(e) => e.message(),
        }
    }

    pub fn to_string(&self) -> (r: String)
        ensures
            r@ == self.message(),
    {
        match self {
            LaunchError::Trailer(e) => e.to_string(),
            LaunchError::Metadata(e) => e.to_string(),
        }
    }
}

/// What an executable is to do when it is started, by its trailer and its metadata and by whether
/// runtime and application are in the cache. Where trailer or metadata are not acceptable there
/// is nothing to do: nothing is unpacked, removed or started.
pub fn run(
    trailer: &Trailer,
    file_len: u64,
    metadata: &Metadata,
    erts_present: bool,
    app_present: bool,
) -> (r: Result<Vec<LaunchStep>, LaunchError>)
    ensures
        match r {
            Ok(steps) => {
                &&& trailer.validity(file_len as nat) is Ok
                &&& metadata@.fault() is None
                &&& steps@ == launch_text(*trailer, erts_present, app_present)
            },
            Err(LaunchError::Trailer(e)) => trailer.validity(file_len as nat) == Err::<
                (),
                TrailerError,
            >(e),
            Err(LaunchError::Metadata(e)) => {
                &&& trailer.validity(file_len as nat) is Ok
                &&& metadata@.fault() == Some(e)
            },
        },
{
    match trailer.validate(file_len) {
        Ok(_) => {},
        Err(e) => {
            return Err(LaunchError::Trailer(e));
        },
    }
    match metadata.validate() {
        Ok(_) => {},
        Err(e) => {
            return Err(LaunchError::Metadata(e));
        },
    }
    let mut steps: Vec<LaunchStep> = Vec::new();
    if !erts_present {
        steps.push(LaunchStep::UnpackErts(erts_region(trailer)));
    }
    if !app_present {
        steps.push(LaunchStep::UnpackApp(app_region(trailer)));
    }
    steps.push(LaunchStep::CleanErts);
    steps.push(LaunchStep::CleanApp);
    steps.push(LaunchStep::Boot);
    assert(steps@ =~= launch_text(*trailer, erts_present, app_present));
    Ok(steps)
}

/// Later runs reuse the cache: where runtime and application are in it, nothing is unpacked.
pub proof fn law_cache_is_reused(trailer: Trailer)
    ensures
        forall|i: int|
            0 <= i < launch_text(trailer, true, true).len() ==> !((#[trigger] launch_text(
                trailer,
                true,
                true,
            )[i]) is UnpackErts) && !(launch_text(trailer, true, true)[i] is UnpackApp),
{
}

/// What the user adds reaches the application: it stands at the end, in its order, after `-extra`,
/// however much it is; where there is nothing, nothing follows what ends the call. Before it stand
/// the boot file, the libraries as they were given, and the call of the entry module.
pub proof fn law_arguments_reach_the_application(
    boot_file: Seq<char>,
    lib_args: Seq<Seq<char>>,
    entry_module: Seq<char>,
    extra_args: Seq<Seq<char>>,
)
    ensures
        ({
            let args = boot_args(boot_file, lib_args, entry_module, extra_args);
            let n = lib_args.len() as int;
            let m = extra_args.len() as int;
            &&& args.len() == 8 + n + (if m == 0 {
                0
            } else {
                m + 1
            })
            &&& m > 0 ==> args.skip(args.len() - m) == extra_args && args[args.len() - m - 1]
                == "-extra"@
            &&& m == 0 ==> args.last() == "halt"@ && !args.skip(2 + n).contains("-extra"@)
            &&& args[0] == "-boot"@
            &&& args[1] == boot_file
            &&& args.subrange(2, 2 + n) == lib_args
            &&& args[2 + n] == "-noshell"@
            &&& args[3 + n] == "-eval"@
            &&& args[4 + n] == eval_text(entry_module)
            &&& args[5 + n] == "-s"@
            &&& args[6 + n] == "erlang"@
            &&& args[7 + n] == "halt"@
        }),
{
    let args = boot_args(boot_file, lib_args, entry_module, extra_args);
    let n = lib_args.len() as int;
    let m = extra_args.len() as int;
    assert(args.subrange(2, 2 + n) =~= lib_args);
    if m > 0 {
        assert(args.skip(args.len() - m) =~= extra_args);
    } else {
        reveal_strlit("-noshell");
        reveal_strlit("-eval");
        reveal_strlit("-extra");
        reveal_strlit("-s");
        reveal_strlit("erlang");
        reveal_strlit("halt");
        reveal_strlit("'");
        let tail = args.skip(2 + n);
        assert(tail.len() == 6);
        let call = eval_text(entry_module);
        assert("-extra"@[0] == '-' && "-extra"@[2] == 'x' && "-extra"@.len() == 6);
        assert(call[0] == '\'');
        assert("-noshell"@.len() == 8 && "-eval"@.len() == 5 && "-s"@.len() == 2);
        assert("erlang"@[0] == 'e' && "halt"@.len() == 4);
        assert forall|i: int| 0 <= i < 6 implies tail[i] != "-extra"@ by {
            assert(tail[i] == args[2 + n + i]);
        }
    }
}

/// What is called is `main` of the entry module, in quotes.
pub proof fn law_main_is_called(entry_module: Seq<char>)
    ensures
        eval_text(entry_module) == seq!['\''] + entry_module + seq![
            '\'',
            ':',
            'm',
            'a',
            'i',
            'n',
            '(',
            ')',
        ],
{
    reveal_strlit("'");
    reveal_strlit("':main()");
    assert("'"@ =~= seq!['\'']);
    assert("':main()"@ =~= seq!['\'', ':', 'm', 'a', 'i', 'n', '(', ')']);
}

/// The command that starts the runtime, whatever is given: what the user adds is at the end of its
/// arguments, after `-extra`, and the libraries are in their order after the boot file.
pub proof fn law_boot_command(
    erts_dir: &str,
    metadata: &Metadata,
    lib_args: &Vec<String>,
    extra_args: &Vec<String>,
    windows: bool,
    command: BootCommand,
)
    requires
        call_ensures(boot_erts, (erts_dir, metadata, lib_args, extra_args, windows), command),
    ensures
        ({
            let args = views(command.args@);
            let n = lib_args@.len() as int;
            let m = extra_args@.len() as int;
            &&& m > 0 ==> args.len() == n + m + 9 && args.skip(n + 9) == views(extra_args@)
                && args[n + 8] == "-extra"@
            &&& m == 0 ==> args.len() == n + 8
            &&& args.subrange(2, 2 + n) == views(lib_args@)
            &&& args[4 + n] == eval_text(metadata@.entry_module)
        }),
{
    let boot_file = choose|boot_file: Seq<char>|
        {
            &&& #[trigger] is_boot_place(
                erts_dir@,
                metadata@,
                windows,
                command.env@[1].1@,
                command.program@,
                boot_file,
            )
            &&& views(command.args@) == boot_args(
                boot_file,
                views(lib_args@),
                metadata.entry_module@,
                views(extra_args@),
            )
        };
    law_arguments_reach_the_application(
        boot_file,
        views(lib_args@),
        metadata.entry_module@,
        views(extra_args@),
    );
}

/// Where the metadata is: it begins where the trailer says and ends where the trailer begins, so
/// that the two make up the end of the file. There is none just where the file is too small for a
/// trailer, or the metadata would begin in the trailer or after it.
pub proof fn law_metadata_window(file_len: nat, trailer: Trailer)
    ensures
        match window_of(file_len, trailer) {
            Ok((start, len)) => start == trailer.meta_offset && start + len + 32 == file_len,
            Err(ReadError::TooSmall) => file_len < 32,
            Err(ReadError::OffsetPastEnd) => file_len >= 32 && trailer.meta_offset + 32 > file_len,
            Err(_) => false,
        },
{
}

/// Metadata is accepted just where it can be read and nothing is wrong with it, and then as it
/// was read.
pub proof fn law_accepted_metadata(bytes: Seq<u8>, m: MetadataText)
    ensures
        accepted(bytes) == Ok::<MetadataText, ReadError>(m) <==> decoded(bytes) == Some(m)
            && m.fault() is None,
        accepted(bytes) == Err::<MetadataText, ReadError>(ReadError::Malformed) <==> decoded(bytes)
            is None,
        decoded(bytes) == Some(m) && m.fault() is Some ==> accepted(bytes) == Err::<
            MetadataText,
            ReadError,
        >(ReadError::Invalid(m.fault()->0)),
{
}

/// The directory of an application is its version and the fingerprint, with a hyphen between.
pub proof fn law_app_dir_parts(version: Seq<char>, fingerprint: Seq<char>)
    ensures
        app_dir_name(version, fingerprint) == version.push('-') + fingerprint,
{
    reveal_strlit("-");
    assert(app_dir_name(version, fingerprint) =~= version.push('-') + fingerprint);
}

/// Something in the cache is removed just where it is another than what is in use and its name
/// does not begin as those of directories that are being unpacked to do; cleaning twice removes
/// nothing more, and the order in which things are found is kept.
pub proof fn law_stale_names(names: Seq<Seq<char>>, more: Seq<Seq<char>>, current: Seq<char>)
    ensures
        stale_names(names + more, current) == stale_names(names, current) + stale_names(
            more,
            current,
        ),
        stale_names(stale_names(names, current), current) == stale_names(names, current),
        stale_names(seq![current], current).len() == 0,
        forall|rest: Seq<char>| !#[trigger] is_stale_name(tmp_prefix() + rest, current),
{
    let stale = |name: Seq<char>| is_stale_name(name, current);
    lemma_filter_add(names, more, stale);
    lemma_filter_twice(names, stale);
    let one = seq![current];
    reveal(Seq::filter);
    assert(one.drop_last() =~= Seq::empty());
    assert(one.drop_last().filter(stale) =~= Seq::empty());
    assert(one.last() == current);
    assert(one.filter(stale) =~= Seq::empty());
    assert forall|rest: Seq<char>| !#[trigger] is_stale_name(tmp_prefix() + rest, current) by {
        let name = tmp_prefix() + rest;
        assert(name.take(tmp_prefix().len() as int) =~= tmp_prefix());
    }
}

proof fn lemma_filter_add(
    a: Seq<Seq<char>>,
    b: Seq<Seq<char>>,
    keep: spec_fn(Seq<char>) -> bool,
)
    ensures
        (a + b).filter(keep) == a.filter(keep) + b.filter(keep),
    decreases b.len(),
{
    reveal(Seq::filter);
    if b.len() == 0 {
        assert(a + b =~= a);
        assert(a.filter(keep) + b.filter(keep) =~= a.filter(keep));
    } else {
        lemma_filter_add(a, b.drop_last(), keep);
        assert((a + b).drop_last() =~= a + b.drop_last());
        assert((a + b).last() == b.last());
        assert((a + b).filter(keep) =~= a.filter(keep) + b.filter(keep));
    }
}

proof fn lemma_filter_twice(a: Seq<Seq<char>>, keep: spec_fn(Seq<char>) -> bool)
    ensures
        a.filter(keep).filter(keep) == a.filter(keep),
    decreases a.len(),
{
    reveal(Seq::filter);
    if a.len() > 0 {
        lemma_filter_twice(a.drop_last(), keep);
        let before = a.drop_last().filter(keep);
        if keep(a.last()) {
            assert(before.push(a.last()).drop_last() =~= before);
        }
    } else {
        assert(a.filter(keep) =~= a);
    }
}

/// The libraries are those directories that have one of compiled modules: each that was found is
/// among them just where it is a directory with such, and they are in the order they were found.
pub proof fn law_libraries(libs: Seq<LibProbe>, more: LibProbe)
    ensures
        lib_names(libs.push(more)) == (if more.is_dir && more.has_ebin {
            lib_names(libs).push(more.name@)
        } else {
            lib_names(libs)
        }),
        lib_names(Seq::empty()).len() == 0,
        forall|i: int|
            0 <= i < libs.len() && (#[trigger] libs[i]).is_dir && libs[i].has_ebin ==> lib_names(
                libs,
            ).contains(libs[i].name@),
        lib_names(libs).len() <= libs.len(),
    decreases libs.len(),
{
    assert(libs.push(more).drop_last() =~= libs);
    if libs.len() > 0 {
        let before = libs.drop_last();
        law_libraries(before, libs.last());
        let all = lib_names(libs);
        assert forall|i: int|
            0 <= i < libs.len() && (#[trigger] libs[i]).is_dir && libs[i].has_ebin implies all.contains(
            libs[i].name@,
        ) by {
            if i < before.len() {
                assert(before[i] == libs[i]);
                let k = lib_names(before).index_of(libs[i].name@);
                assert(all[k] == libs[i].name@);
            } else {
                assert(all[all.len() - 1] == libs[i].name@);
            }
        }
    }
}

/// What is done when an executable is started: what is missing from the cache is unpacked, from
/// where the trailer says it begins up to what follows it, and what is there is not; then what is
/// out of date is removed and the runtime is started, whatever was in the cache.
pub proof fn law_launch_steps(trailer: Trailer, erts_present: bool, app_present: bool)
    requires
        trailer.erts_offset <= trailer.app_offset <= trailer.meta_offset,
    ensures
        ({
            let steps = launch_text(trailer, erts_present, app_present);
            let n = steps.len() as int;
            &&& n >= 3
            &&& steps[n - 3] == LaunchStep::CleanErts
            &&& steps[n - 2] == LaunchStep::CleanApp
            &&& steps[n - 1] == LaunchStep::Boot
            &&& forall|i: int|
                0 <= i < n - 3 ==> match #[trigger] steps[i] {
                    LaunchStep::UnpackErts(r) => !erts_present && i == 0 && r.offset
                        == trailer.erts_offset && r.offset + r.length == trailer.app_offset,
                    LaunchStep::UnpackApp(r) => !app_present && i == n - 4 && r.offset
                        == trailer.app_offset && r.offset + r.length == trailer.meta_offset,
                    _ => false,
                }
            &&& n == 3 <==> erts_present && app_present
            &&& n == 5 <==> !erts_present && !app_present
        }),
{
}

/// The program that starts the runtime has a suffix on Windows alone.
pub proof fn law_starting_program(windows: bool)
    ensures
        windows ==> erl_name(windows) == "erl.exe"@,
        !windows ==> erl_name(windows) == "erlexec"@,
{
}

/// An unpacked directory that was moved is in use; one that could not be moved is dropped, and
/// the failure is reported unless a directory was in its place already.
pub proof fn law_finished_extraction(outcome: MoveOutcome, place_is_dir: bool, r: Finish)
    requires
        call_ensures(finish_extraction, (outcome, place_is_dir), r),
    ensures
        r == Finish::Done <==> outcome == MoveOutcome::Moved,
        r == Finish::Discard <==> outcome == MoveOutcome::Occupied && place_is_dir,
{
}

/// A fingerprint is how the hash begins: its first twelve bytes, or all of it where it is shorter.
pub proof fn law_fingerprint_begins(hash: Seq<char>)
    ensures
        fingerprint_of(hash) matches Some(f) ==> {
            &&& f.is_prefix_of(hash)
            &&& encode_utf8(f).len() == (if encode_utf8(hash).len() < 12 {
                encode_utf8(hash).len()
            } else {
                12
            })
        },
        encode_utf8(hash).len() <= 12 ==> fingerprint_of(hash) == Some(hash),
{
    let bytes = encode_utf8(hash);
    encode_utf8_valid_utf8(hash);
    encode_utf8_decode_utf8(hash);
    is_char_boundary_start_end_of_seq(bytes);
    let n = if bytes.len() < 12 {
        bytes.len() as int
    } else {
        12
    };
    if fingerprint_of(hash) is Some {
        let head = bytes.subrange(0, n);
        let tail = bytes.subrange(n, bytes.len() as int);
        valid_utf8_split(bytes, n);
        decode_utf8_split(bytes, n);
        decode_utf8_encode_utf8(head);
        let f = decode_utf8(head);
        assert(hash.take(f.len() as int) =~= f);
    }
    if bytes.len() <= 12 {
        assert(bytes.subrange(0, n) =~= bytes);
    }
}


/// Each library takes two arguments, the first of which is always the same and the second the
/// directory of its compiled modules, and the libraries come in ascending order of their names.
pub proof fn law_library_arguments(app_dir: &str, libs: &Vec<LibProbe>, r: Vec<String>)
    requires
        call_ensures(add_lib_paths, (app_dir, libs), r),
    ensures
        r@.len() == 2 * lib_names(libs@).len(),
        forall|k: int| 0 <= k < r@.len() && k % 2 == 0 ==> (#[trigger] r@[k])@ == seq!['-', 'p', 'a'],
        exists|sorted: Seq<Seq<char>>|
            {
                &&& #[trigger] sorted_form(lib_names(libs@), sorted)
                &&& forall|i: int|
                    0 <= i < sorted.len() && plain_base(app_dir@) && plain_child(
                        #[trigger] sorted[i],
                    ) ==> is_path(app_dir@, seq!["lib"@, sorted[i], "ebin"@], r@[2 * i + 1]@)
            },
{
    reveal_strlit("-pa");
    assert("-pa"@ =~= seq!['-', 'p', 'a']);
    let args = views(r@);
    let sorted = choose|sorted: Seq<Seq<char>>|
        sorted_form(lib_names(libs@), sorted) && #[trigger] adds_libs(app_dir@, sorted, args);
    crate::order::lemma_sorted_form(lib_names(libs@), sorted);
    assert(args.len() == r@.len());
    assert forall|k: int| 0 <= k < r@.len() && k % 2 == 0 implies (#[trigger] r@[k])@ == seq![
        '-',
        'p',
        'a',
    ] by {
        let i = k / 2;
        assert(adds_lib(app_dir@, sorted[i], args[2 * i], args[2 * i + 1]));
        assert(args[k] == r@[k]@);
    }
    assert forall|i: int|
        0 <= i < sorted.len() && plain_base(app_dir@) && plain_child(#[trigger] sorted[i]) implies is_path(
        app_dir@,
        seq!["lib"@, sorted[i], "ebin"@],
        r@[2 * i + 1]@,
    ) by {
        assert(adds_lib(app_dir@, sorted[i], args[2 * i], args[2 * i + 1]));
        assert(args[2 * i + 1] == r@[2 * i + 1]@);
    }
}

/// Where the runtime is started from, whatever it is started for: with its own root, its own
/// directory of programs and the program in it, and from the boot file under its root.
pub proof fn law_boot_places(
    erts_dir: &str,
    metadata: &Metadata,
    lib_args: &Vec<String>,
    extra_args: &Vec<String>,
    windows: bool,
    command: BootCommand,
)
    requires
        call_ensures(boot_erts, (erts_dir, metadata, lib_args, extra_args, windows), command),
    ensures
        command.env@[0].0@ == "ROOTDIR"@ && command.env@[0].1@ == erts_dir@,
        command.env@[1].0@ == "BINDIR"@,
        command.env@[2].0@ == "EMU"@ && command.env@[2].1@ == "beam"@,
        command.env@[3].0@ == "PROGNAME"@ && command.env@[3].1@ == "erl"@,
        plain_base(erts_dir@) && plain_child("erts-"@ + metadata.erts_version@) ==> is_path(
            erts_dir@,
            seq!["erts-"@ + metadata.erts_version@, "bin"@],
            command.env@[1].1@,
        ) && (windows ==> is_join(command.env@[1].1@, "erl.exe"@, command.program@)) && (!windows
            ==> is_join(command.env@[1].1@, "erlexec"@, command.program@)),
        plain_base(erts_dir@) && plain_child(metadata.boot_path@) ==> is_join(
            erts_dir@,
            metadata.boot_path@,
            command.args@[1]@,
        ),
        command.args@[0]@ == "-boot"@,
{
    let boot_file = choose|boot_file: Seq<char>|
        {
            &&& #[trigger] is_boot_place(
                erts_dir@,
                metadata@,
                windows,
                command.env@[1].1@,
                command.program@,
                boot_file,
            )
            &&& views(command.args@) == boot_args(
                boot_file,
                views(lib_args@),
                metadata.entry_module@,
                views(extra_args@),
            )
        };
    let args = views(command.args@);
    assert(args.len() >= 2);
    assert(args[0] == command.args@[0]@ && args[1] == command.args@[1]@);
    assert(args[1] == boot_file);
}

/// Runtime and application are kept apart, the runtime by its hash alone and the application by
/// its version and its hash.
pub proof fn law_cache_places(
    base: &str,
    a: &Metadata,
    b: &Metadata,
    pa: (String, String),
    pb: (String, String),
)
    requires
        fingerprint_of(a.erts_hash@) is Some,
        fingerprint_of(a.app_hash@) is Some,
        b.erts_hash@ == a.erts_hash@,
        fingerprint_of(b.app_hash@) is Some,
        plain_base(base@),
        plain_child(fingerprint_of(a.erts_hash@)->0),
        plain_child(app_dir_name(a.version@, fingerprint_of(a.app_hash@)->0)),
        call_ensures(cache_paths, (base, a), pa),
        call_ensures(cache_paths, (base, b), pb),
    ensures
        is_path(base@, seq!["erts"@, fingerprint_of(a.erts_hash@)->0], pa.0@),
        is_path(base@, seq!["erts"@, fingerprint_of(a.erts_hash@)->0], pb.0@),
        is_path(
            base@,
            seq!["app"@, a.version@ + "-"@ + fingerprint_of(a.app_hash@)->0],
            pa.1@,
        ),
{
}


/// The name of a directory is the last component of its path, whatever comes before it, and there
/// is none where the last component is no name.
pub proof fn law_last_name(before: Seq<Part>, last: Part)
    ensures
        last_name(before.push(last)) == (match last {
            Part::Normal(s) => Some(s),
            _ => None,
        }),
        last_name(Seq::empty()) is None,
{
}

} // verus!
