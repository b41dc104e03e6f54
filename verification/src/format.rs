//! The layout of a packaged executable: launcher, runtime archive, application archive,
//! metadata and a trailer that says where each begins.

use vstd::prelude::*;
use vstd::string::*;
use vstd::utf8::*;

use crate::bytes::{le_bytes, le_value, read_u64_le, write_u64_le};
use crate::text::{has_char, pieces, same, split, to_chars, views};

verus! {

/// The bytes that end a packaged executable.
pub const TRAILER_MAGIC: [u8; 8] = [0x51, 0x55, 0x45, 0x53, 0x4F, 0x00, 0x01, 0x02];

/// The length of the trailer: three offsets and the magic bytes.
pub const TRAILER_SIZE: usize = 32;

/// Where the parts of a packaged executable begin.
#[derive(Debug, Clone, Copy, PartialEq, Eq, Structural)]
pub struct Trailer {
    pub erts_offset: u64,
    pub app_offset: u64,
    pub meta_offset: u64,
}

/// Why bytes do not end in a usable trailer.
#[derive(Debug, Clone, Copy, PartialEq, Eq, Structural)]
pub enum TrailerError {
    TooSmall,
    MissingMagic,
    BinaryTooSmall,
    ErtsNotBeforeApp,
    AppNotBeforeMeta,
    MetaOverflow,
    MetaPastEnd,
}

impl TrailerError {
    /// The message for this error.
    pub open spec fn message(self) -> Seq<char> {
        match self {
            TrailerError::TooSmall => "file too small to contain trailer"@,
            TrailerError::MissingMagic => "invalid binary: missing queso magic trailer"@,
            TrailerError::BinaryTooSmall => "binary too small to contain trailer"@,
            TrailerError::ErtsNotBeforeApp => "trailer: erts_offset must be less than app_offset"@,
            TrailerError::AppNotBeforeMeta => "trailer: app_offset must be less than meta_offset"@,
            TrailerError::MetaOverflow => "trailer: meta_offset + trailer size overflows"@,
            TrailerError::MetaPastEnd => "trailer: metadata extends past end of file"@,
        }
    }

    pub fn to_string(&self) -> (r: String)
        ensures
            r@ == self.message(),
    {
        let text = match self {
            TrailerError::TooSmall => "file too small to contain trailer",
            TrailerError::MissingMagic => "invalid binary: missing queso magic trailer",
            TrailerError::BinaryTooSmall => "binary too small to contain trailer",
            TrailerError::ErtsNotBeforeApp => "trailer: erts_offset must be less than app_offset",
            TrailerError::AppNotBeforeMeta => "trailer: app_offset must be less than meta_offset",
            TrailerError::MetaOverflow => "trailer: meta_offset + trailer size overflows",
            TrailerError::MetaPastEnd => "trailer: metadata extends past end of file",
        };
        String::from_str(text)
    }
}

/// The trailer that data ends in, or why there is none.
pub open spec fn trailer_of(data: Seq<u8>) -> Result<Trailer, TrailerError> {
    let at = data.len() - TRAILER_SIZE;
    if at < 0 {
        Err(TrailerError::TooSmall)
    } else if data.subrange(at + 24, at + 32) != TRAILER_MAGIC@ {
        Err(TrailerError::MissingMagic)
    } else {
        Ok(
            Trailer {
                erts_offset: le_value(data.subrange(at, at + 8)) as u64,
                app_offset: le_value(data.subrange(at + 8, at + 16)) as u64,
                meta_offset: le_value(data.subrange(at + 16, at + 24)) as u64,
            },
        )
    }
}

impl Trailer {
    /// The bytes of the trailer.
    pub open spec fn encoded(self) -> Seq<u8> {
        le_bytes(self.erts_offset as nat, 8) + le_bytes(self.app_offset as nat, 8) + le_bytes(
            self.meta_offset as nat,
            8,
        ) + TRAILER_MAGIC@
    }

    /// What is wrong with the offsets in a file of the given length, the first thing first.
    pub open spec fn validity(self, file_len: nat) -> Result<(), TrailerError> {
        if file_len < TRAILER_SIZE {
            Err(TrailerError::BinaryTooSmall)
        } else if self.erts_offset >= self.app_offset {
            Err(TrailerError::ErtsNotBeforeApp)
        } else if self.app_offset >= self.meta_offset {
            Err(TrailerError::AppNotBeforeMeta)
        } else if self.meta_offset + TRAILER_SIZE > u64::MAX {
            Err(TrailerError::MetaOverflow)
        } else if self.meta_offset + TRAILER_SIZE > file_len {
            Err(TrailerError::MetaPastEnd)
        } else {
            Ok(())
        }
    }

    /// Appends the trailer to `out`.
    pub fn write(&self, out: &mut Vec<u8>)
        ensures
            final(out)@ == old(out)@ + self.encoded(),
    {
        let ghost start = out@;
        write_u64_le(out, self.erts_offset);
        write_u64_le(out, self.app_offset);
        write_u64_le(out, self.meta_offset);
        let magic = TRAILER_MAGIC;
        out.extend_from_slice(&magic);
        assert(out@ =~= start + self.encoded());
    }

    /// Reads the trailer at the end of `data`.
    pub fn read(data: &[u8]) -> (r: Result<Trailer, TrailerError>)
        ensures
            r == trailer_of(data@),
    {
        if data.len() < TRAILER_SIZE {
            return Err(TrailerError::TooSmall);
        }
        let at: usize = data.len() - TRAILER_SIZE;
        let erts_offset: u64 = read_u64_le(&data[at..at + 8]);
        let app_offset: u64 = read_u64_le(&data[at + 8..at + 16]);
        let meta_offset: u64 = read_u64_le(&data[at + 16..at + 24]);
        let magic = TRAILER_MAGIC;
        let mut i: usize = 0;
        while i < 8
            invariant
                i <= 8,
                at + 32 == data.len(),
                magic@ == TRAILER_MAGIC@,
                forall|j: int| 0 <= j < i ==> data@[at + 24 + j] == magic@[j],
            decreases 8 - i,
        {
            if data[at + 24 + i] != magic[i] {
                assert(data@.subrange(at + 24, at + 32)[i as int] != TRAILER_MAGIC@[i as int]);
                return Err(TrailerError::MissingMagic);
            }
            i = i + 1;
        }
        proof {
            assert(data@.subrange(at + 24, at + 32) =~= TRAILER_MAGIC@);
            assert(data@.subrange(at as int, at + 8).subrange(0, 8) =~= data@.subrange(
                at as int,
                at + 8,
            ));
            assert(data@.subrange(at + 8, at + 16).subrange(0, 8) =~= data@.subrange(
                at + 8,
                at + 16,
            ));
            assert(data@.subrange(at + 16, at + 24).subrange(0, 8) =~= data@.subrange(
                at + 16,
                at + 24,
            ));
        }
        Ok(Trailer { erts_offset, app_offset, meta_offset })
    }

    /// Checks the offsets against the length of the file.
    pub fn validate(&self, file_len: u64) -> (r: Result<(), TrailerError>)
        ensures
            r == self.validity(file_len as nat),
    {
        let trailer_size: u64 = TRAILER_SIZE as u64;
        if file_len < trailer_size {
            return Err(TrailerError::BinaryTooSmall);
        }
        if self.erts_offset >= self.app_offset {
            return Err(TrailerError::ErtsNotBeforeApp);
        }
        if self.app_offset >= self.meta_offset {
            return Err(TrailerError::AppNotBeforeMeta);
        }
        match self.meta_offset.checked_add(trailer_size) {
            None => Err(TrailerError::MetaOverflow),
            Some(meta_end) => {
                if meta_end > file_len {
                    Err(TrailerError::MetaPastEnd)
                } else {
                    Ok(())
                }
            },
        }
    }
}

/// A trailer is read back from what was written, whatever stands before it.
pub proof fn law_trailer_round_trip(before: Seq<u8>, trailer: Trailer)
    ensures
        trailer.encoded().len() == TRAILER_SIZE,
        trailer_of(before + trailer.encoded()) == Ok::<Trailer, TrailerError>(trailer),
{
    let data = before + trailer.encoded();
    let a = le_bytes(trailer.erts_offset as nat, 8);
    let b = le_bytes(trailer.app_offset as nat, 8);
    let c = le_bytes(trailer.meta_offset as nat, 8);
    crate::bytes::lemma_eight_bytes(trailer.erts_offset);
    crate::bytes::lemma_eight_bytes(trailer.app_offset);
    crate::bytes::lemma_eight_bytes(trailer.meta_offset);
    let at = data.len() - TRAILER_SIZE;
    assert(data.subrange(at, at + 8) =~= a);
    assert(data.subrange(at + 8, at + 16) =~= b);
    assert(data.subrange(at + 16, at + 24) =~= c);
    assert(data.subrange(at + 24, at + 32) =~= TRAILER_MAGIC@);
}

/// Only the last [`TRAILER_SIZE`] bytes matter to what trailer is read.
pub proof fn law_trailer_local(before: Seq<u8>, tail: Seq<u8>)
    requires
        tail.len() == TRAILER_SIZE,
    ensures
        trailer_of(before + tail) == trailer_of(tail),
{
    let data = before + tail;
    let at = data.len() - TRAILER_SIZE;
    assert(data.subrange(at, at + 8) =~= tail.subrange(0, 8));
    assert(data.subrange(at + 8, at + 16) =~= tail.subrange(8, 16));
    assert(data.subrange(at + 16, at + 24) =~= tail.subrange(16, 24));
    assert(data.subrange(at + 24, at + 32) =~= tail.subrange(24, 32));
}

/// A valid trailer cuts the file into non-empty runtime and application regions that follow one
/// another, and a metadata region that ends before the trailer.
pub proof fn law_valid_regions(trailer: Trailer, file_len: nat)
    ensures
        trailer.validity(file_len) is Ok <==> {
            &&& trailer.erts_offset < trailer.app_offset < trailer.meta_offset
            &&& trailer.meta_offset + TRAILER_SIZE <= u64::MAX
            &&& trailer.meta_offset + TRAILER_SIZE <= file_len
        },
{
}

/// What a packaged executable says of itself.
#[derive(Debug, Clone)]
pub struct Metadata {
    pub name: String,
    pub version: String,
    pub entry_module: String,
    pub erts_version: String,
    pub erts_hash: String,
    pub app_hash: String,
    pub boot_path: String,
}

/// The texts that metadata holds.
pub struct MetadataText {
    pub name: Seq<char>,
    pub version: Seq<char>,
    pub entry_module: Seq<char>,
    pub erts_version: Seq<char>,
    pub erts_hash: Seq<char>,
    pub app_hash: Seq<char>,
    pub boot_path: Seq<char>,
}

impl View for Metadata {
    type V = MetadataText;

    open spec fn view(&self) -> MetadataText {
        MetadataText {
            name: self.name@,
            version: self.version@,
            entry_module: self.entry_module@,
            erts_version: self.erts_version@,
            erts_hash: self.erts_hash@,
            app_hash: self.app_hash@,
            boot_path: self.boot_path@,
        }
    }
}

/// The fields of metadata that name a directory.
#[derive(Debug, Clone, Copy, PartialEq, Eq, Structural)]
pub enum Field {
    Name,
    Version,
    ErtsVersion,
}

impl Field {
    pub open spec fn label(self) -> Seq<char> {
        match self {
            Field::Name => "name"@,
            Field::Version => "version"@,
            Field::ErtsVersion => "erts_version"@,
        }
    }

    fn label_text(self) -> (r: &'static str)
        ensures
            r@ == self.label(),
    {
        match self {
            Field::Name => "name",
            Field::Version => "version",
            Field::ErtsVersion => "erts_version",
        }
    }
}

/// Why metadata is not acceptable.
#[derive(Debug, Clone, Copy, PartialEq, Eq, Structural)]
pub enum MetadataError {
    Empty(Field),
    Dots(Field),
    Separator(Field),
    EntryModuleEmpty,
    EntryModuleCharacters,
    BootPathEmpty,
    BootPathAbsolute,
    BootPathDots,
}

impl MetadataError {
    /// The message for this error.
    pub open spec fn message(self) -> Seq<char> {
        match self {
            MetadataError::Empty(field) => "metadata: "@ + field.label() + " is empty"@,
            MetadataError::Dots(field) => "metadata: "@ + field.label() + " is '.' or '..'"@,
            MetadataError::Separator(field) => "metadata: "@ + field.label()
                + " contains path separator"@,
            MetadataError::EntryModuleEmpty => "metadata: entry_module is empty"@,
            MetadataError::EntryModuleCharacters =>
                "metadata: entry_module contains disallowed characters"@,
            MetadataError::BootPathEmpty => "metadata: boot_path is empty"@,
            MetadataError::BootPathAbsolute => "metadata: boot_path must be relative"@,
            MetadataError::BootPathDots =>
                "metadata: boot_path contains '.' or '..' component"@,
        }
    }

    pub fn to_string(&self) -> (r: String)
        ensures
            r@ == self.message(),
    {
        match *self {
            MetadataError::Empty(field) => about(field, " is empty"),
            MetadataError::Dots(field) => about(field, " is '.' or '..'"),
            MetadataError::Separator(field) => about(field, " contains path separator"),
            MetadataError::EntryModuleEmpty => String::from_str("metadata: entry_module is empty"),
            MetadataError::EntryModuleCharacters => String::from_str(
                "metadata: entry_module contains disallowed characters",
            ),
            MetadataError::BootPathEmpty => String::from_str("metadata: boot_path is empty"),
            MetadataError::BootPathAbsolute => String::from_str(
                "metadata: boot_path must be relative",
            ),
            MetadataError::BootPathDots => String::from_str(
                "metadata: boot_path contains '.' or '..' component",
            ),
        }
    }
}

fn about(field: Field, what: &str) -> (r: String)
    ensures
        r@ == "metadata: "@ + field.label() + what@,
{
    let mut out = String::from_str("metadata: ");
    out.append(field.label_text());
    out.append(what);
    out
}

/// What is wrong with a text that is to name one directory, the first thing first.
pub open spec fn component_fault(field: Field, s: Seq<char>) -> Option<MetadataError> {
    if s.len() == 0 {
        Some(MetadataError::Empty(field))
    } else if s == "."@ || s == ".."@ {
        Some(MetadataError::Dots(field))
    } else if s.contains('/') || s.contains('\\') {
        Some(MetadataError::Separator(field))
    } else {
        None
    }
}

/// Whether the character may stand in the name of an Erlang module.
pub open spec fn is_module_char(c: char) -> bool {
    ||| 'a' <= c <= 'z'
    ||| 'A' <= c <= 'Z'
    ||| '0' <= c <= '9'
    ||| c == '_'
    ||| c == '@'
}

/// What is wrong with the name of the entry module.
pub open spec fn entry_module_fault(s: Seq<char>) -> Option<MetadataError> {
    if s.len() == 0 {
        Some(MetadataError::EntryModuleEmpty)
    } else if exists|i: int| 0 <= i < s.len() && !is_module_char(#[trigger] s[i]) {
        Some(MetadataError::EntryModuleCharacters)
    } else {
        None
    }
}

/// Whether a path has a `.` or `..` between its separators.
pub open spec fn has_dots(s: Seq<char>) -> bool {
    pieces(s, '/', '\\').contains("."@) || pieces(s, '/', '\\').contains(".."@)
}

/// What is wrong with the path of the boot file.
pub open spec fn boot_path_fault(s: Seq<char>) -> Option<MetadataError> {
    if s.len() == 0 {
        Some(MetadataError::BootPathEmpty)
    } else if s[0] == '/' {
        Some(MetadataError::BootPathAbsolute)
    } else if has_dots(s) {
        Some(MetadataError::BootPathDots)
    } else {
        None
    }
}

impl MetadataText {
    /// What is wrong with the metadata, the first fault in the order of the checks.
    pub open spec fn fault(self) -> Option<MetadataError> {
        match component_fault(Field::Name, self.name) {
            Some(e) => Some(e),
            None => match component_fault(Field::Version, self.version) {
                Some(e) => Some(e),
                None => match component_fault(Field::ErtsVersion, self.erts_version) {
                    Some(e) => Some(e),
                    None => match entry_module_fault(self.entry_module) {
                        Some(e) => Some(e),
                        None => boot_path_fault(self.boot_path),
                    },
                },
            },
        }
    }
}

impl Metadata {
    /// Checks every field that becomes part of a path or of code to run.
    pub fn validate(&self) -> (r: Result<(), MetadataError>)
        ensures
            match r {
                Ok(_) => self@.fault() is None,
                Err(e) => self@.fault() == Some(e),
            },
    {
        validate_path_component(Field::Name, self.name.as_str())?;
        validate_path_component(Field::Version, self.version.as_str())?;
        validate_path_component(Field::ErtsVersion, self.erts_version.as_str())?;
        validate_entry_module(self.entry_module.as_str())?;
        validate_boot_path(self.boot_path.as_str())?;
        Ok(())
    }
}

fn validate_path_component(field: Field, s: &str) -> (r: Result<(), MetadataError>)
    ensures
        match r {
            Ok(_) => component_fault(field, s@) is None,
            Err(e) => component_fault(field, s@) == Some(e),
        },
{
    if s.is_empty() {
        return Err(MetadataError::Empty(field));
    }
    if same(s, ".") || same(s, "..") {
        return Err(MetadataError::Dots(field));
    }
    if has_char(s, '/') || has_char(s, '\\') {
        return Err(MetadataError::Separator(field));
    }
    Ok(())
}

/// Checks the name of the entry module.
pub fn validate_entry_module(s: &str) -> (r: Result<(), MetadataError>)
    ensures
        match r {
            Ok(_) => entry_module_fault(s@) is None,
            Err(e) => entry_module_fault(s@) == Some(e),
        },
{
    if s.is_empty() {
        return Err(MetadataError::EntryModuleEmpty);
    }
    let chars = to_chars(s);
    let mut i: usize = 0;
    while i < chars.len()
        invariant
            i <= chars.len(),
            chars@ == s@,
            s@.len() > 0,
            forall|j: int| 0 <= j < i ==> is_module_char(#[trigger] s@[j]),
        decreases chars.len() - i,
    {
        let c = chars[i];
        let fine = ('a' <= c && c <= 'z') || ('A' <= c && c <= 'Z') || ('0' <= c && c <= '9') || c
            == '_' || c == '@';
        if !fine {
            assert(!is_module_char(s@[i as int]));
            return Err(MetadataError::EntryModuleCharacters);
        }
        i = i + 1;
    }
    Ok(())
}

pub(crate) fn validate_boot_path(s: &str) -> (r: Result<(), MetadataError>)
    ensures
        match r {
            Ok(_) => boot_path_fault(s@) is None,
            Err(e) => boot_path_fault(s@) == Some(e),
        },
{
    if s.is_empty() {
        return Err(MetadataError::BootPathEmpty);
    }
    if s.get_char(0) == '/' {
        return Err(MetadataError::BootPathAbsolute);
    }
    let parts = split(s, '/', '\\');
    let ghost texts = views(parts@);
    let mut i: usize = 0;
    while i < parts.len()
        invariant
            i <= parts.len(),
            texts == views(parts@),
            texts == pieces(s@, '/', '\\'),
            s@.len() > 0 && s@[0] != '/',
            forall|j: int| 0 <= j < i ==> (#[trigger] texts[j]) != "."@ && texts[j] != ".."@,
        decreases parts.len() - i,
    {
        assert(texts[i as int] == parts@[i as int]@);
        if same(parts[i].as_str(), "..") || same(parts[i].as_str(), ".") {
            return Err(MetadataError::BootPathDots);
        }
        i = i + 1;
    }
    Ok(())
}


/// Where the parts of a trailer are: the offset of the runtime, of the application and of the
/// metadata, each in eight bytes with the least significant first, and then the magic bytes.
pub proof fn law_trailer_layout(trailer: Trailer)
    ensures
        ({
            let b = trailer.encoded();
            &&& b.len() == 32
            &&& le_value(b.subrange(0, 8)) == trailer.erts_offset
            &&& le_value(b.subrange(8, 16)) == trailer.app_offset
            &&& le_value(b.subrange(16, 24)) == trailer.meta_offset
            &&& b.skip(24) == seq![0x51u8, 0x55, 0x45, 0x53, 0x4F, 0x00, 0x01, 0x02]
        }),
{
    let b = trailer.encoded();
    crate::bytes::lemma_eight_bytes(trailer.erts_offset);
    crate::bytes::lemma_eight_bytes(trailer.app_offset);
    crate::bytes::lemma_eight_bytes(trailer.meta_offset);
    assert(b.subrange(0, 8) =~= le_bytes(trailer.erts_offset as nat, 8));
    assert(b.subrange(8, 16) =~= le_bytes(trailer.app_offset as nat, 8));
    assert(b.subrange(16, 24) =~= le_bytes(trailer.meta_offset as nat, 8));
    assert(b.skip(24) =~= seq![0x51u8, 0x55, 0x45, 0x53, 0x4F, 0x00, 0x01, 0x02]);
}

/// Data is taken to end in a trailer just where it is long enough and ends in the magic bytes.
pub proof fn law_only_trailers_are_read(data: Seq<u8>)
    ensures
        trailer_of(data) is Ok <==> data.len() >= 32 && data.skip(data.len() - 8) == seq![
            0x51u8,
            0x55,
            0x45,
            0x53,
            0x4F,
            0x00,
            0x01,
            0x02,
        ],
        trailer_of(data) == Err::<Trailer, TrailerError>(TrailerError::TooSmall) <==> data.len()
            < 32,
{
    if data.len() >= 32 {
        let at = data.len() - 32;
        let magic = seq![0x51u8, 0x55, 0x45, 0x53, 0x4F, 0x00, 0x01, 0x02];
        assert(TRAILER_MAGIC@ =~= magic);
        assert(data.subrange(at + 24, at + 32) =~= data.skip(data.len() - 8));
    }
}

/// Which fault of the offsets is reported: each where those before it are not there.
pub proof fn law_offset_faults(t: Trailer, file_len: nat)
    ensures
        t.validity(file_len) == Err::<(), TrailerError>(TrailerError::BinaryTooSmall) <==> file_len
            < 32,
        t.validity(file_len) == Err::<(), TrailerError>(TrailerError::ErtsNotBeforeApp)
            <==> file_len >= 32 && t.app_offset <= t.erts_offset,
        t.validity(file_len) == Err::<(), TrailerError>(TrailerError::AppNotBeforeMeta)
            <==> file_len >= 32 && t.erts_offset < t.app_offset && t.meta_offset <= t.app_offset,
        t.validity(file_len) == Err::<(), TrailerError>(TrailerError::MetaOverflow) <==> file_len
            >= 32 && t.erts_offset < t.app_offset < t.meta_offset && t.meta_offset > u64::MAX - 32,
        t.validity(file_len) == Err::<(), TrailerError>(TrailerError::MetaPastEnd) <==> file_len
            >= 32 && t.erts_offset < t.app_offset < t.meta_offset <= u64::MAX - 32 && file_len
            < t.meta_offset + 32,
        forall|more: nat|
            more >= file_len && t.validity(file_len) is Ok ==> #[trigger] t.validity(more) is Ok,
{
}

/// A text names one directory just where it is its own only piece, is not empty and is neither of
/// the two names that stand for other directories. Which field it stands in makes no difference.
pub proof fn law_components(field: Field, other: Field, s: Seq<char>)
    ensures
        component_fault(field, s) is None <==> component_fault(other, s) is None,
        component_fault(field, s) is None <==> s.len() > 0 && s != seq!['.'] && s != seq!['.', '.']
            && pieces(s, '/', '\\') == seq![s],
        component_fault(field, s) == Some(MetadataError::Empty(field)) <==> s.len() == 0,
        component_fault(field, s) == Some(MetadataError::Dots(field)) <==> s == seq!['.'] || s
            == seq!['.', '.'],
        component_fault(field, s) == Some(MetadataError::Separator(field)) <==> exists|i: int|
            0 <= i < s.len() && (#[trigger] s[i] == '/' || s[i] == '\\'),
{
    reveal_strlit(".");
    reveal_strlit("..");
    assert("."@ =~= seq!['.']);
    assert(".."@ =~= seq!['.', '.']);
    if !s.contains('/') && !s.contains('\\') {
        crate::text::lemma_pieces_whole(s, '/', '\\');
    } else {
        let i = choose|i: int| 0 <= i < s.len() && (#[trigger] s[i] == '/' || s[i] == '\\');
        crate::text::lemma_pieces_count(s, '/', '\\', i);
    }
}

/// The letters, digits and signs of a module's name, by their codes.
pub proof fn law_module_chars(c: char)
    ensures
        is_module_char(c) <==> {
            ||| 0x30 <= c as int <= 0x39
            ||| 0x40 <= c as int <= 0x5a
            ||| c as int == 0x5f
            ||| 0x61 <= c as int <= 0x7a
        },
{
}

/// The name of an entry module is judged character by character: of two names one after the other
/// no fault is found just where none is found in either.
pub proof fn law_entry_modules(a: Seq<char>, b: Seq<char>)
    requires
        a.len() > 0,
        b.len() > 0,
    ensures
        entry_module_fault(a + b) is None <==> entry_module_fault(a) is None && entry_module_fault(
            b,
        ) is None,
        entry_module_fault(Seq::empty()) == Some(MetadataError::EntryModuleEmpty),
        entry_module_fault(a) is None || entry_module_fault(a) == Some(
            MetadataError::EntryModuleCharacters,
        ),
        forall|c: char| entry_module_fault(#[trigger] seq![c]) is None <==> is_module_char(c),
{
    let s = a + b;
    assert forall|i: int| 0 <= i < a.len() implies s[i] == #[trigger] a[i] by {}
    assert forall|i: int| 0 <= i < b.len() implies s[a.len() + i] == #[trigger] b[i] by {}
    if entry_module_fault(a) is None && entry_module_fault(b) is None {
        assert forall|i: int| 0 <= i < s.len() implies is_module_char(#[trigger] s[i]) by {
            if i < a.len() {
                assert(s[i] == a[i]);
            } else {
                assert(s[i] == b[i - a.len()]);
            }
        }
    }
    if entry_module_fault(a) is Some {
        let i = choose|i: int| 0 <= i < a.len() && !is_module_char(#[trigger] a[i]);
        assert(!is_module_char(s[i]));
    }
    if entry_module_fault(b) is Some {
        let i = choose|i: int| 0 <= i < b.len() && !is_module_char(#[trigger] b[i]);
        assert(!is_module_char(s[a.len() + i]));
    }
    assert forall|c: char| entry_module_fault(#[trigger] seq![c]) is None <==> is_module_char(
        c,
    ) by {
        assert(seq![c][0] == c);
    }
}

/// A path is judged name by name: an accepted path with another name behind it is accepted just
/// where the name is neither of the two that stand for other directories, whichever of the
/// separators stands between.
pub proof fn law_boot_paths(path: Seq<char>, name: Seq<char>)
    requires
        path.len() > 0,
        path[0] != '/',
        !name.contains('/') && !name.contains('\\'),
    ensures
        boot_path_fault(path.push('/') + name) is None <==> boot_path_fault(path) is None && name
            != seq!['.'] && name != seq!['.', '.'],
        boot_path_fault(path.push('\\') + name) == boot_path_fault(path.push('/') + name),
        boot_path_fault(path) is None || boot_path_fault(path) == Some(MetadataError::BootPathDots),
        boot_path_fault(path.insert(0, '/')) == Some(MetadataError::BootPathAbsolute),
        boot_path_fault(Seq::empty()) == Some(MetadataError::BootPathEmpty),
        name.len() > 0 ==> (boot_path_fault(name) is None <==> name != seq!['.'] && name != seq![
            '.',
            '.',
        ]),
{
    reveal_strlit(".");
    reveal_strlit("..");
    assert("."@ =~= seq!['.']);
    assert(".."@ =~= seq!['.', '.']);
    let p = pieces(path, '/', '\\');
    let q = p.push(name);
    crate::text::lemma_pieces_add(path, '/', name, '/', '\\');
    crate::text::lemma_pieces_add(path, '\\', name, '/', '\\');
    crate::text::lemma_pieces_whole(name, '/', '\\');
    assert((path.push('/') + name)[0] == path[0]);
    assert((path.push('\\') + name)[0] == path[0]);
    assert forall|x: Seq<char>| q.contains(x) <==> #[trigger] p.contains(x) || x == name by {
        if p.contains(x) {
            let i = p.index_of(x);
            assert(q[i] == x);
        }
        if x == name {
            assert(q[p.len() as int] == x);
        }
        if q.contains(x) {
            let i = q.index_of(x);
            if i < p.len() {
                assert(p[i] == x);
            }
        }
    }
    assert(p.contains("."@) || !p.contains("."@));
    assert(p.contains(".."@) || !p.contains(".."@));
    if name.len() > 0 {
        assert(name.contains(name[0]));
        assert(seq![name][0] == name);
        assert(seq![name].contains("."@) <==> name == "."@);
        assert(seq![name].contains(".."@) <==> name == ".."@);
    }
}

/// Metadata is accepted just where each field that becomes part of a path or of code is, and the
/// hashes make no difference.
pub proof fn law_metadata_faults(m: MetadataText, erts_hash: Seq<char>, app_hash: Seq<char>)
    ensures
        m.fault() is None <==> {
            &&& component_fault(Field::Name, m.name) is None
            &&& component_fault(Field::Version, m.version) is None
            &&& component_fault(Field::ErtsVersion, m.erts_version) is None
            &&& entry_module_fault(m.entry_module) is None
            &&& boot_path_fault(m.boot_path) is None
        },
        (MetadataText { erts_hash, app_hash, ..m }).fault() == m.fault(),
        component_fault(Field::Name, m.name) is Some ==> m.fault() == component_fault(
            Field::Name,
            m.name,
        ),
        component_fault(Field::Name, m.name) is None && component_fault(Field::Version, m.version)
            is Some ==> m.fault() == component_fault(Field::Version, m.version),
{
}

} // verus!
