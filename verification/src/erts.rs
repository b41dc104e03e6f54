//! The Erlang runtime that is bundled: where it is downloaded from, where it is kept, and
//! whether an installation is usable.

use vstd::prelude::*;
use vstd::string::*;

use crate::paths::{is_join, is_path, join, join2, join3, plain_base, plain_child};
use crate::target::{Arch, Libc, Os, Target};
use crate::text::{starts_with, strip_prefix};

verus! {

/// A usable installation of the runtime.
#[derive(Debug)]
pub struct Erts {
    pub root: String,
    pub version: String,
    pub erts_dir: String,
}

/// How the runtime was come by.
#[derive(Debug)]
pub enum ErtsResolution {
    Cached { path: String, otp_version: String },
    Downloaded { path: String, otp_version: String, url: String, hash: String },
}

/// A target for which nothing can be downloaded.
#[derive(Debug, Clone, Copy, PartialEq, Eq, Structural)]
pub struct NoDownload {
    pub target: Target,
}

impl NoDownload {
    /// The message for this error.
    pub open spec fn message(self) -> Seq<char> {
        "no OTP download available for "@ + self.target.text()
            + " (use --erts to provide a local Erlang/OTP installation)"@
    }

    pub fn to_string(&self) -> (r: String)
        ensures
            r@ == self.message(),
    {
        let mut out = String::from_str("no OTP download available for ");
        out.append(self.target.to_string().as_str());
        out.append(" (use --erts to provide a local Erlang/OTP installation)");
        out
    }
}

/// The address of a release for macOS.
pub open spec fn macos_address(version: Seq<char>, arch: Seq<char>) -> Seq<char> {
    "https://github.com/erlef/otp_builds/releases/download/OTP-"@ + version + "/OTP-"@ + version
        + "-macos-"@ + arch + ".tar.gz"@
}

/// The address of a release for Linux.
pub open spec fn linux_address(
    version: Seq<char>,
    arch: Seq<char>,
    libc_suffix: Seq<char>,
) -> Seq<char> {
    "https://github.com/gleam-community/erlang-linux-builds/releases/download/OTP-"@ + version
        + "/erlang-"@ + version + "-"@ + arch + libc_suffix + ".tar.gz"@
}

/// The address of a release for Windows.
pub open spec fn windows_address(version: Seq<char>) -> Seq<char> {
    "https://github.com/erlang/otp/releases/download/OTP-"@ + version + "/otp_win64_"@ + version
        + ".zip"@
}

fn macos_url(version: &str, arch: &str) -> (r: String)
    ensures
        r@ == macos_address(version@, arch@),
{
    let mut out = String::from_str("https://github.com/erlef/otp_builds/releases/download/OTP-");
    out.append(version);
    out.append("/OTP-");
    out.append(version);
    out.append("-macos-");
    out.append(arch);
    out.append(".tar.gz");
    out
}

fn linux_url(version: &str, arch: &str, libc_suffix: &str) -> (r: String)
    ensures
        r@ == linux_address(version@, arch@, libc_suffix@),
{
    let mut out = String::from_str(
        "https://github.com/gleam-community/erlang-linux-builds/releases/download/OTP-",
    );
    out.append(version);
    out.append("/erlang-");
    out.append(version);
    out.append("-");
    out.append(arch);
    out.append(libc_suffix);
    out.append(".tar.gz");
    out
}

fn windows_url(version: &str) -> (r: String)
    ensures
        r@ == windows_address(version@),
{
    let mut out = String::from_str("https://github.com/erlang/otp/releases/download/OTP-");
    out.append(version);
    out.append("/otp_win64_");
    out.append(version);
    out.append(".zip");
    out
}

/// The address that the runtime for a target is downloaded from, where there is one.
pub open spec fn download_address(otp_version: Seq<char>, target: Target) -> Option<Seq<char>> {
    match (target.os, target.arch) {
        (Os::Macos, Arch::X86_64) => Some(macos_address(otp_version, "amd64"@)),
        (Os::Macos, Arch::Aarch64) => Some(macos_address(otp_version, "arm64"@)),
        (Os::Linux(libc), arch) => {
            let libc_suffix = match libc {
                Libc::Glibc => "-glibc"@,
                Libc::Musl => "-musl"@,
                Libc::Static => ""@,
            };
            let arch_text = match arch {
                Arch::X86_64 => "x64"@,
                Arch::Aarch64 => "arm64"@,
            };
            Some(linux_address(otp_version, arch_text, libc_suffix))
        },
        (Os::Windows, Arch::X86_64) => Some(windows_address(otp_version)),
        (Os::Windows, Arch::Aarch64) => None,
    }
}

/// The address that the runtime for a target is downloaded from. There is one for every target
/// but Windows on ARM.
pub fn download_url(otp_version: &str, target: &Target) -> (r: Result<String, NoDownload>)
    ensures
        match r {
            Ok(url) => download_address(otp_version@, *target) == Some(url@),
            Err(e) => download_address(otp_version@, *target) is None && e.target == *target,
        },
{
    match (target.os, target.arch) {
        (Os::Macos, Arch::X86_64) => Ok(macos_url(otp_version, "amd64")),
        (Os::Macos, Arch::Aarch64) => Ok(macos_url(otp_version, "arm64")),
        (Os::Linux(libc), arch) => {
            let libc_suffix = match libc {
                Libc::Glibc => "-glibc",
                Libc::Musl => "-musl",
                Libc::Static => "",
            };
            let arch_text = match arch {
                Arch::X86_64 => "x64",
                Arch::Aarch64 => "arm64",
            };
            Ok(linux_url(otp_version, arch_text, libc_suffix))
        },
        (Os::Windows, Arch::X86_64) => Ok(windows_url(otp_version)),
        (Os::Windows, Arch::Aarch64) => Err(NoDownload { target: *target }),
    }
}

/// Every target but Windows on ARM has a download.
pub proof fn law_downloads(otp_version: Seq<char>, target: Target)
    ensures
        download_address(otp_version, target) is None <==> target == (Target {
            os: Os::Windows,
            arch: Arch::Aarch64,
        }),
{
}

/// The forms that a downloaded runtime comes in.
#[derive(Debug, Clone, Copy, PartialEq, Eq, Structural)]
pub enum ArchiveFormat {
    TarGz,
    Zip,
}

/// The form that the runtime for a target comes in.
pub fn archive_format(target: &Target) -> (r: ArchiveFormat)
    ensures
        r == (if target.os == Os::Windows {
            ArchiveFormat::Zip
        } else {
            ArchiveFormat::TarGz
        }),
{
    match target.os {
        Os::Windows => ArchiveFormat::Zip,
        _ => ArchiveFormat::TarGz,
    }
}

/// A download that was answered with another status than 200.
#[derive(Debug)]
pub struct DownloadRefused {
    pub status: String,
    pub url: String,
}

impl DownloadRefused {
    /// The message for this error.
    pub open spec fn message(self) -> Seq<char> {
        "download failed with HTTP "@ + self.status@ + ": "@ + self.url@
    }

    pub fn to_string(&self) -> (r: String)
        ensures
            r@ == self.message(),
    {
        let mut out = String::from_str("download failed with HTTP ");
        out.append(self.status.as_str());
        out.append(": ");
        out.append(self.url.as_str());
        out
    }
}

/// Checks the status that a download was answered with; `status_text` is how it is shown.
pub fn check_download_status(status: u16, status_text: &str, url: &str) -> (r: Result<
    (),
    DownloadRefused,
>)
    ensures
        match r {
            Ok(_) => status == 200,
            Err(e) => status != 200 && e.status@ == status_text@ && e.url@ == url@,
        },
{
    if status == 200 {
        Ok(())
    } else {
        Err(
            DownloadRefused { status: String::from_str(status_text), url: String::from_str(url) },
        )
    }
}

/// Whether the runtime is kept in its place under the directory of all cached files.
pub open spec fn is_runtime_place(
    cache_dir: Seq<char>,
    otp_version: Seq<char>,
    target: Target,
    path: Seq<char>,
) -> bool {
    plain_base(cache_dir) ==> is_path(
        cache_dir,
        seq!["erts"@, "OTP-"@ + otp_version, target.text()],
        path,
    )
}

/// Where a downloaded runtime is kept, under the directory of all cached files.
pub fn cache_dir_for(cache_dir: &str, otp_version: &str, target: Target) -> (r: String)
    ensures
        is_runtime_place(cache_dir@, otp_version@, target, r@),
{
    let mut release = String::from_str("OTP-");
    release.append(otp_version);
    let target_text = target.to_string();
    proof {
        crate::target::lemma_text_plain(target);
        reveal_strlit("erts");
        reveal_strlit("OTP-");
        assert("erts"@[0] == 'e');
        assert(plain_child("erts"@));
        assert(release@[0] == 'O');
        assert(release@[1] == 'T');
    }
    join3(cache_dir, "erts", release.as_str(), target_text.as_str())
}

/// Something found in a directory.
#[derive(Debug)]
pub struct DirItem {
    pub name: String,
    pub is_dir: bool,
}

/// Whether an item of the root is a directory of the runtime's own files.
pub open spec fn is_candidate(item: DirItem) -> bool {
    item.is_dir && "erts-"@.is_prefix_of(item.name@)
}

/// Why the directory of the runtime's own files was not made out.
#[derive(Debug, Clone, Copy, PartialEq, Eq, Structural)]
pub enum FindError {
    NotFound,
    Several,
}

impl FindError {
    /// The message for this error.
    pub open spec fn message(self) -> Seq<char> {
        match self {
            FindError::NotFound => "no erts-* directory found"@,
            FindError::Several => "multiple erts-* directories found"@,
        }
    }

    pub fn to_string(&self) -> (r: String)
        ensures
            r@ == self.message(),
    {
        match self {
            FindError::NotFound => String::from_str("no erts-* directory found"),
            FindError::Several => String::from_str("multiple erts-* directories found"),
        }
    }
}

/// Whether the item at `i` is the only candidate.
pub open spec fn is_only(items: Seq<DirItem>, i: int) -> bool {
    &&& 0 <= i < items.len()
    &&& is_candidate(items[i])
    &&& forall|j: int| 0 <= j < items.len() && is_candidate(#[trigger] items[j]) ==> j == i
}

/// Finds the one directory of the runtime's own files among the items of the root.
pub fn find_erts_dir(items: &Vec<DirItem>) -> (r: Result<usize, FindError>)
    ensures
        match r {
            Ok(i) => is_only(items@, i as int),
            Err(FindError::NotFound) => forall|j: int|
                0 <= j < items@.len() ==> !is_candidate(#[trigger] items@[j]),
            Err(FindError::Several) => exists|i: int, j: int|
                0 <= i < j < items@.len() && is_candidate(#[trigger] items@[i]) && is_candidate(
                    #[trigger] items@[j],
                ),
        },
{
    let mut found: Option<usize> = None;
    let mut i: usize = 0;
    while i < items.len()
        invariant
            i <= items.len(),
            match found {
                None => forall|j: int| 0 <= j < i ==> !is_candidate(#[trigger] items@[j]),
                Some(k) => {
                    &&& k < i
                    &&& is_candidate(items@[k as int])
                    &&& forall|j: int| 0 <= j < i && is_candidate(#[trigger] items@[j]) ==> j == k
                },
            },
        decreases items.len() - i,
    {
        if starts_with(items[i].name.as_str(), "erts-") && items[i].is_dir {
            if let Some(k) = found {
                assert(is_candidate(items@[k as int]) && is_candidate(items@[i as int]));
                return Err(FindError::Several);
            }
            found = Some(i);
        }
        i = i + 1;
    }
    match found {
        Some(k) => Ok(k),
        None => Err(FindError::NotFound),
    }
}

/// Where the programs of the runtime are.
pub fn bin_dir(root: &str, erts_name: &str) -> (r: String)
    ensures
        plain_base(root@) && plain_child(erts_name@) ==> is_path(
            root@,
            seq![erts_name@, "bin"@],
            r@,
        ),
{
    proof {
        reveal_strlit("bin");
        assert("bin"@[0] == 'b');
        assert(plain_child("bin"@));
    }
    join2(root, erts_name, "bin")
}

/// The two programs of which one must be there: `erl` and `erlexec`, each with the target's
/// suffix.
pub fn erl_paths(bin_dir: &str, target: &Target) -> (r: (String, String))
    ensures
        plain_base(bin_dir@) ==> is_join(bin_dir@, "erl"@ + target.suffix(), r.0@),
        plain_base(bin_dir@) ==> is_join(bin_dir@, "erlexec"@ + target.suffix(), r.1@),
{
    let suffix = target.exe_suffix();
    let mut erl = String::from_str("erl");
    erl.append(suffix);
    let mut erlexec = String::from_str("erlexec");
    erlexec.append(suffix);
    proof {
        reveal_strlit("erl");
        reveal_strlit("erlexec");
        reveal_strlit(".exe");
        reveal_strlit("");
        assert(erl@[0] == 'e' && erlexec@[0] == 'e');
        assert(forall|i: int| 0 <= i < erl@.len() ==> erl@[i] != ':');
        assert(forall|i: int| 0 <= i < erlexec@.len() ==> erlexec@[i] != ':');
    }
    (join(bin_dir, erl.as_str()), join(bin_dir, erlexec.as_str()))
}

/// What was found at the place of an installation: whether it is a directory, what it holds,
/// which of the two programs is there, and whether there is a `lib` directory.
#[derive(Debug)]
pub struct ErtsProbe {
    pub root_is_dir: bool,
    pub items: Vec<DirItem>,
    pub has_erl: bool,
    pub has_erlexec: bool,
    pub has_lib: bool,
}

/// Why an installation is not usable.
#[derive(Debug)]
pub enum ErtsError {
    Missing { root: String },
    Invalid { root: String, cause: FindError },
    NoErl { bin_dir: String },
    NoLib,
}

impl ErtsError {
    /// The message for this error.
    pub open spec fn message(self) -> Seq<char> {
        match self {
            ErtsError::Missing { root } => "ERTS path does not exist: "@ + root@,
            ErtsError::Invalid { root, cause } => "invalid ERTS installation at "@ + root@,
            ErtsError::NoErl { bin_dir } => "missing erl/erlexec binary in "@ + bin_dir@,
            ErtsError::NoLib => "missing lib/ directory in ERTS installation"@,
        }
    }

    pub fn to_string(&self) -> (r: String)
        ensures
            r@ == self.message(),
    {
        match self {
            ErtsError::Missing { root } => {
                let mut out = String::from_str("ERTS path does not exist: ");
                out.append(root.as_str());
                out
            },
            ErtsError::Invalid { root, cause: _ } => {
                let mut out = String::from_str("invalid ERTS installation at ");
                out.append(root.as_str());
                out
            },
            ErtsError::NoErl { bin_dir } => {
                let mut out = String::from_str("missing erl/erlexec binary in ");
                out.append(bin_dir.as_str());
                out
            },
            ErtsError::NoLib => String::from_str("missing lib/ directory in ERTS installation"),
        }
    }
}

/// Whether an installation is usable.
pub open spec fn is_usable(probe: ErtsProbe) -> bool {
    &&& probe.root_is_dir
    &&& exists|i: int| #[trigger] is_only(probe.items@, i)
    &&& probe.has_erl || probe.has_erlexec
    &&& probe.has_lib
}

/// Checks an installation by what was found at its place. The first thing that is wrong is
/// reported: no such directory, no or no single directory of the runtime's own files, neither
/// program, no `lib` directory.
pub fn validate(root: &str, probe: &ErtsProbe) -> (r: Result<Erts, ErtsError>)
    ensures
        match r {
            Ok(erts) => {
                &&& is_usable(*probe)
                &&& erts.root@ == root@
                &&& exists|i: int| #[trigger]
                    is_only(probe.items@, i) && {
                        &&& probe.items@[i].name@ == "erts-"@ + erts.version@
                        &&& plain_base(root@) && plain_child(probe.items@[i].name@) ==> is_join(
                            root@,
                            probe.items@[i].name@,
                            erts.erts_dir@,
                        )
                    }
            },
            Err(ErtsError::Missing { root: shown }) => !probe.root_is_dir && shown@ == root@,
            Err(ErtsError::Invalid { root: shown, cause }) => {
                &&& probe.root_is_dir
                &&& shown@ == root@
                &&& forall|i: int| !#[trigger] is_only(probe.items@, i)
                &&& cause == FindError::NotFound <==> forall|j: int|
                    0 <= j < probe.items@.len() ==> !is_candidate(#[trigger] probe.items@[j])
            },
            Err(ErtsError::NoErl { bin_dir: shown }) => {
                &&& probe.root_is_dir
                &&& !probe.has_erl && !probe.has_erlexec
                &&& exists|i: int| #[trigger]
                    is_only(probe.items@, i) && (plain_base(root@) && plain_child(
                        probe.items@[i].name@,
                    ) ==> is_path(root@, seq![probe.items@[i].name@, "bin"@], shown@))
            },
            Err(ErtsError::NoLib) => {
                &&& probe.root_is_dir
                &&& exists|i: int| #[trigger] is_only(probe.items@, i)
                &&& probe.has_erl || probe.has_erlexec
                &&& !probe.has_lib
            },
        },
{
    if !probe.root_is_dir {
        return Err(ErtsError::Missing { root: String::from_str(root) });
    }
    let i: usize = match find_erts_dir(&probe.items) {
        Ok(i) => i,
        Err(cause) => {
            proof {
                assert forall|i: int| !#[trigger] is_only(probe.items@, i) by {}
            }
            return Err(ErtsError::Invalid { root: String::from_str(root), cause });
        },
    };
    assert(is_only(probe.items@, i as int));
    let name = probe.items[i].name.as_str();
    if !probe.has_erl && !probe.has_erlexec {
        return Err(ErtsError::NoErl { bin_dir: bin_dir(root, name) });
    }
    if !probe.has_lib {
        return Err(ErtsError::NoLib);
    }
    let version = match strip_prefix(name, "erts-") {
        Some(v) => v,
        None => String::new(),
    };
    Ok(Erts { root: String::from_str(root), version, erts_dir: join(root, name) })
}

/// The stages of coming by the runtime for a target. Each succeeds or fails.
#[derive(Debug, Clone, Copy, PartialEq, Eq, Structural)]
pub enum ResolveStep {
    /// Look at the place for the runtime. It succeeds where what is there is usable.
    CheckCache,
    /// Make a temporary directory next to the place.
    Prepare,
    /// Download the runtime's archive.
    Download,
    /// Unpack the archive to the temporary directory.
    Unpack,
    /// Move the temporary directory to the place.
    Move,
    /// The move failed: look at the place again. It succeeds where what is there is usable.
    Inspect,
    /// Remove what is at the place and move again.
    Replace,
    /// What is at the place is used, and nothing was downloaded.
    Cached,
    /// The downloaded runtime is in its place.
    Installed,
    /// The temporary directory is removed and what is at the place is used.
    Reused,
    /// The failure is reported.
    Failed,
    /// The temporary directory is removed and the failed move is reported.
    Abandoned,
}

impl ResolveStep {
    /// Whether nothing is left to do.
    pub open spec fn is_final(self) -> bool {
        ||| self == ResolveStep::Cached
        ||| self == ResolveStep::Installed
        ||| self == ResolveStep::Reused
        ||| self == ResolveStep::Failed
        ||| self == ResolveStep::Abandoned
    }

    /// How many stages are left at most.
    pub open spec fn left(self) -> nat {
        match self {
            ResolveStep::CheckCache => 7,
            ResolveStep::Prepare => 6,
            ResolveStep::Download => 5,
            ResolveStep::Unpack => 4,
            ResolveStep::Move => 3,
            ResolveStep::Inspect => 2,
            ResolveStep::Replace => 1,
            _ => 0,
        }
    }

    /// The stage after this one, by whether it succeeded.
    pub open spec fn after(self, succeeded: bool) -> ResolveStep {
        match (self, succeeded) {
            (ResolveStep::CheckCache, true) => ResolveStep::Cached,
            (ResolveStep::CheckCache, false) => ResolveStep::Prepare,
            (ResolveStep::Prepare, true) => ResolveStep::Download,
            (ResolveStep::Prepare, false) => ResolveStep::Failed,
            (ResolveStep::Download, true) => ResolveStep::Unpack,
            (ResolveStep::Download, false) => ResolveStep::Failed,
            (ResolveStep::Unpack, true) => ResolveStep::Move,
            (ResolveStep::Unpack, false) => ResolveStep::Failed,
            (ResolveStep::Move, true) => ResolveStep::Installed,
            (ResolveStep::Move, false) => ResolveStep::Inspect,
            (ResolveStep::Inspect, true) => ResolveStep::Reused,
            (ResolveStep::Inspect, false) => ResolveStep::Replace,
            (ResolveStep::Replace, true) => ResolveStep::Installed,
            (ResolveStep::Replace, false) => ResolveStep::Abandoned,
            (step, _) => step,
        }
    }

    /// The stage after this one, by whether it succeeded.
    pub fn next(self, succeeded: bool) -> (r: ResolveStep)
        ensures
            r == self.after(succeeded),
    {
        match self {
            ResolveStep::CheckCache => if succeeded {
                ResolveStep::Cached
            } else {
                ResolveStep::Prepare
            },
            ResolveStep::Prepare => if succeeded {
                ResolveStep::Download
            } else {
                ResolveStep::Failed
            },
            ResolveStep::Download => if succeeded {
                ResolveStep::Unpack
            } else {
                ResolveStep::Failed
            },
            ResolveStep::Unpack => if succeeded {
                ResolveStep::Move
            } else {
                ResolveStep::Failed
            },
            ResolveStep::Move => if succeeded {
                ResolveStep::Installed
            } else {
                ResolveStep::Inspect
            },
            ResolveStep::Inspect => if succeeded {
                ResolveStep::Reused
            } else {
                ResolveStep::Replace
            },
            ResolveStep::Replace => if succeeded {
                ResolveStep::Installed
            } else {
                ResolveStep::Abandoned
            },
            step => step,
        }
    }
}

/// The stage that is reached when the stages come out as the results say, one after another.
pub open spec fn resolve_run(results: Seq<bool>) -> ResolveStep
    decreases results.len(),
{
    if results.len() == 0 {
        ResolveStep::CheckCache
    } else {
        resolve_run(results.drop_last()).after(results.last())
    }
}

proof fn lemma_resolve_progress(results: Seq<bool>)
    ensures
        resolve_run(results).left() + results.len() <= 7 || resolve_run(results).is_final(),
        resolve_run(results).left() == 0 <==> resolve_run(results).is_final(),
    decreases results.len(),
{
    if results.len() > 0 {
        lemma_resolve_progress(results.drop_last());
    }
}

/// Coming by a runtime ends after seven stages at most, whatever they come to.
pub proof fn law_resolve_ends(results: Seq<bool>)
    requires
        results.len() >= 7,
    ensures
        resolve_run(results).is_final(),
{
    lemma_resolve_progress(results);
}

proof fn lemma_resolve_path(results: Seq<bool>)
    ensures
        resolve_run(results) == ResolveStep::Prepare ==> results =~= seq![false],
        resolve_run(results) == ResolveStep::Download ==> results =~= seq![false, true],
        resolve_run(results) == ResolveStep::Unpack ==> results =~= seq![false, true, true],
        resolve_run(results) == ResolveStep::Move ==> results =~= seq![false, true, true, true],
        resolve_run(results) == ResolveStep::Inspect ==> results =~= seq![
            false,
            true,
            true,
            true,
            false,
        ],
        resolve_run(results) == ResolveStep::Replace ==> results =~= seq![
            false,
            true,
            true,
            true,
            false,
            false,
        ],
        resolve_run(results) == ResolveStep::CheckCache ==> results.len() == 0,
        resolve_run(results) == ResolveStep::Cached ==> results.len() >= 1 && results[0],
        resolve_run(results) == ResolveStep::Installed ==> results.len() >= 5 && !results[0]
            && results[1] && results[2] && results[3] && (results[4] || (results.len() >= 7
            && !results[5] && results[6])),
        resolve_run(results) == ResolveStep::Reused ==> results.len() >= 6 && !results[0]
            && !results[4] && results[5],
        resolve_run(results) == ResolveStep::Abandoned ==> results.len() >= 7 && !results[4]
            && !results[5] && !results[6],
    decreases results.len(),
{
    if results.len() > 0 {
        let before = results.drop_last();
        lemma_resolve_path(before);
        assert(results =~= before.push(results.last()));
    }
}

/// What is used in the end is sound: the place is used as it was only where it was found usable,
/// and the downloaded runtime only where it was downloaded, unpacked and moved to the place. A
/// place that was found usable is never replaced.
pub proof fn law_resolve_sound(results: Seq<bool>)
    ensures
        resolve_run(results) == ResolveStep::Cached ==> results.len() >= 1 && results[0],
        resolve_run(results) == ResolveStep::Reused ==> results.len() >= 6 && !results[4]
            && results[5],
        resolve_run(results) == ResolveStep::Installed ==> {
            &&& results.len() >= 5
            &&& !results[0] && results[1] && results[2] && results[3]
            &&& results[4] || (results.len() >= 7 && !results[5] && results[6])
        },
{
    lemma_resolve_path(results);
}

/// How the runtime for a target was come by, where that is at its end and did not fail: it is in
/// its place under the directory of all cached files, and where it was downloaded it came from
/// its address. The hash is that of the download. Nothing can be downloaded without an address.
pub fn resolution(
    end: ResolveStep,
    cache_dir: &str,
    otp_version: &str,
    target: Target,
    hash: &str,
) -> (r: Option<ErtsResolution>)
    ensures
        match r {
            Some(ErtsResolution::Downloaded { path, otp_version: shown, url, hash: given }) => {
                &&& end == ResolveStep::Installed
                &&& is_runtime_place(cache_dir@, otp_version@, target, path@)
                &&& shown@ == otp_version@
                &&& download_address(otp_version@, target) == Some(url@)
                &&& given@ == hash@
            },
            Some(ErtsResolution::Cached { path, otp_version: shown }) => {
                &&& end == ResolveStep::Cached || end == ResolveStep::Reused
                &&& is_runtime_place(cache_dir@, otp_version@, target, path@)
                &&& shown@ == otp_version@
            },
            None => {
                &&& end != ResolveStep::Cached && end != ResolveStep::Reused
                &&& end == ResolveStep::Installed ==> download_address(otp_version@, target) is None
            },
        },
{
    match end {
        ResolveStep::Installed => match download_url(otp_version, &target) {
            Ok(url) => Some(
                ErtsResolution::Downloaded {
                    path: cache_dir_for(cache_dir, otp_version, target),
                    otp_version: String::from_str(otp_version),
                    url,
                    hash: String::from_str(hash),
                },
            ),
            Err(_) => None,
        },
        ResolveStep::Cached | ResolveStep::Reused => Some(
            ErtsResolution::Cached {
                path: cache_dir_for(cache_dir, otp_version, target),
                otp_version: String::from_str(otp_version),
            },
        ),
        _ => None,
    }
}

proof fn lemma_address_words()
    ensures
        "amd64"@.len() == 5 && "arm64"@.len() == 5 && "x64"@.len() == 3,
        "amd64"@[1] == 'm' && "arm64"@[1] == 'r',
        "-glibc"@.len() == 6 && "-musl"@.len() == 5 && ""@.len() == 0,
        "https://github.com/erlef/otp_builds/releases/download/OTP-"@[19] == 'e',
        "https://github.com/gleam-community/erlang-linux-builds/releases/download/OTP-"@[19] == 'g',
        "https://github.com/erlang/otp/releases/download/OTP-"@[19] == 'e',
        "https://github.com/erlef/otp_builds/releases/download/OTP-"@[23] == 'f',
        "https://github.com/erlang/otp/releases/download/OTP-"@[23] == 'n',
        "https://github.com/erlef/otp_builds/releases/download/OTP-"@.len() == 58,
        "https://github.com/gleam-community/erlang-linux-builds/releases/download/OTP-"@.len()
            == 77,
        "https://github.com/erlang/otp/releases/download/OTP-"@.len() == 52,
        ".tar.gz"@.len() == 7 && ".zip"@.len() == 4,
{
    reveal_strlit("amd64");
    reveal_strlit("arm64");
    reveal_strlit("x64");
    reveal_strlit("-glibc");
    reveal_strlit("-musl");
    reveal_strlit("");
    reveal_strlit(".tar.gz");
    reveal_strlit(".zip");
    reveal_strlit("https://github.com/erlef/otp_builds/releases/download/OTP-");
    reveal_strlit("https://github.com/gleam-community/erlang-linux-builds/releases/download/OTP-");
    reveal_strlit("https://github.com/erlang/otp/releases/download/OTP-");
}

/// No two targets share a download.
pub proof fn law_downloads_differ(otp_version: Seq<char>, a: Target, b: Target)
    requires
        download_address(otp_version, a) is Some,
        download_address(otp_version, a) == download_address(otp_version, b),
    ensures
        a == b,
{
    lemma_address_words();
    let s = download_address(otp_version, a)->0;
    let t = download_address(otp_version, b)->0;
    match a.os {
        Os::Macos => {
            assert(s[19] == 'e' && s[23] == 'f');
        },
        Os::Linux(_) => {
            assert(s[19] == 'g');
        },
        Os::Windows => {
            assert(s[19] == 'e' && s[23] == 'n');
        },
    }
    match b.os {
        Os::Macos => {
            assert(t[19] == 'e' && t[23] == 'f');
        },
        Os::Linux(_) => {
            assert(t[19] == 'g');
        },
        Os::Windows => {
            assert(t[19] == 'e' && t[23] == 'n');
        },
    }
    if a.os is Linux && b.os is Linux {
        let base = "https://github.com/gleam-community/erlang-linux-builds/releases/download/OTP-"@.len()
            + "/erlang-"@.len() + "-"@.len() + 2 * otp_version.len() + 7;
        assert(s.len() == base + (if a.arch == Arch::X86_64 {
            3int
        } else {
            5
        }) + (match a.os->0 {
            Libc::Glibc => 6int,
            Libc::Musl => 5,
            Libc::Static => 0,
        }));
        assert(t.len() == base + (if b.arch == Arch::X86_64 {
            3int
        } else {
            5
        }) + (match b.os->0 {
            Libc::Glibc => 6int,
            Libc::Musl => 5,
            Libc::Static => 0,
        }));
    }
    if a.os is Macos && b.os is Macos {
        let n = s.len() - 7 - 5 + 1;
        assert(s[n] == (if a.arch == Arch::X86_64 {
            'm'
        } else {
            'r'
        }));
        assert(t[n] == (if b.arch == Arch::X86_64 {
            'm'
        } else {
            'r'
        }));
    }
}

/// The address of a download names the version twice, as it is, and is else the same for every
/// version: it is that of no version at all with the version put in at two places.
pub proof fn law_download_versions(otp_version: Seq<char>, target: Target)
    ensures
        match (download_address(otp_version, target), download_address(Seq::empty(), target)) {
            (Some(s), Some(blank)) => exists|i: int, j: int|
                {
                    &&& 0 <= i <= j <= blank.len()
                    &&& s == #[trigger] blank.take(i) + otp_version + blank.subrange(i, j)
                        + otp_version + #[trigger] blank.skip(j)
                },
            (None, None) => true,
            _ => false,
        },
{
    let none = Seq::<char>::empty();
    if download_address(otp_version, target) is Some {
        let s = download_address(otp_version, target)->0;
        let blank = download_address(none, target)->0;
        let head = match target.os {
            Os::Macos => "https://github.com/erlef/otp_builds/releases/download/OTP-"@,
            Os::Linux(_) =>
                "https://github.com/gleam-community/erlang-linux-builds/releases/download/OTP-"@,
            Os::Windows => "https://github.com/erlang/otp/releases/download/OTP-"@,
        };
        let middle = match target.os {
            Os::Macos => "/OTP-"@,
            Os::Linux(_) => "/erlang-"@,
            Os::Windows => "/otp_win64_"@,
        };
        let i = head.len() as int;
        let j = i + middle.len();
        assert(blank.take(i) =~= head);
        assert(blank.subrange(i, j) =~= middle);
        let tail = blank.skip(j);
        assert(s =~= head + otp_version + middle + otp_version + tail);
        assert(s == blank.take(i) + otp_version + blank.subrange(i, j) + otp_version + blank.skip(
            j,
        ));
    }
}

/// A download is a zip archive for Windows and a compressed tar archive for every other target, by
/// its address as by what it is unpacked as.
pub proof fn law_download_formats(otp_version: Seq<char>, target: Target, format: ArchiveFormat)
    requires
        call_ensures(archive_format, (&target,), format),
    ensures
        format == ArchiveFormat::Zip <==> target.os == Os::Windows,
        download_address(otp_version, target) matches Some(s) ==> (format == ArchiveFormat::Zip
            <==> ".zip"@.is_suffix_of(s)) && (format == ArchiveFormat::TarGz
            <==> ".tar.gz"@.is_suffix_of(s)),
{
    lemma_address_words();
    reveal_strlit(".zip");
    reveal_strlit(".tar.gz");
    if download_address(otp_version, target) is Some {
        let s = download_address(otp_version, target)->0;
        if target.os == Os::Windows {
            assert(s.skip(s.len() - 4) =~= ".zip"@);
            assert(s.last() == 'p');
            if ".tar.gz"@.is_suffix_of(s) {
                assert(s.last() == ".tar.gz"@.last());
            }
        } else {
            assert(s.skip(s.len() - 7) =~= ".tar.gz"@);
            assert(s.last() == 'z');
            if ".zip"@.is_suffix_of(s) {
                assert(s.last() == ".zip"@.last());
            }
        }
    }
}

/// A directory of the runtime's own files is one whose name begins with `erts-`; what its name goes
/// on with is the version.
pub proof fn law_candidates(item: DirItem, version: Seq<char>)
    requires
        item.name@ == "erts-"@ + version,
    ensures
        is_candidate(item) == item.is_dir,
{
    assert(item.name@.take("erts-"@.len() as int) =~= "erts-"@);
}

/// An installation with one directory of the runtime's own files is usable where one of the two
/// programs is there, whichever, and a `lib` directory; its version is what the directory's name
/// goes on with.
pub proof fn law_usable(root: &str, probe: &ErtsProbe, i: int, version: Seq<char>, r: Result<Erts, ErtsError>)
    requires
        0 <= i < probe.items@.len(),
        probe.root_is_dir,
        probe.items@[i].is_dir,
        probe.items@[i].name@ == "erts-"@ + version,
        forall|j: int|
            0 <= j < probe.items@.len() && j != i ==> !(#[trigger] probe.items@[j]).is_dir
                || !"erts-"@.is_prefix_of(probe.items@[j].name@),
        call_ensures(validate, (root, probe), r),
    ensures
        r is Ok <==> (probe.has_erl || probe.has_erlexec) && probe.has_lib,
        r matches Ok(erts) ==> erts.version@ == version && erts.root@ == root@,
        r matches Err(e) ==> (e is NoErl <==> !probe.has_erl && !probe.has_erlexec),
{
    law_candidates(probe.items@[i], version);
    assert(is_only(probe.items@, i));
    if let Ok(erts) = r {
        let k = choose|k: int| #[trigger]
            is_only(probe.items@, k) && probe.items@[k].name@ == "erts-"@ + erts.version@;
        assert(k == i);
        let n = "erts-"@.len() as int;
        assert(("erts-"@ + erts.version@).skip(n) =~= erts.version@);
        assert(("erts-"@ + version).skip(n) =~= version);
    }
}

/// How coming by a runtime ends, by how its stages come out: what is in its place is used where it
/// is usable, before anything is downloaded or after the move failed; else what was downloaded and
/// unpacked is moved there, if need be in place of what is there; and whatever else fails is
/// reported.
pub proof fn law_resolve_end(r: Seq<bool>)
    requires
        r.len() == 7,
    ensures
        resolve_run(r) == ResolveStep::Cached <==> r[0],
        resolve_run(r) == ResolveStep::Failed <==> !r[0] && !(r[1] && r[2] && r[3]),
        !r[0] && r[1] && r[2] && r[3] ==> {
            &&& resolve_run(r) == ResolveStep::Installed <==> r[4] || (!r[5] && r[6])
            &&& resolve_run(r) == ResolveStep::Reused <==> !r[4] && r[5]
            &&& resolve_run(r) == ResolveStep::Abandoned <==> !r[4] && !r[5] && !r[6]
        },
{
    reveal_with_fuel(resolve_run, 8);
    let a = r.drop_last();
    let b = a.drop_last();
    let c = b.drop_last();
    let d = c.drop_last();
    let e = d.drop_last();
    let f = e.drop_last();
    assert(f.len() == 1 && f.last() == r[0] && f.drop_last().len() == 0);
    assert(e.last() == r[1] && d.last() == r[2] && c.last() == r[3] && b.last() == r[4]);
    assert(a.last() == r[5] && r.last() == r[6]);
}

/// The order of the stages.
pub proof fn law_resolve_stages()
    ensures
        resolve_run(seq![]) == ResolveStep::CheckCache,
        resolve_run(seq![false]) == ResolveStep::Prepare,
        resolve_run(seq![false, true]) == ResolveStep::Download,
        resolve_run(seq![false, true, true]) == ResolveStep::Unpack,
        resolve_run(seq![false, true, true, true]) == ResolveStep::Move,
        resolve_run(seq![false, true, true, true, false]) == ResolveStep::Inspect,
        resolve_run(seq![false, true, true, true, false, false]) == ResolveStep::Replace,
{
    reveal_with_fuel(resolve_run, 7);
    let a = seq![false];
    let b = seq![false, true];
    let c = seq![false, true, true];
    let d = seq![false, true, true, true];
    let e = seq![false, true, true, true, false];
    let f = seq![false, true, true, true, false, false];
    assert(a.drop_last() =~= seq![]);
    assert(b.drop_last() =~= a);
    assert(c.drop_last() =~= b);
    assert(d.drop_last() =~= c);
    assert(e.drop_last() =~= d);
    assert(f.drop_last() =~= e);
}

/// A download is accepted with the status 200 and with no other.
pub proof fn law_download_status(
    status: u16,
    status_text: &str,
    url: &str,
    r: Result<(), DownloadRefused>,
)
    requires
        call_ensures(check_download_status, (status, status_text, url), r),
    ensures
        r is Ok <==> status == 200,
        r matches Err(e) ==> e.status@ == status_text@ && e.url@ == url@,
{
}


proof fn lemma_ends(front: Seq<char>, a: Seq<char>, b: Seq<char>, c: Seq<char>, d: Seq<char>, end: Seq<char>)
    requires
        end == a + b + c + d,
    ensures
        end.is_suffix_of(front + a + b + c + d),
{
    let s = front + a + b + c + d;
    assert(s.skip(s.len() - end.len()) =~= end);
}

/// Each download is named after what it is for, whatever the version: the processor, in the words
/// of those who built it, and on Linux the C library.
pub proof fn law_download_names(otp_version: Seq<char>)
    ensures
        forall|libc: Libc, arch: Arch|
            {
                let s = #[trigger] download_address(otp_version, Target { os: Os::Linux(libc), arch });
                &&& s is Some
                &&& ("https://github.com/gleam-community/erlang-linux-builds/releases/download/OTP-"@
                    + otp_version).is_prefix_of(s->0)
                &&& libc == Libc::Glibc && arch == Arch::X86_64 ==> "-x64-glibc.tar.gz"@.is_suffix_of(s->0)
                &&& libc == Libc::Musl && arch == Arch::X86_64 ==> "-x64-musl.tar.gz"@.is_suffix_of(s->0)
                &&& libc == Libc::Static && arch == Arch::X86_64 ==> "-x64.tar.gz"@.is_suffix_of(s->0)
                &&& libc == Libc::Glibc && arch == Arch::Aarch64 ==> "-arm64-glibc.tar.gz"@.is_suffix_of(s->0)
                &&& libc == Libc::Musl && arch == Arch::Aarch64 ==> "-arm64-musl.tar.gz"@.is_suffix_of(s->0)
                &&& libc == Libc::Static && arch == Arch::Aarch64 ==> "-arm64.tar.gz"@.is_suffix_of(s->0)
            },
        forall|arch: Arch|
            {
                let s = #[trigger] download_address(otp_version, Target { os: Os::Macos, arch });
                &&& s is Some
                &&& ("https://github.com/erlef/otp_builds/releases/download/OTP-"@
                    + otp_version).is_prefix_of(s->0)
                &&& arch == Arch::X86_64 ==> "-macos-amd64.tar.gz"@.is_suffix_of(s->0)
                &&& arch == Arch::Aarch64 ==> "-macos-arm64.tar.gz"@.is_suffix_of(s->0)
            },
        forall|arch: Arch|
            {
                let s = #[trigger] download_address(otp_version, Target { os: Os::Windows, arch });
                &&& s is Some <==> arch == Arch::X86_64
                &&& s is Some ==> ("https://github.com/erlang/otp/releases/download/OTP-"@
                    + otp_version).is_prefix_of(s->0) && ("/otp_win64_"@ + otp_version
                    + ".zip"@).is_suffix_of(s->0)
            },
{
    reveal_strlit("-");
    reveal_strlit("-macos-");
    reveal_strlit("x64");
    reveal_strlit("amd64");
    reveal_strlit("arm64");
    reveal_strlit("-glibc");
    reveal_strlit("-musl");
    reveal_strlit("");
    reveal_strlit(".tar.gz");
    reveal_strlit("-x64-glibc.tar.gz");
    reveal_strlit("-x64-musl.tar.gz");
    reveal_strlit("-x64.tar.gz");
    reveal_strlit("-arm64-glibc.tar.gz");
    reveal_strlit("-arm64-musl.tar.gz");
    reveal_strlit("-arm64.tar.gz");
    reveal_strlit("-macos-amd64.tar.gz");
    reveal_strlit("-macos-arm64.tar.gz");
    let end = ".tar.gz"@;
    let linux = "https://github.com/gleam-community/erlang-linux-builds/releases/download/OTP-"@
        + otp_version;
    let linux_front = linux + "/erlang-"@ + otp_version;
    let macos = "https://github.com/erlef/otp_builds/releases/download/OTP-"@ + otp_version;
    let macos_front = macos + "/OTP-"@ + otp_version;
    let windows = "https://github.com/erlang/otp/releases/download/OTP-"@ + otp_version;
    assert("-x64-glibc.tar.gz"@ =~= "-"@ + "x64"@ + "-glibc"@ + end);
    assert("-x64-musl.tar.gz"@ =~= "-"@ + "x64"@ + "-musl"@ + end);
    assert("-x64.tar.gz"@ =~= "-"@ + "x64"@ + ""@ + end);
    assert("-arm64-glibc.tar.gz"@ =~= "-"@ + "arm64"@ + "-glibc"@ + end);
    assert("-arm64-musl.tar.gz"@ =~= "-"@ + "arm64"@ + "-musl"@ + end);
    assert("-arm64.tar.gz"@ =~= "-"@ + "arm64"@ + ""@ + end);
    assert("-macos-amd64.tar.gz"@ =~= "-macos-"@ + "amd64"@ + end + ""@);
    assert("-macos-arm64.tar.gz"@ =~= "-macos-"@ + "arm64"@ + end + ""@);
    lemma_ends(linux_front, "-"@, "x64"@, "-glibc"@, end, "-x64-glibc.tar.gz"@);
    lemma_ends(linux_front, "-"@, "x64"@, "-musl"@, end, "-x64-musl.tar.gz"@);
    lemma_ends(linux_front, "-"@, "x64"@, ""@, end, "-x64.tar.gz"@);
    lemma_ends(linux_front, "-"@, "arm64"@, "-glibc"@, end, "-arm64-glibc.tar.gz"@);
    lemma_ends(linux_front, "-"@, "arm64"@, "-musl"@, end, "-arm64-musl.tar.gz"@);
    lemma_ends(linux_front, "-"@, "arm64"@, ""@, end, "-arm64.tar.gz"@);
    lemma_ends(macos_front, "-macos-"@, "amd64"@, end, ""@, "-macos-amd64.tar.gz"@);
    lemma_ends(macos_front, "-macos-"@, "arm64"@, end, ""@, "-macos-arm64.tar.gz"@);
    assert forall|libc: Libc, arch: Arch| {
        let s = #[trigger] download_address(otp_version, Target { os: Os::Linux(libc), arch });
        linux.is_prefix_of(s->0)
    } by {
        let s = download_address(otp_version, Target { os: Os::Linux(libc), arch })->0;
        assert(s.take(linux.len() as int) =~= linux);
    }
    assert forall|arch: Arch| {
        let s = #[trigger] download_address(otp_version, Target { os: Os::Macos, arch });
        &&& macos.is_prefix_of(s->0)
        &&& arch == Arch::X86_64 ==> "-macos-amd64.tar.gz"@.is_suffix_of(s->0)
        &&& arch == Arch::Aarch64 ==> "-macos-arm64.tar.gz"@.is_suffix_of(s->0)
    } by {
        let s = download_address(otp_version, Target { os: Os::Macos, arch })->0;
        assert(s.take(macos.len() as int) =~= macos);
        assert(s + ""@ =~= s);
    }
    assert forall|arch: Arch| {
        let s = #[trigger] download_address(otp_version, Target { os: Os::Windows, arch });
        s is Some ==> windows.is_prefix_of(s->0) && ("/otp_win64_"@ + otp_version
            + ".zip"@).is_suffix_of(s->0)
    } by {
        let t = "/otp_win64_"@ + otp_version + ".zip"@;
        let s = windows_address(otp_version);
        assert(s.take(windows.len() as int) =~= windows);
        assert(s.skip(s.len() - t.len()) =~= t);
    }
}


/// Where a downloaded runtime is kept: by its version and then by the target.
pub proof fn law_runtime_places(cache_dir: &str, otp_version: &str, target: Target, r: String)
    requires
        plain_base(cache_dir@),
        call_ensures(cache_dir_for, (cache_dir, otp_version, target), r),
    ensures
        is_path(cache_dir@, seq!["erts"@, "OTP-"@ + otp_version@, target.text()], r@),
{
}

/// Something is found just where the end is a good one, and what was downloaded is told from what
/// was there before.
pub proof fn law_resolution(
    end: ResolveStep,
    cache_dir: &str,
    otp_version: &str,
    target: Target,
    hash: &str,
    r: Option<ErtsResolution>,
)
    requires
        call_ensures(resolution, (end, cache_dir, otp_version, target, hash), r),
        target.os != Os::Windows || target.arch != Arch::Aarch64,
    ensures
        r is Some <==> end == ResolveStep::Cached || end == ResolveStep::Reused || end
            == ResolveStep::Installed,
        r matches Some(x) ==> (x is Downloaded <==> end == ResolveStep::Installed),
{
}

/// What a message says of a thing it names is that thing alone, and the rest of it is the same for
/// all.
pub proof fn law_messages(root: String, other: String, cause: FindError, status: String, url: String)
    ensures
        ({
            let a = ErtsError::Missing { root }.message();
            let b = ErtsError::Missing { root: other }.message();
            &&& root@.is_suffix_of(a)
            &&& a.take(a.len() - root@.len()) == b.take(b.len() - other@.len())
        }),
        ({
            let a = ErtsError::Invalid { root, cause }.message();
            let b = ErtsError::Invalid { root: other, cause }.message();
            &&& root@.is_suffix_of(a)
            &&& a.take(a.len() - root@.len()) == b.take(b.len() - other@.len())
        }),
        ({
            let a = ErtsError::NoErl { bin_dir: root }.message();
            let b = ErtsError::NoErl { bin_dir: other }.message();
            &&& root@.is_suffix_of(a)
            &&& a.take(a.len() - root@.len()) == b.take(b.len() - other@.len())
        }),
        url@.is_suffix_of((DownloadRefused { status, url }).message()),
        ("download failed with HTTP "@ + status@).is_prefix_of(
            (DownloadRefused { status, url }).message(),
        ),
{
    lemma_message("ERTS path does not exist: "@, root@, other@);
    lemma_message("invalid ERTS installation at "@, root@, other@);
    lemma_message("missing erl/erlexec binary in "@, root@, other@);
    let m = (DownloadRefused { status, url }).message();
    let head = "download failed with HTTP "@ + status@;
    assert(m.skip(m.len() - url@.len()) =~= url@);
    assert(m.take(head.len() as int) =~= head);
}

proof fn lemma_message(head: Seq<char>, s: Seq<char>, t: Seq<char>)
    ensures
        s.is_suffix_of(head + s),
        (head + s).take((head + s).len() - s.len()) == (head + t).take(
            (head + t).len() - t.len(),
        ),
{
    assert((head + s).skip(head.len() as int) =~= s);
    assert((head + s).take(head.len() as int) =~= (head + t).take(head.len() as int));
}

} // verus!
