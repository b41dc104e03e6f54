//! The decisions of a build: the tools it needs, what it checks, and where things are.

use vstd::prelude::*;
use vstd::string::*;
use vstd::utf8::*;

use crate::format::boot_path_fault;
use crate::launcher::{fingerprint, fingerprint_of};
use crate::paths::{is_join, is_path, join, join2, join3, plain_base, plain_child};
use crate::target::Target;
use crate::text::{
    all_white, end_trimmed, is_trim, pieces, prefix_trimmed, start_trimmed, trim,
    trim_start_matches, views,
};

verus! {

/// Why a tool is of no use.
#[derive(Debug)]
pub enum ToolError {
    GleamFailed,
    ZigMissing,
    ZigbuildFailed(String),
    ExportFailed(String),
    LauncherFailed(String),
}

impl ToolError {
    /// The message for this error.
    pub open spec fn message(self) -> Seq<char> {
        match self {
            ToolError::GleamFailed => "gleam --version failed"@,
            ToolError::ZigMissing =>
                "zig not found (install from https://ziglang.org/download/ or with: pip install ziglang)"@,
            ToolError::ZigbuildFailed(s) => "cargo-zigbuild --version failed: "@ + s@,
            ToolError::ExportFailed(s) => "gleam export erlang-shipment failed:\n"@ + s@,
            ToolError::LauncherFailed(s) => "launcher compilation failed:\n"@ + s@,
        }
    }

    pub fn to_string(&self) -> (r: String)
        ensures
            r@ == self.message(),
    {
        match self {
            ToolError::GleamFailed => String::from_str("gleam --version failed"),
            ToolError::ZigMissing => String::from_str(
                "zig not found (install from https://ziglang.org/download/ or with: pip install ziglang)",
            ),
            ToolError::ZigbuildFailed(s) => {
                let mut out = String::from_str("cargo-zigbuild --version failed: ");
                out.append(s.as_str());
                out
            },
            ToolError::ExportFailed(s) => {
                let mut out = String::from_str("gleam export erlang-shipment failed:\n");
                out.append(s.as_str());
                out
            },
            ToolError::LauncherFailed(s) => {
                let mut out = String::from_str("launcher compilation failed:\n");
                out.append(s.as_str());
                out
            },
        }
    }
}

/// What a tool that was run said.
#[derive(Debug)]
pub struct ToolOutput {
    pub success: bool,
    pub stdout: String,
    pub stderr: String,
}

/// The version in what a tool printed: without white space at the ends, and without the tool's
/// name and a space before it.
pub open spec fn version_in(stdout: Seq<char>, name: Seq<char>) -> Seq<char> {
    prefix_trimmed(end_trimmed(start_trimmed(stdout)), name)
}

/// The version of Gleam, by what `gleam --version` said.
pub fn check_gleam(output: &ToolOutput) -> (r: Result<String, ToolError>)
    ensures
        match r {
            Ok(v) => output.success && v@ == version_in(output.stdout@, "gleam "@),
            Err(e) => !output.success && e == ToolError::GleamFailed,
        },
{
    if !output.success {
        return Err(ToolError::GleamFailed);
    }
    let text = trim(output.stdout.as_str());
    Ok(trim_start_matches(text.as_str(), "gleam "))
}

/// Whether the Python package is asked for Zig: where `zig version` is of no use.
pub fn needs_python(zig: Option<&ToolOutput>) -> (r: bool)
    ensures
        r == !(zig matches Some(o) && o.success),
{
    match zig {
        Some(output) => !output.success,
        None => true,
    }
}

/// The version of Zig, by what `zig version` said and, where that is of no use, what the Python
/// package said. What could not be run is absent.
pub fn check_zig(zig: Option<&ToolOutput>, python: Option<&ToolOutput>) -> (r: Result<
    String,
    ToolError,
>)
    ensures
        ({
            let first = zig matches Some(o) && o.success;
            let second = python matches Some(o) && o.success;
            match r {
                Ok(v) => if first {
                    v@ == end_trimmed(start_trimmed(zig->0.stdout@))
                } else {
                    second && v@ == end_trimmed(start_trimmed(python->0.stdout@))
                },
                Err(e) => !first && !second && e == ToolError::ZigMissing,
            }
        }),
{
    if let Some(output) = zig {
        if output.success {
            return Ok(trim(output.stdout.as_str()));
        }
    }
    if let Some(output) = python {
        if output.success {
            return Ok(trim(output.stdout.as_str()));
        }
    }
    Err(ToolError::ZigMissing)
}

/// The version of cargo-zigbuild, by what `cargo-zigbuild --version` said.
pub fn check_cargo_zigbuild(output: &ToolOutput) -> (r: Result<String, ToolError>)
    ensures
        match r {
            Ok(v) => output.success && v@ == version_in(output.stdout@, "cargo-zigbuild "@),
            Err(e) => !output.success && (e matches ToolError::ZigbuildFailed(s) && s@
                == output.stderr@),
        },
{
    if !output.success {
        return Err(ToolError::ZigbuildFailed(output.stderr.clone()));
    }
    let text = trim(output.stdout.as_str());
    Ok(trim_start_matches(text.as_str(), "cargo-zigbuild "))
}

/// Checks what `gleam export erlang-shipment` came to.
pub fn gleam_build(output: &ToolOutput) -> (r: Result<(), ToolError>)
    ensures
        match r {
            Ok(_) => output.success,
            Err(e) => !output.success && (e matches ToolError::ExportFailed(s) && s@
                == output.stderr@),
        },
{
    if output.success {
        Ok(())
    } else {
        Err(ToolError::ExportFailed(output.stderr.clone()))
    }
}

/// Checks what compiling the launcher came to.
pub fn check_launcher_build(output: &ToolOutput) -> (r: Result<(), ToolError>)
    ensures
        match r {
            Ok(_) => output.success,
            Err(e) => !output.success && (e matches ToolError::LauncherFailed(s) && s@
                == output.stderr@),
        },
{
    if output.success {
        Ok(())
    } else {
        Err(ToolError::LauncherFailed(output.stderr.clone()))
    }
}

proof fn lemma_build_names()
    ensures
        plain_child("build"@),
        plain_child("erlang-shipment"@),
        plain_child("queso"@),
        plain_child("ebin"@),
        plain_child("releases"@),
        plain_child("no_dot_erlang"@),
        plain_child("no_dot_erlang.boot"@),
        plain_child("launcher"@),
        plain_child("launcher-build"@),
        plain_child("Cargo.toml"@),
        plain_child("target"@),
        plain_child("release"@),
{
    reveal_strlit("build");
    reveal_strlit("erlang-shipment");
    reveal_strlit("queso");
    reveal_strlit("ebin");
    reveal_strlit("releases");
    reveal_strlit("no_dot_erlang");
    reveal_strlit("no_dot_erlang.boot");
    reveal_strlit("launcher");
    reveal_strlit("launcher-build");
    reveal_strlit("Cargo.toml");
    reveal_strlit("target");
    reveal_strlit("release");
    assert("build"@[0] == 'b');
    assert("erlang-shipment"@[0] == 'e');
    assert("queso"@[0] == 'q');
    assert("ebin"@[0] == 'e');
    assert("releases"@[0] == 'r');
    assert("no_dot_erlang"@[0] == 'n');
    assert("no_dot_erlang.boot"@[0] == 'n');
    assert("launcher"@[0] == 'l');
    assert("launcher-build"@[0] == 'l');
    assert("Cargo.toml"@[0] == 'C');
    assert("target"@[0] == 't');
    assert("release"@[0] == 'r');
}

/// Where a project's compiled application is.
#[must_use]
pub fn gleam_erlang_build_dir(project_root: &str) -> (r: String)
    ensures
        plain_base(project_root@) ==> is_path(
            project_root@,
            seq!["build"@, "erlang-shipment"@],
            r@,
        ),
{
    proof {
        lemma_build_names();
    }
    join2(project_root, "build", "erlang-shipment")
}

/// Where a project's executables are put.
#[must_use]
pub fn output_dir(project_root: &str) -> (r: String)
    ensures
        plain_base(project_root@) ==> is_path(project_root@, seq!["build"@, "queso"@], r@),
{
    proof {
        lemma_build_names();
    }
    join2(project_root, "build", "queso")
}

/// A directory that was looked into for a file.
#[derive(Debug)]
pub struct DirProbe {
    pub name: String,
    pub is_dir: bool,
    pub has_file: bool,
}

/// Whether the file was found in a directory.
pub open spec fn has_hit(p: DirProbe) -> bool {
    p.is_dir && p.has_file
}

/// Whether the file was found in one of the directories.
pub open spec fn some_hit(probes: Seq<DirProbe>) -> bool {
    exists|i: int| 0 <= i < probes.len() && has_hit(#[trigger] probes[i])
}

/// The first directory in which the file was found.
pub fn first_hit(probes: &Vec<DirProbe>) -> (r: Option<usize>)
    ensures
        match r {
            Some(i) => {
                &&& i < probes@.len()
                &&& has_hit(probes@[i as int])
                &&& forall|j: int| 0 <= j < i ==> !has_hit(#[trigger] probes@[j])
            },
            None => forall|j: int| 0 <= j < probes@.len() ==> !has_hit(#[trigger] probes@[j]),
        },
{
    let mut i: usize = 0;
    while i < probes.len()
        invariant
            i <= probes.len(),
            forall|j: int| 0 <= j < i ==> !has_hit(#[trigger] probes@[j]),
        decreases probes.len() - i,
    {
        if probes[i].is_dir && probes[i].has_file {
            return Some(i);
        }
        i = i + 1;
    }
    None
}

/// Where the compiled entry module would be in an application of the build output.
pub fn beam_path(build_dir: &str, app: &str, beam_file: &str) -> (r: String)
    ensures
        plain_base(build_dir@) && plain_child(app@) && plain_child(beam_file@) ==> is_path(
            build_dir@,
            seq![app@, "ebin"@, beam_file@],
            r@,
        ),
{
    proof {
        lemma_build_names();
    }
    join3(build_dir, app, "ebin", beam_file)
}

/// An entry module that is not in the build output.
#[derive(Debug)]
pub struct EntrypointMissing {
    pub beam_file: String,
    pub build_dir: String,
}

impl EntrypointMissing {
    /// The message for this error.
    pub open spec fn message(self) -> Seq<char> {
        "entrypoint '"@ + self.beam_file@ + "' not found in build output at "@ + self.build_dir@
    }

    pub fn to_string(&self) -> (r: String)
        ensures
            r@ == self.message(),
    {
        let mut out = String::from_str("entrypoint '");
        out.append(self.beam_file.as_str());
        out.append("' not found in build output at ");
        out.append(self.build_dir.as_str());
        out
    }
}

/// Checks that the entry module is in the build output, by the applications that were looked
/// into for its file.
pub fn gleam_validate_entrypoint(project_root: &str, beam_file: &str, probes: &Vec<DirProbe>) -> (r:
    Result<(), EntrypointMissing>)
    ensures
        match r {
            Ok(_) => exists|i: int| 0 <= i < probes@.len() && has_hit(#[trigger] probes@[i]),
            Err(e) => {
                &&& forall|i: int| 0 <= i < probes@.len() ==> !has_hit(#[trigger] probes@[i])
                &&& e.beam_file@ == beam_file@
                &&& plain_base(project_root@) ==> is_path(
                    project_root@,
                    seq!["build"@, "erlang-shipment"@],
                    e.build_dir@,
                )
            },
        },
        r is Ok <==> some_hit(probes@),
{
    match first_hit(probes) {
        Some(_) => Ok(()),
        None => Err(
            EntrypointMissing {
                beam_file: String::from_str(beam_file),
                build_dir: gleam_erlang_build_dir(project_root),
            },
        ),
    }
}

/// Why no boot file was found.
#[derive(Debug)]
pub enum BootFileError {
    NoReleases { erts_root: String },
    NotFound { releases_dir: String },
}

impl BootFileError {
    /// The message for this error.
    pub open spec fn message(self) -> Seq<char> {
        match self {
            BootFileError::NoReleases { erts_root } =>
                "releases directory not found in ERTS at "@ + erts_root@,
            BootFileError::NotFound { releases_dir } => "no_dot_erlang.boot not found in "@
                + releases_dir@,
        }
    }

    pub fn to_string(&self) -> (r: String)
        ensures
            r@ == self.message(),
    {
        match self {
            BootFileError::NoReleases { erts_root } => {
                let mut out = String::from_str("releases directory not found in ERTS at ");
                out.append(erts_root.as_str());
                out
            },
            BootFileError::NotFound { releases_dir } => {
                let mut out = String::from_str("no_dot_erlang.boot not found in ");
                out.append(releases_dir.as_str());
                out
            },
        }
    }
}

/// Where a runtime's releases are.
pub fn releases_dir(erts_root: &str) -> (r: String)
    ensures
        plain_base(erts_root@) ==> is_join(erts_root@, "releases"@, r@),
{
    proof {
        lemma_build_names();
    }
    join(erts_root, "releases")
}

/// Where the boot file of a release would be.
pub fn boot_file_path(releases_dir: &str, release: &str) -> (r: String)
    ensures
        plain_base(releases_dir@) && plain_child(release@) ==> is_path(
            releases_dir@,
            seq![release@, "no_dot_erlang.boot"@],
            r@,
        ),
{
    proof {
        lemma_build_names();
    }
    join2(releases_dir, release, "no_dot_erlang.boot")
}

/// The boot file of a runtime, without its extension and by its path under the runtime's root:
/// that of the first release that has one, among the releases that were looked into. Those are
/// absent where the runtime has no directory of them.
pub fn find_boot_file(erts_root: &str, releases: Option<&Vec<DirProbe>>) -> (r: Result<
    String,
    BootFileError,
>)
    ensures
        match r {
            Ok(path) => {
                &&& releases is Some
                &&& exists|i: int|
                    #![trigger releases->0@[i]]
                    {
                        &&& 0 <= i < releases->0@.len()
                        &&& has_hit(releases->0@[i])
                        &&& forall|j: int| 0 <= j < i ==> !has_hit(#[trigger] releases->0@[j])
                        &&& plain_child(releases->0@[i].name@) ==> is_path(
                            "releases"@,
                            seq![releases->0@[i].name@, "no_dot_erlang"@],
                            path@,
                        )
                    }
            },
            Err(BootFileError::NoReleases { erts_root: shown }) => releases is None && shown@
                == erts_root@,
            Err(BootFileError::NotFound { releases_dir: shown }) => {
                &&& releases is Some
                &&& forall|i: int|
                    0 <= i < releases->0@.len() ==> !has_hit(#[trigger] releases->0@[i])
                &&& plain_base(erts_root@) ==> is_join(erts_root@, "releases"@, shown@)
            },
        },
        r is Ok <==> releases is Some && some_hit(releases->0@),
{
    proof {
        lemma_build_names();
    }
    let probes = match releases {
        Some(probes) => probes,
        None => {
            return Err(BootFileError::NoReleases { erts_root: String::from_str(erts_root) });
        },
    };
    match first_hit(probes) {
        Some(i) => {
            proof {
                reveal_strlit("releases");
            }
            let path = join2("releases", probes[i].name.as_str(), "no_dot_erlang");
            Ok(path)
        },
        None => Err(BootFileError::NotFound { releases_dir: releases_dir(erts_root) }),
    }
}

proof fn lemma_join_after_name(base: Seq<char>, child: Seq<char>, r: Seq<char>)
    requires
        base.len() > 2,
        base.last() != '/' && base.last() != '\\',
        is_join(base, child, r),
    ensures
        r == base.push('/') + child || r == base.push('\\') + child,
{
}

/// The boot file that is found in a release with a plain name is one that a launcher accepts.
pub proof fn law_boot_file_accepted(release: Seq<char>, path: Seq<char>)
    requires
        plain_child(release),
        !release.contains('/') && !release.contains('\\'),
        release != "."@ && release != ".."@,
        is_path("releases"@, seq![release, "no_dot_erlang"@], path),
    ensures
        boot_path_fault(path) is None,
{
    reveal_strlit("releases");
    reveal_strlit("no_dot_erlang");
    reveal_strlit(".");
    reveal_strlit("..");
    let root = "releases"@;
    let file = "no_dot_erlang"@;
    let parts = seq![release, file];
    let m = choose|m: Seq<char>|
        is_path(root, parts.drop_last(), m) && #[trigger] is_join(m, parts.last(), path);
    let first = parts.drop_last();
    assert(first =~= seq![release]);
    let n = choose|n: Seq<char>|
        is_path(root, first.drop_last(), n) && #[trigger] is_join(n, first.last(), m);
    assert(first.drop_last() =~= Seq::empty());
    assert(n == root);
    assert(root.last() == 's');
    lemma_join_after_name(root, release, m);
    assert(m.last() == release.last());
    assert(release.contains(release.last()));
    lemma_join_after_name(m, file, path);
    let sep_a = m[root.len() as int];
    let sep_b = path[m.len() as int];
    assert(m =~= root.push(sep_a) + release);
    assert(path =~= m.push(sep_b) + file);
    let rest = release.push(sep_b) + file;
    assert(path =~= root.push(sep_a) + rest);
    assert(!root.contains('/') && !root.contains('\\'));
    assert(!file.contains('/') && !file.contains('\\'));
    crate::text::lemma_pieces_split(root, sep_a, rest, '/', '\\');
    crate::text::lemma_pieces_split(release, sep_b, file, '/', '\\');
    crate::text::lemma_pieces_whole(file, '/', '\\');
    let p = pieces(path, '/', '\\');
    assert(p =~= seq![root, release, file]);
    assert(root.len() == 8 && file.len() == 13 && "."@.len() == 1 && ".."@.len() == 2);
    assert(!p.contains("."@));
    assert(!p.contains(".."@));
    assert(path[0] == 'r');
}

/// What the flags for removing debug information say: to remove it, to keep it, or nothing.
pub fn strip_flags(strip_beam: bool, no_strip_beam: bool) -> (r: Option<bool>)
    ensures
        r == (if strip_beam {
            Some(true)
        } else if no_strip_beam {
            Some(false)
        } else {
            None
        }),
{
    if strip_beam {
        Some(true)
    } else if no_strip_beam {
        Some(false)
    } else {
        None
    }
}

/// A runtime given for several targets at once.
#[derive(Debug, Clone, Copy, PartialEq, Eq, Structural)]
pub struct ErtsForSeveral;

impl ErtsForSeveral {
    /// The message for this error.
    pub open spec fn message(self) -> Seq<char> {
        "--erts cannot be used with multiple targets (each target needs a platform-specific ERTS)"@
    }

    pub fn to_string(&self) -> (r: String)
        ensures
            r@ == self.message(),
    {
        String::from_str(
            "--erts cannot be used with multiple targets (each target needs a platform-specific ERTS)",
        )
    }
}

/// Checks that a runtime is given for one target only.
pub fn check_erts_override(given: bool, target_count: usize) -> (r: Result<(), ErtsForSeveral>)
    ensures
        r is Err <==> given && target_count > 1,
{
    if given && target_count > 1 {
        Err(ErtsForSeveral)
    } else {
        Ok(())
    }
}

/// Where the launcher for a target is cached and built, and how it is built.
#[derive(Debug)]
pub struct LauncherPlan {
    pub launcher_dir: String,
    pub launcher_path: String,
    pub build_dir: String,
    pub manifest_path: String,
    pub built_binary: String,
    pub args: Vec<String>,
}

/// What tells the launchers of different releases apart: the release and the start of the hash
/// of the launcher's source.
pub open spec fn launcher_key(version: Seq<char>, source_hash: Seq<char>) -> Seq<char> {
    version + "-"@ + fingerprint_of(source_hash)->0
}

/// The file name of a launcher.
pub open spec fn launcher_name(target: Target) -> Seq<char> {
    "queso-launcher"@ + target.suffix()
}

proof fn lemma_launcher_names(target: Target)
    ensures
        plain_child(target.rust_text()),
        plain_child(launcher_name(target)),
{
    reveal_strlit("x86_64");
    reveal_strlit("aarch64");
    reveal_strlit("-apple-darwin");
    reveal_strlit("-pc-windows-gnu");
    reveal_strlit("-unknown-linux-gnu");
    reveal_strlit("-unknown-linux-musl");
    reveal_strlit("queso-launcher");
    reveal_strlit(".exe");
    reveal_strlit("");
    let s = target.rust_text();
    let t = launcher_name(target);
    assert("x86_64"@[0] == 'x' && "aarch64"@[0] == 'a' && "queso-launcher"@[0] == 'q');
    assert(forall|i: int| 0 <= i < s.len() ==> s[i] != ':');
    assert(forall|i: int| 0 <= i < t.len() ==> t[i] != ':');
}

/// The arguments that Cargo builds a launcher with: with Zig where it is built for another
/// machine.
pub open spec fn cargo_args(
    cross: bool,
    rust_target: Seq<char>,
    manifest_path: Seq<char>,
) -> Seq<Seq<char>> {
    seq![
        if cross {
            "zigbuild"@
        } else {
            "build"@
        },
        "--locked"@,
        "--release"@,
        "--target"@,
        rust_target,
        "--manifest-path"@,
        manifest_path,
    ]
}

/// Where the launcher for a target is cached and built, under the directory of all cached files,
/// and how it is built.
#[verifier::rlimit(40)]
pub fn launcher_plan(
    cache_dir: &str,
    version: &str,
    source_hash: &str,
    target: &Target,
    cross: bool,
) -> (r: LauncherPlan)
    requires
        encode_utf8(source_hash@).len() >= 12,
        fingerprint_of(source_hash@) is Some,
    ensures
        plain_base(cache_dir@) && plain_child(launcher_key(version@, source_hash@)) ==> {
            let key = launcher_key(version@, source_hash@);
            &&& is_path(cache_dir@, seq!["launcher"@, key, target.rust_text()], r.launcher_dir@)
            &&& is_join(r.launcher_dir@, launcher_name(*target), r.launcher_path@)
            &&& is_path(cache_dir@, seq!["launcher-build"@, key], r.build_dir@)
            &&& is_path(r.build_dir@, seq!["launcher"@, "Cargo.toml"@], r.manifest_path@)
            &&& is_path(
                r.build_dir@,
                seq![
                    "launcher"@,
                    "target"@,
                    target.rust_text(),
                    "release"@,
                    launcher_name(*target),
                ],
                r.built_binary@,
            )
        },
        views(r.args@) == cargo_args(cross, target.rust_text(), r.manifest_path@),
{
    let mark = match fingerprint(source_hash) {
        Some(s) => s,
        None => String::new(),
    };
    let mut key = String::from_str(version);
    key.append("-");
    key.append(mark.as_str());
    let rust_target = target.rust_target();
    let mut name = String::from_str("queso-launcher");
    name.append(target.exe_suffix());
    let launcher_dir = join3(cache_dir, "launcher", key.as_str(), rust_target.as_str());
    let launcher_path = join(launcher_dir.as_str(), name.as_str());
    let build_dir = join2(cache_dir, "launcher-build", key.as_str());
    let manifest_path = join2(build_dir.as_str(), "launcher", "Cargo.toml");
    let out_dir = join3(build_dir.as_str(), "launcher", "target", rust_target.as_str());
    let release_dir = join(out_dir.as_str(), "release");
    let built_binary = join(release_dir.as_str(), name.as_str());
    proof {
        lemma_build_names();
        lemma_launcher_names(*target);
        if plain_base(cache_dir@) && plain_child(key@) {
            let a = seq!["launcher"@, key@, target.rust_text()];
            assert forall|i: int| 0 <= i < a.len() implies plain_child(#[trigger] a[i]) by {}
            crate::paths::lemma_path_plain(cache_dir@, a, launcher_dir@);
            let b = seq!["launcher-build"@, key@];
            assert forall|i: int| 0 <= i < b.len() implies plain_child(#[trigger] b[i]) by {}
            crate::paths::lemma_path_plain(cache_dir@, b, build_dir@);
            let c = seq!["launcher"@, "target"@, target.rust_text()];
            assert forall|i: int| 0 <= i < c.len() implies plain_child(#[trigger] c[i]) by {}
            crate::paths::lemma_path_plain(build_dir@, c, out_dir@);
            crate::paths::lemma_join_plain(out_dir@, "release"@, release_dir@);
            crate::paths::lemma_path_push(build_dir@, c, "release"@, out_dir@, release_dir@);
            crate::paths::lemma_path_push(
                build_dir@,
                c.push("release"@),
                name@,
                release_dir@,
                built_binary@,
            );
            assert(c.push("release"@).push(name@) =~= seq![
                "launcher"@,
                "target"@,
                target.rust_text(),
                "release"@,
                launcher_name(*target),
            ]);
        }
    }
    let mut args: Vec<String> = Vec::new();
    args.push(
        String::from_str(
            if cross {
                "zigbuild"
            } else {
                "build"
            },
        ),
    );
    args.push(String::from_str("--locked"));
    args.push(String::from_str("--release"));
    args.push(String::from_str("--target"));
    args.push(rust_target);
    args.push(String::from_str("--manifest-path"));
    args.push(manifest_path.clone());
    assert(views(args@) =~= cargo_args(cross, target.rust_text(), manifest_path@));
    LauncherPlan { launcher_dir, launcher_path, build_dir, manifest_path, built_binary, args }
}

/// What is said where Cargo could not be run to build a launcher.
pub fn cargo_missing_message(cross: bool) -> (r: String)
    ensures
        r@ == (if cross {
            "failed to run cargo zigbuild (install with: cargo install cargo-zigbuild)"@
        } else {
            "failed to run cargo build"@
        }),
{
    if cross {
        String::from_str(
            "failed to run cargo zigbuild (install with: cargo install cargo-zigbuild)",
        )
    } else {
        String::from_str("failed to run cargo build")
    }
}

/// The stages of having a launcher for a target. Each succeeds or fails.
#[derive(Debug, Clone, Copy, PartialEq, Eq, Structural)]
pub enum LauncherStep {
    /// Look for the cached launcher. It succeeds where it is there.
    CheckCached,
    /// Look for the launcher's source. It succeeds where its directory is there.
    CheckSource,
    /// Unpack the source to a temporary directory.
    UnpackSource,
    /// Move the temporary directory to its place. It succeeds where the source is there then.
    MoveSource,
    /// Compile the launcher.
    Compile,
    /// Look for what was compiled. It succeeds where it is there.
    CheckBuilt,
    /// Copy what was compiled to the cache.
    Install,
    /// The cached launcher can be used.
    Ready,
    /// The failure is reported.
    Failed,
}

impl LauncherStep {
    /// Whether nothing is left to do.
    pub open spec fn is_final(self) -> bool {
        self == LauncherStep::Ready || self == LauncherStep::Failed
    }

    /// How many stages are left at most.
    pub open spec fn left(self) -> nat {
        match self {
            LauncherStep::CheckCached => 7,
            LauncherStep::CheckSource => 6,
            LauncherStep::UnpackSource => 5,
            LauncherStep::MoveSource => 4,
            LauncherStep::Compile => 3,
            LauncherStep::CheckBuilt => 2,
            LauncherStep::Install => 1,
            _ => 0,
        }
    }

    /// The stage after this one, by whether it succeeded.
    pub open spec fn after(self, succeeded: bool) -> LauncherStep {
        match (self, succeeded) {
            (LauncherStep::CheckCached, true) => LauncherStep::Ready,
            (LauncherStep::CheckCached, false) => LauncherStep::CheckSource,
            (LauncherStep::CheckSource, true) => LauncherStep::Compile,
            (LauncherStep::CheckSource, false) => LauncherStep::UnpackSource,
            (LauncherStep::UnpackSource, true) => LauncherStep::MoveSource,
            (LauncherStep::MoveSource, true) => LauncherStep::Compile,
            (LauncherStep::Compile, true) => LauncherStep::CheckBuilt,
            (LauncherStep::CheckBuilt, true) => LauncherStep::Install,
            (LauncherStep::Install, true) => LauncherStep::Ready,
            (LauncherStep::Ready, _) => LauncherStep::Ready,
            _ => LauncherStep::Failed,
        }
    }

    /// The stage after this one, by whether it succeeded.
    pub fn next(self, succeeded: bool) -> (r: LauncherStep)
        ensures
            r == self.after(succeeded),
    {
        match self {
            LauncherStep::CheckCached => if succeeded {
                LauncherStep::Ready
            } else {
                LauncherStep::CheckSource
            },
            LauncherStep::CheckSource => if succeeded {
                LauncherStep::Compile
            } else {
                LauncherStep::UnpackSource
            },
            LauncherStep::Ready => LauncherStep::Ready,
            step => {
                if !succeeded {
                    return LauncherStep::Failed;
                }
                match step {
                    LauncherStep::UnpackSource => LauncherStep::MoveSource,
                    LauncherStep::MoveSource => LauncherStep::Compile,
                    LauncherStep::Compile => LauncherStep::CheckBuilt,
                    LauncherStep::CheckBuilt => LauncherStep::Install,
                    LauncherStep::Install => LauncherStep::Ready,
                    _ => LauncherStep::Failed,
                }
            },
        }
    }
}

/// The stage that is reached when the stages come out as the results say, one after another.
pub open spec fn launcher_run(results: Seq<bool>) -> LauncherStep
    decreases results.len(),
{
    if results.len() == 0 {
        LauncherStep::CheckCached
    } else {
        launcher_run(results.drop_last()).after(results.last())
    }
}

proof fn lemma_launcher_progress(results: Seq<bool>)
    ensures
        launcher_run(results).left() + results.len() <= 7 || launcher_run(results).is_final(),
        launcher_run(results).left() == 0 <==> launcher_run(results).is_final(),
    decreases results.len(),
{
    if results.len() > 0 {
        lemma_launcher_progress(results.drop_last());
    }
}

/// Having a launcher ends after seven stages at most, whatever they come to.
pub proof fn law_launcher_ends(results: Seq<bool>)
    requires
        results.len() >= 7,
    ensures
        launcher_run(results).is_final(),
{
    lemma_launcher_progress(results);
}

proof fn lemma_launcher_path(results: Seq<bool>)
    ensures
        launcher_run(results) == LauncherStep::CheckCached ==> results.len() == 0,
        launcher_run(results) == LauncherStep::CheckSource ==> results =~= seq![false],
        launcher_run(results) == LauncherStep::UnpackSource ==> results =~= seq![false, false],
        launcher_run(results) == LauncherStep::MoveSource ==> results =~= seq![false, false, true],
        launcher_run(results) == LauncherStep::Compile ==> results =~= seq![false, true] || results
            =~= seq![false, false, true, true],
        launcher_run(results) == LauncherStep::CheckBuilt ==> results =~= seq![false, true, true]
            || results =~= seq![false, false, true, true, true],
        launcher_run(results) == LauncherStep::Install ==> results =~= seq![
            false,
            true,
            true,
            true,
        ] || results =~= seq![false, false, true, true, true, true],
        launcher_run(results) == LauncherStep::Ready ==> results.len() >= 1 && (results[0] || (
        results.len() >= 5 && results[1] && results[2] && results[3] && results[4]) || (
        results.len() >= 7 && !results[1] && results[2] && results[3] && results[4] && results[5]
            && results[6])),
    decreases results.len(),
{
    if results.len() > 0 {
        let before = results.drop_last();
        lemma_launcher_path(before);
        assert(results =~= before.push(results.last()));
    }
}

/// A launcher is used only where it was cached, or where its source was there or came to be
/// there, and compiling it, finding what was compiled and caching it all succeeded.
pub proof fn law_launcher_sound(results: Seq<bool>)
    requires
        launcher_run(results) == LauncherStep::Ready,
    ensures
        results.len() >= 1,
        results[0] || (results.len() >= 5 && results[1] && results[2] && results[3] && results[4])
            || (results.len() >= 7 && !results[1] && results[2] && results[3] && results[4]
            && results[5] && results[6]),
{
    lemma_launcher_path(results);
}

/// What is said where a launcher was compiled and is not there.
pub fn launcher_missing_message(built_binary: &str) -> (r: String)
    ensures
        r@ == "compiled launcher not found at "@ + built_binary@,
{
    let mut out = String::from_str("compiled launcher not found at ");
    out.append(built_binary);
    out
}

/// A launcher is built in the same way for this machine and for another, but for the command: with
/// the versions that the lock file has, optimised, for the target and from the manifest that are
/// given.
pub proof fn law_cargo_arguments(cross: bool, rust_target: Seq<char>, manifest_path: Seq<char>)
    ensures
        ({
            let args = cargo_args(cross, rust_target, manifest_path);
            &&& args.skip(1) == cargo_args(!cross, rust_target, manifest_path).skip(1)
            &&& args[0] == if cross {
                "zigbuild"@
            } else {
                "build"@
            }
            &&& args.contains("--locked"@)
            &&& args.contains("--release"@)
            &&& exists|i: int|
                1 <= i < args.len() - 1 && #[trigger] args[i] == "--target"@ && args[i + 1]
                    == rust_target
            &&& exists|i: int|
                1 <= i < args.len() - 1 && #[trigger] args[i] == "--manifest-path"@ && args[i + 1]
                    == manifest_path
            &&& args.len() == 7
        }),
{
    let args = cargo_args(cross, rust_target, manifest_path);
    assert(args.skip(1) =~= cargo_args(!cross, rust_target, manifest_path).skip(1));
    assert(args[1] == "--locked"@);
    assert(args[2] == "--release"@);
    assert(args[3] == "--target"@);
    assert(args[5] == "--manifest-path"@);
}

/// Planning a launcher for this machine and for another differ in the command alone, and what is
/// built is looked for where an optimised build for the target is put.
pub proof fn law_launcher_plans(
    cache_dir: &str,
    version: &str,
    source_hash: &str,
    target: Target,
    here: LauncherPlan,
    cross: LauncherPlan,
)
    requires
        encode_utf8(source_hash@).len() >= 12,
        fingerprint_of(source_hash@) is Some,
        call_ensures(launcher_plan, (cache_dir, version, source_hash, &target, false), here),
        call_ensures(launcher_plan, (cache_dir, version, source_hash, &target, true), cross),
    ensures
        here.args@.len() == 7,
        cross.args@.len() == 7,
        here.args@[0]@ == "build"@,
        cross.args@[0]@ == "zigbuild"@,
        forall|i: int| 1 <= i < 6 ==> (#[trigger] here.args@[i])@ == cross.args@[i]@,
        here.args@[6]@ == here.manifest_path@,
        cross.args@[6]@ == cross.manifest_path@,
        views(here.args@).contains("--release"@) && views(here.args@).contains("--locked"@),
        views(here.args@).contains(target.rust_text()),
        plain_base(cache_dir@) && plain_child(launcher_key(version@, source_hash@)) ==> is_path(
            here.build_dir@,
            seq![
                "launcher"@,
                "target"@,
                target.rust_text(),
                "release"@,
                "queso-launcher"@ + target.suffix(),
            ],
            here.built_binary@,
        ),
{
    let a = views(here.args@);
    let b = views(cross.args@);
    assert(a.len() == here.args@.len() && b.len() == cross.args@.len());
    assert(a == cargo_args(false, target.rust_text(), here.manifest_path@));
    assert(b == cargo_args(true, target.rust_text(), cross.manifest_path@));
    assert(a.len() == 7 && b.len() == 7);
    assert(a[1] == "--locked"@ && a[2] == "--release"@ && a[4] == target.rust_text());
    assert(a[0] == here.args@[0]@ && b[0] == cross.args@[0]@);
    assert(a[6] == here.args@[6]@ && b[6] == cross.args@[6]@);
    assert forall|i: int| 1 <= i < 6 implies (#[trigger] here.args@[i])@ == cross.args@[i]@ by {
        assert(a[i] == here.args@[i]@ && b[i] == cross.args@[i]@);
    }
}

/// The version of a tool is what it prints, without its own name before it and the white space
/// around it.
pub proof fn law_tool_versions(
    before: Seq<char>,
    name: Seq<char>,
    version: Seq<char>,
    after: Seq<char>,
)
    requires
        all_white(before),
        all_white(after),
        is_trim(name + version),
        is_trim(version),
        name.len() > 0,
        !name.is_prefix_of(version),
    ensures
        version_in(before + name + version + after, name) == version,
        version_in(before + version + after, name) == version,
{
    crate::text::law_trimmed(before, name + version, after);
    crate::text::law_trimmed(before, version, after);
    assert(before + (name + version) + after =~= before + name + version + after);
    crate::text::law_prefix_trimmed(name, 1, version);
    assert(crate::text::repeats(name, 0) =~= Seq::empty());
    assert(crate::text::repeats(name, 1) =~= name);
    crate::text::law_prefix_trimmed(name, 0, version);
    assert(crate::text::repeats(name, 0) + version =~= version);
}

/// Launchers of different releases, or of different sources by their fingerprints, are kept
/// apart, where the fingerprints are equally long.
pub proof fn law_launcher_keys_differ(
    version_a: Seq<char>,
    hash_a: Seq<char>,
    version_b: Seq<char>,
    hash_b: Seq<char>,
)
    requires
        fingerprint_of(hash_a) is Some,
        fingerprint_of(hash_b) is Some,
        fingerprint_of(hash_a)->0.len() == fingerprint_of(hash_b)->0.len(),
        launcher_key(version_a, hash_a) == launcher_key(version_b, hash_b),
    ensures
        version_a == version_b,
        fingerprint_of(hash_a) == fingerprint_of(hash_b),
{
    crate::launcher::law_app_dirs_differ(
        version_a,
        fingerprint_of(hash_a)->0,
        version_b,
        fingerprint_of(hash_b)->0,
    );
}

/// The launcher is named alike for every target but for the suffix.
pub proof fn law_launcher_names(a: Target, b: Target)
    ensures
        launcher_name(a).len() == "queso-launcher"@.len() + a.suffix().len(),
        "queso-launcher"@.is_prefix_of(launcher_name(a)),
        a.suffix().is_suffix_of(launcher_name(a)),
        a.suffix() == b.suffix() ==> launcher_name(a) == launcher_name(b),
{
    let s = launcher_name(a);
    assert(s.take("queso-launcher"@.len() as int) =~= "queso-launcher"@);
    assert(s.skip("queso-launcher"@.len() as int) =~= a.suffix());
}

/// When a launcher is ready and when it is not: it is ready just where it was cached, or where its
/// source was there, or was unpacked and moved, and was then compiled, found and copied to the
/// cache. Nothing else is tried, and no stage is left out.
pub proof fn law_launcher_ready(r: Seq<bool>)
    requires
        r.len() == 7,
    ensures
        launcher_run(r) == LauncherStep::Ready <==> r[0] || (r[1] && r[2] && r[3] && r[4]) || (!r[1]
            && r[2] && r[3] && r[4] && r[5] && r[6]),
        launcher_run(r) != LauncherStep::Ready ==> launcher_run(r) == LauncherStep::Failed,
{
    reveal_with_fuel(launcher_run, 8);
    let a = r.drop_last();
    let b = a.drop_last();
    let c = b.drop_last();
    let d = c.drop_last();
    let e = d.drop_last();
    let f = e.drop_last();
    assert(f.len() == 1 && f.last() == r[0] && f.drop_last().len() == 0);
    assert(e.last() == r[1] && d.last() == r[2] && c.last() == r[3] && b.last() == r[4]);
    assert(a.last() == r[5] && r.last() == r[6]);
}

/// The order of the stages: the cache first, then the source, which is unpacked and moved where it
/// is not there, then compiling, looking for the result, and copying it.
pub proof fn law_launcher_stages()
    ensures
        launcher_run(seq![]) == LauncherStep::CheckCached,
        launcher_run(seq![false]) == LauncherStep::CheckSource,
        launcher_run(seq![false, false]) == LauncherStep::UnpackSource,
        launcher_run(seq![false, false, true]) == LauncherStep::MoveSource,
        launcher_run(seq![false, false, true, true]) == LauncherStep::Compile,
        launcher_run(seq![false, true]) == LauncherStep::Compile,
        launcher_run(seq![false, true, true]) == LauncherStep::CheckBuilt,
        launcher_run(seq![false, true, true, true]) == LauncherStep::Install,
        launcher_run(seq![false, true, true, true, true]) == LauncherStep::Ready,
{
    reveal_with_fuel(launcher_run, 6);
    let a = seq![false];
    let b = seq![false, false];
    let c = seq![false, false, true];
    let d = seq![false, false, true, true];
    let e = seq![false, true];
    let f = seq![false, true, true];
    let g = seq![false, true, true, true];
    let h = seq![false, true, true, true, true];
    assert(a.drop_last() =~= seq![]);
    assert(b.drop_last() =~= a);
    assert(c.drop_last() =~= b);
    assert(d.drop_last() =~= c);
    assert(e.drop_last() =~= a);
    assert(f.drop_last() =~= e);
    assert(g.drop_last() =~= f);
    assert(h.drop_last() =~= g);
}

/// The version of Zig is taken from Zig itself where it says one, whatever the Python package
/// says, and else from the package just as Zig would have said it.
pub proof fn law_zig_versions(
    good: ToolOutput,
    bad: Option<&ToolOutput>,
    python: Option<&ToolOutput>,
    first: Result<String, ToolError>,
    second: Result<String, ToolError>,
)
    requires
        good.success,
        bad matches Some(o) ==> !o.success,
        call_ensures(check_zig, (Some(&good), python), first),
        call_ensures(check_zig, (bad, Some(&good)), second),
    ensures
        first is Ok,
        second is Ok,
        first->Ok_0@ == second->Ok_0@,
        first->Ok_0@ == end_trimmed(start_trimmed(good.stdout@)),
{
}

/// Flags say the same in whatever order they are thought of: to remove debug information wins over
/// keeping it, and without either nothing is said.
pub proof fn law_strip_flags(strip: bool, keep: bool, r: Option<bool>)
    requires
        call_ensures(strip_flags, (strip, keep), r),
    ensures
        r == Some(true) <==> strip,
        r == Some(false) <==> keep && !strip,
        r is None <==> !keep && !strip,
{
}


/// A tool is of use just where it ended well, whatever it said, and where it did not, what it said
/// of it is handed on.
pub proof fn law_tools(
    output: &ToolOutput,
    gleam: Result<String, ToolError>,
    zigbuild: Result<String, ToolError>,
    export: Result<(), ToolError>,
    build: Result<(), ToolError>,
    python: bool,
)
    requires
        call_ensures(check_gleam, (output,), gleam),
        call_ensures(check_cargo_zigbuild, (output,), zigbuild),
        call_ensures(gleam_build, (output,), export),
        call_ensures(check_launcher_build, (output,), build),
        call_ensures(needs_python, (Some(output),), python),
    ensures
        gleam is Ok <==> output.success,
        zigbuild is Ok <==> output.success,
        export is Ok <==> output.success,
        build is Ok <==> output.success,
        python <==> !output.success,
        zigbuild matches Err(e) ==> output.stderr@.is_suffix_of(e.message()),
        export matches Err(e) ==> output.stderr@.is_suffix_of(e.message()),
        build matches Err(e) ==> output.stderr@.is_suffix_of(e.message()),
{
    let s = output.stderr@;
    if let Err(e) = zigbuild {
        let m = e.message();
        assert(m.skip(m.len() - s.len()) =~= s);
    }
    if let Err(e) = export {
        let m = e.message();
        assert(m.skip(m.len() - s.len()) =~= s);
    }
    if let Err(e) = build {
        let m = e.message();
        assert(m.skip(m.len() - s.len()) =~= s);
    }
}

/// Each tool's version is what it prints behind its own name.
pub proof fn law_printed_versions(
    gleam_out: &ToolOutput,
    zigbuild_out: &ToolOutput,
    version: Seq<char>,
    gleam: Result<String, ToolError>,
    zigbuild: Result<String, ToolError>,
)
    requires
        gleam_out.success,
        zigbuild_out.success,
        is_trim(version),
        version.len() > 0,
        !("gleam "@.is_prefix_of(version)),
        !("cargo-zigbuild "@.is_prefix_of(version)),
        gleam_out.stdout@ == "gleam "@ + version + seq!['\n'],
        zigbuild_out.stdout@ == "cargo-zigbuild "@ + version + seq!['\n'],
        call_ensures(check_gleam, (gleam_out,), gleam),
        call_ensures(check_cargo_zigbuild, (zigbuild_out,), zigbuild),
    ensures
        gleam is Ok && gleam->Ok_0@ == version,
        zigbuild is Ok && zigbuild->Ok_0@ == version,
{
    reveal_strlit("gleam ");
    reveal_strlit("cargo-zigbuild ");
    let none = Seq::<char>::empty();
    let end = seq!['\n'];
    crate::text::law_white_space('\n');
    crate::text::law_white_space('g');
    crate::text::law_white_space('c');
    assert(all_white(end));
    assert(all_white(none));
    let a = "gleam "@ + version;
    let b = "cargo-zigbuild "@ + version;
    assert(a[0] == 'g' && b[0] == 'c');
    assert(a.last() == version.last() && b.last() == version.last());
    law_tool_versions(none, "gleam "@, version, end);
    law_tool_versions(none, "cargo-zigbuild "@, version, end);
    assert(none + "gleam "@ + version + end =~= gleam_out.stdout@);
    assert(none + "cargo-zigbuild "@ + version + end =~= zigbuild_out.stdout@);
}

/// The entry module is found just where some application of the build output has its file, in
/// whatever order they are looked into.
pub proof fn law_entry_found(
    project_root: &str,
    beam_file: &str,
    a: &Vec<DirProbe>,
    b: &Vec<DirProbe>,
    ra: Result<(), EntrypointMissing>,
    rb: Result<(), EntrypointMissing>,
)
    requires
        a@.to_set() == b@.to_set(),
        call_ensures(gleam_validate_entrypoint, (project_root, beam_file, a), ra),
        call_ensures(gleam_validate_entrypoint, (project_root, beam_file, b), rb),
    ensures
        ra is Ok <==> rb is Ok,
        ra is Ok <==> exists|p: DirProbe| #[trigger] a@.contains(p) && p.is_dir && p.has_file,
        ra matches Err(e) ==> e.beam_file@ == beam_file@,
{
    assert forall|p: DirProbe| a@.contains(p) <==> #[trigger] b@.contains(p) by {
        assert(a@.contains(p) <==> a@.to_set().contains(p));
        assert(b@.contains(p) <==> b@.to_set().contains(p));
    }
    if some_hit(a@) {
        let i = choose|i: int| 0 <= i < a@.len() && has_hit(#[trigger] a@[i]);
        assert(a@.contains(a@[i]));
        assert(b@.contains(a@[i]));
        let j = b@.index_of(a@[i]);
        assert(has_hit(b@[j]));
    }
    if some_hit(b@) {
        let i = choose|i: int| 0 <= i < b@.len() && has_hit(#[trigger] b@[i]);
        assert(b@.contains(b@[i]));
        let j = a@.index_of(b@[i]);
        assert(has_hit(a@[j]));
    }
    if exists|p: DirProbe| #[trigger] a@.contains(p) && p.is_dir && p.has_file {
        let p = choose|p: DirProbe| #[trigger] a@.contains(p) && p.is_dir && p.has_file;
        let j = a@.index_of(p);
        assert(has_hit(a@[j]));
    }
}

/// A boot file is found just where some release has one.
pub proof fn law_boot_file_found(
    erts_root: &str,
    releases: &Vec<DirProbe>,
    r: Result<String, BootFileError>,
    none: Result<String, BootFileError>,
)
    requires
        call_ensures(find_boot_file, (erts_root, Some(releases)), r),
        call_ensures(find_boot_file, (erts_root, None), none),
    ensures
        r is Ok <==> exists|i: int|
            0 <= i < releases@.len() && (#[trigger] releases@[i]).is_dir && releases@[i].has_file,
        none is Err && none->Err_0 is NoReleases,
        r matches Err(e) ==> e is NotFound,
{
    if some_hit(releases@) {
        let i = choose|i: int| 0 <= i < releases@.len() && has_hit(#[trigger] releases@[i]);
        assert(releases@[i].is_dir && releases@[i].has_file);
    } else if exists|i: int|
        0 <= i < releases@.len() && (#[trigger] releases@[i]).is_dir && releases@[i].has_file {
        let i = choose|i: int|
            0 <= i < releases@.len() && (#[trigger] releases@[i]).is_dir && releases@[i].has_file;
        assert(has_hit(releases@[i]));
    }
}

/// A runtime that is given is refused for several targets alone, and without one nothing is.
pub proof fn law_given_runtime(n: usize, given: Result<(), ErtsForSeveral>, not: Result<
    (),
    ErtsForSeveral,
>)
    requires
        call_ensures(check_erts_override, (true, n), given),
        call_ensures(check_erts_override, (false, n), not),
    ensures
        given is Ok <==> n <= 1,
        not is Ok,
{
}

} // verus!
