//! What a build is to do, settled before it does anything, and what it does for each target.

use vstd::prelude::*;
use vstd::string::*;

use crate::builder::{check_erts_override, gleam_erlang_build_dir, output_dir, strip_flags};
use crate::codec::lengths_fit;
use crate::erts::ErtsResolution;
use crate::format::{trailer_of, Metadata, MetadataText};
use crate::image::assembled;
use crate::launcher::{metadata_of, ReadError};
use crate::paths::{is_join, is_path, join, plain_base, plain_child};
use crate::project::{chosen, deduplicated, CompressionLevelError, Entrypoint, Project};
use crate::target::{output_filename, Target, TargetError, TargetFault};
use crate::text::replaced;
use crate::tree_shake::{is_absent, resolve, suffices, validate, AppGraph, MissingApps, NameSet};

verus! {

/// What the command line asks of a build.
#[derive(Debug)]
pub struct BuildOptions {
    pub targets: Vec<Target>,
    pub erts: Option<String>,
    pub entry: Option<String>,
    pub full_erts: bool,
    pub strip_beam: bool,
    pub no_strip_beam: bool,
    pub compression_level: Option<i32>,
}

/// What a build is to do.
#[derive(Debug)]
pub struct BuildPlan {
    pub targets: Vec<Target>,
    pub entry: Entrypoint,
    pub strip_beam: bool,
    pub compression_level: i32,
    pub full_erts: bool,
    pub output_dir: String,
    pub shipment_dir: String,
    pub title: String,
}

/// Why a build is refused.
#[derive(Debug)]
pub enum BuildRefused {
    Target(TargetError),
    ErtsForSeveral,
    CompressionLevel(CompressionLevelError),
}

impl BuildRefused {
    /// The message for this error.
    pub open spec fn message(self) -> Seq<char> {
        match self {
            BuildRefused::Target(e) => e@.message(),
            BuildRefused::ErtsForSeveral =>
                "--erts cannot be used with multiple targets (each target needs a platform-specific ERTS)"@,
            BuildRefused::CompressionLevel(e) => e.message(),
        }
    }

    pub fn to_string(&self) -> (r: String)
        ensures
            r@ == self.message(),
    {
        match self {
            BuildRefused::Target(e) => e.to_string(),
            BuildRefused::ErtsForSeveral => crate::builder::ErtsForSeveral.to_string(),
            BuildRefused::CompressionLevel(e) => e.to_string(),
        }
    }
}

/// The targets that a build is for, by the command line, the configuration and the machine.
pub open spec fn wanted_targets(
    project: Project,
    options: BuildOptions,
    arch: Seq<char>,
    os: Seq<char>,
) -> Result<Seq<Target>, TargetFault> {
    if options.targets@.len() > 0 {
        Ok(deduplicated(options.targets@))
    } else if project.config_targets().len() > 0 {
        Ok(deduplicated(project.config_targets()))
    } else {
        match Target::of_machine(arch, os) {
            Ok(t) => Ok(seq![t]),
            Err(e) => Err(e),
        }
    }
}

/// What the flags of the command line say of removing debug information.
pub open spec fn flagged(options: BuildOptions) -> Option<bool> {
    if options.strip_beam {
        Some(true)
    } else if options.no_strip_beam {
        Some(false)
    } else {
        None
    }
}

/// The compression level that is asked for.
pub open spec fn wanted_level(project: Project, options: BuildOptions) -> i32 {
    chosen(options.compression_level, project.config_level(), 9)
}

/// The module that is asked for.
pub open spec fn wanted_module(project: Project, options: BuildOptions) -> Seq<char> {
    let cli = match options.entry {
        Some(e) => Some(e@),
        None => None,
    };
    chosen(cli, project.config_entry(), project.name@)
}

/// Settles what a build is to do. What the command line asks for goes before the configuration.
/// The first thing that is wrong is reported: no target, a runtime given for several targets, a
/// compression level out of range.
pub fn plan_build(project: &Project, options: &BuildOptions, arch: &str, os: &str) -> (r: Result<
    BuildPlan,
    BuildRefused,
>)
    ensures
        ({
            let targets = wanted_targets(*project, *options, arch@, os@);
            let several = options.erts is Some && targets is Ok && targets->Ok_0.len() > 1;
            let level = wanted_level(*project, *options);
            match r {
                Ok(plan) => {
                    &&& targets == Ok::<Seq<Target>, TargetFault>(plan.targets@)
                    &&& !several
                    &&& 1 <= level <= 22
                    &&& plan.compression_level == level
                    &&& plan.strip_beam == chosen(
                        flagged(*options),
                        project.config_strip_beam(),
                        true,
                    )
                    &&& plan.full_erts == (options.full_erts || (project.queso_config matches Some(
                        c,
                    ) && c.full_erts == Some(true)))
                    &&& plan.entry.entry_module@ == replaced(
                        wanted_module(*project, *options),
                        '.',
                        "@"@,
                    )
                    &&& plan.entry.beam_file@ == plan.entry.entry_module@ + ".beam"@
                    &&& plain_base(project.root@) ==> is_path(
                        project.root@,
                        seq!["build"@, "queso"@],
                        plan.output_dir@,
                    )
                    &&& plain_base(project.root@) ==> is_path(
                        project.root@,
                        seq!["build"@, "erlang-shipment"@],
                        plan.shipment_dir@,
                    )
                    &&& plan.title@ == project.name@ + " v"@ + project.version@
                },
                Err(BuildRefused::Target(e)) => targets == Err::<Seq<Target>, TargetFault>(e@),
                Err(BuildRefused::ErtsForSeveral) => several,
                Err(BuildRefused::CompressionLevel(e)) => {
                    &&& targets is Ok
                    &&& !several
                    &&& !(1 <= level <= 22)
                    &&& e.level == level
                },
            }
        }),
{
    let targets = match project.resolve_targets(options.targets.as_slice(), arch, os) {
        Ok(targets) => targets,
        Err(e) => {
            return Err(BuildRefused::Target(e));
        },
    };
    proof {
        if options.targets@.len() == 0 && project.config_targets().len() == 0 {
            let one = seq![Target::of_machine(arch@, os@)->Ok_0];
            assert(one.drop_last() =~= Seq::empty());
            assert(deduplicated(one.drop_last()) =~= Seq::empty());
            assert(deduplicated(one) =~= one);
        }
        assert(wanted_targets(*project, *options, arch@, os@) == Ok::<Seq<Target>, TargetFault>(
            targets@,
        ));
    }
    match check_erts_override(options.erts.is_some(), targets.len()) {
        Ok(_) => {},
        Err(_) => {
            return Err(BuildRefused::ErtsForSeveral);
        },
    }
    let strip_beam = project.resolve_strip_beam(
        strip_flags(options.strip_beam, options.no_strip_beam),
    );
    let compression_level: i32 = match project.resolve_compression_level(
        options.compression_level,
    ) {
        Ok(level) => level,
        Err(e) => {
            return Err(BuildRefused::CompressionLevel(e));
        },
    };
    let entry = match &options.entry {
        Some(e) => project.resolve_entry(Some(e.as_str())),
        None => project.resolve_entry(None),
    };
    let full_erts = project.resolve_full_erts(options.full_erts);
    let mut title = project.name.clone();
    title.append(" v");
    title.append(project.version.as_str());
    Ok(
        BuildPlan {
            targets,
            entry,
            strip_beam,
            compression_level,
            full_erts,
            output_dir: output_dir(project.root.as_str()),
            shipment_dir: gleam_erlang_build_dir(project.root.as_str()),
            title,
        },
    )
}

/// What the command line gives goes before the configuration: where it names targets, a module,
/// a compression level or whether to remove debug information, projects that differ in their
/// configuration alone are built alike in that respect.
pub proof fn law_command_line_wins(
    a: Project,
    b: Project,
    options: BuildOptions,
    arch: Seq<char>,
    os: Seq<char>,
)
    ensures
        options.targets@.len() > 0 ==> wanted_targets(a, options, arch, os) == wanted_targets(
            b,
            options,
            arch,
            os,
        ),
        options.entry is Some ==> wanted_module(a, options) == wanted_module(b, options),
        options.compression_level is Some ==> wanted_level(a, options) == wanted_level(b, options),
        flagged(options) is Some ==> chosen(flagged(options), a.config_strip_beam(), true) == chosen(
            flagged(options),
            b.config_strip_beam(),
            true,
        ),
{
}

/// The applications that a target's runtime archive is limited to: those that are needed, each of
/// which must be there. Where some are not, the error lists all of them, in ascending order.
/// There is no limit where the whole runtime is bundled.
pub fn select_otp_apps(full_erts: bool, shipment_apps: &AppGraph, erts_apps: &AppGraph) -> (r:
    Result<Option<NameSet>, MissingApps>)
    ensures
        match r {
            Ok(None) => full_erts,
            Ok(Some(required)) => {
                &&& !full_erts
                &&& suffices(required@, shipment_apps@, erts_apps@)
                &&& forall|s: Set<Seq<char>>| #[trigger]
                    suffices(s, shipment_apps@, erts_apps@) ==> required@.subset_of(s)
                &&& forall|name: Seq<char>| #[trigger]
                    required@.contains(name) ==> !is_absent(shipment_apps@, erts_apps@, name)
            },
            Err(e) => {
                &&& !full_erts
                &&& e.missing@.len() > 0
                &&& crate::order::ascending(crate::text::views(e.missing@))
                &&& crate::text::views(e.missing@).no_duplicates()
                &&& forall|name: Seq<char>|
                    is_absent(shipment_apps@, erts_apps@, name) && (forall|
                        s: Set<Seq<char>>,
                    | #[trigger]
                        suffices(s, shipment_apps@, erts_apps@) ==> s.contains(name))
                        ==> #[trigger] crate::text::views(e.missing@).contains(name)
                &&& forall|s: Set<Seq<char>>, name: Seq<char>|
                    #![trigger suffices(s, shipment_apps@, erts_apps@), crate::text::views(e.missing@).contains(name)]
                    suffices(s, shipment_apps@, erts_apps@) && crate::text::views(
                        e.missing@,
                    ).contains(name) ==> s.contains(name) && is_absent(
                        shipment_apps@,
                        erts_apps@,
                        name,
                    )
            },
        },
{
    if full_erts {
        return Ok(None);
    }
    let required = resolve(shipment_apps, erts_apps);
    match validate(&required, shipment_apps, erts_apps) {
        Ok(_) => Ok(Some(required)),
        Err(e) => Err(e),
    }
}

/// What a target's executable says of itself and where it is put.
#[derive(Debug)]
pub struct TargetPlan {
    pub metadata: Metadata,
    pub path: String,
}

/// Settles what a target's executable says of itself and where it is put.
pub fn plan_target(
    project: &Project,
    build: &BuildPlan,
    target: &Target,
    erts_version: &str,
    erts_hash: &str,
    app_hash: &str,
    boot_path: &str,
) -> (r: TargetPlan)
    ensures
        r.metadata@ == (MetadataText {
            name: project.name@,
            version: project.version@,
            entry_module: build.entry.entry_module@,
            erts_version: erts_version@,
            erts_hash: erts_hash@,
            app_hash: app_hash@,
            boot_path: boot_path@,
        }),
        plain_base(build.output_dir@) && plain_child(
            executable_name(project.name@, project.version@, *target),
        ) ==> is_join(
            build.output_dir@,
            executable_name(project.name@, project.version@, *target),
            r.path@,
        ),
{
    let filename = output_filename(project.name.as_str(), project.version.as_str(), target);
    let metadata = Metadata {
        name: project.name.clone(),
        version: project.version.clone(),
        entry_module: build.entry.entry_module.clone(),
        erts_version: String::from_str(erts_version),
        erts_hash: String::from_str(erts_hash),
        app_hash: String::from_str(app_hash),
        boot_path: String::from_str(boot_path),
    };
    TargetPlan { metadata, path: join(build.output_dir.as_str(), filename.as_str()) }
}

/// The name of an executable.
pub open spec fn executable_name(name: Seq<char>, version: Seq<char>, target: Target) -> Seq<char> {
    name + "-"@ + version + "-"@ + target.text() + target.suffix()
}

/// Executables for different targets have different names, so that a build for several targets
/// overwrites none of them.
pub proof fn law_executables_differ(name: Seq<char>, version: Seq<char>, a: Target, b: Target)
    requires
        executable_name(name, version, a) == executable_name(name, version, b),
    ensures
        a == b,
{
    reveal_strlit(".exe");
    reveal_strlit("");
    let head = name + "-"@ + version + "-"@;
    let s = executable_name(name, version, a);
    let t = executable_name(name, version, b);
    crate::target::lemma_text_last(a);
    crate::target::lemma_text_last(b);
    let n = s.len() as int;
    if a.suffix().len() > 0 {
        assert(s[n - 1] == 'e');
    } else {
        assert(s[n - 1] == a.text().last());
    }
    if b.suffix().len() > 0 {
        assert(t[n - 1] == 'e');
    } else {
        assert(t[n - 1] == b.text().last());
    }
    assert(a.suffix().len() == b.suffix().len());
    let m = n - a.suffix().len();
    assert(s.take(m) =~= head + a.text());
    assert(t.take(m) =~= head + b.text());
    crate::target::lemma_text_ending(head, a, head, b);
}

/// What an executable says of itself that is built to call the given module.
pub open spec fn built_metadata(
    name: Seq<char>,
    version: Seq<char>,
    module: Seq<char>,
    erts_version: Seq<char>,
    erts_hash: Seq<char>,
    app_hash: Seq<char>,
    boot_path: Seq<char>,
) -> MetadataText {
    MetadataText {
        name,
        version,
        entry_module: replaced(module, '.', "@"@),
        erts_version,
        erts_hash,
        app_hash,
        boot_path,
    }
}

/// A build with plain names makes an executable that its launcher accepts, trailer and metadata:
/// the names of project and versions are those of single directories, the module is named with
/// letters, digits, `_`, `@` and `.`, the boot file was found in a release with a plain name, and
/// the archives are not empty, as packed ones never are.
pub proof fn law_built_is_accepted(
    name: Seq<char>,
    version: Seq<char>,
    module: Seq<char>,
    erts_version: Seq<char>,
    erts_hash: Seq<char>,
    app_hash: Seq<char>,
    release: Seq<char>,
    boot_path: Seq<char>,
    launcher: Seq<u8>,
    erts: Seq<u8>,
    app: Seq<u8>,
)
    requires
        crate::format::component_fault(crate::format::Field::Name, name) is None,
        crate::format::component_fault(crate::format::Field::Version, version) is None,
        crate::format::component_fault(crate::format::Field::ErtsVersion, erts_version) is None,
        module.len() > 0,
        forall|i: int|
            0 <= i < module.len() ==> (#[trigger] module[i]) == '.'
                || crate::format::is_module_char(module[i]),
        plain_child(release),
        !release.contains('/') && !release.contains('\\'),
        release != "."@ && release != ".."@,
        is_path("releases"@, seq![release, "no_dot_erlang"@], boot_path),
        erts.len() > 0,
        app.len() > 0,
        lengths_fit(
            built_metadata(
                name,
                version,
                module,
                erts_version,
                erts_hash,
                app_hash,
                boot_path,
            ).texts(),
        ),
        assembled(
            launcher,
            erts,
            app,
            built_metadata(
                name,
                version,
                module,
                erts_version,
                erts_hash,
                app_hash,
                boot_path,
            ),
        ).len() <= u64::MAX,
    ensures
        ({
            let metadata = built_metadata(
                name,
                version,
                module,
                erts_version,
                erts_hash,
                app_hash,
                boot_path,
            );
            let image = assembled(launcher, erts, app, metadata);
            &&& metadata.fault() is None
            &&& trailer_of(image) matches Ok(trailer)
            &&& trailer.validity(image.len()) is Ok
            &&& metadata_of(image, trailer) == Ok::<MetadataText, ReadError>(metadata)
        }),
{
    crate::project::law_entry_module_accepted(module);
    crate::builder::law_boot_file_accepted(release, boot_path);
    let metadata = built_metadata(
        name,
        version,
        module,
        erts_version,
        erts_hash,
        app_hash,
        boot_path,
    );
    crate::image::law_assembled_reads_back(launcher, erts, app, metadata);
    crate::launcher::law_metadata_comes_back(launcher, erts, app, metadata);
}

/// A line that a build shows.
#[derive(Debug)]
pub enum Line {
    Status { verb: String, message: String },
    Detail { label: String, value: String },
}

/// What a line shows.
pub enum LineText {
    Status { verb: Seq<char>, message: Seq<char> },
    Detail { label: Seq<char>, value: Seq<char> },
}

impl View for Line {
    type V = LineText;

    open spec fn view(&self) -> LineText {
        match self {
            Line::Status { verb, message } => LineText::Status { verb: verb@, message: message@ },
            Line::Detail { label, value } => LineText::Detail { label: label@, value: value@ },
        }
    }
}

/// What lines show.
pub open spec fn line_views(v: Seq<Line>) -> Seq<LineText> {
    Seq::new(v.len(), |i: int| v[i]@)
}

/// What is shown of how the runtime was come by.
pub open spec fn resolution_text(resolution: ErtsResolution) -> Seq<LineText> {
    match resolution {
        ErtsResolution::Cached { path, otp_version } => seq![
            LineText::Detail { label: "OTP"@, value: otp_version@ },
            LineText::Detail { label: "Cached"@, value: path@ },
        ],
        ErtsResolution::Downloaded { path, otp_version, url, hash } => seq![
            LineText::Status { verb: "Downloaded"@, message: "ERTS"@ },
            LineText::Detail { label: "OTP"@, value: otp_version@ },
            LineText::Detail { label: "Download"@, value: url@ },
            LineText::Detail { label: "Hash"@, value: hash@ },
        ],
    }
}

fn detail(label: &str, value: &str) -> (r: Line)
    ensures
        r@ == (LineText::Detail { label: label@, value: value@ }),
{
    Line::Detail { label: String::from_str(label), value: String::from_str(value) }
}

/// The lines that show how the runtime was come by, and where it is.
pub fn resolve_erts(resolution: &ErtsResolution) -> (r: (Vec<Line>, String))
    ensures
        line_views(r.0@) == resolution_text(*resolution),
        match resolution {
            ErtsResolution::Cached { path, .. } => r.1@ == path@,
            ErtsResolution::Downloaded { path, .. } => r.1@ == path@,
        },
{
    let mut lines: Vec<Line> = Vec::new();
    match resolution {
        ErtsResolution::Cached { path, otp_version } => {
            lines.push(detail("OTP", otp_version.as_str()));
            lines.push(detail("Cached", path.as_str()));
            assert(line_views(lines@) =~= resolution_text(*resolution));
            (lines, path.clone())
        },
        ErtsResolution::Downloaded { path, otp_version, url, hash } => {
            lines.push(
                Line::Status {
                    verb: String::from_str("Downloaded"),
                    message: String::from_str("ERTS"),
                },
            );
            lines.push(detail("OTP", otp_version.as_str()));
            lines.push(detail("Download", url.as_str()));
            lines.push(detail("Hash", hash.as_str()));
            assert(line_views(lines@) =~= resolution_text(*resolution));
            (lines, path.clone())
        },
    }
}

/// The sum of sizes.
pub open spec fn sum(sizes: Seq<u64>) -> nat
    decreases sizes.len(),
{
    if sizes.len() == 0 {
        0
    } else {
        sum(sizes.drop_last()) + sizes.last() as nat
    }
}

proof fn lemma_sum_grows(sizes: Seq<u64>, n: int)
    requires
        0 <= n <= sizes.len(),
    ensures
        sum(sizes.take(n)) <= sum(sizes),
    decreases sizes.len(),
{
    if n < sizes.len() {
        assert(sizes.drop_last().take(n) =~= sizes.take(n));
        lemma_sum_grows(sizes.drop_last(), n);
    } else {
        assert(sizes.take(n) =~= sizes);
    }
}

/// How much files take up together.
pub fn total_size(sizes: &Vec<u64>) -> (r: u64)
    requires
        sum(sizes@) <= u64::MAX,
    ensures
        r as nat == sum(sizes@),
{
    let mut total: u64 = 0;
    let mut i: usize = 0;
    assert(sizes@.take(0) =~= Seq::empty());
    while i < sizes.len()
        invariant
            i <= sizes.len(),
            sum(sizes@) <= u64::MAX,
            total as nat == sum(sizes@.take(i as int)),
        decreases sizes.len() - i,
    {
        proof {
            assert(sizes@.take(i + 1).drop_last() =~= sizes@.take(i as int));
            lemma_sum_grows(sizes@, i + 1);
        }
        total = total + sizes[i];
        i = i + 1;
    }
    assert(sizes@.take(sizes@.len() as int) =~= sizes@);
    total
}


/// The size of files together is that of some and of the others, and of one file it is its own.
pub proof fn law_sums(a: Seq<u64>, b: Seq<u64>)
    ensures
        sum(a + b) == sum(a) + sum(b),
        forall|x: u64| sum(#[trigger] seq![x]) == x,
    decreases b.len(),
{
    assert forall|x: u64| sum(#[trigger] seq![x]) == x by {
        assert(seq![x].drop_last() =~= Seq::empty());
        assert(sum(seq![x].drop_last()) == 0);
    }
    if b.len() == 0 {
        assert(a + b =~= a);
    } else {
        assert((a + b).drop_last() =~= a + b.drop_last());
        law_sums(a, b.drop_last());
    }
}

/// The name of an executable is put together from the project's name and version and the target,
/// in this order, and ends as programs of the target do.
pub proof fn law_executable_parts(name: Seq<char>, version: Seq<char>, target: Target)
    ensures
        ({
            let s = executable_name(name, version, target);
            let n = name.len() as int;
            let m = n + 1 + version.len();
            &&& s.len() == name.len() + version.len() + target.text().len()
                + target.suffix().len() + 2
            &&& s.take(n) == name
            &&& s[n] == '-'
            &&& s.subrange(n + 1, m) == version
            &&& s[m] == '-'
            &&& (target.text() + target.suffix()).is_suffix_of(s)
        }),
{
    reveal_strlit("-");
    let s = executable_name(name, version, target);
    let t = target.text() + target.suffix();
    let n = name.len() as int;
    assert(s.take(n) =~= name);
    assert(s.subrange(n + 1, n + 1 + version.len()) =~= version);
    assert(s.skip(s.len() - t.len()) =~= t);
}

/// What a build does follows from what each setting comes to by itself: the level, the flags and
/// the module of its options, the project's name and version in its title.
pub proof fn law_plan_settings(
    project: Project,
    options: BuildOptions,
    arch: &str,
    os: &str,
    r: Result<BuildPlan, BuildRefused>,
)
    requires
        call_ensures(plan_build, (&project, &options, arch, os), r),
        r is Ok,
    ensures
        ({
            let plan = r->Ok_0;
            &&& 1 <= plan.compression_level <= 22
            &&& options.compression_level matches Some(l) ==> plan.compression_level == l
            &&& options.strip_beam ==> plan.strip_beam
            &&& !options.strip_beam && options.no_strip_beam ==> !plan.strip_beam
            &&& options.full_erts ==> plan.full_erts
            &&& options.targets@.len() > 0 ==> plan.targets@.to_set() == options.targets@.to_set()
            &&& plan.targets@.len() > 0
            &&& plan.targets@.no_duplicates()
            &&& options.erts is Some ==> plan.targets@.len() == 1
            &&& options.entry matches Some(e) ==> plan.entry.entry_module@.len() == e@.len()
            &&& project.queso_config is None ==> {
                &&& options.compression_level is None ==> plan.compression_level == 9
                &&& !options.strip_beam && !options.no_strip_beam ==> plan.strip_beam
                &&& plan.full_erts == options.full_erts
                &&& options.entry is None ==> plan.entry.entry_module@.len() == project.name@.len()
                &&& options.targets@.len() == 0 ==> plan.targets@.len() == 1
            }
            &&& plan.title@ == project.name@ + seq![' ', 'v'] + project.version@
        }),
{
    reveal_strlit("@");
    reveal_strlit(" v");
    assert("@"@ =~= seq!['@']);
    assert(" v"@ =~= seq![' ', 'v']);
    crate::text::law_replaced_by_one(wanted_module(project, options), '.', '@');
    crate::project::law_deduplicated(options.targets@);
    crate::project::law_deduplicated(project.config_targets());
    if options.targets@.len() > 0 {
        assert(options.targets@.to_set().contains(options.targets@[0]));
        if deduplicated(options.targets@).len() == 0 {
            assert(!deduplicated(options.targets@).to_set().contains(options.targets@[0]));
        }
    } else if project.config_targets().len() > 0 {
        let t = project.config_targets();
        assert(t.to_set().contains(t[0]));
        if deduplicated(t).len() == 0 {
            assert(!deduplicated(t).to_set().contains(t[0]));
        }
    }
}

/// What an executable says of itself is what was given for it, each thing in its own place.
pub proof fn law_plan_metadata(
    project: Project,
    build: BuildPlan,
    target: Target,
    erts_version: &str,
    erts_hash: &str,
    app_hash: &str,
    boot_path: &str,
    r: TargetPlan,
)
    requires
        call_ensures(
            plan_target,
            (&project, &build, &target, erts_version, erts_hash, app_hash, boot_path),
            r,
        ),
    ensures
        r.metadata.name@ == project.name@,
        r.metadata.version@ == project.version@,
        r.metadata.entry_module@ == build.entry.entry_module@,
        r.metadata.erts_version@ == erts_version@,
        r.metadata.erts_hash@ == erts_hash@,
        r.metadata.app_hash@ == app_hash@,
        r.metadata.boot_path@ == boot_path@,
{
}

/// However the runtime was come by, its version is shown once, and where it is is said.
pub proof fn law_resolution_lines(resolution: ErtsResolution, r: (Vec<Line>, String))
    requires
        call_ensures(resolve_erts, (&resolution,), r),
    ensures
        match resolution {
            ErtsResolution::Cached { path, otp_version } => {
                &&& r.1@ == path@
                &&& r.0@.len() == 2
                &&& r.0@[0]@ == (LineText::Detail { label: "OTP"@, value: otp_version@ })
                &&& r.0@[1]@ == (LineText::Detail { label: "Cached"@, value: path@ })
            },
            ErtsResolution::Downloaded { path, otp_version, url, hash } => {
                &&& r.1@ == path@
                &&& r.0@.len() == 4
                &&& r.0@[0]@ == (LineText::Status { verb: "Downloaded"@, message: "ERTS"@ })
                &&& r.0@[1]@ == (LineText::Detail { label: "OTP"@, value: otp_version@ })
                &&& r.0@[2]@ == (LineText::Detail { label: "Download"@, value: url@ })
                &&& r.0@[3]@ == (LineText::Detail { label: "Hash"@, value: hash@ })
            },
        },
{
    let v = line_views(r.0@);
    assert(v.len() == r.0@.len());
    assert forall|i: int| 0 <= i < r.0@.len() implies (#[trigger] r.0@[i])@ == v[i] by {}
}


/// An executable is named alike wherever its name is made.
pub proof fn law_output_names(name: &str, version: &str, target: Target, r: String)
    requires
        call_ensures(output_filename, (name, version, &target), r),
    ensures
        r@ == executable_name(name@, version@, target),
{
}

} // verus!
