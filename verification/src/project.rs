//! What a project asks for, by its configuration and on the command line.

use vstd::prelude::*;
use vstd::string::*;

use crate::target::{Target, TargetError, TargetFault};
use crate::text::{replace, replaced, signed_decimal, signed_decimal_text};

verus! {

/// The settings that a project's configuration has for packaging.
#[derive(Debug)]
pub struct QuesoConfig {
    pub entry: Option<String>,
    pub targets: Vec<Target>,
    pub strip_beam: Option<bool>,
    pub compression_level: Option<i32>,
    pub full_erts: Option<bool>,
}

/// A project that is to be packaged.
#[derive(Debug)]
pub struct Project {
    pub name: String,
    pub version: String,
    pub root: String,
    pub queso_config: Option<QuesoConfig>,
}

/// What a project's manifest says.
#[derive(Debug)]
pub struct Manifest {
    pub name: String,
    pub version: String,
    pub queso_config: Option<QuesoConfig>,
}

/// A directory without a manifest.
#[derive(Debug)]
pub struct NotAProject {
    pub root: String,
}

impl NotAProject {
    /// The message for this error.
    pub open spec fn message(self) -> Seq<char> {
        "not a Gleam project: gleam.toml not found in "@ + self.root@
    }

    pub fn to_string(&self) -> (r: String)
        ensures
            r@ == self.message(),
    {
        let mut out = String::from_str("not a Gleam project: gleam.toml not found in ");
        out.append(self.root.as_str());
        out
    }
}

/// The module that a package starts, and the file it was compiled to.
#[derive(Debug, Clone)]
pub struct Entrypoint {
    pub entry_module: String,
    pub beam_file: String,
}

impl Entrypoint {
    /// The module's Erlang name has `@` where its Gleam name has `.`.
    #[must_use]
    pub fn new(module: &str) -> (r: Entrypoint)
        ensures
            r.entry_module@ == replaced(module@, '.', "@"@),
            r.beam_file@ == r.entry_module@ + ".beam"@,
    {
        let entry_module = replace(module, '.', "@");
        let mut beam_file = entry_module.clone();
        beam_file.append(".beam");
        Entrypoint { entry_module, beam_file }
    }
}

/// A compression level out of range.
#[derive(Debug, Clone, Copy, PartialEq, Eq, Structural)]
pub struct CompressionLevelError {
    pub level: i32,
}

impl CompressionLevelError {
    /// The message for this error.
    pub open spec fn message(self) -> Seq<char> {
        "compression_level must be between 1 and 22, got "@ + signed_decimal(self.level as int)
    }

    pub fn to_string(&self) -> (r: String)
        ensures
            r@ == self.message(),
    {
        let mut out = String::from_str("compression_level must be between 1 and 22, got ");
        out.append(signed_decimal_text(self.level).as_str());
        out
    }
}

/// The items of a list without repetitions: each stays where it came first.
pub open spec fn deduplicated<T>(s: Seq<T>) -> Seq<T>
    decreases s.len(),
{
    if s.len() == 0 {
        s
    } else {
        let before = deduplicated(s.drop_last());
        if before.contains(s.last()) {
            before
        } else {
            before.push(s.last())
        }
    }
}

/// A list without repetitions has the items of the list, each once.
pub proof fn law_deduplicated<T>(s: Seq<T>)
    ensures
        deduplicated(s).no_duplicates(),
        deduplicated(s).to_set() == s.to_set(),
    decreases s.len(),
{
    broadcast use vstd::seq_lib::group_seq_properties;

    if s.len() > 0 {
        law_deduplicated(s.drop_last());
        let before = deduplicated(s.drop_last());
        assert(s =~= s.drop_last().push(s.last()));
        assert(s.to_set() =~= s.drop_last().to_set().insert(s.last()));
        if before.contains(s.last()) {
            assert(before.to_set().contains(s.last()));
            assert(deduplicated(s).to_set() =~= s.to_set());
        } else {
            assert(before.push(s.last()).to_set() =~= before.to_set().insert(s.last()));
        }
    }
}

fn deduplicate(items: &[Target]) -> (r: Vec<Target>)
    ensures
        r@ == deduplicated(items@),
{
    let mut out: Vec<Target> = Vec::new();
    let mut i: usize = 0;
    assert(items@.take(0) =~= Seq::empty());
    while i < items.len()
        invariant
            i <= items.len(),
            out@ == deduplicated(items@.take(i as int)),
        decreases items.len() - i,
    {
        let item = items[i];
        let mut found = false;
        let mut j: usize = 0;
        while j < out.len()
            invariant
                j <= out.len(),
                found == exists|k: int| 0 <= k < j && out@[k] == item,
            decreases out.len() - j,
        {
            if out[j] == item {
                found = true;
            }
            j = j + 1;
        }
        assert(items@.take(i + 1).drop_last() =~= items@.take(i as int));
        if !found {
            out.push(item);
        }
        i = i + 1;
    }
    assert(items@.take(items@.len() as int) =~= items@);
    out
}

/// What the command line asks for, else what the configuration has, else the default.
pub open spec fn chosen<T>(cli: Option<T>, config: Option<T>, default: T) -> T {
    match cli {
        Some(x) => x,
        None => match config {
            Some(x) => x,
            None => default,
        },
    }
}

impl Project {
    /// The project in a directory, by its manifest, which is absent where there is none.
    pub fn load(root: &str, manifest: Option<Manifest>) -> (r: Result<Project, NotAProject>)
        ensures
            match r {
                Ok(p) => manifest matches Some(m) && p.name == m.name && p.version == m.version
                    && p.root@ == root@ && p.queso_config == m.queso_config,
                Err(e) => manifest is None && e.root@ == root@,
            },
    {
        match manifest {
            Some(m) => Ok(
                Project {
                    name: m.name,
                    version: m.version,
                    root: String::from_str(root),
                    queso_config: m.queso_config,
                },
            ),
            None => Err(NotAProject { root: String::from_str(root) }),
        }
    }

    /// The strip setting of the configuration.
    pub open spec fn config_strip_beam(self) -> Option<bool> {
        match self.queso_config {
            Some(c) => c.strip_beam,
            None => None,
        }
    }

    /// The compression level of the configuration.
    pub open spec fn config_level(self) -> Option<i32> {
        match self.queso_config {
            Some(c) => c.compression_level,
            None => None,
        }
    }

    /// The entry module of the configuration.
    pub open spec fn config_entry(self) -> Option<Seq<char>> {
        match self.queso_config {
            Some(c) => match c.entry {
                Some(e) => Some(e@),
                None => None,
            },
            None => None,
        }
    }

    /// The targets of the configuration.
    pub open spec fn config_targets(self) -> Seq<Target> {
        match self.queso_config {
            Some(c) => c.targets@,
            None => Seq::empty(),
        }
    }

    /// The targets to build for: those of the command line, else those of the configuration,
    /// else the machine itself, which Rust describes as `arch` and `os`. No target is repeated.
    pub fn resolve_targets(&self, cli_targets: &[Target], arch: &str, os: &str) -> (r: Result<
        Vec<Target>,
        TargetError,
    >)
        ensures
            ({
                let wanted = if cli_targets@.len() > 0 {
                    Ok(cli_targets@)
                } else if self.config_targets().len() > 0 {
                    Ok(self.config_targets())
                } else {
                    match Target::of_machine(arch@, os@) {
                        Ok(t) => Ok(seq![t]),
                        Err(e) => Err::<Seq<Target>, TargetFault>(e),
                    }
                };
                match r {
                    Ok(v) => wanted is Ok && v@ == deduplicated(wanted->Ok_0),
                    Err(e) => wanted == Err::<Seq<Target>, TargetFault>(e@),
                }
            }),
    {
        if cli_targets.len() > 0 {
            return Ok(deduplicate(cli_targets));
        }
        if let Some(config) = &self.queso_config {
            if config.targets.len() > 0 {
                return Ok(deduplicate(config.targets.as_slice()));
            }
        }
        match Target::current(arch, os) {
            Ok(t) => {
                let mut one: Vec<Target> = Vec::new();
                one.push(t);
                assert(one@ =~= seq![t]);
                Ok(deduplicate(one.as_slice()))
            },
            Err(e) => Err(e),
        }
    }

    /// Whether debug information is removed, which is the default.
    #[must_use]
    pub fn resolve_strip_beam(&self, cli_strip_beam: Option<bool>) -> (r: bool)
        ensures
            r == chosen(cli_strip_beam, self.config_strip_beam(), true),
    {
        if let Some(strip) = cli_strip_beam {
            return strip;
        }
        if let Some(config) = &self.queso_config {
            if let Some(strip) = config.strip_beam {
                return strip;
            }
        }
        true
    }

    /// The compression level, 9 by default. It must lie between 1 and 22.
    pub fn resolve_compression_level(&self, cli_level: Option<i32>) -> (r: Result<
        i32,
        CompressionLevelError,
    >)
        ensures
            ({
                let level = chosen(cli_level, self.config_level(), 9);
                if 1 <= level <= 22 {
                    r == Ok::<i32, CompressionLevelError>(level)
                } else {
                    r == Err::<i32, CompressionLevelError>(CompressionLevelError { level })
                }
            }),
    {
        let mut level: i32 = 9;
        if let Some(l) = cli_level {
            level = l;
        } else if let Some(config) = &self.queso_config {
            if let Some(l) = config.compression_level {
                level = l;
            }
        }
        if 1 <= level && level <= 22 {
            Ok(level)
        } else {
            Err(CompressionLevelError { level })
        }
    }

    /// Whether the whole runtime is bundled: where the command line or the configuration asks
    /// for it.
    #[must_use]
    pub fn resolve_full_erts(&self, cli_full_erts: bool) -> (r: bool)
        ensures
            r == (cli_full_erts || (self.queso_config matches Some(c) && c.full_erts == Some(
                true,
            ))),
    {
        if cli_full_erts {
            return true;
        }
        if let Some(config) = &self.queso_config {
            if let Some(full) = config.full_erts {
                return full;
            }
        }
        false
    }

    /// The module to start: by default the one named like the project.
    #[must_use]
    pub fn resolve_entry(&self, cli_entry: Option<&str>) -> (r: Entrypoint)
        ensures
            ({
                let cli = match cli_entry {
                    Some(e) => Some(e@),
                    None => None,
                };
                let module = chosen(cli, self.config_entry(), self.name@);
                &&& r.entry_module@ == replaced(module, '.', "@"@)
                &&& r.beam_file@ == r.entry_module@ + ".beam"@
            }),
    {
        if let Some(module) = cli_entry {
            return Entrypoint::new(module);
        }
        if let Some(config) = &self.queso_config {
            if let Some(module) = &config.entry {
                return Entrypoint::new(module.as_str());
            }
        }
        Entrypoint::new(self.name.as_str())
    }
}

proof fn lemma_entry_chars(module: Seq<char>)
    requires
        forall|i: int|
            0 <= i < module.len() ==> (#[trigger] module[i]) == '.'
                || crate::format::is_module_char(module[i]),
    ensures
        replaced(module, '.', "@"@).len() == module.len(),
        forall|i: int|
            0 <= i < module.len() ==> crate::format::is_module_char(
                #[trigger] replaced(module, '.', "@"@)[i],
            ),
    decreases module.len(),
{
    reveal_strlit("@");
    if module.len() > 0 {
        let rest = module.drop_last();
        assert forall|i: int| 0 <= i < rest.len() implies (#[trigger] rest[i]) == '.'
            || crate::format::is_module_char(rest[i]) by {
            assert(rest[i] == module[i]);
        }
        lemma_entry_chars(rest);
        assert("@"@.len() == 1 && "@"@[0] == '@');
        assert(module[module.len() - 1] == module.last());
    }
}

proof fn lemma_accepted_chars(module: Seq<char>)
    requires
        forall|i: int|
            0 <= i < replaced(module, '.', "@"@).len() ==> crate::format::is_module_char(
                #[trigger] replaced(module, '.', "@"@)[i],
            ),
    ensures
        replaced(module, '.', "@"@).len() == module.len(),
        forall|i: int|
            0 <= i < module.len() ==> (#[trigger] module[i]) == '.'
                || crate::format::is_module_char(module[i]),
    decreases module.len(),
{
    reveal_strlit("@");
    if module.len() > 0 {
        let rest = module.drop_last();
        let all = replaced(module, '.', "@"@);
        let before = replaced(rest, '.', "@"@);
        assert forall|i: int| 0 <= i < before.len() implies crate::format::is_module_char(
            #[trigger] before[i],
        ) by {
            assert(all[i] == before[i]);
        }
        lemma_accepted_chars(rest);
        assert("@"@.len() == 1);
        assert forall|i: int| 0 <= i < module.len() implies (#[trigger] module[i]) == '.'
            || crate::format::is_module_char(module[i]) by {
            if i < rest.len() {
                assert(rest[i] == module[i]);
            } else if module.last() != '.' {
                assert(all[before.len() as int] == module.last());
            }
        }
    }
}

/// A module gives an entry module that a launcher accepts just where it has a name and is named
/// with letters, digits, `_`, `@` and `.`.
pub proof fn law_entry_module_accepted(module: Seq<char>)
    ensures
        crate::format::entry_module_fault(replaced(module, '.', "@"@)) is None <==> module.len() > 0
            && forall|i: int|
            0 <= i < module.len() ==> (#[trigger] module[i]) == '.'
                || crate::format::is_module_char(module[i]),
{
    if forall|i: int|
        0 <= i < module.len() ==> (#[trigger] module[i]) == '.' || crate::format::is_module_char(
            module[i],
        ) {
        lemma_entry_chars(module);
    }
    if crate::format::entry_module_fault(replaced(module, '.', "@"@)) is None {
        lemma_accepted_chars(module);
    }
}


/// What comes first stays first: the list without repetitions of a beginning is a beginning of the
/// list without repetitions, and a list that repeats nothing stays as it is.
pub proof fn law_first_stays<T>(s: Seq<T>, n: int)
    requires
        0 <= n <= s.len(),
    ensures
        deduplicated(s.take(n)).is_prefix_of(deduplicated(s)),
        s.no_duplicates() ==> deduplicated(s) == s,
    decreases s.len(),
{
    let d = deduplicated(s);
    if n == s.len() {
        assert(s.take(n) =~= s);
        assert(d.take(d.len() as int) =~= d);
    } else {
        let before = deduplicated(s.drop_last());
        law_first_stays(s.drop_last(), n);
        assert(s.drop_last().take(n) =~= s.take(n));
        let c = deduplicated(s.take(n));
        assert(c =~= before.take(c.len() as int));
        assert(d.take(c.len() as int) =~= before.take(c.len() as int));
    }
    if s.len() > 0 && s.no_duplicates() {
        let rest = s.drop_last();
        assert(rest.no_duplicates());
        law_first_stays(rest, 0);
        if rest.contains(s.last()) {
            let i = rest.index_of(s.last());
            assert(s[i] == s[s.len() - 1]);
        }
        assert(d =~= s);
    }
}

/// What a module is called in Erlang and what file it was compiled to: the names differ from the
/// module's in nothing but the dots, and from one another in the extension.
pub proof fn law_entrypoint_names(module: &str, r: Entrypoint)
    requires
        call_ensures(Entrypoint::new, (module,), r),
    ensures
        r.entry_module@.len() == module@.len(),
        r.beam_file@.len() == module@.len() + 5,
        forall|i: int|
            0 <= i < module@.len() ==> (#[trigger] r.entry_module@[i]) == (if module@[i] == '.' {
                '@'
            } else {
                module@[i]
            }) && r.beam_file@[i] == r.entry_module@[i],
        r.beam_file@.skip(module@.len() as int) == seq!['.', 'b', 'e', 'a', 'm'],
{
    reveal_strlit("@");
    reveal_strlit(".beam");
    assert("@"@ =~= seq!['@']);
    crate::text::law_replaced_by_one(module@, '.', '@');
    assert(r.beam_file@.skip(module@.len() as int) =~= seq!['.', 'b', 'e', 'a', 'm']);
}

/// The compression level that is used: what the command line gives, whatever the configuration
/// has; else what the configuration gives; else nine. It is refused just where it does not lie
/// between one and twenty-two.
pub proof fn law_levels(p: Project, cli: Option<i32>, r: Result<i32, CompressionLevelError>)
    requires
        call_ensures(Project::resolve_compression_level, (&p, cli), r),
    ensures
        cli matches Some(l) ==> (r is Ok <==> 1 <= l <= 22) && (r matches Ok(x) ==> x == l) && (
        r matches Err(e) ==> e.level == l),
        cli is None ==> (p.queso_config matches Some(c) ==> (c.compression_level matches Some(l)
            ==> (r is Ok <==> 1 <= l <= 22) && (r matches Ok(x) ==> x == l) && (r matches Err(
            e,
        ) ==> e.level == l))),
        cli is None && (p.queso_config matches Some(c) ==> c.compression_level is None) ==> r
            == Ok::<i32, CompressionLevelError>(9),
{
}

/// Whether debug information is removed: as the command line says, whatever the configuration has;
/// else as the configuration says; else it is.
pub proof fn law_strip_setting(p: Project, cli: Option<bool>, r: bool)
    requires
        call_ensures(Project::resolve_strip_beam, (&p, cli), r),
    ensures
        cli matches Some(x) ==> r == x,
        cli is None ==> (p.queso_config matches Some(c) ==> (c.strip_beam matches Some(x) ==> r
            == x)),
        cli is None && (p.queso_config matches Some(c) ==> c.strip_beam is None) ==> r,
{
}

/// The whole runtime is bundled where either place asks for it; neither takes the other's wish
/// back, and by default it is not.
pub proof fn law_full_runtime(p: Project, asked: bool, not_asked: bool)
    requires
        call_ensures(Project::resolve_full_erts, (&p, true), asked),
        call_ensures(Project::resolve_full_erts, (&p, false), not_asked),
    ensures
        asked,
        not_asked == (match p.queso_config {
            Some(c) => match c.full_erts {
                Some(x) => x,
                None => false,
            },
            None => false,
        }),
{
}

/// The module that is started: the one of the command line, else that of the configuration, else
/// the one named like the project, each just as if its name had been given by itself.
pub proof fn law_entry_choice(p: Project, given: Option<&str>, module: &str, r: Entrypoint, e: Entrypoint)
    requires
        call_ensures(Project::resolve_entry, (&p, given), r),
        call_ensures(Entrypoint::new, (module,), e),
        match given {
            Some(m) => module@ == m@,
            None => match p.queso_config {
                Some(c) => match c.entry {
                    Some(m) => module@ == m@,
                    None => module@ == p.name@,
                },
                None => module@ == p.name@,
            },
        },
    ensures
        r.entry_module@ == e.entry_module@,
        r.beam_file@ == e.beam_file@,
{
}

/// The targets that are built for: those of the command line, else those of the configuration,
/// each once and in their order; else the machine itself. Naming targets never fails.
pub proof fn law_target_choice(
    p: Project,
    given: &[Target],
    arch: &str,
    os: &str,
    r: Result<Vec<Target>, TargetError>,
)
    requires
        call_ensures(Project::resolve_targets, (&p, given, arch, os), r),
    ensures
        ({
            let configured = match p.queso_config {
                Some(c) => c.targets@,
                None => Seq::empty(),
            };
            let listed = if given@.len() > 0 {
                given@
            } else {
                configured
            };
            &&& listed.len() > 0 ==> r is Ok && r->Ok_0@.to_set() == listed.to_set()
                && r->Ok_0@.no_duplicates() && r->Ok_0@[0] == listed[0]
            &&& listed.len() > 0 && listed.no_duplicates() ==> r->Ok_0@ == listed
            &&& listed.len() == 0 ==> (r is Ok <==> Target::of_machine(arch@, os@) is Ok)
            &&& listed.len() == 0 && r is Ok ==> r->Ok_0@ == seq![
                Target::of_machine(arch@, os@)->Ok_0,
            ]
        }),
{
    let listed = if given@.len() > 0 {
        given@
    } else {
        p.config_targets()
    };
    if listed.len() > 0 {
        law_deduplicated(listed);
        law_first_stays(listed, listed.len() as int);
        law_first_stays(listed, 1);
        let one = listed.take(1);
        assert(one.no_duplicates());
        law_first_stays(one, 1);
        assert(one[0] == listed[0]);
        assert(deduplicated(listed).take(1)[0] == listed[0]);
    } else if Target::of_machine(arch@, os@) is Ok {
        let one = seq![Target::of_machine(arch@, os@)->Ok_0];
        assert(one.no_duplicates());
        law_first_stays(one, 1);
    }
}

} // verus!
