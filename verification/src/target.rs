//! The platforms that executables are built for.

use vstd::prelude::*;
use vstd::string::*;

use crate::text::{pieces, same, split, split_once, strip_prefix, views};

verus! {

#[derive(Debug, Clone, Copy, PartialEq, Eq, Hash, Structural)]
pub enum Libc {
    Glibc,
    Musl,
    Static,
}

#[derive(Debug, Clone, Copy, PartialEq, Eq, Hash, Structural)]
pub enum Os {
    Linux(Libc),
    Macos,
    Windows,
}

#[derive(Debug, Clone, Copy, PartialEq, Eq, Hash, Structural)]
pub enum Arch {
    X86_64,
    Aarch64,
}

#[derive(Debug, Clone, Copy, PartialEq, Eq, Hash, Structural)]
pub struct Target {
    pub os: Os,
    pub arch: Arch,
}

/// Why a text names no target.
#[derive(Debug)]
pub enum TargetError {
    Format(String),
    Architecture(String),
    MissingLibc(String),
    UnknownLibc(String),
    UnknownOs(String),
    CurrentArchitecture(String),
    CurrentOs(String),
}

/// The kinds of [`TargetError`], each with the text it is about.
pub enum TargetFault {
    Format(Seq<char>),
    Architecture(Seq<char>),
    MissingLibc(Seq<char>),
    UnknownLibc(Seq<char>),
    UnknownOs(Seq<char>),
    CurrentArchitecture(Seq<char>),
    CurrentOs(Seq<char>),
}

impl View for TargetError {
    type V = TargetFault;

    open spec fn view(&self) -> TargetFault {
        match self {
            TargetError::Format(s) => TargetFault::Format(s@),
            TargetError::Architecture(s) => TargetFault::Architecture(s@),
            TargetError::MissingLibc(s) => TargetFault::MissingLibc(s@),
            TargetError::UnknownLibc(s) => TargetFault::UnknownLibc(s@),
            TargetError::UnknownOs(s) => TargetFault::UnknownOs(s@),
            TargetError::CurrentArchitecture(s) => TargetFault::CurrentArchitecture(s@),
            TargetError::CurrentOs(s) => TargetFault::CurrentOs(s@),
        }
    }
}

impl TargetFault {
    /// The message for this error.
    pub open spec fn message(self) -> Seq<char> {
        match self {
            TargetFault::Format(s) => "invalid target format '"@ + s
                + "': expected <arch>-<os>"@,
            TargetFault::Architecture(s) => "unsupported architecture '"@ + s
                + "': expected x86_64 or aarch64"@,
            TargetFault::MissingLibc(s) => "invalid target format '"@ + s
                + "': linux requires a libc variant (linux-glibc, linux-musl, or linux-static)"@,
            TargetFault::UnknownLibc(s) => "unsupported libc variant '"@ + s
                + "': expected glibc, musl, or static"@,
            TargetFault::UnknownOs(s) => "unsupported OS '"@ + s
                + "': expected linux, macos, or windows"@,
            TargetFault::CurrentArchitecture(s) => "unsupported current architecture '"@ + s
                + "'"@,
            TargetFault::CurrentOs(s) => "unsupported current OS '"@ + s + "'"@,
        }
    }
}

fn around(before: &str, s: &str, after: &str) -> (r: String)
    ensures
        r@ == before@ + s@ + after@,
{
    let mut out = String::from_str(before);
    out.append(s);
    out.append(after);
    out
}

impl TargetError {
    pub fn to_string(&self) -> (r: String)
        ensures
            r@ == self@.message(),
    {
        match self {
            TargetError::Format(s) => around(
                "invalid target format '",
                s.as_str(),
                "': expected <arch>-<os>",
            ),
            TargetError::Architecture(s) => around(
                "unsupported architecture '",
                s.as_str(),
                "': expected x86_64 or aarch64",
            ),
            TargetError::MissingLibc(s) => around(
                "invalid target format '",
                s.as_str(),
                "': linux requires a libc variant (linux-glibc, linux-musl, or linux-static)",
            ),
            TargetError::UnknownLibc(s) => around(
                "unsupported libc variant '",
                s.as_str(),
                "': expected glibc, musl, or static",
            ),
            TargetError::UnknownOs(s) => around(
                "unsupported OS '",
                s.as_str(),
                "': expected linux, macos, or windows",
            ),
            TargetError::CurrentArchitecture(s) => around(
                "unsupported current architecture '",
                s.as_str(),
                "'",
            ),
            TargetError::CurrentOs(s) => around("unsupported current OS '", s.as_str(), "'"),
        }
    }
}

impl Libc {
    pub open spec fn text(self) -> Seq<char> {
        match self {
            Libc::Glibc => "glibc"@,
            Libc::Musl => "musl"@,
            Libc::Static => "static"@,
        }
    }

    fn name(self) -> (r: &'static str)
        ensures
            r@ == self.text(),
    {
        match self {
            Libc::Glibc => "glibc",
            Libc::Musl => "musl",
            Libc::Static => "static",
        }
    }

    pub fn to_string(&self) -> (r: String)
        ensures
            r@ == self.text(),
    {
        String::from_str(self.name())
    }
}

impl Os {
    pub open spec fn text(self) -> Seq<char> {
        match self {
            Os::Linux(_) => "linux"@,
            Os::Macos => "macos"@,
            Os::Windows => "windows"@,
        }
    }

    fn name(self) -> (r: &'static str)
        ensures
            r@ == self.text(),
    {
        match self {
            Os::Linux(_) => "linux",
            Os::Macos => "macos",
            Os::Windows => "windows",
        }
    }

    pub fn to_string(&self) -> (r: String)
        ensures
            r@ == self.text(),
    {
        String::from_str(self.name())
    }
}

impl Arch {
    pub open spec fn text(self) -> Seq<char> {
        match self {
            Arch::X86_64 => "x86_64"@,
            Arch::Aarch64 => "aarch64"@,
        }
    }

    fn name(self) -> (r: &'static str)
        ensures
            r@ == self.text(),
    {
        match self {
            Arch::X86_64 => "x86_64",
            Arch::Aarch64 => "aarch64",
        }
    }

    pub fn to_string(&self) -> (r: String)
        ensures
            r@ == self.text(),
    {
        String::from_str(self.name())
    }
}

/// The architecture that a text names.
pub open spec fn arch_named(s: Seq<char>) -> Option<Arch> {
    if s == "x86_64"@ {
        Some(Arch::X86_64)
    } else if s == "aarch64"@ {
        Some(Arch::Aarch64)
    } else {
        None
    }
}

/// The libc variant that a text names.
pub open spec fn libc_named(s: Seq<char>) -> Option<Libc> {
    if s == "glibc"@ {
        Some(Libc::Glibc)
    } else if s == "musl"@ {
        Some(Libc::Musl)
    } else if s == "static"@ {
        Some(Libc::Static)
    } else {
        None
    }
}

/// The operating system that the part after the architecture names, in the target text `s`.
pub open spec fn os_named(s: Seq<char>, rest: Seq<char>) -> Result<Os, TargetFault> {
    if rest == "macos"@ {
        Ok(Os::Macos)
    } else if rest == "windows"@ {
        Ok(Os::Windows)
    } else if rest == "linux"@ {
        Err(TargetFault::MissingLibc(s))
    } else if "linux-"@.is_prefix_of(rest) {
        let libc = rest.skip("linux-"@.len() as int);
        match libc_named(libc) {
            Some(l) => Ok(Os::Linux(l)),
            None => Err(TargetFault::UnknownLibc(libc)),
        }
    } else {
        Err(TargetFault::UnknownOs(pieces(rest, '-', '-')[0]))
    }
}

/// The target that a text names, or why it names none. The architecture is what stands before
/// the first hyphen.
pub open spec fn target_named(s: Seq<char>) -> Result<Target, TargetFault> {
    if !s.contains('-') {
        Err(TargetFault::Format(s))
    } else {
        let at = s.index_of_first('-')->0;
        let arch_text = s.take(at);
        let rest = s.skip(at + 1);
        match arch_named(arch_text) {
            None => Err(TargetFault::Architecture(arch_text)),
            Some(arch) => match os_named(s, rest) {
                Err(e) => Err(e),
                Ok(os) => Ok(Target { os, arch }),
            },
        }
    }
}

/// The outcome of an executable function agrees with what is specified.
pub open spec fn agrees<T>(r: Result<T, TargetError>, expected: Result<T, TargetFault>) -> bool {
    match r {
        Ok(t) => expected == Ok::<T, TargetFault>(t),
        Err(e) => expected == Err::<T, TargetFault>(e@),
    }
}

fn parse_os(s: &str, rest: &str) -> (r: Result<Os, TargetError>)
    ensures
        agrees(r, os_named(s@, rest@)),
{
    if same(rest, "macos") {
        return Ok(Os::Macos);
    }
    if same(rest, "windows") {
        return Ok(Os::Windows);
    }
    if same(rest, "linux") {
        return Err(TargetError::MissingLibc(String::from_str(s)));
    }
    match strip_prefix(rest, "linux-") {
        Some(libc) => {
            assert(rest@.skip("linux-"@.len() as int) =~= libc@);
            if same(libc.as_str(), "glibc") {
                Ok(Os::Linux(Libc::Glibc))
            } else if same(libc.as_str(), "musl") {
                Ok(Os::Linux(Libc::Musl))
            } else if same(libc.as_str(), "static") {
                Ok(Os::Linux(Libc::Static))
            } else {
                Err(TargetError::UnknownLibc(libc))
            }
        },
        None => {
            let parts = split(rest, '-', '-');
            proof {
                crate::text::lemma_pieces_some(rest@, '-', '-');
                assert(views(parts@)[0] == parts@[0]@);
            }
            Err(TargetError::UnknownOs(parts[0].clone()))
        },
    }
}

fn parse_arch(s: &str) -> (r: Option<Arch>)
    ensures
        r == arch_named(s@),
{
    if same(s, "x86_64") {
        Some(Arch::X86_64)
    } else if same(s, "aarch64") {
        Some(Arch::Aarch64)
    } else {
        None
    }
}

impl Target {
    /// The text of a target: architecture, operating system and, for Linux, the libc variant.
    pub open spec fn text(self) -> Seq<char> {
        match self.os {
            Os::Linux(libc) => self.arch.text() + "-linux-"@ + libc.text(),
            _ => self.arch.text() + "-"@ + self.os.text(),
        }
    }

    pub fn to_string(&self) -> (r: String)
        ensures
            r@ == self.text(),
    {
        match self.os {
            Os::Linux(libc) => around(self.arch.name(), "-linux-", libc.name()),
            _ => around(self.arch.name(), "-", self.os.name()),
        }
    }

    /// The suffix of executables on this target.
    pub open spec fn suffix(self) -> Seq<char> {
        match self.os {
            Os::Windows => ".exe"@,
            _ => ""@,
        }
    }

    #[must_use]
    pub fn exe_suffix(&self) -> (r: &'static str)
        ensures
            r@ == self.suffix(),
    {
        match self.os {
            Os::Windows => ".exe",
            Os::Linux(_) | Os::Macos => "",
        }
    }

    /// The platform triple that the Rust compiler has for this target.
    pub open spec fn rust_text(self) -> Seq<char> {
        self.arch.text() + match self.os {
            Os::Macos => "-apple-darwin"@,
            Os::Windows => "-pc-windows-gnu"@,
            Os::Linux(Libc::Glibc) => "-unknown-linux-gnu"@,
            Os::Linux(_) => "-unknown-linux-musl"@,
        }
    }

    #[must_use]
    pub fn rust_target(&self) -> (r: String)
        ensures
            r@ == self.rust_text(),
    {
        let mut out = self.arch.to_string();
        out.append(
            match self.os {
                Os::Macos => "-apple-darwin",
                Os::Windows => "-pc-windows-gnu",
                Os::Linux(Libc::Glibc) => "-unknown-linux-gnu",
                Os::Linux(_) => "-unknown-linux-musl",
            },
        );
        out
    }

    /// The target that a machine with the given architecture and operating system is, by the
    /// names that Rust gives them.
    pub open spec fn of_machine(arch: Seq<char>, os: Seq<char>) -> Result<Target, TargetFault> {
        match arch_named(arch) {
            None => Err(TargetFault::CurrentArchitecture(arch)),
            Some(a) => if os == "macos"@ {
                Ok(Target { os: Os::Macos, arch: a })
            } else if os == "windows"@ {
                Ok(Target { os: Os::Windows, arch: a })
            } else if os == "linux"@ {
                Ok(Target { os: Os::Linux(Libc::Static), arch: a })
            } else {
                Err(TargetFault::CurrentOs(os))
            },
        }
    }

    /// The target of the machine whose architecture and operating system Rust names `arch` and
    /// `os`.
    pub fn current(arch: &str, os: &str) -> (r: Result<Target, TargetError>)
        ensures
            agrees(r, Target::of_machine(arch@, os@)),
    {
        let a = match parse_arch(arch) {
            Some(a) => a,
            None => {
                return Err(TargetError::CurrentArchitecture(String::from_str(arch)));
            },
        };
        if same(os, "macos") {
            Ok(Target { os: Os::Macos, arch: a })
        } else if same(os, "windows") {
            Ok(Target { os: Os::Windows, arch: a })
        } else if same(os, "linux") {
            Ok(Target { os: Os::Linux(Libc::Static), arch: a })
        } else {
            Err(TargetError::CurrentOs(String::from_str(os)))
        }
    }

    /// Reads the text of a target.
    pub fn parse(s: &str) -> (r: Result<Target, TargetError>)
        ensures
            agrees(r, target_named(s@)),
    {
        match split_once(s, '-') {
            None => Err(TargetError::Format(String::from_str(s))),
            Some((arch_text, rest)) => {
                proof {
                    lemma_first_split(s@, arch_text@, rest@);
                }
                match parse_arch(arch_text.as_str()) {
                    None => Err(TargetError::Architecture(arch_text)),
                    Some(arch) => match parse_os(s, rest.as_str()) {
                        Err(e) => Err(e),
                        Ok(os) => Ok(Target { os, arch }),
                    },
                }
            },
        }
    }
}

/// Where a text is cut at a hyphen that no hyphen precedes, it is cut at its first one.
proof fn lemma_first_split(s: Seq<char>, head: Seq<char>, tail: Seq<char>)
    requires
        !head.contains('-'),
        s == head.push('-') + tail,
    ensures
        s.contains('-'),
        s.index_of_first('-') == Some(head.len() as int),
        s.take(head.len() as int) == head,
        s.skip(head.len() as int + 1) == tail,
{
    assert(s[head.len() as int] == '-');
    s.index_of_first_ensures('-');
    let at = s.index_of_first('-')->0;
    if at < head.len() {
        assert(head[at] == '-');
    }
    assert(s.take(head.len() as int) =~= head);
    assert(s.skip(head.len() as int + 1) =~= tail);
}

impl std::str::FromStr for Target {
    type Err = TargetError;

    fn from_str(s: &str) -> (r: Result<Self, TargetError>)
        ensures
            agrees(r, target_named(s@)),
    {
        Target::parse(s)
    }
}

impl TryFrom<String> for Target {
    type Error = TargetError;

    fn try_from(s: String) -> (r: Result<Self, TargetError>)
        ensures
            agrees(r, target_named(s@)),
    {
        Target::parse(s.as_str())
    }
}

impl vstd::std_specs::convert::TryFromSpecImpl<String> for Target {
    open spec fn obeys_try_from_spec() -> bool {
        false
    }

    open spec fn try_from_spec(s: String) -> Result<Self, TargetError> {
        arbitrary()
    }
}

impl From<Target> for String {
    fn from(target: Target) -> (r: String)
        ensures
            r@ == target.text(),
    {
        target.to_string()
    }
}

impl vstd::std_specs::convert::FromSpecImpl<Target> for String {
    open spec fn obeys_from_spec() -> bool {
        false
    }

    open spec fn from_spec(target: Target) -> String {
        arbitrary()
    }
}

/// Every target is read back from its text.
pub proof fn law_text_round_trip(target: Target)
    ensures
        target_named(target.text()) == Ok::<Target, TargetFault>(target),
{
    reveal_strlit("x86_64");
    reveal_strlit("aarch64");
    reveal_strlit("-linux-");
    reveal_strlit("-");
    reveal_strlit("linux");
    reveal_strlit("linux-");
    reveal_strlit("macos");
    reveal_strlit("windows");
    reveal_strlit("glibc");
    reveal_strlit("musl");
    reveal_strlit("static");
    let s = target.text();
    let head = target.arch.text();
    assert(!head.contains('-'));
    let rest = match target.os {
        Os::Linux(libc) => "linux-"@ + libc.text(),
        _ => target.os.text(),
    };
    assert(s =~= head.push('-') + rest);
    lemma_first_split(s, head, rest);
    assert("x86_64"@.len() == 6 && "aarch64"@.len() == 7);
    assert("macos"@.len() == 5 && "windows"@.len() == 7);
    match target.os {
        Os::Linux(libc) => {
            assert(rest.skip("linux-"@.len() as int) =~= libc.text());
            assert(rest[0] == 'l');
            assert("macos"@[0] == 'm');
            assert("windows"@[0] == 'w');
            assert("linux-"@.is_prefix_of(rest));
            assert("glibc"@.len() == 5 && "musl"@.len() == 4 && "static"@.len() == 6);
        },
        _ => {
            assert("macos"@.len() != "windows"@.len());
        },
    }
}

/// The text of a target can be joined to a path on every system.
pub proof fn lemma_text_plain(target: Target)
    ensures
        crate::paths::plain_child(target.text()),
{
    reveal_strlit("x86_64");
    reveal_strlit("aarch64");
    reveal_strlit("-linux-");
    reveal_strlit("-");
    reveal_strlit("macos");
    reveal_strlit("windows");
    reveal_strlit("glibc");
    reveal_strlit("musl");
    reveal_strlit("static");
    let s = target.text();
    assert("x86_64"@[0] == 'x' && "aarch64"@[0] == 'a');
    assert(forall|i: int| 0 <= i < s.len() ==> s[i] != ':');
}

/// Two targets have the same text only where they are the same target.
pub proof fn law_text_distinct(a: Target, b: Target)
    requires
        a.text() == b.text(),
    ensures
        a == b,
{
    law_text_round_trip(a);
    law_text_round_trip(b);
}

/// The text of a target ends in `c`, `l` or `s`.
pub proof fn lemma_text_last(target: Target)
    ensures
        target.text().len() > 0,
        target.text().last() == 'c' || target.text().last() == 'l' || target.text().last() == 's',
{
    reveal_strlit("macos");
    reveal_strlit("windows");
    reveal_strlit("glibc");
    reveal_strlit("musl");
    reveal_strlit("static");
    let s = target.text();
    match target.os {
        Os::Linux(libc) => {
            assert(s.last() == libc.text().last());
        },
        _ => {
            assert(s.last() == target.os.text().last());
        },
    }
}

/// No target's text ends in another's: where two texts that end in targets are equal, so are the
/// targets and what stands before them.
pub proof fn lemma_text_ending(before_a: Seq<char>, a: Target, before_b: Seq<char>, b: Target)
    requires
        before_a + a.text() == before_b + b.text(),
    ensures
        a == b,
        before_a == before_b,
{
    reveal_strlit("x86_64");
    reveal_strlit("aarch64");
    reveal_strlit("-linux-");
    reveal_strlit("-");
    reveal_strlit("macos");
    reveal_strlit("windows");
    reveal_strlit("glibc");
    reveal_strlit("musl");
    reveal_strlit("static");
    let s = before_a + a.text();
    let t = before_b + b.text();
    let n = s.len() as int;
    assert(s[n - 1] == a.text()[a.text().len() - 1]);
    assert(t[n - 1] == b.text()[b.text().len() - 1]);
    assert(s[n - 2] == a.text()[a.text().len() - 2]);
    assert(t[n - 2] == b.text()[b.text().len() - 2]);
    assert(a.os == b.os);
    let k = (a.text().len() - a.arch.text().len()) as int;
    assert(s[n - k - 3] == a.text()[a.text().len() - k - 3]);
    assert(t[n - k - 3] == b.text()[b.text().len() - k - 3]);
    assert(a.text()[a.text().len() - k - 3] == a.arch.text()[a.arch.text().len() - 3]);
    assert(b.text()[b.text().len() - k - 3] == b.arch.text()[b.arch.text().len() - 3]);
    assert("x86_64"@[3] == '_' && "aarch64"@[4] == 'h');
    assert(a.arch == b.arch);
    assert(before_a =~= s.take(before_a.len() as int));
    assert(before_b =~= t.take(before_b.len() as int));
}

/// Whether building for `target` is cross-compiling on the machine that Rust describes as
/// `arch` and `os`. A machine that is no target itself counts as the same.
#[must_use]
pub fn is_cross_target(target: &Target, arch: &str, os: &str) -> (r: bool)
    ensures
        r == (Target::of_machine(arch@, os@) matches Ok(current) && current != *target),
{
    match Target::current(arch, os) {
        Ok(current) => current != *target,
        Err(_) => false,
    }
}

/// The name of the executable that is built.
#[must_use]
pub fn output_filename(name: &str, version: &str, target: &Target) -> (r: String)
    ensures
        r@ == name@ + "-"@ + version@ + "-"@ + target.text() + target.suffix(),
{
    let mut out = String::from_str(name);
    out.append("-");
    out.append(version);
    out.append("-");
    out.append(target.to_string().as_str());
    out.append(target.exe_suffix());
    out
}

proof fn lemma_words()
    ensures
        "x86_64"@.len() == 6 && "aarch64"@.len() == 7,
        "linux"@.len() == 5 && "macos"@.len() == 5 && "windows"@.len() == 7,
        "linux"@[0] == 'l' && "macos"@[0] == 'm' && "windows"@[0] == 'w',
        "glibc"@.len() == 5 && "musl"@.len() == 4 && "static"@.len() == 6,
        "linux-"@ == "linux"@.push('-'),
        "-linux-"@ == seq!['-'] + "linux-"@,
        "-"@ == seq!['-'],
        !"x86_64"@.contains('-') && !"aarch64"@.contains('-'),
{
    reveal_strlit("x86_64");
    reveal_strlit("aarch64");
    reveal_strlit("-linux-");
    reveal_strlit("-");
    reveal_strlit("linux");
    reveal_strlit("linux-");
    reveal_strlit("macos");
    reveal_strlit("windows");
    reveal_strlit("glibc");
    reveal_strlit("musl");
    reveal_strlit("static");
    assert("linux-"@ =~= "linux"@.push('-'));
    assert("-linux-"@ =~= seq!['-'] + "linux-"@);
    assert("-"@ =~= seq!['-']);
}

/// What each machine is: on Linux the default is the variant without a libc, whatever the
/// architecture, and nothing depends on the architecture but the architecture.
pub proof fn law_machines(arch: Arch)
    ensures
        Target::of_machine(arch.text(), "linux"@) == Ok::<Target, TargetFault>(
            Target { os: Os::Linux(Libc::Static), arch },
        ),
        Target::of_machine(arch.text(), "macos"@) == Ok::<Target, TargetFault>(
            Target { os: Os::Macos, arch },
        ),
        Target::of_machine(arch.text(), "windows"@) == Ok::<Target, TargetFault>(
            Target { os: Os::Windows, arch },
        ),
{
    lemma_words();
}

/// A machine is a target just where its architecture and its operating system are those of some
/// target, which it then has; else what is not known of it is reported, the architecture first.
pub proof fn law_machine_found(arch: Seq<char>, os: Seq<char>)
    ensures
        match Target::of_machine(arch, os) {
            Ok(t) => t.arch.text() == arch && t.os.text() == os,
            Err(TargetFault::CurrentArchitecture(s)) => s == arch && forall|a: Arch|
                #[trigger] a.text() != arch,
            Err(TargetFault::CurrentOs(s)) => {
                &&& s == os
                &&& exists|a: Arch| #[trigger] a.text() == arch
                &&& forall|o: Os| #[trigger] o.text() != os
            },
            Err(_) => false,
        },
{
    lemma_words();
    assert(Arch::X86_64.text() == "x86_64"@);
    assert(Arch::Aarch64.text() == "aarch64"@);
    assert(Os::Linux(Libc::Static).text() == "linux"@);
    assert(Os::Macos.text() == "macos"@);
    assert(Os::Windows.text() == "windows"@);
}

/// The names of the parts of targets.
pub proof fn law_part_names(libc: Libc)
    ensures
        Arch::X86_64.text() == "x86_64"@,
        Arch::Aarch64.text() == "aarch64"@,
        Os::Linux(libc).text() == "linux"@,
        Os::Macos.text() == "macos"@,
        Os::Windows.text() == "windows"@,
        Libc::Glibc.text() == "glibc"@,
        Libc::Musl.text() == "musl"@,
        Libc::Static.text() == "static"@,
{
}

/// The text of a target is the names of its parts with hyphens between them.
pub proof fn law_text_of_parts(target: Target)
    ensures
        target.text() == target.arch.text() + "-"@ + target.os.text() + (match target.os {
            Os::Linux(libc) => "-"@ + libc.text(),
            _ => Seq::empty(),
        }),
{
    lemma_words();
    assert(target.text() =~= target.arch.text() + "-"@ + target.os.text() + (match target.os {
        Os::Linux(libc) => "-"@ + libc.text(),
        _ => Seq::empty(),
    }));
}

/// A text that names a target is that target's text: there is no other way to write it.
pub proof fn law_text_is_the_only_one(s: Seq<char>, target: Target)
    requires
        target_named(s) == Ok::<Target, TargetFault>(target),
    ensures
        s == target.text(),
{
    lemma_words();
    s.index_of_first_ensures('-');
    let at = s.index_of_first('-')->0;
    let head = s.take(at);
    let rest = s.skip(at + 1);
    assert(s =~= head + seq!['-'] + rest);
    assert(head == target.arch.text());
    if let Os::Linux(libc) = target.os {
        if rest != "macos"@ && rest != "windows"@ && rest != "linux"@ {
            let tail = rest.skip("linux-"@.len() as int);
            assert(rest =~= "linux-"@ + tail);
            assert(tail == libc.text());
            assert(target.text() =~= s);
        }
    } else {
        assert(rest == target.os.text());
        assert(target.text() =~= s);
    }
}

/// Why a text names no target, by what stands before and after its first hyphen: there is none,
/// no architecture has what stands before it as its name, `linux` stands after it alone, or
/// something follows that and names no libc variant, or no operating system has the name that
/// follows the hyphen.
pub proof fn law_target_faults(head: Seq<char>, rest: Seq<char>, os: Seq<char>)
    requires
        !head.contains('-'),
    ensures
        target_named(head) == Err::<Target, TargetFault>(TargetFault::Format(head)),
        ({
            let s = head.push('-') + rest;
            let named = target_named(s);
            let known = head == "x86_64"@ || head == "aarch64"@;
            &&& !known ==> named == Err::<Target, TargetFault>(TargetFault::Architecture(head))
            &&& known && rest == "linux"@ ==> named == Err::<Target, TargetFault>(
                TargetFault::MissingLibc(s),
            )
            &&& known && rest == "linux-"@ + os && os != "glibc"@ && os != "musl"@ && os
                != "static"@ ==> named == Err::<Target, TargetFault>(TargetFault::UnknownLibc(os))
            &&& known && !os.contains('-') && os != "linux"@ && (rest == os && os != "macos"@ && os
                != "windows"@ || os.push('-').is_prefix_of(rest)) ==> named == Err::<
                Target,
                TargetFault,
            >(TargetFault::UnknownOs(os))
        }),
{
    lemma_words();
    let s = head.push('-') + rest;
    lemma_first_split(s, head, rest);
    if rest == "linux-"@ + os {
        assert(rest.skip("linux-"@.len() as int) =~= os);
        assert(rest[0] == 'l');
        assert("linux-"@.is_prefix_of(rest));
        assert(rest.len() > 5);
    }
    if !os.contains('-') && os != "linux"@ && (rest == os && os != "macos"@ && os != "windows"@
        || os.push('-').is_prefix_of(rest)) {
        if rest == os {
            crate::text::lemma_pieces_whole(os, '-', '-');
            if "linux-"@.is_prefix_of(rest) {
                assert(rest[5] == "linux-"@[5]);
                assert(os.contains(os[5]));
            }
        } else {
            let tail = rest.skip(os.len() as int + 1);
            assert(rest =~= os.push('-') + tail);
            crate::text::lemma_pieces_split(os, '-', tail, '-', '-');
            assert(rest[os.len() as int] == '-');
            lemma_no_hyphen(rest, os.len() as int);
            if "linux-"@.is_prefix_of(rest) {
                if os.len() < 5 {
                    assert("linux-"@[os.len() as int] == rest[os.len() as int]);
                    assert("linux"@[os.len() as int] == '-');
                    reveal_strlit("linux");
                } else if os.len() > 5 {
                    assert(rest[5] == "linux-"@[5]);
                    assert(os[5] == '-');
                    assert(os.contains(os[5]));
                } else {
                    assert forall|i: int| 0 <= i < 5 implies os[i] == #[trigger] "linux"@[i] by {
                        assert(rest[i] == "linux-"@[i]);
                    }
                    assert(os =~= "linux"@);
                }
            }
        }
    }
}

proof fn lemma_no_hyphen(rest: Seq<char>, at: int)
    requires
        0 <= at < rest.len(),
        rest[at] == '-',
    ensures
        rest != "macos"@ && rest != "windows"@ && rest != "linux"@,
{
    reveal_strlit("macos");
    reveal_strlit("windows");
    reveal_strlit("linux");
}

/// What the Rust compiler calls a target: its architecture, and what its operating system is
/// called whatever the architecture is. The two variants of Linux without glibc are one to it, and
/// no other two targets are.
pub proof fn law_rust_targets(a: Target, b: Target)
    ensures
        a.arch.text().is_prefix_of(a.rust_text()),
        a.os == b.os ==> a.rust_text().skip(a.arch.text().len() as int) == b.rust_text().skip(
            b.arch.text().len() as int,
        ),
        a.rust_text() == b.rust_text() <==> a.arch == b.arch && (a.os == b.os || (a.os is Linux
            && b.os is Linux && a.os != Os::Linux(Libc::Glibc) && b.os != Os::Linux(Libc::Glibc))),
{
    lemma_words();
    reveal_strlit("x86_64");
    reveal_strlit("aarch64");
    reveal_strlit("-apple-darwin");
    reveal_strlit("-pc-windows-gnu");
    reveal_strlit("-unknown-linux-gnu");
    reveal_strlit("-unknown-linux-musl");
    let s = a.rust_text();
    let t = b.rust_text();
    let n = a.arch.text().len() as int;
    let m = b.arch.text().len() as int;
    assert(s.skip(n) =~= match a.os {
        Os::Macos => "-apple-darwin"@,
        Os::Windows => "-pc-windows-gnu"@,
        Os::Linux(Libc::Glibc) => "-unknown-linux-gnu"@,
        Os::Linux(_) => "-unknown-linux-musl"@,
    });
    assert(t.skip(m) =~= match b.os {
        Os::Macos => "-apple-darwin"@,
        Os::Windows => "-pc-windows-gnu"@,
        Os::Linux(Libc::Glibc) => "-unknown-linux-gnu"@,
        Os::Linux(_) => "-unknown-linux-musl"@,
    });
    assert(s.take(n) =~= a.arch.text());
    if s == t {
        assert(s[0] == a.arch.text()[0] && t[0] == b.arch.text()[0]);
        assert(a.arch == b.arch);
        assert(s.skip(n)[1] == t.skip(m)[1]);
        assert(s.skip(n).len() == t.skip(m).len());
    }
}

/// Executables have a suffix on Windows alone, the same for every architecture.
pub proof fn law_suffixes(target: Target)
    ensures
        target.os == Os::Windows ==> target.suffix() == seq!['.', 'e', 'x', 'e'],
        target.os != Os::Windows ==> target.suffix().len() == 0,
{
    reveal_strlit(".exe");
    reveal_strlit("");
    assert(".exe"@ =~= seq!['.', 'e', 'x', 'e']);
}

/// Building for a target is cross-compiling on every machine that is another target, on no machine
/// that is the target itself, and on none that is no target.
pub proof fn law_cross_targets(target: Target, arch: &str, os: &str, r: bool)
    requires
        call_ensures(is_cross_target, (&target, arch, os), r),
    ensures
        r <==> exists|t: Target|
            #![trigger t.text()]
            t != target && Target::of_machine(arch@, os@) == Ok::<Target, TargetFault>(t),
{
    if r {
        let t = Target::of_machine(arch@, os@)->Ok_0;
        assert(t.text() == t.text());
    }
}


proof fn lemma_around(before: Seq<char>, s: Seq<char>, t: Seq<char>, after: Seq<char>)
    ensures
        ({
            let a = before + s + after;
            let b = before + t + after;
            let n = before.len() as int;
            &&& a.subrange(n, n + s.len()) == s
            &&& a.take(n) == b.take(n)
            &&& a.skip(n + s.len()) == b.skip(n + t.len())
        }),
{
    let a = before + s + after;
    let b = before + t + after;
    let n = before.len() as int;
    assert(a.subrange(n, n + s.len()) =~= s);
    assert(a.take(n) =~= b.take(n));
    assert(a.skip(n + s.len()) =~= b.skip(n + t.len()));
}

/// Whether two messages are the same but for a text that each holds at the same place.
pub open spec fn differ_in(a: Seq<char>, s: Seq<char>, b: Seq<char>, t: Seq<char>) -> bool {
    exists|n: int|
        {
            &&& 0 <= n <= a.len() - s.len()
            &&& 0 <= n <= b.len() - t.len()
            &&& #[trigger] a.subrange(n, n + s.len()) == s
            &&& a.take(n) == b.take(n)
            &&& a.skip(n + s.len()) == b.skip(n + t.len())
        }
}

/// A message holds the text that was refused as it is, and is else the same for every text.
pub proof fn law_fault_messages(s: Seq<char>, t: Seq<char>)
    ensures
        differ_in(TargetFault::Format(s).message(), s, TargetFault::Format(t).message(), t),
        differ_in(
            TargetFault::Architecture(s).message(),
            s,
            TargetFault::Architecture(t).message(),
            t,
        ),
        differ_in(
            TargetFault::MissingLibc(s).message(),
            s,
            TargetFault::MissingLibc(t).message(),
            t,
        ),
        differ_in(
            TargetFault::UnknownLibc(s).message(),
            s,
            TargetFault::UnknownLibc(t).message(),
            t,
        ),
        differ_in(TargetFault::UnknownOs(s).message(), s, TargetFault::UnknownOs(t).message(), t),
        differ_in(
            TargetFault::CurrentArchitecture(s).message(),
            s,
            TargetFault::CurrentArchitecture(t).message(),
            t,
        ),
        differ_in(TargetFault::CurrentOs(s).message(), s, TargetFault::CurrentOs(t).message(), t),
{
    lemma_around("invalid target format '"@, s, t, "': expected <arch>-<os>"@);
    lemma_around("unsupported architecture '"@, s, t, "': expected x86_64 or aarch64"@);
    lemma_around(
        "invalid target format '"@,
        s,
        t,
        "': linux requires a libc variant (linux-glibc, linux-musl, or linux-static)"@,
    );
    lemma_around("unsupported libc variant '"@, s, t, "': expected glibc, musl, or static"@);
    lemma_around("unsupported OS '"@, s, t, "': expected linux, macos, or windows"@);
    lemma_around("unsupported current architecture '"@, s, t, "'"@);
    lemma_around("unsupported current OS '"@, s, t, "'"@);
}

} // verus!
