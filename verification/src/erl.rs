//! What is said to the Erlang helper process, and what its replies mean.

use vstd::prelude::*;
use vstd::string::*;

use crate::paths::{is_join, join, plain_base, plain_child};
use crate::text::{
    all_white, decimal, decimal_text, end_trimmed, is_white, join as join_texts, joined, pieces,
    replace, replaced, same, split, split_once, start_trimmed, strip_prefix, trim, trim_end, views,
};
use crate::tree_shake::AppGraph;

verus! {

/// A text as it stands between the quotes of an Erlang string.
pub open spec fn escaped(s: Seq<char>) -> Seq<char> {
    replaced(replaced(s, '\\', "\\\\"@), '"', "\\\""@)
}

fn escape(s: &str) -> (r: String)
    ensures
        r@ == escaped(s@),
{
    let first = replace(s, '\\', "\\\\");
    replace(first.as_str(), '"', "\\\"")
}

/// The text that stands between the quotes of an Erlang string, where a backslash stands for the
/// character after it.
pub open spec fn unescaped(s: Seq<char>) -> Seq<char>
    decreases s.len(),
{
    if s.len() == 0 {
        s
    } else if s[0] == '\\' && s.len() >= 2 {
        seq![s[1]] + unescaped(s.skip(2))
    } else {
        seq![s[0]] + unescaped(s.skip(1))
    }
}

/// What escaping does to one character.
pub open spec fn escaped_char(c: char) -> Seq<char> {
    if c == '\\' {
        seq!['\\', '\\']
    } else if c == '"' {
        seq!['\\', '"']
    } else {
        seq![c]
    }
}

/// The request for the version of Erlang/OTP.
pub open spec fn otp_version_request() -> Seq<char> {
    "get_otp_version.\n"@
}

pub fn get_otp_version_request() -> (r: String)
    ensures
        r@ == otp_version_request(),
{
    String::from_str("get_otp_version.\n")
}

/// A path as an Erlang string.
pub open spec fn quoted(path: Seq<char>) -> Seq<char> {
    "\""@ + escaped(path) + "\""@
}

fn quote(path: &str) -> (r: String)
    ensures
        r@ == quoted(path@),
{
    let mut out = String::from_str("\"");
    out.append(escape(path).as_str());
    out.append("\"");
    out
}

/// Paths as Erlang strings.
pub open spec fn all_quoted(paths: Seq<Seq<char>>) -> Seq<Seq<char>> {
    Seq::new(paths.len(), |i: int| quoted(paths[i]))
}

/// The request to strip the files and put the results into the directory.
pub open spec fn strip_request(tmp_dir: Seq<char>, paths: Seq<Seq<char>>) -> Seq<char> {
    "{strip_beam, "@ + quoted(tmp_dir) + ", ["@ + joined(all_quoted(paths), ", "@) + "]}.\n"@
}

/// The request to strip the files and put the results into the directory.
pub fn strip_beam_request(tmp_dir: &str, paths: &Vec<String>) -> (r: String)
    ensures
        r@ == strip_request(tmp_dir@, views(paths@)),
{
    let mut list: Vec<String> = Vec::new();
    let mut i: usize = 0;
    while i < paths.len()
        invariant
            i <= paths.len(),
            list@.len() == i,
            forall|j: int| 0 <= j < i ==> (#[trigger] list@[j])@ == quoted(paths@[j]@),
        decreases paths.len() - i,
    {
        list.push(quote(paths[i].as_str()));
        i = i + 1;
    }
    assert(views(list@) =~= all_quoted(views(paths@)));
    let mut out = String::from_str("{strip_beam, ");
    out.append(quote(tmp_dir).as_str());
    out.append(", [");
    out.append(join_texts(&list, ", ").as_str());
    out.append("]}.\n");
    out
}

/// The request for the applications in a directory and what they depend on.
pub fn walk_app_request(dir: &str) -> (r: String)
    ensures
        r@ == walk_request(dir@),
{
    let mut out = String::from_str("{parse_app_files, ");
    out.append(quote(dir).as_str());
    out.append("}.\n");
    out
}

/// Where the result for the file with the given number is found after stripping.
pub fn stripped_path(tmp_dir: &str, index: usize) -> (r: String)
    ensures
        plain_base(tmp_dir@) ==> is_join(tmp_dir@, decimal(index as nat), r@),
{
    let name = decimal_text(index as u64);
    proof {
        lemma_decimal_plain(index as nat);
    }
    join(tmp_dir, name.as_str())
}

proof fn lemma_decimal_plain(n: nat)
    ensures
        decimal(n).len() > 0,
        forall|i: int|
            0 <= i < decimal(n).len() ==> (#[trigger] decimal(n)[i]) != '/' && decimal(n)[i] != '\\'
                && decimal(n)[i] != ':',
        plain_child(decimal(n)),
    decreases n,
{
    if n >= 10 {
        lemma_decimal_plain(n / 10);
    }
    assert(forall|i: int|
        0 <= i < decimal(n).len() ==> (#[trigger] decimal(n)[i]) != '/' && decimal(n)[i] != '\\'
            && decimal(n)[i] != ':');
    assert(decimal(n)[0] != '/');
}

/// A file to strip, and where its result is found afterwards.
#[derive(Debug)]
pub struct StripResult {
    pub path: String,
    pub stripped_path: String,
}

/// What is asked in order to strip files, and where the results are found afterwards.
#[derive(Debug)]
pub struct StripPlan {
    pub request: String,
    pub results: Vec<StripResult>,
}

/// Plans the stripping of files by way of a directory. Where there are no files, nothing is asked.
pub fn strip_beam_files(tmp_dir: &str, paths: &Vec<String>) -> (r: Option<StripPlan>)
    ensures
        match r {
            Some(plan) => {
                &&& paths@.len() > 0
                &&& plan.request@ == strip_request(tmp_dir@, views(paths@))
                &&& plan.results@.len() == paths@.len()
                &&& forall|i: int|
                    0 <= i < paths@.len() ==> (#[trigger] plan.results@[i]).path@ == paths@[i]@ && (
                    plain_base(tmp_dir@) ==> is_join(
                        tmp_dir@,
                        decimal(i as nat),
                        plan.results@[i].stripped_path@,
                    ))
            },
            None => paths@.len() == 0,
        },
{
    if paths.len() == 0 {
        return None;
    }
    let request = strip_beam_request(tmp_dir, paths);
    let mut results: Vec<StripResult> = Vec::new();
    let mut i: usize = 0;
    while i < paths.len()
        invariant
            i <= paths.len(),
            results@.len() == i,
            forall|j: int|
                0 <= j < i ==> (#[trigger] results@[j]).path@ == paths@[j]@ && (plain_base(tmp_dir@)
                    ==> is_join(tmp_dir@, decimal(j as nat), results@[j].stripped_path@)),
        decreases paths.len() - i,
    {
        results.push(
            StripResult { path: paths[i].clone(), stripped_path: stripped_path(tmp_dir, i) },
        );
        i = i + 1;
    }
    Some(StripPlan { request, results })
}

/// Why a reply is no answer.
#[derive(Debug)]
pub enum ReplyError {
    Exited,
    Reported(String),
    NoVersion,
    NotStripped(String),
    MalformedEntry(String),
}

/// The kinds of [`ReplyError`], each with the text it is about.
pub enum ReplyFault {
    Exited,
    Reported(Seq<char>),
    NoVersion,
    NotStripped(Seq<char>),
    MalformedEntry(Seq<char>),
}

impl View for ReplyError {
    type V = ReplyFault;

    open spec fn view(&self) -> ReplyFault {
        match self {
            ReplyError::Exited => ReplyFault::Exited,
            ReplyError::Reported(s) => ReplyFault::Reported(s@),
            ReplyError::NoVersion => ReplyFault::NoVersion,
            ReplyError::NotStripped(s) => ReplyFault::NotStripped(s@),
            ReplyError::MalformedEntry(s) => ReplyFault::MalformedEntry(s@),
        }
    }
}

impl ReplyFault {
    /// The message for this error.
    pub open spec fn message(self) -> Seq<char> {
        match self {
            ReplyFault::Exited => "escript process exited unexpectedly"@,
            ReplyFault::Reported(s) => "escript error: "@ + s,
            ReplyFault::NoVersion => "could not determine OTP version from escript"@,
            ReplyFault::NotStripped(s) => "unexpected strip_beam response: "@ + s,
            ReplyFault::MalformedEntry(s) => "malformed app entry: "@ + s,
        }
    }
}

fn followed(start: &str, rest: &str) -> (r: String)
    ensures
        r@ == start@ + rest@,
{
    let mut out = String::from_str(start);
    out.append(rest);
    out
}

impl ReplyError {
    pub fn to_string(&self) -> (r: String)
        ensures
            r@ == self@.message(),
    {
        match self {
            ReplyError::Exited => String::from_str("escript process exited unexpectedly"),
            ReplyError::Reported(s) => followed("escript error: ", s.as_str()),
            ReplyError::NoVersion => String::from_str(
                "could not determine OTP version from escript",
            ),
            ReplyError::NotStripped(s) => followed("unexpected strip_beam response: ", s.as_str()),
            ReplyError::MalformedEntry(s) => followed("malformed app entry: ", s.as_str()),
        }
    }
}

/// What a line that was read means: nothing read is the end of the process, a line that begins
/// with `ERROR: ` reports an error, and any other is the reply, without white space at its end.
pub open spec fn reply_of(line: Seq<char>, bytes_read: nat) -> Result<Seq<char>, ReplyFault> {
    let reply = end_trimmed(line);
    if bytes_read == 0 {
        Err(ReplyFault::Exited)
    } else if "ERROR: "@.is_prefix_of(reply) {
        Err(ReplyFault::Reported(reply.skip("ERROR: "@.len() as int)))
    } else {
        Ok(reply)
    }
}

/// Makes out what a line that was read means.
pub fn read_reply(line: &str, bytes_read: usize) -> (r: Result<String, ReplyError>)
    ensures
        match r {
            Ok(s) => reply_of(line@, bytes_read as nat) == Ok::<Seq<char>, ReplyFault>(s@),
            Err(e) => reply_of(line@, bytes_read as nat) == Err::<Seq<char>, ReplyFault>(e@),
        },
{
    if bytes_read == 0 {
        return Err(ReplyError::Exited);
    }
    let reply = trim_end(line);
    match strip_prefix(reply.as_str(), "ERROR: ") {
        Some(msg) => {
            assert(reply@.skip("ERROR: "@.len() as int) =~= msg@);
            Err(ReplyError::Reported(msg))
        },
        None => Ok(reply),
    }
}

/// The version of Erlang/OTP that a reply gives.
pub fn otp_version_of(reply: String) -> (r: Result<String, ReplyError>)
    ensures
        match r {
            Ok(s) => reply@.len() > 0 && s@ == reply@,
            Err(e) => reply@.len() == 0 && e is NoVersion,
        },
{
    if reply.as_str().is_empty() {
        Err(ReplyError::NoVersion)
    } else {
        Ok(reply)
    }
}

/// Checks the reply to a request to strip files.
pub fn check_strip_reply(reply: String) -> (r: Result<(), ReplyError>)
    ensures
        match r {
            Ok(_) => reply@ == "ok"@,
            Err(e) => reply@ != "ok"@ && e@ == ReplyFault::NotStripped(reply@),
        },
{
    if same(reply.as_str(), "ok") {
        Ok(())
    } else {
        Err(ReplyError::NotStripped(reply))
    }
}

/// The applications named after the colon of an entry.
pub open spec fn entry_deps(s: Seq<char>) -> Seq<Seq<char>> {
    if s.len() == 0 {
        Seq::empty()
    } else {
        pieces(s, ',', ',')
    }
}

/// What a list of entries says, in their order: an entry is an application, a colon and what it
/// depends on. Empty entries say nothing; one without a colon is malformed, and the first such
/// is reported.
pub open spec fn entries_say(p: Seq<Seq<char>>) -> Result<
    Map<Seq<char>, Seq<Seq<char>>>,
    ReplyFault,
>
    decreases p.len(),
{
    if p.len() == 0 {
        Ok(Map::empty())
    } else {
        match entries_say(p.drop_last()) {
            Err(e) => Err(e),
            Ok(before) => {
                let entry = end_trimmed(start_trimmed(p.last()));
                if entry.len() == 0 {
                    Ok(before)
                } else if !entry.contains(':') {
                    Err(ReplyFault::MalformedEntry(entry))
                } else {
                    let at = entry.index_of_first(':')->0;
                    Ok(before.insert(entry.take(at), entry_deps(entry.skip(at + 1))))
                }
            },
        }
    }
}

/// The applications that a reply lists, and what they depend on. Entries stand between
/// semicolons.
pub open spec fn apps_of(reply: Seq<char>) -> Result<Map<Seq<char>, Seq<Seq<char>>>, ReplyFault> {
    entries_say(pieces(reply, ';', ';'))
}

proof fn lemma_colon_split(s: Seq<char>, head: Seq<char>, tail: Seq<char>)
    requires
        !head.contains(':'),
        s == head.push(':') + tail,
    ensures
        s.index_of_first(':') == Some(head.len() as int),
        s.take(head.len() as int) == head,
        s.skip(head.len() as int + 1) == tail,
{
    assert(s[head.len() as int] == ':');
    s.index_of_first_ensures(':');
    let at = s.index_of_first(':')->0;
    if at < head.len() {
        assert(head[at] == ':');
    }
    assert(s.take(head.len() as int) =~= head);
    assert(s.skip(head.len() as int + 1) =~= tail);
}

proof fn lemma_entries_fail(p: Seq<Seq<char>>, n: int)
    requires
        0 <= n <= p.len(),
        entries_say(p.take(n)) is Err,
    ensures
        entries_say(p) == entries_say(p.take(n)),
    decreases p.len(),
{
    if n == p.len() {
        assert(p.take(n) =~= p);
    } else {
        assert(p.drop_last().take(n) =~= p.take(n));
        lemma_entries_fail(p.drop_last(), n);
    }
}

/// Reads the applications that a reply lists, and what they depend on.
pub fn parse_app_entries(reply: &str) -> (r: Result<AppGraph, ReplyError>)
    ensures
        match r {
            Ok(g) => apps_of(reply@) == Ok::<Map<Seq<char>, Seq<Seq<char>>>, ReplyFault>(g@),
            Err(e) => apps_of(reply@) == Err::<Map<Seq<char>, Seq<Seq<char>>>, ReplyFault>(e@),
        },
{
    let parts = split(reply, ';', ';');
    let ghost all = views(parts@);
    let mut graph = AppGraph::new();
    let mut i: usize = 0;
    assert(all.take(0) =~= Seq::empty());
    while i < parts.len()
        invariant
            i <= parts.len(),
            all == views(parts@),
            all == pieces(reply@, ';', ';'),
            entries_say(all.take(i as int)) == Ok::<Map<Seq<char>, Seq<Seq<char>>>, ReplyFault>(
                graph@,
            ),
        decreases parts.len() - i,
    {
        let entry = trim(parts[i].as_str());
        proof {
            assert(all.take(i + 1).drop_last() =~= all.take(i as int));
            assert(all.take(i + 1).last() == parts@[i as int]@);
        }
        if !entry.as_str().is_empty() {
            match split_once(entry.as_str(), ':') {
                None => {
                    proof {
                        lemma_entries_fail(all, i + 1);
                    }
                    return Err(ReplyError::MalformedEntry(entry));
                },
                Some((name, deps_text)) => {
                    proof {
                        lemma_colon_split(entry@, name@, deps_text@);
                    }
                    let deps: Vec<String> = if deps_text.as_str().is_empty() {
                        Vec::new()
                    } else {
                        split(deps_text.as_str(), ',', ',')
                    };
                    assert(views(deps@) =~= entry_deps(deps_text@));
                    graph.insert(name, deps);
                },
            }
        }
        i = i + 1;
    }
    assert(all.take(all.len() as int) =~= all);
    Ok(graph)
}

proof fn lemma_escaped_push(s: Seq<char>, c: char)
    ensures
        escaped(s.push(c)) == escaped(s) + escaped_char(c),
{
    reveal_strlit("\\\\");
    reveal_strlit("\\\"");
    let two = "\\\\"@;
    let mark = "\\\""@;
    let inner = replaced(s, '\\', two);
    assert(s.push(c).drop_last() =~= s);
    if c == '\\' {
        let next = inner + two;
        assert(replaced(s.push(c), '\\', two) == next);
        let half = inner.push('\\');
        assert(next =~= half.push('\\'));
        assert(next.drop_last() =~= half);
        assert(half.drop_last() =~= inner);
        assert(replaced(half, '"', mark) == replaced(inner, '"', mark).push('\\'));
        assert(replaced(next, '"', mark) == replaced(half, '"', mark).push('\\'));
        assert(escaped(s.push(c)) =~= escaped(s) + escaped_char(c));
    } else {
        let next = inner.push(c);
        assert(replaced(s.push(c), '\\', two) == next);
        assert(next.drop_last() =~= inner);
        assert(escaped(s.push(c)) =~= escaped(s) + escaped_char(c));
    }
}

proof fn lemma_escaped_first(s: Seq<char>)
    requires
        s.len() > 0,
    ensures
        escaped(s) == escaped_char(s[0]) + escaped(s.drop_first()),
    decreases s.len(),
{
    if s.len() == 1 {
        let none = s.drop_first();
        assert(none =~= Seq::empty());
        assert(s =~= none.push(s[0]));
        lemma_escaped_push(none, s[0]);
        assert(escaped(none) =~= Seq::empty());
        assert(escaped(s) =~= escaped_char(s[0]) + escaped(none));
    } else {
        let head = s.drop_last();
        assert(s =~= head.push(s.last()));
        lemma_escaped_push(head, s.last());
        lemma_escaped_first(head);
        let tail = s.drop_first();
        assert(tail =~= head.drop_first().push(s.last()));
        lemma_escaped_push(head.drop_first(), s.last());
        assert(escaped(s) =~= escaped_char(s[0]) + escaped(tail));
    }
}

/// What stands between the quotes of an Erlang string gives back the text that was escaped.
pub proof fn law_escape_round_trip(s: Seq<char>)
    ensures
        unescaped(escaped(s)) == s,
    decreases s.len(),
{
    if s.len() == 0 {
        assert(escaped(s) =~= s);
    } else {
        let rest = s.drop_first();
        lemma_escaped_first(s);
        law_escape_round_trip(rest);
        let e = escaped(s);
        if s[0] == '\\' || s[0] == '"' {
            assert(e.skip(2) =~= escaped(rest));
        } else {
            assert(e.skip(1) =~= escaped(rest));
        }
        assert(seq![s[0]] + rest =~= s);
    }
}

/// Where an Erlang string ends: at the first quote that no backslash stands before, with
/// backslashes taken in pairs.
pub open spec fn string_end(s: Seq<char>) -> int
    decreases s.len(),
{
    if s.len() == 0 || s[0] == '"' {
        0
    } else if s[0] == '\\' && s.len() >= 2 {
        2 + string_end(s.skip(2))
    } else {
        1 + string_end(s.skip(1))
    }
}

/// No text ends the string it is escaped in: the string ends at the quote after it.
pub proof fn law_escape_stays_inside(s: Seq<char>, rest: Seq<char>)
    ensures
        string_end(escaped(s) + seq!['"'] + rest) == escaped(s).len(),
    decreases s.len(),
{
    let all = escaped(s) + seq!['"'] + rest;
    if s.len() == 0 {
        assert(escaped(s) =~= s);
        assert(all[0] == '"');
    } else {
        let tail = s.drop_first();
        lemma_escaped_first(s);
        law_escape_stays_inside(tail, rest);
        if s[0] == '\\' || s[0] == '"' {
            assert(all[0] == '\\');
            assert(all.skip(2) =~= escaped(tail) + seq!['"'] + rest);
        } else {
            assert(all[0] == s[0]);
            assert(all.skip(1) =~= escaped(tail) + seq!['"'] + rest);
        }
    }
}

/// Whether a text can be the name of an application in a reply: it is not empty and has no
/// semicolon, colon, comma or white space.
pub open spec fn is_app_name(s: Seq<char>) -> bool {
    &&& s.len() > 0
    &&& forall|i: int|
        0 <= i < s.len() ==> (#[trigger] s[i]) != ';' && s[i] != ':' && s[i] != ',' && !is_white(s[i])
}

/// An application and what it depends on, as an entry of a reply.
pub open spec fn entry_text(name: Seq<char>, deps: Seq<Seq<char>>) -> Seq<char> {
    name + seq![':'] + joined(deps, seq![','])
}

/// Applications and what they depend on, as a reply: an entry for each, with semicolons between.
pub open spec fn reply_text(names: Seq<Seq<char>>, deps: Seq<Seq<Seq<char>>>) -> Seq<char> {
    joined(Seq::new(names.len(), |i: int| entry_text(names[i], deps[i])), seq![';'])
}

proof fn lemma_names_joined(deps: Seq<Seq<char>>)
    requires
        forall|i: int| 0 <= i < deps.len() ==> is_app_name(#[trigger] deps[i]),
    ensures
        forall|k: int|
            0 <= k < joined(deps, seq![',']).len() ==> (#[trigger] joined(deps, seq![','])[k]) != ';'
                && !is_white(joined(deps, seq![','])[k]),
        deps.len() > 0 <==> joined(deps, seq![',']).len() > 0,
    decreases deps.len(),
{
    let all = joined(deps, seq![',']);
    if deps.len() == 1 {
        assert(is_app_name(deps[0]));
    } else if deps.len() > 1 {
        let before = deps.drop_last();
        assert forall|i: int| 0 <= i < before.len() implies is_app_name(#[trigger] before[i]) by {
            assert(before[i] == deps[i]);
        }
        lemma_names_joined(before);
        assert(is_app_name(deps[deps.len() - 1]));
        let head = joined(before, seq![',']);
        crate::text::law_white_space(',');
        assert forall|k: int| 0 <= k < all.len() implies (#[trigger] all[k]) != ';' && !is_white(
            all[k],
        ) by {
            if k < head.len() {
                assert(all[k] == head[k]);
            } else if k > head.len() {
                assert(all[k] == deps.last()[k - head.len() - 1]);
            }
        }
    }
}

proof fn lemma_entry_read(name: Seq<char>, deps: Seq<Seq<char>>)
    requires
        is_app_name(name),
        forall|i: int| 0 <= i < deps.len() ==> is_app_name(#[trigger] deps[i]),
    ensures
        !entry_text(name, deps).contains(';'),
        ({
            let entry = end_trimmed(start_trimmed(entry_text(name, deps)));
            &&& entry.len() > 0
            &&& entry.contains(':')
            &&& entry.take(entry.index_of_first(':')->0) == name
            &&& entry_deps(entry.skip(entry.index_of_first(':')->0 + 1)) == deps
        }),
{
    let text = joined(deps, seq![',']);
    let all = entry_text(name, deps);
    lemma_names_joined(deps);
    crate::text::law_white_space(':');
    assert(all =~= name.push(':') + text);
    assert forall|k: int| 0 <= k < all.len() implies (#[trigger] all[k]) != ';' && !is_white(
        all[k],
    ) by {
        if k < name.len() {
            assert(all[k] == name[k]);
        } else if k > name.len() {
            assert(all[k] == text[k - name.len() - 1]);
        }
    }
    assert(!name.contains(':')) by {
        if name.contains(':') {
            assert(name[name.index_of(':')] == ':');
        }
    }
    let none = Seq::<char>::empty();
    assert(none + all + none =~= all);
    crate::text::law_trimmed(none, all, none);
    assert(all[name.len() as int] == ':');
    lemma_colon_split(all, name, text);
    if deps.len() > 0 {
        assert forall|i: int| 0 <= i < deps.len() implies !(#[trigger] deps[i]).contains(',') by {
            assert(is_app_name(deps[i]));
            if deps[i].contains(',') {
                assert(deps[i][deps[i].index_of(',')] == ',');
            }
        }
        crate::text::law_join_then_split(deps, ',');
    } else {
        assert(deps =~= Seq::empty());
    }
}

proof fn lemma_entries_read(names: Seq<Seq<char>>, deps: Seq<Seq<Seq<char>>>)
    requires
        names.len() == deps.len(),
        names.no_duplicates(),
        forall|i: int| 0 <= i < names.len() ==> is_app_name(#[trigger] names[i]),
        forall|i: int, j: int|
            0 <= i < deps.len() && 0 <= j < deps[i].len() ==> is_app_name(#[trigger] deps[i][j]),
    ensures
        ({
            let read = entries_say(Seq::new(names.len(), |i: int| entry_text(names[i], deps[i])));
            &&& read is Ok
            &&& read->Ok_0.dom() == names.to_set()
            &&& forall|i: int| 0 <= i < names.len() ==> read->Ok_0[#[trigger] names[i]] == deps[i]
        }),
    decreases names.len(),
{
    broadcast use vstd::seq_lib::group_seq_properties;

    let texts = Seq::new(names.len(), |i: int| entry_text(names[i], deps[i]));
    let read = entries_say(texts);
    if names.len() == 0 {
        assert(read->Ok_0.dom() =~= names.to_set());
    } else {
        let name = names.last();
        let some = names.drop_last();
        let some_deps = deps.drop_last();
        let n = some.len() as int;
        assert(name == names[n] && deps.last() == deps[n]);
        assert forall|i: int| 0 <= i < some.len() implies is_app_name(#[trigger] some[i]) by {
            assert(some[i] == names[i]);
        }
        assert forall|i: int, j: int|
            0 <= i < some_deps.len() && 0 <= j < some_deps[i].len() implies is_app_name(
            #[trigger] some_deps[i][j],
        ) by {
            assert(some_deps[i][j] == deps[i][j]);
        }
        lemma_entries_read(some, some_deps);
        let before = Seq::new(some.len(), |i: int| entry_text(some[i], some_deps[i]));
        assert(texts.drop_last() =~= before);
        assert forall|j: int| 0 <= j < deps[n].len() implies is_app_name(#[trigger] deps[n][j]) by {}
        lemma_entry_read(name, deps[n]);
        assert(texts.last() == entry_text(name, deps[n]));
        let m = entries_say(before)->Ok_0;
        assert(read == Ok::<Map<Seq<char>, Seq<Seq<char>>>, ReplyFault>(m.insert(name, deps[n])));
        assert(names =~= some.push(name));
        assert(read->Ok_0.dom() =~= names.to_set());
        assert forall|i: int| 0 <= i < names.len() implies read->Ok_0[#[trigger] names[i]]
            == deps[i] by {
            if i < n {
                assert(some[i] == names[i]);
                assert(names[i] != names[n]);
            }
        }
    }
}

/// What the helper reports is what is read: of applications with different names and what each of
/// them depends on, written as name, colon and dependencies with commas between, with semicolons
/// between the entries, the applications are read, each with its dependencies in their order, and
/// nothing else.
pub proof fn law_report_comes_back(names: Seq<Seq<char>>, deps: Seq<Seq<Seq<char>>>)
    requires
        names.len() == deps.len(),
        names.no_duplicates(),
        forall|i: int| 0 <= i < names.len() ==> is_app_name(#[trigger] names[i]),
        forall|i: int, j: int|
            0 <= i < deps.len() && 0 <= j < deps[i].len() ==> is_app_name(#[trigger] deps[i][j]),
    ensures
        apps_of(reply_text(names, deps)) matches Ok(apps) && {
            &&& apps.dom() == names.to_set()
            &&& forall|i: int| 0 <= i < names.len() ==> apps[#[trigger] names[i]] == deps[i]
        },
{
    let texts = Seq::new(names.len(), |i: int| entry_text(names[i], deps[i]));
    lemma_entries_read(names, deps);
    if names.len() > 0 {
        assert forall|i: int| 0 <= i < texts.len() implies !(#[trigger] texts[i]).contains(';') by {
            assert forall|j: int| 0 <= j < deps[i].len() implies is_app_name(
                #[trigger] deps[i][j],
            ) by {}
            assert(is_app_name(names[i]));
            lemma_entry_read(names[i], deps[i]);
        }
        crate::text::law_join_then_split(texts, ';');
    } else {
        let reply = reply_text(names, deps);
        assert(reply =~= Seq::empty());
        let p = pieces(reply, ';', ';');
        assert(p =~= seq![Seq::<char>::empty()]);
        assert(p.drop_last() =~= texts);
        assert(end_trimmed(start_trimmed(p.last())).len() == 0);
    }
}

/// An entry that is added to a report adds its application, in place of what was said of it before,
/// and changes nothing else.
pub proof fn law_report_grows(
    reply: Seq<char>,
    apps: Map<Seq<char>, Seq<Seq<char>>>,
    name: Seq<char>,
    deps: Seq<Seq<char>>,
)
    requires
        apps_of(reply) == Ok::<Map<Seq<char>, Seq<Seq<char>>>, ReplyFault>(apps),
        is_app_name(name),
        forall|i: int| 0 <= i < deps.len() ==> is_app_name(#[trigger] deps[i]),
    ensures
        apps_of(reply.push(';') + entry_text(name, deps)) == Ok::<
            Map<Seq<char>, Seq<Seq<char>>>,
            ReplyFault,
        >(apps.insert(name, deps)),
        apps_of(reply.push(';')) == apps_of(reply),
{
    let entry = entry_text(name, deps);
    lemma_entry_read(name, deps);
    crate::text::lemma_pieces_add(reply, ';', entry, ';', ';');
    let p = pieces(reply, ';', ';');
    assert(p.push(entry).drop_last() =~= p);
    let none = Seq::<char>::empty();
    assert(reply.push(';') + none =~= reply.push(';'));
    crate::text::lemma_pieces_add(reply, ';', none, ';', ';');
    assert(p.push(none).drop_last() =~= p);
    assert(end_trimmed(start_trimmed(none)).len() == 0);
}

/// The dependencies of an entry are the text after its colon, cut at the commas: joined with
/// commas they are that text, and none of them holds a comma.
pub proof fn law_entry_dependencies(s: Seq<char>)
    ensures
        joined(entry_deps(s), seq![',']) == s,
        s.len() > 0 <==> entry_deps(s).len() > 0,
        forall|i: int|
            0 <= i < entry_deps(s).len() ==> !(#[trigger] entry_deps(s)[i]).contains(','),
{
    if s.len() > 0 {
        crate::text::law_split_then_join(s, ',');
    } else {
        assert(s =~= Seq::empty());
    }
}

proof fn lemma_malformed(p: Seq<Seq<char>>)
    ensures
        entries_say(p) is Err <==> exists|i: int| 0 <= i < p.len() && is_malformed(#[trigger] p[i]),
        entries_say(p) matches Err(e) ==> exists|i: int|
            {
                &&& 0 <= i < p.len()
                &&& is_malformed(#[trigger] p[i])
                &&& forall|j: int| 0 <= j < i ==> !is_malformed(#[trigger] p[j])
                &&& e == ReplyFault::MalformedEntry(end_trimmed(start_trimmed(p[i])))
            },
    decreases p.len(),
{
    if p.len() > 0 {
        let before = p.drop_last();
        lemma_malformed(before);
        assert(p[p.len() - 1] == p.last());
        lemma_blank(p.last());
        assert forall|j: int| 0 <= j < before.len() implies #[trigger] p[j] == before[j] by {}
        if entries_say(before) is Err {
            let i = choose|i: int|
                {
                    &&& 0 <= i < before.len()
                    &&& is_malformed(#[trigger] before[i])
                    &&& forall|j: int| 0 <= j < i ==> !is_malformed(#[trigger] before[j])
                    &&& entries_say(before)->Err_0 == ReplyFault::MalformedEntry(
                        end_trimmed(start_trimmed(before[i])),
                    )
                };
            assert(p[i] == before[i]);
            assert(is_malformed(p[i]));
            assert forall|j: int| 0 <= j < i implies !is_malformed(#[trigger] p[j]) by {
                assert(p[j] == before[j]);
            }
        } else {
            assert forall|j: int| 0 <= j < before.len() implies !is_malformed(#[trigger] p[j]) by {
                assert(p[j] == before[j]);
            }
            if entries_say(p) is Err {
                assert(is_malformed(p[p.len() - 1]));
            }
        }
    }
}

/// Whether an entry says something without a colon.
pub open spec fn is_malformed(entry: Seq<char>) -> bool {
    !all_white(entry) && !entry.contains(':')
}

proof fn lemma_blank(s: Seq<char>)
    ensures
        end_trimmed(start_trimmed(s)).len() == 0 <==> all_white(s),
        end_trimmed(start_trimmed(s)).contains(':') <==> s.contains(':'),
{
    lemma_start_kept(s);
    lemma_end_kept(start_trimmed(s));
}

proof fn lemma_start_kept(s: Seq<char>)
    ensures
        start_trimmed(s).contains(':') <==> s.contains(':'),
        all_white(start_trimmed(s)) <==> all_white(s),
        start_trimmed(s).len() > 0 ==> !is_white(start_trimmed(s)[0]),
    decreases s.len(),
{
    crate::text::law_white_space(':');
    if s.len() > 0 && is_white(s[0]) {
        let rest = s.drop_first();
        lemma_start_kept(rest);
        if rest.contains(':') {
            assert(s[rest.index_of(':') + 1] == ':');
        }
        if s.contains(':') {
            let i = s.index_of(':');
            assert(rest[i - 1] == ':');
        }
        if all_white(rest) {
            assert forall|i: int| 0 <= i < s.len() implies is_white(#[trigger] s[i]) by {
                if i > 0 {
                    assert(rest[i - 1] == s[i]);
                }
            }
        }
        if all_white(s) {
            assert forall|i: int| 0 <= i < rest.len() implies is_white(#[trigger] rest[i]) by {
                assert(rest[i] == s[i + 1]);
            }
        }
    }
}

proof fn lemma_end_kept(s: Seq<char>)
    requires
        s.len() > 0 ==> !is_white(s[0]),
    ensures
        end_trimmed(s).contains(':') <==> s.contains(':'),
        end_trimmed(s).len() == 0 <==> s.len() == 0,
        s.len() > 0 ==> !all_white(s),
    decreases s.len(),
{
    crate::text::law_white_space(':');
    if s.len() > 0 {
        assert(!is_white(s[0]));
        if is_white(s.last()) {
            let rest = s.drop_last();
            assert(rest[0] == s[0]);
            lemma_end_kept(rest);
            if rest.contains(':') {
                assert(s[rest.index_of(':')] == ':');
            }
            if s.contains(':') {
                let i = s.index_of(':');
                assert(rest[i] == ':');
            }
        }
    }
}

/// A reply is refused just where something between its semicolons is not blank and has no colon;
/// the first such is reported, without the white space around it.
pub proof fn law_malformed_report(reply: Seq<char>)
    ensures
        apps_of(reply) is Err <==> exists|i: int|
            0 <= i < pieces(reply, ';', ';').len() && is_malformed(
                #[trigger] pieces(reply, ';', ';')[i],
            ),
        apps_of(reply) matches Err(e) ==> exists|i: int|
            {
                &&& 0 <= i < pieces(reply, ';', ';').len()
                &&& is_malformed(#[trigger] pieces(reply, ';', ';')[i])
                &&& forall|j: int|
                    0 <= j < i ==> !is_malformed(#[trigger] pieces(reply, ';', ';')[j])
                &&& e == ReplyFault::MalformedEntry(
                    end_trimmed(start_trimmed(pieces(reply, ';', ';')[i])),
                )
            },
{
    lemma_malformed(pieces(reply, ';', ';'));
}

/// The Erlang strings in a request, one after another.
pub open spec fn strings_in(s: Seq<char>) -> Seq<Seq<char>>
    decreases s.len(),
{
    if s.len() == 0 {
        Seq::empty()
    } else if s[0] != '"' {
        strings_in(s.skip(1))
    } else {
        let end = string_end(s.skip(1));
        if 0 <= end < s.len() - 1 {
            seq![unescaped(s.subrange(1, end + 1))] + strings_in(s.skip(end + 2))
        } else {
            Seq::empty()
        }
    }
}

proof fn lemma_no_strings(head: Seq<char>, rest: Seq<char>)
    requires
        !head.contains('"'),
    ensures
        strings_in(head + rest) == strings_in(rest),
    decreases head.len(),
{
    if head.len() == 0 {
        assert(head + rest =~= rest);
    } else {
        assert(head.contains(head[0]));
        let tail = head.skip(1);
        assert(!tail.contains('"')) by {
            if tail.contains('"') {
                assert(head[tail.index_of('"') + 1] == '"');
            }
        }
        assert((head + rest).skip(1) =~= tail + rest);
        lemma_no_strings(tail, rest);
    }
}

proof fn lemma_one_string(path: Seq<char>, rest: Seq<char>)
    ensures
        strings_in(quoted(path) + rest) == seq![path] + strings_in(rest),
{
    reveal_strlit("\"");
    let e = escaped(path);
    let s = quoted(path) + rest;
    law_escape_stays_inside(path, rest);
    law_escape_round_trip(path);
    assert(s.skip(1) =~= e + seq!['"'] + rest);
    assert(s.subrange(1, e.len() as int + 1) =~= e);
    assert(s.skip(e.len() as int + 2) =~= rest);
}

proof fn lemma_strings_joined(paths: Seq<Seq<char>>, rest: Seq<char>)
    ensures
        strings_in(joined(all_quoted(paths), ", "@) + rest) == paths + strings_in(rest),
    decreases paths.len(),
{
    reveal_strlit(", ");
    let list = all_quoted(paths);
    if paths.len() == 0 {
        assert(joined(list, ", "@) + rest =~= rest);
        assert(paths + strings_in(rest) =~= strings_in(rest));
    } else if paths.len() == 1 {
        lemma_one_string(paths[0], rest);
        assert(paths =~= seq![paths[0]]);
    } else {
        let before = paths.drop_last();
        let last = quoted(paths.last());
        assert(list.drop_last() =~= all_quoted(before));
        let tail = ", "@ + (last + rest);
        lemma_strings_joined(before, tail);
        assert(joined(list, ", "@) + rest =~= joined(all_quoted(before), ", "@) + tail);
        assert(!", "@.contains('"'));
        lemma_no_strings(", "@, last + rest);
        lemma_one_string(paths.last(), rest);
        assert(before + (seq![paths.last()] + strings_in(rest)) =~= paths + strings_in(rest));
    }
}

/// The request for the applications in a directory.
pub open spec fn walk_request(dir: Seq<char>) -> Seq<char> {
    "{parse_app_files, "@ + quoted(dir) + "}.\n"@
}

/// A request names the directory and the files that it is about, each as it is and in their
/// order, whatever characters are in them, and is one line that ends in a full stop.
pub proof fn law_requests_name_paths(dir: Seq<char>, paths: Seq<Seq<char>>)
    ensures
        strings_in(strip_request(dir, paths)) == seq![dir] + paths,
        strings_in(walk_request(dir)) == seq![dir],
        ".\n"@.is_suffix_of(strip_request(dir, paths)),
        ".\n"@.is_suffix_of(walk_request(dir)),
        "{strip_beam, "@.is_prefix_of(strip_request(dir, paths)),
        "{parse_app_files, "@.is_prefix_of(walk_request(dir)),
{
    reveal_strlit("{strip_beam, ");
    reveal_strlit(", [");
    reveal_strlit("]}.\n");
    reveal_strlit("{parse_app_files, ");
    reveal_strlit("}.\n");
    reveal_strlit(".\n");
    let none = Seq::<char>::empty();
    let list = joined(all_quoted(paths), ", "@);
    let end = "]}.\n"@;
    let s = strip_request(dir, paths);
    assert(s =~= "{strip_beam, "@ + (quoted(dir) + (", ["@ + (list + end))));
    lemma_no_strings("{strip_beam, "@, quoted(dir) + (", ["@ + (list + end)));
    lemma_one_string(dir, ", ["@ + (list + end));
    lemma_no_strings(", ["@, list + end);
    lemma_strings_joined(paths, end);
    assert(end + none =~= end);
    lemma_no_strings(end, none);
    assert(strings_in(none) =~= Seq::empty());
    assert(seq![dir] + (paths + strings_in(end)) =~= seq![dir] + paths);
    let w = walk_request(dir);
    let close = "}.\n"@;
    assert(w =~= "{parse_app_files, "@ + (quoted(dir) + close));
    lemma_no_strings("{parse_app_files, "@, quoted(dir) + close);
    lemma_one_string(dir, close);
    assert(close + none =~= close);
    lemma_no_strings(close, none);
    assert(seq![dir] + strings_in(close) =~= seq![dir]);
    assert(s.skip(s.len() - 2) =~= ".\n"@);
    assert(w.skip(w.len() - 2) =~= ".\n"@);
}

/// A line is its text without the white space at its end, or the error that it reports where it
/// begins with `ERROR: `; where nothing was read the helper has gone.
pub proof fn law_replies(text: Seq<char>, space: Seq<char>, bytes_read: nat)
    requires
        text.len() > 0 ==> !is_white(text.last()),
        all_white(space),
    ensures
        bytes_read == 0 ==> reply_of(text + space, bytes_read) == Err::<Seq<char>, ReplyFault>(
            ReplyFault::Exited,
        ),
        bytes_read > 0 && !"ERROR: "@.is_prefix_of(text) ==> reply_of(text + space, bytes_read)
            == Ok::<Seq<char>, ReplyFault>(text),
        bytes_read > 0 && text.len() > 0 ==> reply_of("ERROR: "@ + text + space, bytes_read)
            == Err::<Seq<char>, ReplyFault>(ReplyFault::Reported(text)),
{
    crate::text::lemma_end_trimmed(text, space);
    if text.len() > 0 {
        let full = "ERROR: "@ + text;
        assert(full.last() == text.last());
        crate::text::lemma_end_trimmed(full, space);
        assert("ERROR: "@ + text + space == full + space);
        assert(full.skip("ERROR: "@.len() as int) =~= text);
        assert(full.take("ERROR: "@.len() as int) =~= "ERROR: "@);
    }
}


/// A message ends in what was answered, as it is, and begins alike for every answer.
pub proof fn law_reply_messages(s: Seq<char>)
    ensures
        ReplyFault::Reported(s).message() == ReplyFault::Reported(Seq::empty()).message() + s,
        ReplyFault::NotStripped(s).message() == ReplyFault::NotStripped(Seq::empty()).message() + s,
        ReplyFault::MalformedEntry(s).message() == ReplyFault::MalformedEntry(
            Seq::empty(),
        ).message() + s,
{
    let none = Seq::<char>::empty();
    assert("escript error: "@ + none =~= "escript error: "@);
    assert("unexpected strip_beam response: "@ + none =~= "unexpected strip_beam response: "@);
    assert("malformed app entry: "@ + none =~= "malformed app entry: "@);
}

} // verus!
