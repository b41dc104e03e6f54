//! Which Erlang applications a package needs.

use std::collections::VecDeque;

use vstd::prelude::*;
use vstd::string::*;

use crate::order::{is_listing, listing, sort};
use crate::text::{join, joined, same, views};

verus! {

/// Whether one of the strings has the given text.
pub(crate) fn holds(items: &Vec<String>, text: &str) -> (r: bool)
    ensures
        r == views(items@).contains(text@),
{
    let mut i: usize = 0;
    while i < items.len()
        invariant
            i <= items.len(),
            forall|j: int| 0 <= j < i ==> (#[trigger] views(items@)[j]) != text@,
        decreases items.len() - i,
    {
        assert(views(items@)[i as int] == items@[i as int]@);
        if same(items[i].as_str(), text) {
            return true;
        }
        i = i + 1;
    }
    false
}

/// A set of names.
#[derive(Debug)]
pub struct NameSet {
    names: Vec<String>,
}

impl View for NameSet {
    type V = Set<Seq<char>>;

    closed spec fn view(&self) -> Set<Seq<char>> {
        views(self.names@).to_set()
    }
}

impl NameSet {
    #[verifier::type_invariant]
    spec fn distinct(&self) -> bool {
        views(self.names@).no_duplicates()
    }

    /// The empty set.
    pub fn new() -> (r: NameSet)
        ensures
            r@ == Set::<Seq<char>>::empty(),
    {
        let names: Vec<String> = Vec::new();
        assert(views(names@) =~= Seq::empty());
        assert(views(names@).to_set() =~= Set::empty());
        NameSet { names }
    }

    /// Whether the name is in the set.
    pub fn contains(&self, name: &str) -> (r: bool)
        ensures
            r == self@.contains(name@),
    {
        holds(&self.names, name)
    }

    /// Adds a name, and says whether it was new.
    pub fn insert(&mut self, name: &str) -> (r: bool)
        ensures
            final(self)@ == old(self)@.insert(name@),
            r == !old(self)@.contains(name@),
    {
        proof {
            use_type_invariant(&*self);
        }
        if self.contains(name) {
            assert(self@.insert(name@) =~= self@);
            return false;
        }
        let ghost before = views(self.names@);
        let item = String::from_str(name);
        proof {
            assert(views(self.names@.push(item)) =~= before.push(name@));
            assert(before.push(name@).to_set() =~= before.to_set().insert(name@)) by {
                broadcast use vstd::seq_lib::group_seq_properties;

            }
        }
        let mut names: Vec<String> = Vec::new();
        assert(views(names@) =~= Seq::empty());
        std::mem::swap(&mut names, &mut self.names);
        names.push(item);
        self.names = names;
        true
    }

    /// The names in ascending order, each once.
    pub fn sorted(&self) -> (r: Vec<String>)
        ensures
            is_listing(views(r@), self@),
            views(r@) == listing(self@),
    {
        proof {
            use_type_invariant(self);
        }
        let r = sort(&self.names);
        proof {
            crate::order::lemma_sorted_form(views(self.names@), views(r@));
            assert(views(r@).to_set() =~= views(self.names@).to_set());
            crate::order::lemma_listing_unique(views(r@), views(r@), self@);
        }
        r
    }
}

/// One application and the applications it depends on.
#[derive(Debug)]
struct AppEntry {
    name: String,
    deps: Vec<String>,
}

/// Applications, each with those it depends on.
#[derive(Debug)]
pub struct AppGraph {
    entries: Vec<AppEntry>,
}

spec fn entry_names(entries: Seq<AppEntry>) -> Seq<Seq<char>> {
    Seq::new(entries.len(), |i: int| entries[i].name@)
}

spec fn entry_map(entries: Seq<AppEntry>) -> Map<Seq<char>, Seq<Seq<char>>> {
    Map::new(
        |k: Seq<char>| entry_names(entries).contains(k),
        |k: Seq<char>| views(entries[entry_names(entries).index_of(k)].deps@),
    )
}

impl View for AppGraph {
    type V = Map<Seq<char>, Seq<Seq<char>>>;

    closed spec fn view(&self) -> Map<Seq<char>, Seq<Seq<char>>> {
        entry_map(self.entries@)
    }
}

proof fn lemma_entry(entries: Seq<AppEntry>, i: int)
    requires
        entry_names(entries).no_duplicates(),
        0 <= i < entries.len(),
    ensures
        entry_map(entries).dom().contains(entries[i].name@),
        entry_map(entries)[entries[i].name@] == views(entries[i].deps@),
{
    let names = entry_names(entries);
    assert(names[i] == entries[i].name@);
    assert(names.contains(names[i]));
    let k = names.index_of(names[i]);
    assert(0 <= k < names.len() && names[k] == names[i]);
}

impl AppGraph {
    #[verifier::type_invariant]
    spec fn distinct(&self) -> bool {
        entry_names(self.entries@).no_duplicates()
    }

    /// The graph without applications.
    pub fn new() -> (r: AppGraph)
        ensures
            r@ == Map::<Seq<char>, Seq<Seq<char>>>::empty(),
    {
        let entries: Vec<AppEntry> = Vec::new();
        assert(entry_names(entries@) =~= Seq::empty());
        assert(entry_map(entries@) =~= Map::empty());
        AppGraph { entries }
    }

    fn find(&self, name: &str) -> (r: Option<usize>)
        ensures
            match r {
                Some(i) => i < self.entries@.len() && self.entries@[i as int].name@ == name@,
                None => !entry_names(self.entries@).contains(name@),
            },
    {
        let mut i: usize = 0;
        while i < self.entries.len()
            invariant
                i <= self.entries@.len(),
                forall|j: int|
                    0 <= j < i ==> (#[trigger] entry_names(self.entries@)[j]) != name@,
            decreases self.entries@.len() - i,
        {
            if same(self.entries[i].name.as_str(), name) {
                return Some(i);
            }
            i = i + 1;
        }
        None
    }

    /// Records what an application depends on, in place of what was recorded before.
    pub fn insert(&mut self, name: String, deps: Vec<String>)
        ensures
            final(self)@ == old(self)@.insert(name@, views(deps@)),
    {
        proof {
            use_type_invariant(&*self);
        }
        let found = self.find(name.as_str());
        let ghost before = self.entries@;
        let ghost item = AppEntry { name, deps };
        let ghost key = name@;
        let ghost after = match found {
            Some(i) => before.update(i as int, item),
            None => before.push(item),
        };
        proof {
            let old_names = entry_names(before);
            let new_names = entry_names(after);
            match found {
                Some(i) => {
                    assert(new_names =~= old_names);
                    lemma_entry(after, i as int);
                },
                None => {
                    assert(new_names =~= old_names.push(key));
                    lemma_entry(after, before.len() as int);
                },
            }
            assert forall|k: Seq<char>| #[trigger]
                entry_map(after).dom().contains(k) == entry_map(before).insert(
                    key,
                    views(deps@),
                ).dom().contains(k) by {
                if old_names.contains(k) {
                    let j = old_names.index_of(k);
                    assert(new_names[j] == k);
                }
                if new_names.contains(k) && k != key {
                    let j = new_names.index_of(k);
                    assert(old_names[j] == k);
                }
                assert(new_names.contains(key));
            }
            assert forall|k: Seq<char>| #[trigger] entry_map(after).dom().contains(k) implies
                entry_map(after)[k] == entry_map(before).insert(key, views(deps@))[k] by {
                if k != key {
                    let j = old_names.index_of(k);
                    assert(entry_map(before).dom().contains(k));
                    assert(old_names[j] == k);
                    lemma_entry(before, j);
                    lemma_entry(after, j);
                }
            }
            assert(entry_map(after) =~= entry_map(before).insert(key, views(deps@)));
        }
        let mut entries: Vec<AppEntry> = Vec::new();
        assert(entry_names(entries@) =~= Seq::empty());
        std::mem::swap(&mut entries, &mut self.entries);
        match found {
            Some(i) => {
                entries.set(i, AppEntry { name, deps });
            },
            None => {
                entries.push(AppEntry { name, deps });
            },
        }
        self.entries = entries;
    }

    /// What is recorded for an application.
    pub fn get(&self, name: &str) -> (r: Option<&Vec<String>>)
        ensures
            r is Some == self@.dom().contains(name@),
            r matches Some(deps) ==> views(deps@) == self@[name@],
    {
        proof {
            use_type_invariant(self);
        }
        match self.find(name) {
            Some(i) => {
                proof {
                    lemma_entry(self.entries@, i as int);
                }
                Some(&self.entries[i].deps)
            },
            None => None,
        }
    }

    /// Whether anything is recorded for an application.
    pub fn contains_key(&self, name: &str) -> (r: bool)
        ensures
            r == self@.dom().contains(name@),
    {
        self.get(name).is_some()
    }
}

/// Whether every running system needs the application.
pub open spec fn is_implicit(name: Seq<char>) -> bool {
    name == "kernel"@ || name == "stdlib"@ || name == "compiler"@
}

/// Whether the application is needed from the start: every system needs it, the package brings
/// it along, or something that the package brings along depends on it.
pub open spec fn is_seed(shipment: Map<Seq<char>, Seq<Seq<char>>>, name: Seq<char>) -> bool {
    ||| is_implicit(name)
    ||| shipment.dom().contains(name)
    ||| exists|app: Seq<char>| #[trigger]
        shipment.dom().contains(app) && shipment[app].contains(name)
}

/// Whether a set holds, with each application, what the runtime's applications depend on.
pub open spec fn is_closed(s: Set<Seq<char>>, erts: Map<Seq<char>, Seq<Seq<char>>>) -> bool {
    forall|app: Seq<char>, dep: Seq<char>|
        s.contains(app) && erts.dom().contains(app) && #[trigger] erts[app].contains(dep)
            ==> s.contains(dep)
}

/// Whether a set has all that is needed: what is needed from the start, and with each
/// application what it depends on.
pub open spec fn suffices(
    s: Set<Seq<char>>,
    shipment: Map<Seq<char>, Seq<Seq<char>>>,
    erts: Map<Seq<char>, Seq<Seq<char>>>,
) -> bool {
    &&& forall|name: Seq<char>| #[trigger] is_seed(shipment, name) ==> s.contains(name)
    &&& is_closed(s, erts)
}

spec fn all_deps(entries: Seq<AppEntry>) -> Seq<Seq<char>>
    decreases entries.len(),
{
    if entries.len() == 0 {
        Seq::empty()
    } else {
        all_deps(entries.drop_last()) + views(entries.last().deps@)
    }
}

proof fn lemma_all_deps(entries: Seq<AppEntry>, i: int, dep: Seq<char>)
    requires
        0 <= i < entries.len(),
        views(entries[i].deps@).contains(dep),
    ensures
        all_deps(entries).contains(dep),
    decreases entries.len(),
{
    let before = all_deps(entries.drop_last());
    let last = views(entries.last().deps@);
    if i == entries.len() - 1 {
        let j = last.index_of(dep);
        assert((before + last)[before.len() + j] == dep);
    } else {
        lemma_all_deps(entries.drop_last(), i, dep);
        let j = before.index_of(dep);
        assert((before + last)[j] == dep);
    }
}

spec fn pending(queue: Seq<String>, name: Seq<char>) -> bool {
    views(queue).contains(name)
}

proof fn lemma_pending_push(queue: Seq<String>, item: String)
    ensures
        forall|x: Seq<char>|
            pending(queue.push(item), x) <==> (#[trigger] pending(queue, x) || x == item@),
        forall|x: Seq<char>| #[trigger]
            pending(queue.push(item), x) <==> (pending(queue, x) || x == item@),
{
    assert(views(queue.push(item)) =~= views(queue).push(item@));
    broadcast use vstd::seq_lib::group_seq_properties;

}

fn push_all(queue: &mut VecDeque<String>, items: &Vec<String>)
    ensures
        forall|x: Seq<char>| #[trigger]
            pending(final(queue)@, x) <==> (pending(old(queue)@, x) || views(items@).contains(x)),
{
    let ghost start = queue@;
    let mut i: usize = 0;
    assert(views(items@).take(0) =~= Seq::empty());
    while i < items.len()
        invariant
            i <= items.len(),
            forall|x: Seq<char>| #[trigger]
                pending(queue@, x) <==> (pending(start, x) || views(items@).take(
                    i as int,
                ).contains(x)),
        decreases items.len() - i,
    {
        let item = items[i].clone();
        proof {
            lemma_pending_push(queue@, item);
            let seen = views(items@).take(i as int);
            assert(views(items@).take(i + 1) =~= seen.push(item@));
            broadcast use vstd::seq_lib::group_seq_properties;

        }
        queue.push_back(item);
        i = i + 1;
    }
    assert(views(items@).take(items@.len() as int) =~= views(items@));
}

/// The texts that are needed from the start, in a queue.
fn seeds(shipment_apps: &AppGraph) -> (r: VecDeque<String>)
    ensures
        forall|x: Seq<char>| #[trigger] pending(r@, x) <==> is_seed(shipment_apps@, x),
{
    proof {
        use_type_invariant(shipment_apps);
    }
    let mut queue: VecDeque<String> = VecDeque::new();
    let first = String::from_str("kernel");
    let second = String::from_str("stdlib");
    let third = String::from_str("compiler");
    assert(views(queue@) =~= Seq::empty());
    proof {
        lemma_pending_push(queue@, first);
        lemma_pending_push(queue@.push(first), second);
        lemma_pending_push(queue@.push(first).push(second), third);
    }
    queue.push_back(first);
    queue.push_back(second);
    queue.push_back(third);
    let ghost entries = shipment_apps.entries@;
    let mut i: usize = 0;
    while i < shipment_apps.entries.len()
        invariant
            i <= shipment_apps.entries@.len(),
            entries == shipment_apps.entries@,
            forall|x: Seq<char>| #[trigger]
                pending(queue@, x) <==> {
                    ||| is_implicit(x)
                    ||| exists|j: int| 0 <= j < i && (#[trigger] entries[j]).name@ == x
                    ||| exists|j: int|
                        0 <= j < i && views((#[trigger] entries[j]).deps@).contains(x)
                },
        decreases shipment_apps.entries@.len() - i,
    {
        let name = shipment_apps.entries[i].name.clone();
        proof {
            lemma_pending_push(queue@, name);
        }
        let ghost before = queue@;
        queue.push_back(name);
        push_all(&mut queue, &shipment_apps.entries[i].deps);
        proof {
            assert forall|x: Seq<char>| #[trigger] pending(queue@, x) <==> {
                ||| is_implicit(x)
                ||| exists|j: int| 0 <= j < i + 1 && (#[trigger] entries[j]).name@ == x
                ||| exists|j: int|
                    0 <= j < i + 1 && views((#[trigger] entries[j]).deps@).contains(x)
            } by {
                assert(pending(before, x) || true);
                assert(entries[i as int] == shipment_apps.entries@[i as int]);
            }
        }
        i = i + 1;
    }
    proof {
        assert forall|x: Seq<char>| #[trigger] pending(queue@, x) <==> is_seed(
            shipment_apps@,
            x,
        ) by {
            let names = entry_names(entries);
            if exists|j: int| 0 <= j < entries.len() && (#[trigger] entries[j]).name@ == x {
                let j = choose|j: int| 0 <= j < entries.len() && (#[trigger] entries[j]).name@ == x;
                lemma_entry(entries, j);
            }
            if exists|j: int|
                0 <= j < entries.len() && views((#[trigger] entries[j]).deps@).contains(x) {
                let j = choose|j: int|
                    0 <= j < entries.len() && views((#[trigger] entries[j]).deps@).contains(x);
                lemma_entry(entries, j);
                assert(shipment_apps@.dom().contains(entries[j].name@));
            }
            if shipment_apps@.dom().contains(x) {
                let j = names.index_of(x);
                assert(names[j] == x);
                assert(entries[j].name@ == x);
            }
            if exists|app: Seq<char>| #[trigger]
                shipment_apps@.dom().contains(app) && shipment_apps@[app].contains(x) {
                let app = choose|app: Seq<char>| #[trigger]
                    shipment_apps@.dom().contains(app) && shipment_apps@[app].contains(x);
                let j = names.index_of(app);
                assert(names[j] == app);
                lemma_entry(entries, j);
                assert(views(entries[j].deps@).contains(x));
            }
        }
    }
    queue
}

/// The applications that a package needs: the least set that has what is needed from the start
/// and, with each application, what the runtime's applications say it depends on.
pub fn resolve(shipment_apps: &AppGraph, erts_apps: &AppGraph) -> (r: NameSet)
    ensures
        suffices(r@, shipment_apps@, erts_apps@),
        forall|s: Set<Seq<char>>| #[trigger]
            suffices(s, shipment_apps@, erts_apps@) ==> r@.subset_of(s),
        r@.finite(),
{
    proof {
        use_type_invariant(erts_apps);
    }
    let mut required = NameSet::new();
    let mut queue = seeds(shipment_apps);
    let ghost universe = views(queue@).to_set().union(
        all_deps(erts_apps.entries@).to_set(),
    );
    proof {
        vstd::seq_lib::seq_to_set_is_finite(views(queue@));
        vstd::seq_lib::seq_to_set_is_finite(all_deps(erts_apps.entries@));
        assert(required@.len() == 0);
    }
    loop
        invariant
            entry_names(erts_apps.entries@).no_duplicates(),
            universe.finite(),
            required@.finite(),
            required@.subset_of(universe),
            all_deps(erts_apps.entries@).to_set().subset_of(universe),
            forall|x: Seq<char>| #[trigger] pending(queue@, x) ==> universe.contains(x),
            forall|x: Seq<char>| #[trigger]
                is_seed(shipment_apps@, x) ==> required@.contains(x) || pending(queue@, x),
            forall|app: Seq<char>, dep: Seq<char>|
                required@.contains(app) && erts_apps@.dom().contains(app)
                    && #[trigger] erts_apps@[app].contains(dep) ==> required@.contains(dep)
                    || pending(queue@, dep),
            forall|s: Set<Seq<char>>, x: Seq<char>|
                #![trigger suffices(s, shipment_apps@, erts_apps@), required@.contains(x)]
                suffices(s, shipment_apps@, erts_apps@) && required@.contains(x) ==> s.contains(x),
            forall|s: Set<Seq<char>>, x: Seq<char>|
                #![trigger suffices(s, shipment_apps@, erts_apps@), pending(queue@, x)]
                suffices(s, shipment_apps@, erts_apps@) && pending(queue@, x) ==> s.contains(x),
        decreases universe.len() - required@.len(), queue@.len(),
    {
        let ghost queue_before = queue@;
        let ghost required_before = required@;
        proof {
            vstd::set_lib::lemma_len_subset(required@, universe);
        }
        let app = match queue.pop_front() {
            Some(app) => app,
            None => {
                proof {
                    assert forall|x: Seq<char>| !pending(queue@, x) by {
                        assert(queue@.len() == 0);
                    }
                    assert forall|s: Set<Seq<char>>| #[trigger]
                        suffices(s, shipment_apps@, erts_apps@) implies required@.subset_of(s) by {
                        assert forall|x: Seq<char>| required@.contains(x) implies s.contains(
                            x,
                        ) by {}
                    }
                }
                return required;
            },
        };
        proof {
            assert(views(queue_before) =~= seq![app@] + views(queue@));
            assert forall|x: Seq<char>| #[trigger]
                pending(queue_before, x) <==> (x == app@ || pending(queue@, x)) by {
                let all = views(queue_before);
                let rest = views(queue@);
                if all.contains(x) && x != app@ {
                    let j = all.index_of(x);
                    assert(rest[j - 1] == x);
                }
                if rest.contains(x) {
                    let j = rest.index_of(x);
                    assert(all[j + 1] == x);
                }
                assert(all[0] == app@);
            }
            assert(pending(queue_before, app@));
            assert forall|x: Seq<char>| #[trigger] pending(queue@, x) implies pending(
                queue_before,
                x,
            ) by {}
        }
        let ghost queue_popped = queue@;
        if !required.insert(app.as_str()) {
            proof {
                assert(required@ =~= required_before);
            }
            continue ;
        }
        proof {
            assert(required@.contains(app@));
            vstd::set_lib::lemma_len_subset(required@, universe);
        }
        if let Some(deps) = erts_apps.get(app.as_str()) {
            let mut i: usize = 0;
            while i < deps.len()
                invariant
                    i <= deps.len(),
                    forall|x: Seq<char>| #[trigger]
                        pending(queue_popped, x) ==> pending(queue@, x),
                    forall|x: Seq<char>| #[trigger]
                        pending(queue@, x) ==> pending(queue_popped, x) || views(
                            deps@,
                        ).contains(x),
                    forall|j: int|
                        0 <= j < i ==> required@.contains(#[trigger] views(deps@)[j]) || pending(
                            queue@,
                            views(deps@)[j],
                        ),
                decreases deps.len() - i,
            {
                assert(views(deps@)[i as int] == deps@[i as int]@);
                if !required.contains(deps[i].as_str()) {
                    let dep = deps[i].clone();
                    let ghost q = queue@;
                    proof {
                        lemma_pending_push(q, dep);
                        assert(views(deps@).contains(dep@));
                    }
                    queue.push_back(dep);
                    assert forall|x: Seq<char>| #[trigger] pending(q, x) implies pending(
                        queue@,
                        x,
                    ) by {}
                }
                i = i + 1;
            }
            proof {
                let names = entry_names(erts_apps.entries@);
                assert(erts_apps@[app@] == views(deps@));
                let k = names.index_of(app@);
                assert(names[k] == app@);
                lemma_entry(erts_apps.entries@, k);
                assert forall|x: Seq<char>| #[trigger] pending(queue@, x) implies universe.contains(
                    x,
                ) by {
                    if views(deps@).contains(x) {
                        lemma_all_deps(erts_apps.entries@, k, x);
                    } else {
                        assert(pending(queue_popped, x));
                    }
                }
                assert forall|s: Set<Seq<char>>, x: Seq<char>|
                    #![trigger suffices(s, shipment_apps@, erts_apps@), pending(queue@, x)]
                    suffices(s, shipment_apps@, erts_apps@) && pending(queue@, x) implies s.contains(
                    x,
                ) by {
                    assert(s.contains(app@));
                    if views(deps@).contains(x) {
                        assert(erts_apps@[app@].contains(x));
                    } else {
                        assert(pending(queue_popped, x));
                    }
                }
            }
        }
        proof {
            assert forall|a: Seq<char>, dep: Seq<char>|
                required@.contains(a) && erts_apps@.dom().contains(a)
                    && #[trigger] erts_apps@[a].contains(dep) implies required@.contains(dep)
                || pending(queue@, dep) by {
                if a == app@ {
                    let d = erts_apps@[a];
                    let j = d.index_of(dep);
                    assert(d[j] == dep);
                } else {
                    assert(required_before.contains(a));
                    if pending(queue_before, dep) && dep != app@ {
                        assert(pending(queue_popped, dep));
                    }
                }
            }
            assert forall|x: Seq<char>| #[trigger] is_seed(shipment_apps@, x) implies required@.contains(x)
                || pending(queue@, x) by {
                if pending(queue_before, x) && x != app@ {
                    assert(pending(queue_popped, x));
                }
            }
            assert forall|s: Set<Seq<char>>, x: Seq<char>|
                #![trigger suffices(s, shipment_apps@, erts_apps@), required@.contains(x)]
                suffices(s, shipment_apps@, erts_apps@) && required@.contains(x) implies s.contains(
                x,
            ) by {
                if x == app@ {
                    assert(pending(queue_before, x));
                } else {
                    assert(required_before.contains(x));
                }
            }
        }
    }
}

/// The needed applications that neither the package nor the runtime has.
#[derive(Debug)]
pub struct MissingApps {
    pub missing: Vec<String>,
}

impl MissingApps {
    /// The message for this error.
    pub open spec fn message(self) -> Seq<char> {
        "required OTP app(s) not found in ERTS: "@ + joined(views(self.missing@), ", "@)
            + ". Try a different target or use --full-erts"@
    }

    pub fn to_string(&self) -> (r: String)
        ensures
            r@ == self.message(),
    {
        let mut out = String::from_str("required OTP app(s) not found in ERTS: ");
        out.append(join(&self.missing, ", ").as_str());
        out.append(". Try a different target or use --full-erts");
        out
    }
}

/// Whether neither the package nor the runtime has the application.
pub open spec fn is_absent(
    shipment: Map<Seq<char>, Seq<Seq<char>>>,
    erts: Map<Seq<char>, Seq<Seq<char>>>,
    name: Seq<char>,
) -> bool {
    !shipment.dom().contains(name) && !erts.dom().contains(name)
}

/// Whether each of the applications is there, in the package or in the runtime.
pub open spec fn all_present(
    required: Set<Seq<char>>,
    shipment: Map<Seq<char>, Seq<Seq<char>>>,
    erts: Map<Seq<char>, Seq<Seq<char>>>,
) -> bool {
    forall|name: Seq<char>| #[trigger]
        required.contains(name) ==> !is_absent(shipment, erts, name)
}

/// Checks that each needed application is there. Where some are not, the error lists them, in
/// ascending order.
pub fn validate(required: &NameSet, shipment_apps: &AppGraph, erts_apps: &AppGraph) -> (r: Result<
    (),
    MissingApps,
>)
    ensures
        match r {
            Ok(_) => forall|name: Seq<char>| #[trigger]
                required@.contains(name) ==> !is_absent(shipment_apps@, erts_apps@, name),
            Err(e) => {
                &&& e.missing@.len() > 0
                &&& crate::order::ascending(views(e.missing@))
                &&& views(e.missing@).no_duplicates()
                &&& forall|name: Seq<char>| #[trigger]
                    views(e.missing@).contains(name) <==> required@.contains(name) && is_absent(
                        shipment_apps@,
                        erts_apps@,
                        name,
                    )
            },
        },
        r is Ok <==> all_present(required@, shipment_apps@, erts_apps@),
{
    let names = required.sorted();
    let ghost all = views(names@);
    let mut missing: Vec<String> = Vec::new();
    let mut i: usize = 0;
    proof {
        assert(views(missing@) =~= Seq::empty());
    }
    while i < names.len()
        invariant
            i <= names.len(),
            all == views(names@),
            all.no_duplicates(),
            crate::order::ascending(all),
            crate::order::ascending(views(missing@)),
            views(missing@).no_duplicates(),
            forall|name: Seq<char>| #[trigger]
                views(missing@).contains(name) <==> {
                    &&& all.take(i as int).contains(name)
                    &&& is_absent(shipment_apps@, erts_apps@, name)
                },
        decreases names.len() - i,
    {
        let name = names[i].as_str();
        let ghost before = views(missing@);
        proof {
            assert(all[i as int] == name@);
            assert(all.take(i + 1) =~= all.take(i as int).push(name@));
            broadcast use vstd::seq_lib::group_seq_properties;

            assert(!all.take(i as int).contains(name@)) by {
                if all.take(i as int).contains(name@) {
                    let j = all.take(i as int).index_of(name@);
                    assert(all[j] == all[i as int]);
                }
            }
        }
        if !shipment_apps.contains_key(name) && !erts_apps.contains_key(name) {
            missing.push(String::from_str(name));
            proof {
                let after = views(missing@);
                assert(after =~= before.push(name@));
                assert(!before.contains(name@));
                assert forall|a: int, b: int| 0 <= a <= b < after.len() implies
                    crate::order::text_le(#[trigger] after[a], #[trigger] after[b]) by {
                    crate::order::lemma_text_order(name@, name@, name@);
                    if a < before.len() && b == before.len() {
                        assert(before.contains(before[a]));
                        let j = all.take(i as int).index_of(before[a]);
                        assert(all[j] == before[a]);
                        assert(crate::order::text_le(all[j], all[i as int]));
                    }
                }
            }
        }
        i = i + 1;
    }
    assert(all.take(all.len() as int) =~= all);
    if missing.len() == 0 {
        proof {
            assert forall|name: Seq<char>| #[trigger] required@.contains(name) implies !is_absent(
                shipment_apps@,
                erts_apps@,
                name,
            ) by {
                assert(all.to_set().contains(name));
                assert(all.contains(name));
                assert(!views(missing@).contains(name));
            }
        }
        return Ok(());
    }
    proof {
        assert forall|name: Seq<char>| #[trigger]
            views(missing@).contains(name) <==> required@.contains(name) && is_absent(
                shipment_apps@,
                erts_apps@,
                name,
            ) by {
            assert(all.to_set().contains(name) == all.contains(name));
        }
        assert(views(missing@).contains(views(missing@)[0]));
    }
    Err(MissingApps { missing })
}

/// Where a package depends on more, or the runtime's applications do, no application that was
/// needed before drops out.
pub proof fn law_needs_grow(
    a: Set<Seq<char>>,
    b: Set<Seq<char>>,
    shipment: Map<Seq<char>, Seq<Seq<char>>>,
    more_shipment: Map<Seq<char>, Seq<Seq<char>>>,
    erts: Map<Seq<char>, Seq<Seq<char>>>,
    more_erts: Map<Seq<char>, Seq<Seq<char>>>,
)
    requires
        forall|s: Set<Seq<char>>| #[trigger] suffices(s, shipment, erts) ==> a.subset_of(s),
        suffices(b, more_shipment, more_erts),
        forall|name: Seq<char>| #[trigger]
            is_seed(shipment, name) ==> is_seed(more_shipment, name),
        forall|app: Seq<char>, dep: Seq<char>|
            erts.dom().contains(app) && #[trigger] erts[app].contains(dep)
                ==> more_erts.dom().contains(app) && more_erts[app].contains(dep),
    ensures
        a.subset_of(b),
{
    assert(suffices(b, shipment, erts)) by {
        assert forall|app: Seq<char>, dep: Seq<char>|
            b.contains(app) && erts.dom().contains(app) && #[trigger] erts[app].contains(
                dep,
            ) implies b.contains(dep) by {
            assert(more_erts[app].contains(dep));
        }
    }
}

/// What is needed is one set: two least sets that suffice are equal.
pub proof fn law_needs_unique(
    a: Set<Seq<char>>,
    b: Set<Seq<char>>,
    shipment: Map<Seq<char>, Seq<Seq<char>>>,
    erts: Map<Seq<char>, Seq<Seq<char>>>,
)
    requires
        suffices(a, shipment, erts),
        suffices(b, shipment, erts),
        forall|s: Set<Seq<char>>| #[trigger] suffices(s, shipment, erts) ==> a.subset_of(s),
        forall|s: Set<Seq<char>>| #[trigger] suffices(s, shipment, erts) ==> b.subset_of(s),
    ensures
        a == b,
{
    assert(a =~= b);
}


/// What a package needs: always the three applications that every system needs, all that it brings
/// along and what that depends on, and with anything needed what the runtime says it depends on.
pub proof fn law_needed_apps(shipment: AppGraph, erts: AppGraph, r: NameSet)
    requires
        call_ensures(resolve, (&shipment, &erts), r),
    ensures
        r@.contains("kernel"@),
        r@.contains("stdlib"@),
        r@.contains("compiler"@),
        forall|name: Seq<char>| shipment@.dom().contains(name) ==> #[trigger] r@.contains(name),
        forall|app: Seq<char>, dep: Seq<char>|
            shipment@.dom().contains(app) && #[trigger] shipment@[app].contains(dep)
                ==> r@.contains(dep),
        forall|app: Seq<char>, dep: Seq<char>|
            r@.contains(app) && erts@.dom().contains(app) && #[trigger] erts@[app].contains(dep)
                ==> r@.contains(dep),
{
    assert(is_seed(shipment@, "kernel"@));
    assert(is_seed(shipment@, "stdlib"@));
    assert(is_seed(shipment@, "compiler"@));
    assert forall|name: Seq<char>| shipment@.dom().contains(name) implies #[trigger] r@.contains(
        name,
    ) by {
        assert(is_seed(shipment@, name));
    }
    assert forall|app: Seq<char>, dep: Seq<char>|
        shipment@.dom().contains(app) && #[trigger] shipment@[app].contains(dep) implies r@.contains(
        dep,
    ) by {
        assert(is_seed(shipment@, dep));
    }
}

/// Nothing else is needed: an application that no system needs, that the package does not bring
/// along, and that nothing it brings along and nothing of the runtime depends on, is not.
pub proof fn law_not_needed(shipment: AppGraph, erts: AppGraph, name: Seq<char>, r: NameSet)
    requires
        call_ensures(resolve, (&shipment, &erts), r),
        name != "kernel"@ && name != "stdlib"@ && name != "compiler"@,
        !shipment@.dom().contains(name),
        forall|app: Seq<char>| #[trigger]
            shipment@.dom().contains(app) ==> !shipment@[app].contains(name),
        forall|app: Seq<char>| #[trigger]
            erts@.dom().contains(app) ==> !erts@[app].contains(name),
    ensures
        !r@.contains(name),
{
    let others = r@.remove(name);
    assert(!is_seed(shipment@, name));
    assert(suffices(others, shipment@, erts@));
}

/// What one side has is not absent, whatever the other has, and what neither has is found missing
/// where it is needed. Where all is there on one side or the other, nothing is missing.
pub proof fn law_missing_apps(
    required: NameSet,
    shipment: AppGraph,
    erts: AppGraph,
    name: Seq<char>,
    r: Result<(), MissingApps>,
)
    requires
        call_ensures(validate, (&required, &shipment, &erts), r),
    ensures
        is_absent(shipment@, erts@, name) == is_absent(erts@, shipment@, name),
        is_absent(shipment@, erts@, name) <==> !shipment@.dom().contains(name)
            && !erts@.dom().contains(name),
        r matches Err(e) ==> (views(e.missing@).contains(name) <==> required@.contains(name)
            && !shipment@.dom().contains(name) && !erts@.dom().contains(name)),
        required@.contains(name) && !shipment@.dom().contains(name) && !erts@.dom().contains(name)
            ==> r is Err,
        required@.subset_of(shipment@.dom().union(erts@.dom())) ==> r is Ok,
{
    assert(required@.contains(name) || !required@.contains(name));
}

} // verus!
