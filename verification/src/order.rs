//! The order of texts by their UTF-8 bytes, and sorting by it.

use vstd::prelude::*;
use vstd::string::*;
use vstd::utf8::*;

use crate::text::views;

verus! {

/// Whether `a` comes before `b`, or equals it, in the lexicographic order of bytes.
pub open spec fn bytes_le(a: Seq<u8>, b: Seq<u8>) -> bool
    decreases a.len(),
{
    if a.len() == 0 {
        true
    } else if b.len() == 0 {
        false
    } else if a[0] != b[0] {
        a[0] < b[0]
    } else {
        bytes_le(a.drop_first(), b.drop_first())
    }
}

/// Whether the text `a` comes before `b`, or equals it: texts are ordered by their bytes.
pub open spec fn text_le(a: Seq<char>, b: Seq<char>) -> bool {
    bytes_le(encode_utf8(a), encode_utf8(b))
}

/// Whether each text comes before those that follow it, or equals them.
pub open spec fn ascending(s: Seq<Seq<char>>) -> bool {
    forall|i: int, j: int| 0 <= i <= j < s.len() ==> text_le(#[trigger] s[i], #[trigger] s[j])
}

proof fn lemma_bytes_total(a: Seq<u8>, b: Seq<u8>)
    ensures
        bytes_le(a, b) || bytes_le(b, a),
    decreases a.len(),
{
    if a.len() > 0 && b.len() > 0 {
        lemma_bytes_total(a.drop_first(), b.drop_first());
    }
}

proof fn lemma_bytes_transitive(a: Seq<u8>, b: Seq<u8>, c: Seq<u8>)
    requires
        bytes_le(a, b),
        bytes_le(b, c),
    ensures
        bytes_le(a, c),
    decreases a.len(),
{
    if a.len() > 0 && a[0] == b[0] && b[0] == c[0] {
        lemma_bytes_transitive(a.drop_first(), b.drop_first(), c.drop_first());
    }
}

proof fn lemma_bytes_antisymmetric(a: Seq<u8>, b: Seq<u8>)
    requires
        bytes_le(a, b),
        bytes_le(b, a),
    ensures
        a == b,
    decreases a.len(),
{
    if a.len() > 0 {
        lemma_bytes_antisymmetric(a.drop_first(), b.drop_first());
        assert(a =~= seq![a[0]] + a.drop_first());
        assert(b =~= seq![b[0]] + b.drop_first());
    } else {
        assert(a =~= b);
    }
}

/// Of two texts one comes before the other; if each comes before the other they are equal; and
/// the order carries over a text in between.
pub proof fn lemma_text_order(a: Seq<char>, b: Seq<char>, c: Seq<char>)
    ensures
        text_le(a, b) || text_le(b, a),
        text_le(a, b) && text_le(b, a) ==> a == b,
        text_le(a, b) && text_le(b, c) ==> text_le(a, c),
{
    let x = encode_utf8(a);
    let y = encode_utf8(b);
    lemma_bytes_total(x, y);
    if bytes_le(x, y) && bytes_le(y, x) {
        lemma_bytes_antisymmetric(x, y);
        crate::text::lemma_encoding_injective(a, b);
    }
    if text_le(a, b) && text_le(b, c) {
        lemma_bytes_transitive(x, y, encode_utf8(c));
    }
}

/// Decides [`text_le`].
pub fn in_order(a: &str, b: &str) -> (r: bool)
    ensures
        r == text_le(a@, b@),
{
    let x = a.as_bytes();
    let y = b.as_bytes();
    let mut i: usize = 0;
    assert(x@.skip(0) =~= x@);
    assert(y@.skip(0) =~= y@);
    while i < x.len() && i < y.len()
        invariant
            i <= x.len(),
            i <= y.len(),
            x@ == encode_utf8(a@),
            y@ == encode_utf8(b@),
            bytes_le(x@.skip(i as int), y@.skip(i as int)) == text_le(a@, b@),
        decreases x.len() - i,
    {
        if x[i] != y[i] {
            return x[i] < y[i];
        }
        assert(x@.skip(i as int).drop_first() =~= x@.skip(i + 1));
        assert(y@.skip(i as int).drop_first() =~= y@.skip(i + 1));
        i = i + 1;
    }
    i == x.len()
}

/// The items of a sorted list: the same texts as before, each as often, in ascending order.
pub open spec fn sorted_form(before: Seq<Seq<char>>, after: Seq<Seq<char>>) -> bool {
    &&& ascending(after)
    &&& after.to_multiset() == before.to_multiset()
}

proof fn lemma_multiset_insert(s: Seq<Seq<char>>, i: int, x: Seq<char>)
    requires
        0 <= i <= s.len(),
    ensures
        s.insert(i, x).to_multiset() == s.to_multiset().insert(x),
{
    broadcast use vstd::seq_lib::group_to_multiset_ensures;

    let t = s.insert(i, x);
    assert(t[i] == x);
    assert(t.remove(i) =~= s);
    assert(t.contains(x));
    assert(t.to_multiset().remove(x).insert(x) =~= t.to_multiset());
}

/// Sorts texts.
pub fn sort(items: &Vec<String>) -> (r: Vec<String>)
    ensures
        sorted_form(views(items@), views(r@)),
{
    let mut out: Vec<String> = Vec::new();
    let mut n: usize = 0;
    assert(views(items@).take(0) =~= views(out@));
    while n < items.len()
        invariant
            n <= items.len(),
            sorted_form(views(items@).take(n as int), views(out@)),
            out@.len() == n,
        decreases items.len() - n,
    {
        let item = items[n].clone();
        let mut i: usize = 0;
        let ghost texts = views(out@);
        while i < out.len() && !in_order(item.as_str(), out[i].as_str())
            invariant
                i <= out.len(),
                texts == views(out@),
                forall|k: int| 0 <= k < i ==> !text_le(item@, #[trigger] texts[k]),
            decreases out.len() - i,
        {
            assert(texts[i as int] == out@[i as int]@);
            i = i + 1;
        }
        proof {
            let x = item@;
            let next = texts.insert(i as int, x);
            assert(i < texts.len() ==> texts[i as int] == out@[i as int]@);
            assert forall|a: int, b: int| 0 <= a <= b < next.len() implies text_le(
                #[trigger] next[a],
                #[trigger] next[b],
            ) by {
                lemma_text_order(x, x, x);
                if a < i {
                    lemma_text_order(x, texts[a], x);
                    if b > i {
                        assert(next[b] == texts[b - 1]);
                        assert(text_le(texts[a], texts[b - 1]));
                    }
                } else if a == i && b > i {
                    assert(next[b] == texts[b - 1]);
                    lemma_text_order(x, texts[i as int], texts[b - 1]);
                } else if a > i {
                    assert(next[a] == texts[a - 1]);
                    assert(next[b] == texts[b - 1]);
                    assert(text_le(texts[a - 1], texts[b - 1]));
                }
            }
            lemma_multiset_insert(texts, i as int, x);
            let seen = views(items@).take(n as int);
            assert(views(items@).take(n + 1) =~= seen.push(x));
            vstd::seq_lib::to_multiset_build(seen, x);
        }
        out.insert(i, item);
        assert(views(out@) =~= texts.insert(i as int, item@));
        n = n + 1;
    }
    assert(views(items@).take(items@.len() as int) =~= views(items@));
    out
}

/// A sorted list holds the same texts as the list it was made from, and repeats none that the
/// list did not repeat.
pub proof fn lemma_sorted_form(before: Seq<Seq<char>>, after: Seq<Seq<char>>)
    requires
        sorted_form(before, after),
    ensures
        after.len() == before.len(),
        forall|x: Seq<char>| after.contains(x) <==> #[trigger] before.contains(x),
        before.no_duplicates() ==> after.no_duplicates(),
{
    broadcast use vstd::seq_lib::group_to_multiset_ensures;

    assert(after.len() == after.to_multiset().len());
    assert(before.len() == before.to_multiset().len());
    assert forall|x: Seq<char>| after.contains(x) <==> #[trigger] before.contains(x) by {
        assert(after.contains(x) <==> after.to_multiset().count(x) > 0);
        assert(before.contains(x) <==> before.to_multiset().count(x) > 0);
    }
    if before.no_duplicates() {
        before.lemma_multiset_has_no_duplicates();
        after.lemma_multiset_has_no_duplicates_conv();
    }
}

/// There is one way to sort: two ascending lists of the same texts are equal.
pub proof fn law_sorted_unique(a: Seq<Seq<char>>, b: Seq<Seq<char>>)
    requires
        ascending(a),
        ascending(b),
        a.to_multiset() == b.to_multiset(),
    ensures
        a == b,
    decreases a.len(),
{
    broadcast use vstd::seq_lib::group_to_multiset_ensures;

    assert(a.len() == a.to_multiset().len());
    assert(b.len() == b.to_multiset().len());
    if a.len() > 0 {
        assert(a.contains(a[0]));
        assert(b.contains(b[0]));
        assert(b.to_multiset().count(a[0]) > 0);
        assert(a.to_multiset().count(b[0]) > 0);
        let i = choose|i: int| 0 <= i < b.len() && b[i] == a[0];
        let j = choose|j: int| 0 <= j < a.len() && a[j] == b[0];
        assert(text_le(b[0], b[i]));
        assert(text_le(a[0], a[j]));
        lemma_text_order(a[0], b[0], b[0]);
        assert(a.remove(0) =~= a.drop_first());
        assert(b.remove(0) =~= b.drop_first());
        law_sorted_unique(a.drop_first(), b.drop_first());
        assert(a =~= seq![a[0]] + a.drop_first());
        assert(b =~= seq![b[0]] + b.drop_first());
    } else {
        assert(a =~= b);
    }
}

/// Whether a list is the sorted list of a set: its texts in ascending order, each once.
pub open spec fn is_listing(list: Seq<Seq<char>>, set: Set<Seq<char>>) -> bool {
    &&& ascending(list)
    &&& list.no_duplicates()
    &&& list.to_set() == set
}

/// The sorted list of a set.
pub open spec fn listing(set: Set<Seq<char>>) -> Seq<Seq<char>> {
    choose|list: Seq<Seq<char>>| is_listing(list, set)
}

/// A set has one sorted list.
pub proof fn lemma_listing_unique(a: Seq<Seq<char>>, b: Seq<Seq<char>>, set: Set<Seq<char>>)
    requires
        is_listing(a, set),
        is_listing(b, set),
    ensures
        a == b,
        listing(set) == a,
    decreases a.len(),
{
    lemma_listings_equal(a, b);
    lemma_listings_equal(a, listing(set));
}

proof fn lemma_listings_equal(a: Seq<Seq<char>>, b: Seq<Seq<char>>)
    requires
        ascending(a),
        ascending(b),
        a.no_duplicates(),
        b.no_duplicates(),
        a.to_set() == b.to_set(),
    ensures
        a == b,
    decreases a.len(),
{
    if a.len() == 0 {
        if b.len() > 0 {
            assert(b.to_set().contains(b[0]));
            assert(a.contains(b[0]));
        }
        assert(a =~= b);
    } else {
        assert(a.to_set().contains(a[0]));
        assert(b.contains(a[0]));
        let i = choose|i: int| 0 <= i < b.len() && b[i] == a[0];
        assert(b.to_set().contains(b[0]));
        assert(a.contains(b[0]));
        let j = choose|j: int| 0 <= j < a.len() && a[j] == b[0];
        assert(text_le(b[0], b[i]));
        assert(text_le(a[0], a[j]));
        lemma_text_order(a[0], b[0], b[0]);
        let x = a.drop_first();
        let y = b.drop_first();
        assert(x.to_set() =~= y.to_set()) by {
            assert forall|t: Seq<char>| x.to_set().contains(t) == y.to_set().contains(t) by {
                if x.contains(t) {
                    let k = choose|k: int| 0 <= k < x.len() && x[k] == t;
                    assert(a[k + 1] == t);
                    assert(a.to_set().contains(t));
                    assert(b.contains(t));
                    let m = choose|m: int| 0 <= m < b.len() && b[m] == t;
                    assert(m != 0);
                    assert(y[m - 1] == t);
                }
                if y.contains(t) {
                    let k = choose|k: int| 0 <= k < y.len() && y[k] == t;
                    assert(b[k + 1] == t);
                    assert(b.to_set().contains(t));
                    assert(a.contains(t));
                    let m = choose|m: int| 0 <= m < a.len() && a[m] == t;
                    assert(m != 0);
                    assert(x[m - 1] == t);
                }
            }
        }
        lemma_listings_equal(x, y);
        assert(a =~= seq![a[0]] + x);
        assert(b =~= seq![b[0]] + y);
    }
}

proof fn lemma_position(list: Seq<Seq<char>>, x: Seq<char>) -> (i: int)
    requires
        ascending(list),
    ensures
        0 <= i <= list.len(),
        forall|j: int| 0 <= j < i ==> text_le(#[trigger] list[j], x),
        forall|j: int| i <= j < list.len() ==> text_le(x, #[trigger] list[j]),
    decreases list.len(),
{
    if list.len() == 0 {
        0
    } else {
        let before = list.drop_last();
        let last = list[list.len() - 1];
        lemma_text_order(last, x, x);
        if text_le(last, x) {
            assert forall|j: int| 0 <= j < list.len() implies text_le(#[trigger] list[j], x) by {
                assert(text_le(list[j], last));
                lemma_text_order(list[j], last, x);
            }
            list.len() as int
        } else {
            assert forall|a: int, b: int| 0 <= a <= b < before.len() implies text_le(
                #[trigger] before[a],
                #[trigger] before[b],
            ) by {
                assert(before[a] == list[a] && before[b] == list[b]);
            }
            let i = lemma_position(before, x);
            assert forall|j: int| 0 <= j < i implies text_le(#[trigger] list[j], x) by {
                assert(list[j] == before[j]);
            }
            assert forall|j: int| i <= j < list.len() implies text_le(x, #[trigger] list[j]) by {
                if j < before.len() {
                    assert(list[j] == before[j]);
                }
            }
            i
        }
    }
}

/// A text that is added to a set is added to its sorted list at one place.
pub proof fn lemma_listing_insert(set: Set<Seq<char>>, x: Seq<char>) -> (i: int)
    requires
        is_listing(listing(set), set),
        !set.contains(x),
    ensures
        0 <= i <= listing(set).len(),
        is_listing(listing(set).insert(i, x), set.insert(x)),
        listing(set.insert(x)) == listing(set).insert(i, x),
{
    let list = listing(set);
    let i = lemma_position(list, x);
    let more = list.insert(i, x);
    lemma_text_order(x, x, x);
    assert forall|a: int, b: int| 0 <= a <= b < more.len() implies text_le(
        #[trigger] more[a],
        #[trigger] more[b],
    ) by {
        let p = if a < i {
            a
        } else {
            a - 1
        };
        let q = if b < i {
            b
        } else {
            b - 1
        };
        if a != i && b != i {
            assert(more[a] == list[p] && more[b] == list[q]);
        } else if a != i {
            assert(more[a] == list[p]);
        } else if b != i {
            assert(more[b] == list[q]);
        }
    }
    assert(!list.contains(x)) by {
        if list.contains(x) {
            assert(list.to_set().contains(x));
        }
    }
    assert(more.no_duplicates()) by {
        assert forall|a: int, b: int| 0 <= a < b < more.len() implies more[a] != more[b] by {
            let p = if a < i {
                a
            } else {
                a - 1
            };
            let q = if b < i {
                b
            } else {
                b - 1
            };
            if a != i && b != i {
                assert(more[a] == list[p] && more[b] == list[q]);
            } else if a != i {
                assert(more[a] == list[p]);
            } else {
                assert(more[b] == list[q]);
            }
        }
    }
    assert(more.to_set() =~= set.insert(x)) by {
        assert forall|t: Seq<char>| more.to_set().contains(t) == set.insert(x).contains(t) by {
            if more.contains(t) {
                let k = choose|k: int| 0 <= k < more.len() && more[k] == t;
                if k < i {
                    assert(list[k] == t);
                    assert(list.to_set().contains(t));
                } else if k > i {
                    assert(list[k - 1] == t);
                    assert(list.to_set().contains(t));
                }
            }
            if t == x {
                assert(more[i] == t);
            } else if set.contains(t) {
                assert(list.to_set().contains(t));
                let k = choose|k: int| 0 <= k < list.len() && list[k] == t;
                if k < i {
                    assert(more[k] == t);
                } else {
                    assert(more[k + 1] == t);
                }
            }
        }
    }
    lemma_listing_unique(more, more, set.insert(x));
    i
}

/// Every finite set has a sorted list.
pub proof fn lemma_listing(set: Set<Seq<char>>)
    requires
        set.finite(),
    ensures
        is_listing(listing(set), set),
    decreases set.len(),
{
    if set.len() == 0 {
        let none = Seq::<Seq<char>>::empty();
        assert(none.to_set() =~= set);
        assert(is_listing(none, set));
    } else {
        let x = set.choose();
        let rest = set.remove(x);
        lemma_listing(rest);
        let i = lemma_listing_insert(rest, x);
        assert(rest.insert(x) =~= set);
    }
}


/// What decides the order of bytes: the first byte in which they differ, and where they differ in
/// none, the length. What stands before and after that makes no difference.
pub proof fn law_order_of_bytes(front: Seq<u8>, x: u8, y: u8, a: Seq<u8>, b: Seq<u8>)
    ensures
        x < y ==> bytes_le(front.push(x) + a, front.push(y) + b) && !bytes_le(
            front.push(y) + b,
            front.push(x) + a,
        ),
        bytes_le(front, front + a),
        a.len() > 0 ==> !bytes_le(front + a, front),
    decreases front.len(),
{
    let p = front.push(x) + a;
    let q = front.push(y) + b;
    if front.len() > 0 {
        let rest = front.drop_first();
        law_order_of_bytes(rest, x, y, a, b);
        assert(p.drop_first() =~= rest.push(x) + a);
        assert(q.drop_first() =~= rest.push(y) + b);
        assert((front + a).drop_first() =~= rest + a);
        assert(p[0] == front[0] && q[0] == front[0] && (front + a)[0] == front[0]);
    } else {
        assert(p[0] == x && q[0] == y);
    }
}

} // verus!
