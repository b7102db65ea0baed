//! Counting records by a name they bear, such as their category: each name
//! once, in the order in which the names first appear.

use crate::services::email_service::NamedCount;
use crate::text::same_text;
use vstd::prelude::*;
use vstd::seq_lib::to_multiset_build;
use vstd::seq_lib::to_multiset_insert;

verus! {

/// How often `name` stands among `names`.
pub open spec fn occurrences(names: Seq<Seq<char>>, name: Seq<char>) -> nat
    decreases names.len(),
{
    if names.len() == 0 {
        0
    } else {
        occurrences(names.drop_last(), name) + if names.last() == name {
            1nat
        } else {
            0nat
        }
    }
}

/// The names, each once, in the order in which they first appear.
pub open spec fn distinct(names: Seq<Seq<char>>) -> Seq<Seq<char>>
    decreases names.len(),
{
    if names.len() == 0 {
        Seq::empty()
    } else {
        let before = distinct(names.drop_last());
        if before.contains(names.last()) {
            before
        } else {
            before.push(names.last())
        }
    }
}

/// Whether `counts` holds each of the names once, in the order in which
/// they first appear, with the number of times it stands among them.
pub open spec fn is_tally(counts: Seq<NamedCount>, names: Seq<Seq<char>>) -> bool {
    &&& counts.len() == distinct(names).len()
    &&& forall|i: int|
        0 <= i < counts.len() ==> (#[trigger] counts[i]).name@ == distinct(names)[i]
            && counts[i].count == occurrences(names, distinct(names)[i])
}

/// `distinct` holds the names that occur, each once, and a name is counted
/// as often as it occurs at most.
pub proof fn lemma_distinct(names: Seq<Seq<char>>)
    ensures
        distinct(names).no_duplicates(),
        distinct(names).len() <= names.len(),
        forall|name: Seq<char>| #[trigger] distinct(names).contains(name) <==> names.contains(name),
        forall|name: Seq<char>| !names.contains(name) ==> #[trigger] occurrences(names, name) == 0,
        forall|name: Seq<char>| #[trigger] occurrences(names, name) <= names.len(),
    decreases names.len(),
{
    if names.len() > 0 {
        let init = names.drop_last();
        let last = names.last();
        lemma_distinct(init);
        let before = distinct(init);
        assert forall|name: Seq<char>| #[trigger]
            distinct(names).contains(name) <==> names.contains(name) by {
            if names.contains(name) {
                let i = choose|i: int| 0 <= i < names.len() && names[i] == name;
                if i < init.len() {
                    assert(init[i] == name);
                    assert(init.contains(name));
                    assert(before.contains(name));
                    let j = choose|j: int| 0 <= j < before.len() && before[j] == name;
                    assert(distinct(names)[j] == name);
                } else {
                    assert(name == last);
                    if !before.contains(last) {
                        assert(distinct(names)[before.len() as int] == last);
                    }
                }
            }
            if distinct(names).contains(name) {
                let j = choose|j: int| 0 <= j < distinct(names).len() && distinct(names)[j] == name;
                if j < before.len() {
                    assert(before[j] == name);
                    assert(before.contains(name));
                    assert(init.contains(name));
                    let i = choose|i: int| 0 <= i < init.len() && init[i] == name;
                    assert(names[i] == name);
                } else {
                    assert(name == last);
                    assert(names[names.len() - 1] == name);
                }
            }
        }
        assert forall|name: Seq<char>| !names.contains(name) implies #[trigger] occurrences(
            names,
            name,
        ) == 0 by {
            if last == name {
                assert(names[names.len() - 1] == name);
                assert(names.contains(name));
            }
            if init.contains(name) {
                let i = choose|i: int| 0 <= i < init.len() && init[i] == name;
                assert(names[i] == name);
                assert(names.contains(name));
            }
            assert(occurrences(init, name) == 0);
        }
        assert forall|name: Seq<char>| #[trigger] occurrences(names, name) <= names.len() by {
            assert(occurrences(init, name) <= init.len());
        }
    }
}

/// The counts of the names.
pub fn tally(names: &Vec<String>) -> (counts: Vec<NamedCount>)
    ensures
        is_tally(counts@, names@.map_values(|s: String| s@)),
{
    let ghost all = names@.map_values(|s: String| s@);
    let mut counts: Vec<NamedCount> = Vec::new();
    let mut k: usize = 0;
    assert(all.take(0) =~= Seq::<Seq<char>>::empty());
    while k < names.len()
        invariant
            k <= names.len(),
            all == names@.map_values(|s: String| s@),
            is_tally(counts@, all.take(k as int)),
        decreases names.len() - k,
    {
        let ghost seen = all.take(k as int);
        let ghost next = all.take(k + 1);
        let ghost x = all[k as int];
        let ghost old_counts = counts@;
        proof {
            assert(next.drop_last() =~= seen);
            assert(next.last() == x);
            assert(names@[k as int]@ == x);
            lemma_distinct(seen);
        }
        let mut j: usize = 0;
        while j < counts.len() && !same_text(counts[j].name.as_str(), names[k].as_str())
            invariant
                j <= counts.len(),
                names@[k as int]@ == x,
                k < names.len(),
                forall|i: int| 0 <= i < j ==> counts@[i].name@ != x,
            decreases counts.len() - j,
        {
            j += 1;
        }
        if j < counts.len() {
            proof {
                assert(distinct(seen)[j as int] == x);
                assert(distinct(seen).contains(x));
                assert(distinct(next) == distinct(seen));
                assert(occurrences(seen, x) <= seen.len());
            }
            counts[j].count = counts[j].count + 1;
            proof {
                assert forall|i: int| 0 <= i < counts@.len() implies (#[trigger] counts@[i]).name@
                    == distinct(next)[i] && counts@[i].count == occurrences(
                    next,
                    distinct(next)[i],
                ) by {
                    if i != j {
                        assert(counts@[i] == old_counts[i]);
                        assert(distinct(seen)[i] != distinct(seen)[j as int]);
                    }
                }
            }
        } else {
            proof {
                assert(!distinct(seen).contains(x)) by {
                    if distinct(seen).contains(x) {
                        let i = choose|i: int| 0 <= i < distinct(seen).len() && distinct(seen)[i]
                            == x;
                        assert(old_counts[i].name@ == x);
                    }
                }
                assert(!seen.contains(x));
                assert(occurrences(seen, x) == 0);
                assert(distinct(next) == distinct(seen).push(x));
            }
            counts.push(NamedCount { name: names[k].clone(), count: 1 });
            proof {
                assert forall|i: int| 0 <= i < counts@.len() implies (#[trigger] counts@[i]).name@
                    == distinct(next)[i] && counts@[i].count == occurrences(
                    next,
                    distinct(next)[i],
                ) by {
                    if i < old_counts.len() {
                        assert(counts@[i] == old_counts[i]);
                        assert(distinct(seen)[i] != x) by {
                            assert(distinct(seen).contains(distinct(seen)[i]));
                        }
                    }
                }
            }
        }
        k += 1;
    }
    assert(all.take(names.len() as int) =~= all);
    counts
}

/// No count is followed by a greater one.
pub open spec fn is_descending(counts: Seq<NamedCount>) -> bool {
    forall|i: int, j: int| 0 <= i < j < counts.len() ==> counts[i].count >= counts[j].count
}

/// Whether `ranked` holds what `counts` holds, the greater counts first.
pub open spec fn is_ranking(ranked: Seq<NamedCount>, counts: Seq<NamedCount>) -> bool {
    is_descending(ranked) && ranked.to_multiset() == counts.to_multiset()
}

/// The counts, the greater first.
pub fn rank(counts: &Vec<NamedCount>) -> (ranked: Vec<NamedCount>)
    ensures
        is_ranking(ranked@, counts@),
        ranked@.len() == counts@.len(),
{
    let mut ranked: Vec<NamedCount> = Vec::new();
    let mut i: usize = 0;
    assert(counts@.take(0) =~= Seq::<NamedCount>::empty());
    while i < counts.len()
        invariant
            i <= counts.len(),
            ranked@.len() == i,
            is_descending(ranked@),
            ranked@.to_multiset() == counts@.take(i as int).to_multiset(),
        decreases counts.len() - i,
    {
        let n = counts[i].count;
        let mut at: usize = 0;
        while at < ranked.len() && ranked[at].count >= n
            invariant
                at <= ranked.len(),
                forall|k: int| 0 <= k < at ==> ranked@[k].count >= n,
            decreases ranked.len() - at,
        {
            at += 1;
        }
        let ghost before = ranked@;
        let entry = NamedCount { name: counts[i].name.clone(), count: n };
        assert(entry == counts@[i as int]);
        ranked.insert(at, entry);
        proof {
            to_multiset_insert(before, at as int, entry);
            assert(counts@.take(i + 1) =~= counts@.take(i as int).push(entry));
            to_multiset_build(counts@.take(i as int), entry);
            assert forall|a: int, b: int| 0 <= a < b < ranked@.len() implies ranked@[a].count
                >= ranked@[b].count by {
                if a < at && b > at {
                    assert(ranked@[b] == before[b - 1]);
                    if at < before.len() {
                        assert(before[at as int].count >= before[b - 1].count);
                    }
                } else if a > at {
                    assert(ranked@[a] == before[a - 1] && ranked@[b] == before[b - 1]);
                } else if a == at {
                    assert(ranked@[b] == before[b - 1]);
                    assert(before[at as int].count >= before[b - 1].count);
                }
            }
        }
        i += 1;
    }
    assert(counts@.take(counts.len() as int) =~= counts@);
    ranked
}

} // verus!
