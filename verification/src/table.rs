//! A map from names to values, kept sorted by name.
use vstd::prelude::*;

use crate::text;

verus! {

broadcast use vstd::string::group_string_axioms;

/// Whether the names stand in strictly ascending lexicographic order.
pub open spec fn ascending(names: Seq<Seq<char>>) -> bool {
    forall|i: int, j: int|
        0 <= i < j < names.len() ==> text::text_lt(#[trigger] names[i], #[trigger] names[j])
}

/// The first components of a sequence of pairs.
pub open spec fn names_of<V>(pairs: Seq<(Seq<char>, V)>) -> Seq<Seq<char>> {
    pairs.map_values(|p: (Seq<char>, V)| p.0)
}

/// Whether `pairs` lists a map: every entry once, ascending by name.
pub open spec fn lists<V>(pairs: Seq<(Seq<char>, V)>, m: Map<Seq<char>, V>) -> bool {
    &&& ascending(names_of(pairs))
    &&& forall|i: int|
        0 <= i < pairs.len() ==> m.contains_key(#[trigger] pairs[i].0) && m[pairs[i].0]
            == pairs[i].1
    &&& forall|k: Seq<char>| #[trigger]
        m.contains_key(k) ==> exists|i: int| 0 <= i < pairs.len() && #[trigger] pairs[i].0 == k
}

/// A map has one listing only.
pub proof fn listing_is_unique<V>(
    a: Seq<(Seq<char>, V)>,
    b: Seq<(Seq<char>, V)>,
    m: Map<Seq<char>, V>,
)
    requires
        lists(a, m),
        lists(b, m),
    ensures
        a == b,
{
    lemma_listing_prefix(a, b, m, a.len() as int);
    lemma_listing_prefix(b, a, m, b.len() as int);
    assert(a =~= b);
}

/// The last of the names in a set that is not empty.
proof fn lemma_last_name(set: Set<Seq<char>>) -> (last: Seq<char>)
    requires
        set.finite(),
        set.len() > 0,
    ensures
        set.contains(last),
        forall|k: Seq<char>| #[trigger]
            set.contains(k) ==> k == last || text::text_lt(k, last),
    decreases set.len(),
{
    let a = set.choose();
    let rest = set.remove(a);
    if rest.len() == 0 {
        assert forall|k: Seq<char>| #[trigger] set.contains(k) implies k == a by {
            if k != a {
                assert(rest.contains(k));
                assert(rest =~= Set::empty());
            }
        }
        a
    } else {
        let b = lemma_last_name(rest);
        text::lemma_text_lt_total(a, b);
        let last = if text::text_lt(b, a) {
            a
        } else {
            b
        };
        assert forall|k: Seq<char>| #[trigger] set.contains(k) implies k == last
            || text::text_lt(k, last) by {
            if k != a {
                assert(rest.contains(k));
                if k != b && last == a {
                    text::lemma_text_lt_transitive(k, b, a);
                }
            }
        }
        last
    }
}

/// Every finite set of names has an ascending listing.
pub proof fn lemma_listable(set: Set<Seq<char>>) -> (names: Seq<Seq<char>>)
    requires
        set.finite(),
    ensures
        ascending(names),
        forall|k: Seq<char>| names.contains(k) <==> #[trigger] set.contains(k),
    decreases set.len(),
{
    if set.len() == 0 {
        assert(set =~= Set::empty());
        Seq::empty()
    } else {
        let last = lemma_last_name(set);
        let rest = set.remove(last);
        let head = lemma_listable(rest);
        let names = head.push(last);
        assert forall|k: Seq<char>| names.contains(k) <==> #[trigger] set.contains(k) by {
            if set.contains(k) && k != last {
                assert(rest.contains(k));
                let i = choose|i: int| 0 <= i < head.len() && head[i] == k;
                assert(names[i] == k);
            }
            if k == last {
                assert(names[head.len() as int] == k);
            }
            if names.contains(k) {
                let i = choose|i: int| 0 <= i < names.len() && names[i] == k;
                if i < head.len() {
                    assert(head[i] == k);
                    assert(head.contains(k));
                    assert(rest.contains(k));
                }
            }
        }
        assert forall|i: int, j: int| 0 <= i < j < names.len() implies text::text_lt(
            #[trigger] names[i],
            #[trigger] names[j],
        ) by {
            assert(names[i] == head[i]);
            if j < head.len() {
                assert(names[j] == head[j]);
            } else {
                assert(head.contains(head[i]));
                assert(rest.contains(head[i]));
                assert(set.contains(head[i]));
            }
        }
        names
    }
}

proof fn lemma_listing_prefix<V>(
    a: Seq<(Seq<char>, V)>,
    b: Seq<(Seq<char>, V)>,
    m: Map<Seq<char>, V>,
    n: int,
)
    requires
        lists(a, m),
        lists(b, m),
        0 <= n <= a.len(),
    ensures
        n <= b.len(),
        forall|i: int| 0 <= i < n ==> a[i] == b[i],
    decreases n,
{
    if n > 0 {
        let k = n - 1;
        lemma_listing_prefix(a, b, m, k);
        let na = names_of(a);
        let nb = names_of(b);
        // The name a[k] stands somewhere in b, and not before k.
        assert(m.contains_key(a[k].0));
        let j = choose|j: int| 0 <= j < b.len() && b[j].0 == a[k].0;
        if j < k {
            assert(na[j] == na[k]);
            text::lemma_text_lt_irreflexive(na[k]);
            assert(false);
        }
        if j > k {
            // Then b[k] stands before a[k], and nowhere in a.
            assert(nb[k] == b[k].0 && nb[j] == a[k].0);
            assert(m.contains_key(b[k].0));
            let l = choose|l: int| 0 <= l < a.len() && a[l].0 == b[k].0;
            if l < k {
                assert(nb[l] == nb[k]);
                text::lemma_text_lt_irreflexive(nb[k]);
            } else if l == k {
                text::lemma_text_lt_irreflexive(nb[k]);
            } else {
                assert(text::text_lt(na[k], na[l]));
                text::lemma_text_lt_transitive(na[k], na[l], na[k]);
                text::lemma_text_lt_irreflexive(na[k]);
            }
            assert(false);
        }
    }
}

/// A place where `name` stands in a sequence of pairs that holds it.
pub open spec fn place_of<V>(pairs: Seq<(Seq<char>, V)>, name: Seq<char>) -> int {
    choose|i: int| 0 <= i < pairs.len() && #[trigger] pairs[i].0 == name
}

/// The map that a sequence of pairs stands for.
pub open spec fn map_of<V>(pairs: Seq<(Seq<char>, V)>) -> Map<Seq<char>, V> {
    Map::new(
        |k: Seq<char>| exists|i: int| 0 <= i < pairs.len() && #[trigger] pairs[i].0 == k,
        |k: Seq<char>| pairs[place_of(pairs, k)].1,
    )
}

proof fn lemma_distinct<V>(pairs: Seq<(Seq<char>, V)>, i: int, j: int)
    requires
        ascending(names_of(pairs)),
        0 <= i < pairs.len(),
        0 <= j < pairs.len(),
        pairs[i].0 == pairs[j].0,
    ensures
        i == j,
{
    let names = names_of(pairs);
    assert(names[i] == pairs[i].0 && names[j] == pairs[j].0);
    text::lemma_text_lt_irreflexive(names[i]);
}

/// Ascending pairs list the map they stand for.
pub proof fn lemma_lists<V>(pairs: Seq<(Seq<char>, V)>)
    requires
        ascending(names_of(pairs)),
    ensures
        lists(pairs, map_of(pairs)),
{
    let m = map_of(pairs);
    assert forall|i: int| 0 <= i < pairs.len() implies m.contains_key(#[trigger] pairs[i].0)
        && m[pairs[i].0] == pairs[i].1 by {
        lemma_distinct(pairs, i, place_of(pairs, pairs[i].0));
    }
}

/// One entry of a table.
pub struct Entry<V> {
    name: String,
    value: V,
}

/// A map from names to values, kept sorted by name.
pub struct Table<V> {
    entries: Vec<Entry<V>>,
}

impl<V> View for Table<V> {
    type V = Map<Seq<char>, V>;

    closed spec fn view(&self) -> Map<Seq<char>, V> {
        map_of(self.pairs())
    }
}

impl<V> Table<V> {
    /// The entries as pairs, in order.
    pub closed spec fn pairs(&self) -> Seq<(Seq<char>, V)> {
        self.entries@.map_values(|e: Entry<V>| (e.name@, e.value))
    }

    /// The entries are sorted by name, and no name occurs twice.
    pub closed spec fn wf(&self) -> bool {
        ascending(names_of(self.pairs()))
    }

    /// A well-formed table's pairs list its map.
    pub proof fn lemma_wf(&self)
        requires
            self.wf(),
        ensures
            lists(self.pairs(), self@),
    {
        lemma_lists(self.pairs());
    }

    /// An empty table.
    pub fn new() -> (t: Self)
        ensures
            t.wf(),
            t@ == Map::<Seq<char>, V>::empty(),
    {
        let t = Table { entries: Vec::new() };
        assert(t@ =~= Map::<Seq<char>, V>::empty());
        t
    }

    /// The number of entries.
    pub fn len(&self) -> (n: usize)
        ensures
            n == self.pairs().len(),
    {
        self.entries.len()
    }

    /// The name of an entry.
    pub fn name_at(&self, i: usize) -> (name: &str)
        requires
            i < self.pairs().len(),
        ensures
            name@ == self.pairs()[i as int].0,
    {
        self.entries[i].name.as_str()
    }

    /// The value of an entry.
    pub fn value_at(&self, i: usize) -> (value: &V)
        requires
            i < self.pairs().len(),
        ensures
            *value == self.pairs()[i as int].1,
    {
        &self.entries[i].value
    }

    /// The place where `name` stands or would have to stand, and whether it
    /// stands there.
    fn search(&self, name: &str) -> (r: (usize, bool))
        requires
            self.wf(),
        ensures
            r.0 <= self.pairs().len(),
            forall|j: int| 0 <= j < r.0 ==> text::text_lt(#[trigger] self.pairs()[j].0, name@),
            r.1 ==> r.0 < self.pairs().len() && self.pairs()[r.0 as int].0 == name@,
            forall|j: int|
                r.0 <= j < self.pairs().len() && (r.1 ==> j > r.0) ==> text::text_lt(
                    name@,
                    #[trigger] self.pairs()[j].0,
                ),
    {
        let ghost pairs = self.pairs();
        let ghost names = names_of(pairs);
        let mut lo: usize = 0;
        let mut hi: usize = self.entries.len();
        while lo < hi
            invariant
                0 <= lo <= hi <= self.entries@.len(),
                pairs == self.pairs(),
                names == names_of(pairs),
                ascending(names),
                forall|j: int| 0 <= j < lo ==> text::text_lt(#[trigger] pairs[j].0, name@),
                forall|j: int|
                    hi <= j < pairs.len() ==> text::text_lt(name@, #[trigger] pairs[j].0),
            decreases hi - lo,
        {
            let mid: usize = lo + (hi - lo) / 2;
            let here = self.entries[mid].name.as_str();
            assert(here@ == pairs[mid as int].0 && here@ == names[mid as int]);
            if text::str_lt(here, name) {
                assert forall|j: int| 0 <= j < mid + 1 implies text::text_lt(
                    #[trigger] pairs[j].0,
                    name@,
                ) by {
                    if j < mid {
                        assert(names[j] == pairs[j].0);
                        text::lemma_text_lt_transitive(names[j], names[mid as int], name@);
                    }
                }
                lo = mid + 1;
            } else if text::str_lt(name, here) {
                assert forall|j: int| mid <= j < pairs.len() implies text::text_lt(
                    name@,
                    #[trigger] pairs[j].0,
                ) by {
                    if j > mid {
                        assert(names[j] == pairs[j].0);
                        text::lemma_text_lt_transitive(name@, names[mid as int], names[j]);
                    }
                }
                hi = mid;
            } else {
                proof {
                    text::lemma_text_lt_total(here@, name@);
                    assert forall|j: int| 0 <= j < mid implies text::text_lt(
                        #[trigger] pairs[j].0,
                        name@,
                    ) by {
                        assert(names[j] == pairs[j].0);
                    }
                    assert forall|j: int| mid < j < pairs.len() implies text::text_lt(
                        name@,
                        #[trigger] pairs[j].0,
                    ) by {
                        assert(names[j] == pairs[j].0);
                    }
                }
                return (mid, true);
            }
        }
        (lo, false)
    }

    /// The value that `name` maps to.
    pub fn get(&self, name: &str) -> (value: Option<&V>)
        requires
            self.wf(),
        ensures
            match value {
                Some(v) => self@.contains_key(name@) && self@[name@] == *v,
                None => !self@.contains_key(name@),
            },
    {
        proof {
            self.lemma_wf();
        }
        let (at, found) = self.search(name);
        if found {
            assert(self.pairs()[at as int].0 == name@);
            Some(&self.entries[at].value)
        } else {
            proof {
                text::lemma_text_lt_irreflexive(name@);
            }
            None
        }
    }

    /// Map `name` to `value`, in place of what it mapped to.
    pub fn insert(&mut self, name: &str, value: V)
        requires
            old(self).wf(),
        ensures
            final(self).wf(),
            final(self)@ == old(self)@.insert(name@, value),
    {
        let (at, found) = self.search(name);
        let ghost before = self.pairs();
        proof {
            self.lemma_wf();
        }
        let entry = Entry { name: name.to_string(), value };
        if found {
            self.entries.set(at, entry);
            assert(self.pairs() =~= before.update(at as int, (name@, value)));
            assert(names_of(self.pairs()) =~= names_of(before));
        } else {
            self.entries.insert(at, entry);
            assert(self.pairs() =~= before.insert(at as int, (name@, value)));
            let ghost names = names_of(self.pairs());
            let ghost old_names = names_of(before);
            assert forall|i: int, j: int| 0 <= i < j < names.len() implies text::text_lt(
                #[trigger] names[i],
                #[trigger] names[j],
            ) by {
                let oi = if i > at { i - 1 } else { i };
                let oj = if j > at { j - 1 } else { j };
                if i != at {
                    assert(names[i] == old_names[oi] && old_names[oi] == before[oi].0);
                }
                if j != at {
                    assert(names[j] == old_names[oj] && old_names[oj] == before[oj].0);
                }
            }
        }
        proof {
            self.lemma_wf();
            let after = self.pairs();
            let m = old(self)@;
            assert(after[at as int].0 == name@);
            assert forall|k: Seq<char>| k != name@ implies self@.contains_key(k)
                == m.contains_key(k) && (m.contains_key(k) ==> self@[k] == m[k]) by {
                if m.contains_key(k) {
                    let i = choose|i: int| 0 <= i < before.len() && #[trigger] before[i].0 == k;
                    let n = if !found && i >= at { i + 1 } else { i };
                    assert(after[n] == before[i]);
                }
                if self@.contains_key(k) {
                    let n = choose|n: int| 0 <= n < after.len() && #[trigger] after[n].0 == k;
                    let i = if !found && n > at { n - 1 } else { n };
                    assert(after[n] == before[i]);
                    assert(before[i].0 == k);
                }
            }
            assert(self@ =~= m.insert(name@, value));
        }
    }

    /// Remove `name` and give back what it mapped to.
    pub fn remove(&mut self, name: &str) -> (value: Option<V>)
        requires
            old(self).wf(),
        ensures
            final(self).wf(),
            final(self)@ == old(self)@.remove(name@),
            match value {
                Some(v) => old(self)@.contains_key(name@) && old(self)@[name@] == v,
                None => !old(self)@.contains_key(name@),
            },
    {
        let (at, found) = self.search(name);
        let ghost before = self.pairs();
        proof {
            self.lemma_wf();
        }
        if !found {
            proof {
                text::lemma_text_lt_irreflexive(name@);
                assert(!self@.contains_key(name@));
                assert(self@.remove(name@) =~= self@);
            }
            return None;
        }
        let entry = self.entries.remove(at);
        proof {
            let after = self.pairs();
            assert(after =~= before.remove(at as int));
            let names = names_of(after);
            let old_names = names_of(before);
            assert forall|i: int, j: int| 0 <= i < j < names.len() implies text::text_lt(
                #[trigger] names[i],
                #[trigger] names[j],
            ) by {
                let oi = if i >= at { i + 1 } else { i };
                let oj = if j >= at { j + 1 } else { j };
                assert(names[i] == old_names[oi] && names[j] == old_names[oj]);
            }
            self.lemma_wf();
            let m = old(self)@;
            assert(before[at as int].0 == name@);
            assert forall|k: Seq<char>| self@.contains_key(k) == (k != name@ && m.contains_key(k))
                && (self@.contains_key(k) ==> self@[k] == m[k]) by {
                if m.contains_key(k) && k != name@ {
                    let i = choose|i: int| 0 <= i < before.len() && #[trigger] before[i].0 == k;
                    let n = if i > at { i - 1 } else { i };
                    assert(after[n] == before[i]);
                }
                if self@.contains_key(k) {
                    let n = choose|n: int| 0 <= n < after.len() && #[trigger] after[n].0 == k;
                    let i = if n >= at { n + 1 } else { n };
                    assert(after[n] == before[i]);
                    assert(before[i].0 == k);
                    if k == name@ {
                        lemma_distinct(before, i, at as int);
                    }
                }
            }
            assert(self@ =~= m.remove(name@));
        }
        Some(entry.value)
    }

    /// The names, ascending.
    pub fn names(&self) -> (list: Vec<String>)
        requires
            self.wf(),
        ensures
            text::views(list@) == names_of(self.pairs()),
    {
        let mut list: Vec<String> = Vec::new();
        let mut i: usize = 0;
        while i < self.entries.len()
            invariant
                i <= self.entries.len(),
                text::views(list@) == names_of(self.pairs()).take(i as int),
            decreases self.entries.len() - i,
        {
            let name = self.entries[i].name.clone();
            assert(text::views(list@.push(name)) =~= text::views(list@).push(name@));
            list.push(name);
            i += 1;
            assert(names_of(self.pairs()).take(i as int) =~= names_of(self.pairs()).take(
                i - 1,
            ).push(name@));
        }
        assert(names_of(self.pairs()).take(i as int) =~= names_of(self.pairs()));
        list
    }
}

} // verus!
