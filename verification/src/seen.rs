//! A bounded memory of message ids, for loop prevention.
use std::collections::VecDeque;

use vstd::hash_set::StringHashSet;
use vstd::prelude::*;

use crate::text;

verus! {

broadcast use vstd::string::group_string_axioms;

/// The model of a [`SeenSet`]: its capacity and the ids it holds, oldest first.
#[verifier::ext_equal]
pub struct SeenView {
    pub cap: nat,
    pub order: Seq<Seq<char>>,
}

impl SeenView {
    /// Nothing seen yet.
    pub open spec fn empty(cap: nat) -> SeenView {
        SeenView {
            cap: if cap > 1 {
                cap
            } else {
                1
            },
            order: Seq::empty(),
        }
    }

    /// No id occurs twice, and there are no more than the capacity allows.
    pub open spec fn bounded(self) -> bool {
        &&& self.cap >= 1
        &&& self.order.len() <= self.cap
        &&& self.order.no_duplicates()
    }

    /// Whether `id` is remembered.
    pub open spec fn has(self, id: Seq<char>) -> bool {
        self.order.contains(id)
    }

    /// The set after `id` was seen: an id that is remembered changes nothing, a
    /// new one enters and, beyond the capacity, the oldest leaves.
    pub open spec fn with(self, id: Seq<char>) -> SeenView {
        let longer = self.order.push(id);
        if self.has(id) {
            self
        } else if longer.len() > self.cap {
            SeenView { order: longer.drop_first(), ..self }
        } else {
            SeenView { order: longer, ..self }
        }
    }

    /// The set after a sequence of ids was seen.
    pub open spec fn with_all(self, ids: Seq<Seq<char>>) -> SeenView
        decreases ids.len(),
    {
        if ids.len() == 0 {
            self
        } else {
            self.with_all(ids.drop_last()).with(ids.last())
        }
    }
}

/// Bounded FIFO set of recently-seen message ids for loop prevention.
pub struct SeenSet {
    cap: usize,
    set: StringHashSet,
    order: VecDeque<String>,
}

impl View for SeenSet {
    type V = SeenView;

    closed spec fn view(&self) -> SeenView {
        SeenView { cap: self.cap as nat, order: text::views(self.order@) }
    }
}

impl SeenSet {
    /// The hash set holds the ids of the queue, each once, and within the
    /// capacity.
    pub closed spec fn wf(&self) -> bool {
        &&& self@.bounded()
        &&& self.set@ =~= self@.order.to_set()
    }

    /// A well-formed set is bounded.
    pub proof fn lemma_wf(&self)
        requires
            self.wf(),
        ensures
            self@.bounded(),
    {
    }

    /// An empty set that holds up to `cap` ids, and at least one.
    pub fn new(cap: usize) -> (s: Self)
        ensures
            s.wf(),
            s@ == SeenView::empty(cap as nat),
    {
        let s = SeenSet {
            cap: if cap > 1 {
                cap
            } else {
                1
            },
            set: StringHashSet::new(),
            order: VecDeque::new(),
        };
        assert(s@.order =~= Seq::<Seq<char>>::empty());
        s
    }

    /// Insert `id`. Returns `true` if it was newly inserted (i.e. NOT seen
    /// before), `false` if it was already present.
    pub fn insert(&mut self, id: &str) -> (fresh: bool)
        requires
            old(self).wf(),
        ensures
            final(self).wf(),
            fresh == !old(self)@.has(id@),
            final(self)@ == old(self)@.with(id@),
    {
        let ghost before = self@.order;
        if self.set.contains(id) {
            return false;
        }
        self.set.insert(id.to_string());
        self.order.push_back(id.to_string());
        let ghost longer = self@.order;
        assert(longer =~= before.push(id@));
        assert(longer.no_duplicates()) by {
            assert forall|i: int, j: int|
                0 <= i < longer.len() && 0 <= j < longer.len() && i != j implies longer[i]
                != longer[j] by {
                assert(!before.contains(id@));
                if i < before.len() && j < before.len() {
                } else if i < before.len() {
                    assert(before.contains(longer[i]));
                } else {
                    assert(before.contains(longer[j]));
                }
            }
        }
        assert(self.set@ =~= longer.to_set()) by {
            assert(longer[longer.len() - 1] == id@);
            assert forall|x: Seq<char>| before.contains(x) implies longer.contains(x) by {
                let i = choose|i: int| 0 <= i < before.len() && before[i] == x;
                assert(longer[i] == x);
            }
        }
        if self.order.len() > self.cap {
            if let Some(oldest) = self.order.pop_front() {
                self.set.remove(oldest.as_str());
                proof {
                    let shorter = self@.order;
                    assert(shorter =~= longer.drop_first());
                    assert(oldest@ == longer[0]);
                    assert forall|x: Seq<char>| shorter.contains(x) <==> (longer.contains(x) && x
                        != oldest@) by {
                        if shorter.contains(x) {
                            let i = choose|i: int| 0 <= i < shorter.len() && shorter[i] == x;
                            assert(longer[i + 1] == x);
                        }
                        if longer.contains(x) && x != oldest@ {
                            let i = choose|i: int| 0 <= i < longer.len() && longer[i] == x;
                            assert(shorter[i - 1] == x);
                        }
                    }
                }
            }
        }
        true
    }
}

// --- laws ------------------------------------------------------------------------

/// Seeing an id keeps the set bounded, and the id is then remembered.
pub proof fn seen_id_is_remembered(s: SeenView, id: Seq<char>)
    requires
        s.bounded(),
    ensures
        s.with(id).bounded(),
        s.with(id).cap == s.cap,
        s.with(id).has(id),
{
    if !s.has(id) {
        let longer = s.order.push(id);
        let after = s.with(id).order;
        assert(after[after.len() - 1] == id);
        assert forall|i: int, j: int|
            0 <= i < after.len() && 0 <= j < after.len() && i != j implies after[i]
            != after[j] by {
            let d = longer.len() - after.len();
            assert(after[i] == longer[i + d] && after[j] == longer[j + d]);
            if i + d < s.order.len() {
                assert(s.order.contains(longer[i + d]));
            }
            if j + d < s.order.len() {
                assert(s.order.contains(longer[j + d]));
            }
        }
    }
}

/// Seeing a remembered id a second time changes nothing.
pub proof fn repeated_id_changes_nothing(s: SeenView, id: Seq<char>)
    requires
        s.bounded(),
    ensures
        s.with(id).with(id) == s.with(id),
{
    seen_id_is_remembered(s, id);
}

/// An id is remembered until as many further new ids as the capacity were seen:
/// fewer than that, whatever they are, leave it in place.
pub proof fn id_stays_within_horizon(s: SeenView, id: Seq<char>, later: Seq<Seq<char>>)
    requires
        s.bounded(),
        !s.has(id),
        later.len() < s.cap,
    ensures
        s.with(id).with_all(later).has(id),
{
    seen_id_is_remembered(s, id);
    let t = s.with(id);
    assert(t.order[t.order.len() - 1] == id);
    lemma_place(t, id, t.order.len() - 1, later);
}

/// Each id seen moves the others towards the front by one place at most.
proof fn lemma_place(s: SeenView, id: Seq<char>, at: int, later: Seq<Seq<char>>)
    requires
        s.bounded(),
        0 <= at < s.order.len(),
        s.order[at] == id,
        at == s.order.len() - 1,
        later.len() < s.cap,
    ensures
        ({
            let t = s.with_all(later);
            &&& t.bounded()
            &&& t.cap == s.cap
            &&& exists|i: int|
                0 <= i < t.order.len() && #[trigger] t.order[i] == id && t.order.len() - 1 - i
                    <= later.len()
        }),
    decreases later.len(),
{
    if later.len() == 0 {
        assert(s.order[at] == id);
    } else {
        lemma_place(s, id, at, later.drop_last());
        let t = s.with_all(later.drop_last());
        let x = later.last();
        seen_id_is_remembered(t, x);
        let i = choose|i: int|
            0 <= i < t.order.len() && #[trigger] t.order[i] == id && t.order.len() - 1 - i
                <= later.len() - 1;
        let u = t.with(x);
        if t.has(x) {
            assert(u.order[i] == id);
        } else if t.order.push(x).len() > t.cap {
            assert(u.order[i - 1] == id);
        } else {
            assert(u.order[i] == id);
        }
    }
}

} // verus!
