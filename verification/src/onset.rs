//! The onset scheduler's queue: at most one pending deadline per deck (a
//! newer schedule supersedes the deck's older one), and the earliest
//! deadline fires first. Deadlines are milliseconds on the host's clock;
//! the host sleeps until [`OnsetQueue::deadline`] and then drains
//! [`OnsetQueue::pop_due`].

use vstd::prelude::*;

verus! {

/// A pending onset: the deadline, the deck, and the stamp to fire with.
pub type Onset = (u64, usize, u64);

/// `s` without the entries of `deck`, the others in order.
pub open spec fn without_deck(s: Seq<Onset>, deck: usize) -> Seq<Onset>
    decreases s.len(),
{
    if s.len() == 0 {
        Seq::empty()
    } else {
        let rest = without_deck(s.drop_last(), deck);
        if s.last().1 == deck {
            rest
        } else {
            rest.push(s.last())
        }
    }
}

/// No deck has two entries.
pub open spec fn one_per_deck(s: Seq<Onset>) -> bool {
    forall|i: int, j: int| 0 <= i < j < s.len() ==> s[i].1 != s[j].1
}

/// `i` is the earliest entry of `s`: no entry is due sooner, and none
/// before it is due as soon.
pub open spec fn earliest_at(s: Seq<Onset>, i: int) -> bool {
    &&& 0 <= i < s.len()
    &&& forall|j: int| 0 <= j < s.len() ==> s[i].0 <= s[j].0
    &&& forall|j: int| 0 <= j < i ==> s[i].0 < s[j].0
}

proof fn lemma_without_deck_keeps(s: Seq<Onset>, deck: usize)
    ensures
        forall|k: int| 0 <= k < without_deck(s, deck).len() ==> without_deck(s, deck)[k].1 != deck,
        forall|k: int|
            0 <= k < without_deck(s, deck).len() ==> s.contains(#[trigger] without_deck(s, deck)[k]),
        without_deck(s, deck).len() <= s.len(),
    decreases s.len(),
{
    if s.len() > 0 {
        lemma_without_deck_keeps(s.drop_last(), deck);
        let rest = without_deck(s.drop_last(), deck);
        assert forall|k: int| 0 <= k < without_deck(s, deck).len() implies s.contains(
            #[trigger] without_deck(s, deck)[k],
        ) by {
            if k < rest.len() {
                assert(s.drop_last().contains(rest[k]));
                let m = choose|m: int| 0 <= m < s.drop_last().len() && s.drop_last()[m] == rest[k];
                assert(s[m] == rest[k]);
            } else {
                assert(s[s.len() - 1] == s.last());
            }
        }
    }
}

proof fn lemma_without_deck_one_per_deck(s: Seq<Onset>, deck: usize)
    requires
        one_per_deck(s),
    ensures
        one_per_deck(without_deck(s, deck)),
    decreases s.len(),
{
    if s.len() > 0 {
        let init = s.drop_last();
        assert(one_per_deck(init));
        lemma_without_deck_one_per_deck(init, deck);
        lemma_without_deck_keeps(init, deck);
        let rest = without_deck(init, deck);
        if s.last().1 != deck {
            assert forall|i: int, j: int| 0 <= i < j < rest.push(s.last()).len() implies rest.push(
                s.last(),
            )[i].1 != rest.push(s.last())[j].1 by {
                if j == rest.len() {
                    assert(init.contains(rest[i]));
                    let m = choose|m: int| 0 <= m < init.len() && init[m] == rest[i];
                    assert(s[m] == init[m]);
                    assert(s[s.len() - 1] == s.last());
                }
            }
        }
    }
}

/// The pending onsets, one per deck at most.
pub struct OnsetQueue {
    entries: Vec<Onset>,
}

impl OnsetQueue {
    /// The pending onsets, in the order they were scheduled.
    pub closed spec fn pending(&self) -> Seq<Onset> {
        self.entries@
    }

    /// An empty queue.
    pub fn new() -> (q: Self)
        ensures
            q.pending() == Seq::<Onset>::empty(),
    {
        OnsetQueue { entries: Vec::new() }
    }

    /// Schedule `deck` to fire with `stamp` at `due`, superseding the
    /// deck's pending onset if it has one.
    pub fn schedule(&mut self, deck: usize, stamp: u64, due: u64)
        ensures
            final(self).pending() == without_deck(old(self).pending(), deck).push((due, deck, stamp)),
            one_per_deck(old(self).pending()) ==> one_per_deck(final(self).pending()),
    {
        let ghost s = self.entries@;
        let mut kept: Vec<Onset> = Vec::new();
        let mut i: usize = 0;
        while i < self.entries.len()
            invariant
                0 <= i <= s.len(),
                self.entries@ == s,
                kept@ == without_deck(s.take(i as int), deck),
            decreases s.len() - i,
        {
            let e = self.entries[i];
            assert(s.take(i + 1).drop_last() =~= s.take(i as int));
            assert(s.take(i + 1).last() == e);
            if e.1 != deck {
                kept.push(e);
            }
            i = i + 1;
        }
        assert(s.take(s.len() as int) =~= s);
        kept.push((due, deck, stamp));
        self.entries = kept;
        proof {
            if one_per_deck(s) {
                lemma_without_deck_one_per_deck(s, deck);
                lemma_without_deck_keeps(s, deck);
            }
        }
    }

    /// The earliest pending deadline, `None` when nothing is pending.
    pub fn deadline(&self) -> (d: Option<u64>)
        ensures
            self.pending().len() == 0 <==> d is None,
            d matches Some(t) ==> exists|i: int| earliest_at(self.pending(), i) && self.pending()[i].0 == t,
    {
        match self.earliest() {
            None => None,
            Some(i) => Some(self.entries[i].0),
        }
    }

    fn earliest(&self) -> (r: Option<usize>)
        ensures
            self.pending().len() == 0 <==> r is None,
            r matches Some(i) ==> earliest_at(self.pending(), i as int),
    {
        let n = self.entries.len();
        if n == 0 {
            return None;
        }
        let mut best: usize = 0;
        let mut i: usize = 1;
        while i < n
            invariant
                n == self.entries@.len(),
                0 <= best < i <= n,
                forall|j: int| 0 <= j < i ==> self.entries@[best as int].0 <= self.entries@[j].0,
                forall|j: int| 0 <= j < best ==> self.entries@[best as int].0 < self.entries@[j].0,
            decreases n - i,
        {
            if self.entries[i].0 < self.entries[best].0 {
                best = i;
            }
            i = i + 1;
        }
        Some(best)
    }

    /// Take the earliest onset if it is due at `now` (its deadline is not
    /// after `now`), as the deck and the stamp to fire with; `None` when
    /// nothing is due. The host drains the due onsets by calling this until
    /// it answers `None`.
    pub fn pop_due(&mut self, now: u64) -> (fired: Option<(usize, u64)>)
        ensures
            one_per_deck(old(self).pending()) ==> one_per_deck(final(self).pending()),
            fired is None ==> final(self).pending() == old(self).pending() && forall|j: int|
                0 <= j < old(self).pending().len() ==> old(self).pending()[j].0 > now,
            fired matches Some((deck, stamp)) ==> exists|i: int|
                #![trigger old(self).pending()[i]]
                earliest_at(old(self).pending(), i) && old(self).pending()[i] == (
                    old(self).pending()[i].0,
                    deck,
                    stamp,
                ) && old(self).pending()[i].0 <= now && final(self).pending() == old(self).pending().remove(i),
    {
        match self.earliest() {
            None => None,
            Some(i) => {
                let e = self.entries[i];
                if e.0 > now {
                    return None;
                }
                let ghost s = self.entries@;
                let _taken = self.entries.remove(i);
                assert(s[i as int] == (s[i as int].0, e.1, e.2));
                proof {
                    if one_per_deck(s) {
                        assert forall|a: int, b: int| 0 <= a < b < self.entries@.len() implies self.entries@[a].1
                            != self.entries@[b].1 by {
                            let a0 = if a < i { a } else { a + 1 };
                            let b0 = if b < i { b } else { b + 1 };
                            assert(self.entries@[a] == s[a0]);
                            assert(self.entries@[b] == s[b0]);
                        }
                    }
                }
                Some((e.1, e.2))
            },
        }
    }
}

} // verus!
