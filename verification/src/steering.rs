//! Note steering: the per-deck held-note bookkeeping behind the KEYBOARD pad
//! bank, external keyboards and full-state writers.
//!
//! Held pitches carry source refcounts — a pad triad and a keyboard note may
//! hold the same pitch; it stays held until every holder releases. Each pad
//! remembers the pitches its hold contributed and each raw keyboard note the
//! pitch it snapped to, so a release removes exactly what its own press
//! added, even across a key/scale change mid-hold.

use std::collections::BTreeMap;

use vstd::prelude::*;

use crate::notes::{pad_pitches, pad_pitches_spec, snap_to_scale, is_snap_of, lemma_small_pad_fits};
use crate::snapshot::{PerformanceSnap, ScaleSnap, default_performance};

verus! {

/// The FLX4 performance-pad count (the KEYBOARD bank).
pub const PAD_COUNT: usize = 8;

/// How often `p` occurs in `s`.
pub open spec fn occurrences(s: Seq<u8>, p: u8) -> nat
    decreases s.len(),
{
    if s.len() == 0 {
        0
    } else {
        occurrences(s.drop_last(), p) + if s.last() == p {
            1nat
        } else {
            0nat
        }
    }
}

/// The holds the first `n` pads contribute to `p`.
pub open spec fn pad_sum(pads: Seq<Vec<u8>>, n: nat, p: u8) -> nat
    decreases n,
{
    if n == 0 {
        0
    } else {
        pad_sum(pads, (n - 1) as nat, p) + occurrences(pads[n - 1]@, p)
    }
}

/// How many of the raw keyboard notes below `n` hold `p`.
pub open spec fn key_sum(keys: Map<u8, u8>, n: nat, p: u8) -> nat
    decreases n,
{
    if n == 0 {
        0
    } else {
        key_sum(keys, (n - 1) as nat, p) + if keys.contains_key((n - 1) as u8) && keys[(n - 1) as u8]
            == p {
            1nat
        } else {
            0nat
        }
    }
}

/// The refcount a held-pitch map gives `p` (0 when not held).
pub open spec fn held_count(held: Map<u8, u32>, p: u8) -> nat {
    if held.contains_key(p) {
        held[p] as nat
    } else {
        0
    }
}

proof fn lemma_occurrences_concat(a: Seq<u8>, b: Seq<u8>, p: u8)
    ensures
        occurrences(a + b, p) == occurrences(a, p) + occurrences(b, p),
    decreases b.len(),
{
    if b.len() == 0 {
        assert(a + b =~= a);
    } else {
        lemma_occurrences_concat(a, b.drop_last(), p);
        assert((a + b).drop_last() =~= a + b.drop_last());
    }
}

proof fn lemma_occurrences_bound(s: Seq<u8>, p: u8)
    ensures
        occurrences(s, p) <= s.len(),
    decreases s.len(),
{
    if s.len() > 0 {
        lemma_occurrences_bound(s.drop_last(), p);
    }
}

proof fn lemma_occurrences_single(x: u8, p: u8)
    ensures
        occurrences(seq![x], p) == if x == p {
            1nat
        } else {
            0nat
        },
{
    reveal_with_fuel(occurrences, 2);
    assert(seq![x].drop_last() =~= Seq::<u8>::empty());
}

proof fn lemma_occurrences_take(s: Seq<u8>, i: int, p: u8)
    requires
        0 <= i < s.len(),
    ensures
        occurrences(s.take(i + 1), p) == occurrences(s.take(i), p) + if s[i] == p {
            1nat
        } else {
            0nat
        },
{
    assert(s.take(i + 1).drop_last() =~= s.take(i));
}

proof fn lemma_pad_sum_update(pads: Seq<Vec<u8>>, i: int, v: Vec<u8>, n: nat, p: u8)
    requires
        0 <= i < n <= pads.len(),
    ensures
        pad_sum(pads.update(i, v), n, p) + occurrences(pads[i]@, p) == pad_sum(pads, n, p)
            + occurrences(v@, p),
    decreases n,
{
    if n - 1 != i {
        lemma_pad_sum_update(pads, i, v, (n - 1) as nat, p);
    } else {
        lemma_pad_sum_frame(pads, pads.update(i, v), (n - 1) as nat, p);
    }
}

proof fn lemma_pad_sum_frame(a: Seq<Vec<u8>>, b: Seq<Vec<u8>>, n: nat, p: u8)
    requires
        n <= a.len(),
        n <= b.len(),
        forall|j: int| 0 <= j < n ==> a[j]@ == b[j]@,
    ensures
        pad_sum(a, n, p) == pad_sum(b, n, p),
    decreases n,
{
    if n > 0 {
        lemma_pad_sum_frame(a, b, (n - 1) as nat, p);
    }
}

proof fn lemma_pad_sum_bound(pads: Seq<Vec<u8>>, n: nat, p: u8)
    requires
        n <= pads.len(),
        forall|j: int| 0 <= j < n ==> pads[j]@.len() <= 3,
    ensures
        pad_sum(pads, n, p) <= 3 * n,
    decreases n,
{
    if n > 0 {
        lemma_pad_sum_bound(pads, (n - 1) as nat, p);
        lemma_occurrences_bound(pads[n - 1]@, p);
    }
}

proof fn lemma_pad_sum_empty(pads: Seq<Vec<u8>>, n: nat, p: u8)
    requires
        n <= pads.len(),
        forall|j: int| 0 <= j < n ==> pads[j]@.len() == 0,
    ensures
        pad_sum(pads, n, p) == 0,
    decreases n,
{
    if n > 0 {
        lemma_pad_sum_empty(pads, (n - 1) as nat, p);
    }
}

proof fn lemma_key_sum_insert(keys: Map<u8, u8>, raw: u8, v: u8, n: nat, p: u8)
    requires
        n <= 256,
    ensures
        key_sum(keys.insert(raw, v), n, p) + if raw < n && keys.contains_key(raw) && keys[raw] == p {
            1nat
        } else {
            0nat
        } == key_sum(keys, n, p) + if raw < n && v == p {
            1nat
        } else {
            0nat
        },
    decreases n,
{
    if n > 0 {
        lemma_key_sum_insert(keys, raw, v, (n - 1) as nat, p);
    }
}

proof fn lemma_key_sum_remove(keys: Map<u8, u8>, raw: u8, n: nat, p: u8)
    requires
        n <= 256,
    ensures
        key_sum(keys.remove(raw), n, p) + if raw < n && keys.contains_key(raw) && keys[raw] == p {
            1nat
        } else {
            0nat
        } == key_sum(keys, n, p),
    decreases n,
{
    if n > 0 {
        lemma_key_sum_remove(keys, raw, (n - 1) as nat, p);
    }
}

proof fn lemma_key_sum_bound(keys: Map<u8, u8>, n: nat, p: u8)
    ensures
        key_sum(keys, n, p) <= n,
    decreases n,
{
    if n > 0 {
        lemma_key_sum_bound(keys, (n - 1) as nat, p);
    }
}

proof fn lemma_key_sum_empty(n: nat, p: u8)
    ensures
        key_sum(Map::empty(), n, p) == 0,
    decreases n,
{
    if n > 0 {
        lemma_key_sum_empty((n - 1) as nat, p);
    }
}

/// Pitch keys are totally ordered, as the held-note map needs.
proof fn lemma_pitch_keys_ordered()
    ensures
        vstd::laws_cmp::obeys_cmp::<u8>(),
{
    broadcast use vstd::laws_cmp::group_laws_cmp;
}

/// Add one hold per occurrence of each pitch.
fn hold_into(held: &mut BTreeMap<u8, u32>, pitches: &[u8])
    requires
        forall|p: u8| #[trigger] held_count(old(held)@, p) + occurrences(pitches@, p) <= u32::MAX,
        forall|p: u8| old(held)@.contains_key(p) ==> old(held)@[p] > 0,
    ensures
        forall|p: u8| #[trigger] held_count(final(held)@, p) == held_count(old(held)@, p) + occurrences(pitches@, p),
        forall|p: u8| final(held)@.contains_key(p) ==> final(held)@[p] > 0,
{
    broadcast use vstd::std_specs::btree::group_btree_axioms;
    proof {
        lemma_pitch_keys_ordered();
    }
    let ghost start = held@;
    let mut i: usize = 0;
    while i < pitches.len()
        invariant
            0 <= i <= pitches@.len(),
            forall|p: u8| #[trigger] held_count(start, p) + occurrences(pitches@, p) <= u32::MAX,
            forall|p: u8| #[trigger] held_count(held@, p) == held_count(start, p) + occurrences(pitches@.take(i as int), p),
            forall|p: u8| held@.contains_key(p) ==> held@[p] > 0,
        decreases pitches@.len() - i,
    {
        let x = pitches[i];
        proof {
            lemma_pitch_keys_ordered();
            assert forall|p: u8| #[trigger] occurrences(pitches@.take(i + 1), p) == occurrences(pitches@.take(i as int), p) + if pitches@[i as int] == p { 1nat } else { 0nat } by {
                lemma_occurrences_take(pitches@, i as int, p);
            }
            assert(pitches@.take(pitches@.len() as int) =~= pitches@);
            lemma_occurrences_concat(pitches@.take(i + 1), pitches@.skip(i + 1), x);
            assert(pitches@.take(i + 1) + pitches@.skip(i + 1) =~= pitches@);
        }
        let ghost before = held@;
        let current: u32 = match held.get(&x) {
            Some(c) => *c,
            None => 0,
        };
        assert(current == held_count(before, x));
        assert(held_count(start, x) + occurrences(pitches@, x) <= u32::MAX);
        assert(held_count(before, x) == held_count(start, x) + occurrences(pitches@.take(i as int), x));
        held.insert(x, current + 1);
        assert forall|p: u8| #[trigger] held_count(held@, p) == held_count(before, p) + if x == p { 1nat } else { 0nat } by {
            if p != x {
                assert(held@.contains_key(p) == before.contains_key(p));
            }
        }
        i = i + 1;
    }
    assert(pitches@.take(pitches@.len() as int) =~= pitches@);
}

/// Drop one hold per occurrence of each pitch; a pitch whose last holder
/// releases is no longer held.
fn release_from(held: &mut BTreeMap<u8, u32>, pitches: &[u8])
    requires
        forall|p: u8| occurrences(pitches@, p) <= #[trigger] held_count(old(held)@, p),
        forall|p: u8| old(held)@.contains_key(p) ==> old(held)@[p] > 0,
    ensures
        forall|p: u8| #[trigger] held_count(final(held)@, p) + occurrences(pitches@, p) == held_count(old(held)@, p),
        forall|p: u8| final(held)@.contains_key(p) ==> final(held)@[p] > 0,
{
    broadcast use vstd::std_specs::btree::group_btree_axioms;
    proof {
        lemma_pitch_keys_ordered();
    }
    let ghost start = held@;
    let mut i: usize = 0;
    while i < pitches.len()
        invariant
            0 <= i <= pitches@.len(),
            forall|p: u8| occurrences(pitches@, p) <= #[trigger] held_count(start, p),
            forall|p: u8| #[trigger] held_count(held@, p) + occurrences(pitches@.take(i as int), p) == held_count(start, p),
            forall|p: u8| held@.contains_key(p) ==> held@[p] > 0,
        decreases pitches@.len() - i,
    {
        let x = pitches[i];
        proof {
            lemma_pitch_keys_ordered();
            assert forall|p: u8| #[trigger] occurrences(pitches@.take(i + 1), p) == occurrences(pitches@.take(i as int), p) + if pitches@[i as int] == p { 1nat } else { 0nat } by {
                lemma_occurrences_take(pitches@, i as int, p);
            }
            lemma_occurrences_concat(pitches@.take(i + 1), pitches@.skip(i + 1), x);
            assert(pitches@.take(i + 1) + pitches@.skip(i + 1) =~= pitches@);
        }
        let ghost before = held@;
        assert(occurrences(pitches@, x) <= held_count(start, x));
        assert(held_count(before, x) + occurrences(pitches@.take(i as int), x) == held_count(start, x));
        match held.get(&x) {
            Some(c) => {
                let count = *c;
                if count == 1 {
                    held.remove(&x);
                } else {
                    held.insert(x, count - 1);
                }
            },
            None => {},
        }
        assert forall|p: u8| #[trigger] held_count(held@, p) + if x == p { 1nat } else { 0nat } == held_count(before, p) by {
            if p != x {
                assert(held@.contains_key(p) == before.contains_key(p));
            }
        }
        i = i + 1;
    }
    assert(pitches@.take(pitches@.len() as int) =~= pitches@);
}


proof fn lemma_pad_pitches_len(key: u8, scale: ScaleSnap, pad: nat)
    ensures
        pad_pitches_spec(key, scale, pad).len() <= 3,
{
}

/// Every hold of `f` is that of `s`.
pub open spec fn same_holds(s: DeckState, f: DeckState) -> bool {
    &&& forall|p: u8| #[trigger] f.count(p) == s.count(p)
    &&& forall|i: int| 0 <= i < PAD_COUNT ==> #[trigger] f.pad_hold(i) == s.pad_hold(i)
    &&& f.key_holds() == s.key_holds()
}

/// `f`'s holds are `s`'s after pad `pad` went down: the pad holds its
/// triad in the key/scale of `s`, replacing its previous hold.
pub open spec fn pad_pressed(s: DeckState, f: DeckState, pad: usize) -> bool {
    &&& f.key_holds() == s.key_holds()
    &&& forall|i: int| 0 <= i < PAD_COUNT && i != pad ==> #[trigger] f.pad_hold(i) == s.pad_hold(i)
    &&& pad >= PAD_COUNT ==> forall|p: u8| #[trigger] f.count(p) == s.count(p)
    &&& pad < PAD_COUNT ==> f.pad_hold(pad as int) == pad_pitches_spec(
        s.performance().key,
        s.performance().scale,
        pad as nat,
    )
    &&& pad < PAD_COUNT ==> forall|p: u8|
        #[trigger] f.count(p) + occurrences(s.pad_hold(pad as int), p) == s.count(p) + occurrences(
            f.pad_hold(pad as int),
            p,
        )
}

/// `f`'s holds are `s`'s after pad `pad` went up: exactly what the pad held
/// is released.
pub open spec fn pad_released(s: DeckState, f: DeckState, pad: usize) -> bool {
    &&& f.key_holds() == s.key_holds()
    &&& forall|i: int| 0 <= i < PAD_COUNT && i != pad ==> #[trigger] f.pad_hold(i) == s.pad_hold(i)
    &&& pad >= PAD_COUNT ==> forall|p: u8| #[trigger] f.count(p) == s.count(p)
    &&& pad < PAD_COUNT ==> f.pad_hold(pad as int).len() == 0
    &&& pad < PAD_COUNT ==> forall|p: u8|
        #[trigger] f.count(p) + occurrences(s.pad_hold(pad as int), p) == s.count(p)
}

/// The hold `raw` had in `s`, as a count for `p`.
pub open spec fn key_hold_of(s: DeckState, raw: u8, p: u8) -> nat {
    if s.key_holds().contains_key(raw) && s.key_holds()[raw] == p {
        1
    } else {
        0
    }
}

/// `f`'s holds are `s`'s after raw keyboard note `raw` went down: it holds
/// its snap into the key/scale of `s`, replacing its previous hold.
pub open spec fn key_pressed(s: DeckState, f: DeckState, raw: u8) -> bool {
    &&& forall|i: int| 0 <= i < PAD_COUNT ==> #[trigger] f.pad_hold(i) == s.pad_hold(i)
    &&& f.key_holds().contains_key(raw)
    &&& is_snap_of(raw, s.performance().key, s.performance().scale, f.key_holds()[raw])
    &&& f.key_holds() == s.key_holds().insert(raw, f.key_holds()[raw])
    &&& forall|p: u8| #[trigger] f.count(p) + key_hold_of(s, raw, p) == s.count(p) + key_hold_of(f, raw, p)
}

/// `f`'s holds are `s`'s after raw keyboard note `raw` went up: the pitch
/// its own press snapped to is released.
pub open spec fn key_released(s: DeckState, f: DeckState, raw: u8) -> bool {
    &&& forall|i: int| 0 <= i < PAD_COUNT ==> #[trigger] f.pad_hold(i) == s.pad_hold(i)
    &&& f.key_holds() == s.key_holds().remove(raw)
    &&& forall|p: u8| #[trigger] f.count(p) + key_hold_of(s, raw, p) == s.count(p)
}


/// One deck's steering state: the performance config, the authored drum
/// mode, and the held-note bookkeeping.
pub struct DeckState {
    /// The performance-surface config (arm, key, scale, note mode).
    perf: PerformanceSnap,
    /// The authored drum conditioning mode: `Some(false)` suppress, `None`
    /// model-decides. Deck config, not a held gesture — it survives
    /// [`DeckState::clear_holds`].
    drums: Option<bool>,
    /// Held pitches with source refcounts.
    held: BTreeMap<u8, u32>,
    /// What each performance pad's hold contributed.
    pad_holds: Vec<Vec<u8>>,
    /// Snapped pitch per raw external-keyboard note.
    keyboard_pitches: BTreeMap<u8, u8>,
    /// The pitches of the last multihot actually sent (onset's
    /// sustain-vs-fresh baseline).
    sent: Vec<u8>,
    /// Cancels a scheduled onset send when it moves on.
    generation: u64,
    /// Whether an onset send is scheduled.
    pending: bool,
    /// The pitches a full-state writer holds (bookkeeping only).
    external: Ghost<Seq<u8>>,
}

impl DeckState {
    /// How many holders hold `p`.
    pub closed spec fn count(&self, p: u8) -> nat {
        held_count(self.held@, p)
    }

    /// The performance-surface config.
    pub closed spec fn performance(&self) -> PerformanceSnap {
        self.perf
    }

    /// The authored drum mode.
    pub closed spec fn drum_mode(&self) -> Option<bool> {
        self.drums
    }

    /// What pad `pad`'s hold contributed.
    pub closed spec fn pad_hold(&self, pad: int) -> Seq<u8> {
        self.pad_holds@[pad]@
    }

    /// The snapped pitch each held raw keyboard note contributed.
    pub closed spec fn key_holds(&self) -> Map<u8, u8> {
        self.keyboard_pitches@
    }

    /// The pitches of the last multihot sent.
    pub closed spec fn sent_pitches(&self) -> Seq<u8> {
        self.sent@
    }

    pub closed spec fn is_pending(&self) -> bool {
        self.pending
    }

    pub closed spec fn generation_spec(&self) -> u64 {
        self.generation
    }

    /// The bookkeeping invariant: every held pitch's refcount is exactly the
    /// number of holders — full-state writer, pads and keyboard notes.
    pub closed spec fn wf(&self) -> bool {
        &&& self.pad_holds@.len() == PAD_COUNT
        &&& forall|i: int| 0 <= i < PAD_COUNT ==> (#[trigger] self.pad_holds@[i])@.len() <= 3
        &&& forall|p: u8| self.held@.contains_key(p) ==> self.held@[p] > 0
        &&& forall|p: u8|
            #[trigger] held_count(self.held@, p) == occurrences(self.external@, p) + pad_sum(
                self.pad_holds@,
                PAD_COUNT as nat,
                p,
            ) + key_sum(self.keyboard_pitches@, 256, p)
        &&& self.external@.len() + 300 <= u32::MAX
    }

    /// Nothing is held, by anyone.
    /// The held pitches below `n`, ascending.
    pub open spec fn held_below(&self, n: nat) -> Seq<u8>
        decreases n,
    {
        if n == 0 {
            Seq::empty()
        } else {
            self.held_below((n - 1) as nat) + if self.count((n - 1) as u8) > 0 {
                seq![(n - 1) as u8]
            } else {
                Seq::empty()
            }
        }
    }

    /// Every held pitch, ascending.
    pub open spec fn held_list(&self) -> Seq<u8> {
        self.held_below(256)
    }

    pub open spec fn nothing_held(&self) -> bool {
        &&& forall|p: u8| #[trigger] self.count(p) == 0
        &&& forall|i: int| 0 <= i < PAD_COUNT ==> #[trigger] self.pad_hold(i).len() == 0
        &&& self.key_holds() == Map::<u8, u8>::empty()
    }

    proof fn lemma_count_bound(&self, p: u8)
        requires
            self.wf(),
        ensures
            self.count(p) + 20 <= u32::MAX,
            pad_sum(self.pad_holds@, PAD_COUNT as nat, p) <= 24,
    {
        lemma_occurrences_bound(self.external@, p);
        lemma_pad_sum_bound(self.pad_holds@, PAD_COUNT as nat, p);
        lemma_key_sum_bound(self.keyboard_pitches@, 256, p);
    }

    /// A fresh deck: default performance config, model-decided drums,
    /// nothing held or sent.
    pub fn new() -> (d: Self)
        ensures
            d.wf(),
            d.performance() == default_performance(),
            d.drum_mode() is None,
            d.nothing_held(),
            d.sent_pitches().len() == 0,
            !d.is_pending(),
            d.generation_spec() == 0,
    {
        let mut pads: Vec<Vec<u8>> = Vec::new();
        let mut i: usize = 0;
        while i < PAD_COUNT
            invariant
                0 <= i <= PAD_COUNT,
                pads@.len() == i,
                forall|j: int| 0 <= j < i ==> (#[trigger] pads@[j])@.len() == 0,
            decreases PAD_COUNT - i,
        {
            pads.push(Vec::new());
            i = i + 1;
        }
        let d = DeckState {
            perf: PerformanceSnap::default(),
            drums: None,
            held: BTreeMap::new(),
            pad_holds: pads,
            keyboard_pitches: BTreeMap::new(),
            sent: Vec::new(),
            generation: 0,
            pending: false,
            external: Ghost(Seq::empty()),
        };
        proof {
            assert forall|p: u8| #[trigger] held_count(d.held@, p) == occurrences(d.external@, p) + pad_sum(
                d.pad_holds@,
                PAD_COUNT as nat,
                p,
            ) + key_sum(d.keyboard_pitches@, 256, p) by {
                lemma_pad_sum_empty(d.pad_holds@, PAD_COUNT as nat, p);
                lemma_key_sum_empty(256, p);
            }
        }
        d
    }

    /// The held pitches, ascending, each once.
    pub fn held_pitches(&self) -> (v: Vec<u8>)
        requires
            self.wf(),
        ensures
            v@ == self.held_list(),
            forall|i: int, j: int| 0 <= i < j < v@.len() ==> v@[i] < v@[j],
            forall|p: u8| v@.contains(p) <==> self.count(p) > 0,
    {
        broadcast use vstd::std_specs::btree::group_btree_axioms;

        let mut v: Vec<u8> = Vec::new();
        let mut q: u32 = 0;
        while q < 256
            invariant
                0 <= q <= 256,
                v@ == self.held_below(q as nat),
                forall|i: int, j: int| 0 <= i < j < v@.len() ==> v@[i] < v@[j],
                forall|i: int| 0 <= i < v@.len() ==> v@[i] < q,
                forall|p: u8| p < q ==> (v@.contains(p) <==> self.count(p) > 0),
                forall|p: u8| v@.contains(p) ==> p < q,
                forall|p: u8| self.held@.contains_key(p) ==> self.held@[p] > 0,
            decreases 256 - q,
        {
            proof {
                lemma_pitch_keys_ordered();
            }
            let p = q as u8;
            let ghost v0 = v@;
            let present = self.held.contains_key(&p);
            assert(present == (self.count(p) > 0));
            if present {
                let ghost old_v = v@;
                v.push(p);
                assert forall|x: u8| #[trigger] v@.contains(x) <==> (old_v.contains(x) || x == p) by {
                    if v@.contains(x) {
                        let w = choose|w: int| 0 <= w < v@.len() && v@[w] == x;
                        if w < old_v.len() {
                            assert(old_v[w] == x);
                        }
                    }
                    if old_v.contains(x) {
                        let w = choose|w: int| 0 <= w < old_v.len() && old_v[w] == x;
                        assert(v@[w] == x);
                    }
                    if x == p {
                        assert(v@[old_v.len() as int] == x);
                    }
                }
            }
            assert forall|x: u8| x < q + 1 implies (v@.contains(x) <==> self.count(x) > 0) by {
                if x < q {
                    assert(v@.contains(x) <==> v0.contains(x));
                } else {
                    assert(x == p);
                    if !present {
                        assert(!v0.contains(x));
                    }
                }
            }
            assert(((q + 1) as nat - 1) as u8 == p);
            assert(v@ =~= self.held_below((q + 1) as nat));
            q = q + 1;
        }
        v
    }

    /// A performance pad goes down: it holds its triad in the current
    /// key/scale. A repeated down without an up (dropped release) replaces
    /// the pad's hold rather than stacking it.
    pub fn pad_down(&mut self, pad: usize)
        requires
            old(self).wf(),
        ensures
            final(self).wf(),
            final(self).performance() == old(self).performance(),
            final(self).drum_mode() == old(self).drum_mode(),
            final(self).sent_pitches() == old(self).sent_pitches(),
            final(self).is_pending() == old(self).is_pending(),
            final(self).generation_spec() == old(self).generation_spec(),
            pad_pressed(*old(self), *final(self), pad),
    {
        if pad >= PAD_COUNT {
            return;
        }
        let mut previous: Vec<u8> = Vec::new();
        self.pad_holds.set_and_swap(pad, &mut previous);
        let ghost pads0 = old(self).pad_holds@;
        let ghost empty_pad = self.pad_holds@[pad as int];
        assert(empty_pad@.len() == 0);
        proof {
            assert forall|p: u8| occurrences(previous@, p) <= #[trigger] held_count(self.held@, p) by {
                lemma_pad_sum_update(pads0, pad as int, empty_pad, PAD_COUNT as nat, p);
                assert(occurrences(empty_pad@, p) == 0);
            }
        }
        release_from(&mut self.held, previous.as_slice());
        proof {
            lemma_small_pad_fits(self.perf.key, self.perf.scale, pad as nat);
        }
        let pitches = pad_pitches(self.perf.key, self.perf.scale, pad);
        proof {
            lemma_pad_pitches_len(self.perf.key, self.perf.scale, pad as nat);
            assert forall|p: u8| #[trigger] held_count(self.held@, p) + occurrences(pitches@, p) <= u32::MAX by {
                old(self).lemma_count_bound(p);
                lemma_occurrences_bound(pitches@, p);
                lemma_occurrences_bound(previous@, p);
            }
        }
        hold_into(&mut self.held, pitches.as_slice());
        let ghost pads1 = self.pad_holds@;
        self.pad_holds.set(pad, pitches);
        proof {
            assert forall|p: u8| #[trigger] held_count(self.held@, p) == occurrences(self.external@, p) + pad_sum(
                self.pad_holds@,
                PAD_COUNT as nat,
                p,
            ) + key_sum(self.keyboard_pitches@, 256, p) by {
                lemma_pad_sum_update(pads0, pad as int, empty_pad, PAD_COUNT as nat, p);
                lemma_pad_sum_update(pads1, pad as int, pitches, PAD_COUNT as nat, p);
                assert(occurrences(empty_pad@, p) == 0);
            }
        }
    }

    /// A performance pad goes up: exactly what its own press held is
    /// released, even if the key/scale changed mid-hold.
    pub fn pad_up(&mut self, pad: usize)
        requires
            old(self).wf(),
        ensures
            final(self).wf(),
            final(self).performance() == old(self).performance(),
            final(self).drum_mode() == old(self).drum_mode(),
            final(self).sent_pitches() == old(self).sent_pitches(),
            final(self).is_pending() == old(self).is_pending(),
            final(self).generation_spec() == old(self).generation_spec(),
            pad_released(*old(self), *final(self), pad),
    {
        if pad >= PAD_COUNT {
            return;
        }
        let mut previous: Vec<u8> = Vec::new();
        self.pad_holds.set_and_swap(pad, &mut previous);
        let ghost pads0 = old(self).pad_holds@;
        let ghost empty_pad = self.pad_holds@[pad as int];
        assert(empty_pad@.len() == 0);
        proof {
            assert forall|p: u8| occurrences(previous@, p) <= #[trigger] held_count(self.held@, p) by {
                lemma_pad_sum_update(pads0, pad as int, empty_pad, PAD_COUNT as nat, p);
                assert(occurrences(empty_pad@, p) == 0);
            }
        }
        release_from(&mut self.held, previous.as_slice());
        proof {
            assert forall|p: u8| #[trigger] held_count(self.held@, p) == occurrences(self.external@, p) + pad_sum(
                self.pad_holds@,
                PAD_COUNT as nat,
                p,
            ) + key_sum(self.keyboard_pitches@, 256, p) by {
                lemma_pad_sum_update(pads0, pad as int, empty_pad, PAD_COUNT as nat, p);
                assert(occurrences(empty_pad@, p) == 0);
            }
        }
    }

    /// An external keyboard note goes down: it holds its pitch snapped to
    /// the current key/scale. A repeated down of the same raw note replaces
    /// its earlier hold.
    pub fn key_down(&mut self, raw: u8)
        requires
            old(self).wf(),
        ensures
            final(self).wf(),
            final(self).performance() == old(self).performance(),
            final(self).drum_mode() == old(self).drum_mode(),
            final(self).sent_pitches() == old(self).sent_pitches(),
            final(self).is_pending() == old(self).is_pending(),
            final(self).generation_spec() == old(self).generation_spec(),
            key_pressed(*old(self), *final(self), raw),
    {
        broadcast use vstd::std_specs::btree::group_btree_axioms;
        proof {
            lemma_pitch_keys_ordered();
        }
        let snapped = snap_to_scale(raw, self.perf.key, self.perf.scale);
        let ghost keys0 = self.keyboard_pitches@;
        let previous = self.keyboard_pitches.insert(raw, snapped);
        assert(self.keyboard_pitches@ == keys0.insert(raw, snapped));
        assert(self.held@ == old(self).held@);
        assert(self.pad_holds@ == old(self).pad_holds@);
        assert(self.external@ == old(self).external@);
        proof {
            assert forall|p: u8| #[trigger] held_count(self.held@, p) + (if snapped == p {
                1nat
            } else {
                0nat
            }) == occurrences(self.external@, p) + pad_sum(self.pad_holds@, PAD_COUNT as nat, p)
                + key_sum(self.keyboard_pitches@, 256, p) + (if keys0.contains_key(raw) && keys0[raw] == p {
                1nat
            } else {
                0nat
            }) by {
                lemma_key_sum_insert(keys0, raw, snapped, 256, p);
                assert(key_sum(keys0.insert(raw, snapped), 256, p) + (if keys0.contains_key(raw) && keys0[raw] == p {
                    1nat
                } else {
                    0nat
                }) == key_sum(keys0, 256, p) + (if snapped == p {
                    1nat
                } else {
                    0nat
                }));
                assert(held_count(old(self).held@, p) == occurrences(old(self).external@, p) + pad_sum(
                    old(self).pad_holds@, PAD_COUNT as nat, p) + key_sum(keys0, 256, p));
            }
        }
        match previous {
            Some(prev) => {
                let one = [prev];
                proof {
                    assert(one@ == seq![prev]);
                    assert forall|p: u8| occurrences(one@, p) <= #[trigger] held_count(self.held@, p) by {
                        lemma_occurrences_single(prev, p);
                        lemma_key_sum_remove(self.keyboard_pitches@, raw, 256, p);
                    }
                }
                release_from(&mut self.held, &one);
                proof {
                    assert forall|p: u8| #[trigger] occurrences(one@, p) == if prev == p { 1nat } else { 0nat } by {
                        lemma_occurrences_single(prev, p);
                    }
                }
            },
            None => {},
        }
        let ghost held1 = self.held@;
        let added = [snapped];
        proof {
            assert(added@ == seq![snapped]);
            assert forall|p: u8| #[trigger] occurrences(added@, p) == if snapped == p { 1nat } else { 0nat } by {
                lemma_occurrences_single(snapped, p);
            }
            assert forall|p: u8| #[trigger] held_count(self.held@, p) + occurrences(added@, p) <= u32::MAX by {
                old(self).lemma_count_bound(p);
            }
        }
        hold_into(&mut self.held, &added);
    }

    /// An external keyboard note goes up: the pitch its own press snapped
    /// to is released, even across a key change.
    pub fn key_up(&mut self, raw: u8)
        requires
            old(self).wf(),
        ensures
            final(self).wf(),
            final(self).performance() == old(self).performance(),
            final(self).drum_mode() == old(self).drum_mode(),
            final(self).sent_pitches() == old(self).sent_pitches(),
            final(self).is_pending() == old(self).is_pending(),
            final(self).generation_spec() == old(self).generation_spec(),
            key_released(*old(self), *final(self), raw),
    {
        broadcast use vstd::std_specs::btree::group_btree_axioms;
        proof {
            lemma_pitch_keys_ordered();
        }
        let ghost keys0 = self.keyboard_pitches@;
        let removed = self.keyboard_pitches.remove(&raw);
        assert(self.keyboard_pitches@ == keys0.remove(raw));
        proof {
            assert forall|p: u8| #[trigger] held_count(self.held@, p) == occurrences(self.external@, p) + pad_sum(self.pad_holds@, PAD_COUNT as nat, p)
                + key_sum(self.keyboard_pitches@, 256, p) + (if keys0.contains_key(raw) && keys0[raw] == p {
                1nat
            } else {
                0nat
            }) by {
                lemma_key_sum_remove(keys0, raw, 256, p);
                assert(held_count(old(self).held@, p) == occurrences(old(self).external@, p) + pad_sum(
                    old(self).pad_holds@, PAD_COUNT as nat, p) + key_sum(keys0, 256, p));
            }
        }
        match removed {
            Some(snapped) => {
                let one = [snapped];
                proof {
                    assert(one@ == seq![snapped]);
                    assert forall|p: u8| #[trigger] occurrences(one@, p) == if snapped == p { 1nat } else { 0nat } by {
                        lemma_occurrences_single(snapped, p);
                    }
                }
                release_from(&mut self.held, &one);
            },
            None => {},
        }
    }

    /// Drop every hold (a stream discontinuity or an external full-state
    /// replace); the performance config and the drum mode survive.
    pub fn clear_holds(&mut self)
        requires
            old(self).wf(),
        ensures
            final(self).wf(),
            final(self).nothing_held(),
            final(self).performance() == old(self).performance(),
            final(self).drum_mode() == old(self).drum_mode(),
            final(self).sent_pitches().len() == 0,
            !final(self).is_pending(),
            final(self).generation_spec() == old(self).generation_spec().wrapping_add(1),
    {
        let mut i: usize = 0;
        while i < PAD_COUNT
            invariant
                0 <= i <= PAD_COUNT,
                self.pad_holds@.len() == PAD_COUNT,
                forall|j: int| 0 <= j < i ==> (#[trigger] self.pad_holds@[j])@.len() == 0,
                self.perf == old(self).perf,
                self.drums == old(self).drums,
                self.generation == old(self).generation,
            decreases PAD_COUNT - i,
        {
            self.pad_holds.set(i, Vec::new());
            i = i + 1;
        }
        self.held.clear();
        self.keyboard_pitches.clear();
        self.sent.clear();
        self.pending = false;
        self.generation = self.generation.wrapping_add(1);
        self.external = Ghost(Seq::empty());
        proof {
            assert forall|p: u8| #[trigger] held_count(self.held@, p) == occurrences(self.external@, p) + pad_sum(
                self.pad_holds@,
                PAD_COUNT as nat,
                p,
            ) + key_sum(self.keyboard_pitches@, 256, p) by {
                lemma_pad_sum_empty(self.pad_holds@, PAD_COUNT as nat, p);
                lemma_key_sum_empty(256, p);
            }
        }
    }

    /// A full-state write: drop every hold, then hold exactly `pitches`
    /// (one hold per occurrence).
    pub fn replace_holds(&mut self, pitches: &[u8])
        requires
            old(self).wf(),
            pitches@.len() + 300 <= u32::MAX,
        ensures
            final(self).wf(),
            forall|p: u8| #[trigger] final(self).count(p) == occurrences(pitches@, p),
            forall|i: int| 0 <= i < PAD_COUNT ==> #[trigger] final(self).pad_hold(i).len() == 0,
            final(self).key_holds() == Map::<u8, u8>::empty(),
            final(self).performance() == old(self).performance(),
            final(self).drum_mode() == old(self).drum_mode(),
            final(self).sent_pitches().len() == 0,
            !final(self).is_pending(),
            final(self).generation_spec() == old(self).generation_spec().wrapping_add(1),
    {
        self.clear_holds();
        let ghost cleared = *self;
        proof {
            assert forall|p: u8| #[trigger] held_count(self.held@, p) + occurrences(pitches@, p) <= u32::MAX by {
                lemma_occurrences_bound(pitches@, p);
                assert(self.count(p) == 0);
            }
        }
        hold_into(&mut self.held, pitches);
        self.external = Ghost(pitches@);
        proof {
            assert forall|p: u8| #[trigger] held_count(self.held@, p) == occurrences(self.external@, p) + pad_sum(
                self.pad_holds@,
                PAD_COUNT as nat,
                p,
            ) + key_sum(self.keyboard_pitches@, 256, p) by {
                assert forall|j: int| 0 <= j < PAD_COUNT implies (#[trigger] self.pad_holds@[j])@.len() == 0 by {
                    assert(cleared.pad_hold(j).len() == 0);
                    assert(self.pad_holds@ == cleared.pad_holds@);
                }
                lemma_pad_sum_empty(self.pad_holds@, PAD_COUNT as nat, p);
                lemma_key_sum_empty(256, p);
                assert(cleared.count(p) == 0);
            }
            assert forall|p: u8| #[trigger] self.count(p) == occurrences(pitches@, p) by {
                assert(cleared.count(p) == 0);
            }
            assert forall|i: int| 0 <= i < PAD_COUNT implies #[trigger] self.pad_hold(i).len() == 0 by {
                assert(cleared.pad_hold(i).len() == 0);
            }
        }
    }

    /// Set the performance-surface config.
    pub fn set_performance(&mut self, perf: PerformanceSnap)
        requires
            old(self).wf(),
        ensures
            final(self).wf(),
            final(self).performance() == perf,
            final(self).drum_mode() == old(self).drum_mode(),
            same_holds(*old(self), *final(self)),
            final(self).sent_pitches() == old(self).sent_pitches(),
            final(self).is_pending() == old(self).is_pending(),
            final(self).generation_spec() == old(self).generation_spec(),
    {
        self.perf = perf;
    }

    /// The performance-surface config.
    pub fn performance_config(&self) -> (perf: PerformanceSnap)
        ensures
            perf == self.performance(),
    {
        self.perf
    }

    /// Set the authored drum mode.
    pub fn set_drum_mode(&mut self, mode: Option<bool>)
        requires
            old(self).wf(),
        ensures
            final(self).wf(),
            final(self).drum_mode() == mode,
            final(self).performance() == old(self).performance(),
            same_holds(*old(self), *final(self)),
            final(self).sent_pitches() == old(self).sent_pitches(),
            final(self).is_pending() == old(self).is_pending(),
            final(self).generation_spec() == old(self).generation_spec(),
    {
        self.drums = mode;
    }

    /// The authored drum mode.
    pub fn drums(&self) -> (mode: Option<bool>)
        ensures
            mode == self.drum_mode(),
    {
        self.drums
    }

    /// The pitches of the last multihot sent.
    pub fn sent(&self) -> (s: &[u8])
        ensures
            s@ == self.sent_pitches(),
    {
        self.sent.as_slice()
    }

    /// Record a send: `pitches` becomes the onset baseline and any pending
    /// scheduled send is settled.
    pub fn record_sent(&mut self, pitches: Vec<u8>)
        requires
            old(self).wf(),
        ensures
            final(self).wf(),
            final(self).sent_pitches() == pitches@,
            !final(self).is_pending(),
            final(self).performance() == old(self).performance(),
            final(self).drum_mode() == old(self).drum_mode(),
            same_holds(*old(self), *final(self)),
            final(self).generation_spec() == old(self).generation_spec(),
    {
        self.sent = pitches;
        self.pending = false;
    }

    /// Whether an onset send is scheduled.
    pub fn pending(&self) -> (b: bool)
        ensures
            b == self.is_pending(),
    {
        self.pending
    }

    /// The generation stamp of the scheduled send.
    pub fn generation(&self) -> (g: u64)
        ensures
            g == self.generation_spec(),
    {
        self.generation
    }

    /// Mark an onset send scheduled under `stamp`.
    pub fn schedule_send(&mut self, stamp: u64)
        requires
            old(self).wf(),
        ensures
            final(self).wf(),
            final(self).is_pending(),
            final(self).generation_spec() == stamp,
            final(self).sent_pitches() == old(self).sent_pitches(),
            final(self).performance() == old(self).performance(),
            final(self).drum_mode() == old(self).drum_mode(),
            same_holds(*old(self), *final(self)),
    {
        self.pending = true;
        self.generation = stamp;
    }

} // impl DeckState

/// A pad's release takes back exactly what its own press added, even when
/// the key or scale changed in between: the deck ends holding what it held
/// before the press, less whatever the pad itself held then (nothing, unless
/// an earlier release was dropped).
pub proof fn lemma_pad_release_undoes_press(s: DeckState, m: DeckState, m2: DeckState, f: DeckState, pad: usize)
    requires
        pad < PAD_COUNT,
        pad_pressed(s, m, pad),
        same_holds(m, m2),
        pad_released(m2, f, pad),
    ensures
        forall|p: u8| #[trigger] f.count(p) + occurrences(s.pad_hold(pad as int), p) == s.count(p),
        f.pad_hold(pad as int).len() == 0,
        forall|i: int| 0 <= i < PAD_COUNT && i != pad ==> #[trigger] f.pad_hold(i) == s.pad_hold(i),
        f.key_holds() == s.key_holds(),
{
    assert(m2.pad_hold(pad as int) == m.pad_hold(pad as int));
    assert forall|p: u8| #[trigger] f.count(p) + occurrences(s.pad_hold(pad as int), p) == s.count(p) by {
        assert(m2.count(p) == m.count(p));
    }
    assert forall|i: int| 0 <= i < PAD_COUNT && i != pad implies #[trigger] f.pad_hold(i) == s.pad_hold(i) by {
        assert(m2.pad_hold(i) == m.pad_hold(i));
    }
}

/// An external keyboard note's release takes back exactly the pitch its own
/// press snapped to, even across a key change: the deck ends as before the
/// press, less whatever that raw note held then.
pub proof fn lemma_key_release_undoes_press(s: DeckState, m: DeckState, m2: DeckState, f: DeckState, raw: u8)
    requires
        key_pressed(s, m, raw),
        same_holds(m, m2),
        key_released(m2, f, raw),
    ensures
        forall|p: u8| #[trigger] f.count(p) + key_hold_of(s, raw, p) == s.count(p),
        forall|i: int| 0 <= i < PAD_COUNT ==> #[trigger] f.pad_hold(i) == s.pad_hold(i),
        f.key_holds() == s.key_holds().remove(raw),
{
    assert forall|p: u8| #[trigger] f.count(p) + key_hold_of(s, raw, p) == s.count(p) by {
        assert(m2.count(p) == m.count(p));
        assert(key_hold_of(m2, raw, p) == key_hold_of(m, raw, p));
    }
    assert forall|i: int| 0 <= i < PAD_COUNT implies #[trigger] f.pad_hold(i) == s.pad_hold(i) by {
        assert(m2.pad_hold(i) == m.pad_hold(i));
        assert(m.pad_hold(i) == s.pad_hold(i));
    }
    assert(f.key_holds() =~= s.key_holds().remove(raw));
}

} // verus!
