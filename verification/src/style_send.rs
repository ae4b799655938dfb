//! The style sender's send lanes: getting each deck's style blend to its
//! worker, immediately for a discrete edit and coalesced to a trailing edge
//! during a drag. An empty pad sends nothing (the worker keeps its last
//! conditioning); unrelated store churn never re-sends an unchanged blend;
//! a restarted worker gets the current blend again at once.
//!
//! Time is the host's millisecond clock, handed in by the caller.

use vstd::prelude::*;

use crate::deck::DECK_COUNT;
use crate::library::opt_chars;

verus! {

/// The blend-send coalescing window, in milliseconds (the drag throttle).
pub const SEND_WINDOW_MS: u64 = 150;

/// One deck's send state.
pub struct Lane {
    /// The latest `set_style` payload for the deck (`None` while the pad is
    /// empty: nothing to condition with).
    desired: Option<String>,
    /// The payload last handed to the sidecar.
    sent: Option<String>,
    /// When it was handed over.
    last_send: Option<u64>,
    /// A send is owed.
    dirty: bool,
}

/// A lane's send is due at `now`: never sent, or the window since the last
/// send has passed.
pub open spec fn due_at(last_send: Option<u64>, now: u64) -> bool {
    match last_send {
        None => true,
        Some(at) => at + SEND_WINDOW_MS <= now,
    }
}

/// When a dirty lane falls due: a window after its last send, or `now` if
/// it never sent.
pub open spec fn lane_deadline(last_send: Option<u64>, now: u64) -> u64 {
    match last_send {
        None => now,
        Some(at) => at.saturating_add(SEND_WINDOW_MS),
    }
}

/// Whether two optional payloads carry the same text.
fn same_payload(a: &Option<String>, b: &Option<String>) -> (r: bool)
    ensures
        r == (opt_chars(*a) == opt_chars(*b)),
{
    match (a, b) {
        (Some(x), Some(y)) => *x == *y,
        (None, None) => true,
        _ => false,
    }
}

/// The send lanes of both decks.
pub struct StyleSender {
    lanes: Vec<Lane>,
}

impl StyleSender {
    /// Deck `d`'s latest payload.
    pub closed spec fn desired(&self, d: int) -> Option<Seq<char>> {
        opt_chars(self.lanes@[d].desired)
    }

    /// Deck `d`'s last handed-over payload.
    pub closed spec fn sent(&self, d: int) -> Option<Seq<char>> {
        opt_chars(self.lanes@[d].sent)
    }

    /// When deck `d` last sent.
    pub closed spec fn last_send(&self, d: int) -> Option<u64> {
        self.lanes@[d].last_send
    }

    /// Whether deck `d` owes a send.
    pub closed spec fn dirty(&self, d: int) -> bool {
        self.lanes@[d].dirty
    }

    pub closed spec fn wf(&self) -> bool {
        self.lanes@.len() == DECK_COUNT
    }

    /// Deck `d`'s lane is as in `other`.
    pub open spec fn lane_kept(&self, other: &Self, d: int) -> bool {
        &&& self.desired(d) == other.desired(d)
        &&& self.sent(d) == other.sent(d)
        &&& self.last_send(d) == other.last_send(d)
        &&& self.dirty(d) == other.dirty(d)
    }

    /// Every lane but `deck`'s is as in `other`.
    pub open spec fn others_kept(&self, other: &Self, deck: int) -> bool {
        forall|d: int| 0 <= d < DECK_COUNT && d != deck ==> #[trigger] self.lane_kept(other, d)
    }

    /// Every lane starts empty, sent nothing, owing nothing.
    pub fn new() -> (s: Self)
        ensures
            s.wf(),
            forall|d: int|
                0 <= d < DECK_COUNT ==> {
                    &&& #[trigger] s.desired(d) is None
                    &&& s.sent(d) is None
                    &&& s.last_send(d) is None
                    &&& !s.dirty(d)
                },
    {
        let mut lanes: Vec<Lane> = Vec::new();
        let mut i: usize = 0;
        while i < DECK_COUNT
            invariant
                0 <= i <= DECK_COUNT,
                lanes@.len() == i,
                forall|d: int|
                    0 <= d < i ==> {
                        &&& (#[trigger] lanes@[d]).desired is None
                        &&& lanes@[d].sent is None
                        &&& lanes@[d].last_send is None
                        &&& !lanes@[d].dirty
                    },
            decreases DECK_COUNT - i,
        {
            lanes.push(Lane { desired: None, sent: None, last_send: None, dirty: false });
            i = i + 1;
        }
        StyleSender { lanes }
    }

    /// Follow a store change for deck `deck`: record its current payload;
    /// a changed, non-empty payload that differs from what was sent is owed
    /// to a live worker (a dead or reloading worker gets it on `ready`
    /// instead). Answers whether the sender must wake.
    pub fn observe(&mut self, deck: usize, payload: Option<String>, worker_died: bool, switching_model: bool) -> (nudge: bool)
        requires
            old(self).wf(),
            deck < DECK_COUNT,
        ensures
            final(self).wf(),
            final(self).others_kept(old(self), deck as int),
            opt_chars(payload) == old(self).desired(deck as int) ==> !nudge && final(self).lane_kept(old(self), deck as int),
            opt_chars(payload) != old(self).desired(deck as int) ==> {
                let owed = payload is Some && opt_chars(payload) != old(self).sent(deck as int) && !worker_died
                    && !switching_model;
                &&& final(self).desired(deck as int) == opt_chars(payload)
                &&& final(self).sent(deck as int) == old(self).sent(deck as int)
                &&& final(self).last_send(deck as int) == old(self).last_send(deck as int)
                &&& final(self).dirty(deck as int) == (old(self).dirty(deck as int) || owed)
                &&& nudge == owed
            },
    {
        if same_payload(&payload, &self.lanes[deck].desired) {
            return false;
        }
        let owed = payload.is_some() && !same_payload(&payload, &self.lanes[deck].sent) && !worker_died
            && !switching_model;
        let ghost before = *self;
        self.lanes[deck].desired = payload;
        if owed {
            self.lanes[deck].dirty = true;
        }
        proof {
            assert forall|d: int| 0 <= d < DECK_COUNT && d != deck implies #[trigger] self.lane_kept(&before, d) by {}
        }
        owed
    }

    /// Prime deck `deck`'s lane from a snapshot: only a never-touched lane
    /// (no payload yet) takes it, and it is not owed: the worker asks for it.
    pub fn prime(&mut self, deck: usize, payload: Option<String>)
        requires
            old(self).wf(),
            deck < DECK_COUNT,
        ensures
            final(self).wf(),
            final(self).others_kept(old(self), deck as int),
            final(self).desired(deck as int) == if old(self).desired(deck as int) is None {
                opt_chars(payload)
            } else {
                old(self).desired(deck as int)
            },
            final(self).sent(deck as int) == old(self).sent(deck as int),
            final(self).last_send(deck as int) == old(self).last_send(deck as int),
            final(self).dirty(deck as int) == old(self).dirty(deck as int),
    {
        if self.lanes[deck].desired.is_none() {
            self.lanes[deck].desired = payload;
        }
    }

    /// A restarted worker announced `ready`: its conditioning is gone, so
    /// the current blend is owed again, due at once. A deck with an empty
    /// pad (or no lane) has nothing to resend. Answers whether the sender
    /// must wake.
    pub fn resend(&mut self, deck: usize) -> (nudge: bool)
        requires
            old(self).wf(),
        ensures
            final(self).wf(),
            deck >= DECK_COUNT || old(self).desired(deck as int) is None ==> !nudge && *final(self) == *old(self),
            deck < DECK_COUNT && old(self).desired(deck as int) is Some ==> {
                &&& nudge
                &&& final(self).others_kept(old(self), deck as int)
                &&& final(self).desired(deck as int) == old(self).desired(deck as int)
                &&& final(self).sent(deck as int) is None
                &&& final(self).last_send(deck as int) is None
                &&& final(self).dirty(deck as int)
            },
    {
        if deck >= self.lanes.len() || self.lanes[deck].desired.is_none() {
            return false;
        }
        let ghost before = *self;
        self.lanes[deck].sent = None;
        self.lanes[deck].last_send = None;
        self.lanes[deck].dirty = true;
        proof {
            assert forall|d: int| 0 <= d < DECK_COUNT && d != deck implies #[trigger] self.lane_kept(&before, d) by {}
        }
        true
    }

    /// The earliest deadline among the lanes owing a send (`None`: nothing
    /// owed, wait for a nudge).
    pub fn next_due(&self, now: u64) -> (due: Option<u64>)
        requires
            self.wf(),
        ensures
            due is None <==> forall|d: int| 0 <= d < DECK_COUNT ==> !#[trigger] self.dirty(d),
            due matches Some(t) ==> {
                &&& exists|d: int| 0 <= d < DECK_COUNT && #[trigger] self.dirty(d) && t == lane_deadline(self.last_send(d), now)
                &&& forall|d: int| 0 <= d < DECK_COUNT && #[trigger] self.dirty(d) ==> t <= lane_deadline(self.last_send(d), now)
            },
    {
        let mut best: Option<u64> = None;
        let mut i: usize = 0;
        while i < self.lanes.len()
            invariant
                self.wf(),
                0 <= i <= DECK_COUNT,
                best is None <==> forall|d: int| 0 <= d < i ==> !#[trigger] self.dirty(d),
                best matches Some(t) ==> {
                    &&& exists|d: int| 0 <= d < i && #[trigger] self.dirty(d) && t == lane_deadline(self.last_send(d), now)
                    &&& forall|d: int| 0 <= d < i && #[trigger] self.dirty(d) ==> t <= lane_deadline(self.last_send(d), now)
                },
            decreases DECK_COUNT - i,
        {
            if self.lanes[i].dirty {
                let deadline = match self.lanes[i].last_send {
                    None => now,
                    Some(at) => at.saturating_add(SEND_WINDOW_MS),
                };
                assert(self.dirty(i as int) && deadline == lane_deadline(self.last_send(i as int), now));
                best = match best {
                    None => Some(deadline),
                    Some(t) => if deadline < t {
                        Some(deadline)
                    } else {
                        Some(t)
                    },
                };
            }
            i = i + 1;
        }
        best
    }

    /// Flush every dirty lane whose send is due at `now`: a lane with a
    /// payload hands it over (it becomes the sent payload, stamped `now`);
    /// either way the lane stops owing. Answers the sends, deck by deck.
    pub fn flush(&mut self, now: u64) -> (sends: Vec<(usize, String)>)
        requires
            old(self).wf(),
        ensures
            final(self).wf(),
            forall|d: int|
                #![trigger final(self).desired(d)]
                0 <= d < DECK_COUNT ==> {
                    let flushed = old(self).dirty(d) && due_at(old(self).last_send(d), now);
                    &&& flushed ==> !final(self).dirty(d)
                    &&& flushed && old(self).desired(d) is Some ==> final(self).sent(d) == old(self).desired(d)
                        && final(self).last_send(d) == Some(now)
                    &&& !(flushed && old(self).desired(d) is Some) ==> final(self).sent(d) == old(self).sent(d)
                        && final(self).last_send(d) == old(self).last_send(d)
                    &&& !flushed ==> final(self).dirty(d) == old(self).dirty(d)
                    &&& final(self).desired(d) == old(self).desired(d)
                },
            forall|k: int| 0 <= k < sends@.len() ==> {
                let d = (#[trigger] sends@[k]).0 as int;
                &&& 0 <= d < DECK_COUNT
                &&& old(self).dirty(d) && due_at(old(self).last_send(d), now)
                &&& old(self).desired(d) == Some(sends@[k].1@)
            },
            forall|d: int|
                0 <= d < DECK_COUNT && old(self).dirty(d) && due_at(old(self).last_send(d), now)
                    && old(self).desired(d) is Some ==> exists|k: int| 0 <= k < sends@.len() && (#[trigger] sends@[k]).0 == d,
            forall|k: int, m: int| 0 <= k < m < sends@.len() ==> (#[trigger] sends@[k]).0 < (#[trigger] sends@[m]).0,
    {
        let mut sends: Vec<(usize, String)> = Vec::new();
        let mut i: usize = 0;
        while i < self.lanes.len()
            invariant
                self.wf(),
                0 <= i <= DECK_COUNT,
                forall|d: int|
                    #![trigger self.desired(d)]
                    0 <= d < DECK_COUNT ==> {
                        let flushed = old(self).dirty(d) && due_at(old(self).last_send(d), now);
                        &&& d < i && flushed ==> !self.dirty(d)
                        &&& d < i && flushed && old(self).desired(d) is Some ==> self.sent(d) == old(self).desired(d)
                            && self.last_send(d) == Some(now)
                        &&& !(d < i && flushed && old(self).desired(d) is Some) ==> self.sent(d) == old(self).sent(d)
                            && self.last_send(d) == old(self).last_send(d)
                        &&& !(d < i && flushed) ==> self.dirty(d) == old(self).dirty(d)
                        &&& self.desired(d) == old(self).desired(d)
                    },
                forall|k: int| 0 <= k < sends@.len() ==> {
                    let d = (#[trigger] sends@[k]).0 as int;
                    &&& 0 <= d < i
                    &&& old(self).dirty(d) && due_at(old(self).last_send(d), now)
                    &&& old(self).desired(d) == Some(sends@[k].1@)
                },
                forall|d: int|
                    0 <= d < i && old(self).dirty(d) && due_at(old(self).last_send(d), now)
                        && old(self).desired(d) is Some ==> exists|k: int| 0 <= k < sends@.len() && (#[trigger] sends@[k]).0 == d,
                forall|k: int, m: int| 0 <= k < m < sends@.len() ==> (#[trigger] sends@[k]).0 < (#[trigger] sends@[m]).0,
            decreases DECK_COUNT - i,
        {
            let due = match self.lanes[i].last_send {
                None => true,
                Some(at) => at <= now && now - at >= SEND_WINDOW_MS,
            };
            assert(self.desired(i as int) == old(self).desired(i as int));
            assert(due == due_at(old(self).last_send(i as int), now));
            if self.lanes[i].dirty && due {
                let ghost before = sends@;
                match &self.lanes[i].desired {
                    Some(payload) => {
                        let copy = payload.clone();
                        let handed = payload.clone();
                        self.lanes[i].sent = Some(copy);
                        self.lanes[i].last_send = Some(now);
                        sends.push((i, handed));
                        assert(sends@[before.len() as int].0 == i);
                        assert(forall|k: int| 0 <= k < before.len() ==> sends@[k] == before[k]);
                        assert forall|d: int|
                            0 <= d < i && old(self).dirty(d) && due_at(old(self).last_send(d), now)
                                && old(self).desired(d) is Some implies exists|k: int|
                                0 <= k < sends@.len() && (#[trigger] sends@[k]).0 == d by {
                            let k = choose|k: int| 0 <= k < before.len() && (#[trigger] before[k]).0 == d;
                            assert(sends@[k] == before[k]);
                        }
                    },
                    None => {},
                }
                self.lanes[i].dirty = false;
            }
            i = i + 1;
        }
        sends
    }
}

/// A worker's `ready` gets the current blend again on the very next flush,
/// whatever the time: after a resend the lane is owed and due at once.
pub proof fn lemma_resend_is_due_at_once(s: StyleSender, deck: int, now: u64)
    requires
        s.wf(),
        0 <= deck < DECK_COUNT,
        s.dirty(deck),
        s.last_send(deck) is None,
    ensures
        due_at(s.last_send(deck), now),
        lane_deadline(s.last_send(deck), now) == now,
{
}

} // verus!
