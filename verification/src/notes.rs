//! The musical core of note steering: scale pitch classes, the diatonic
//! triad a performance pad plays, the snap of a raw keyboard pitch onto the
//! key/scale, and the wire multihot a held chord becomes.

use vstd::prelude::*;

use vstd::math::abs;

use crate::snapshot::{NoteModeSnap, ScaleSnap};

verus! {

/// The wire multihot width (one slot per MIDI pitch).
pub const NOTE_SLOTS: usize = 128;
/// Wire states: -1 masked, 1 sustain, 2 onset, 3 model-decides. Non-held
/// pitches are MASKED, so the model plays freely around the held chord.
pub const NOTE_MASKED: i32 = -1;
pub const NOTE_SUSTAIN: i32 = 1;
pub const NOTE_ONSET: i32 = 2;
pub const NOTE_MODEL_DECIDES: i32 = 3;
/// Chord-follow's wire state for a held pitch: the model picks the attacks.
pub const CHORD_FOLLOW_STATE: i32 = 3;
/// The tonic of every key sits in the C4 octave.
pub const TONIC_BASE: i32 = 60;

/// A scale's pitch classes relative to the key root.
pub open spec fn scale_classes_spec(scale: ScaleSnap) -> Seq<u8> {
    match scale {
        ScaleSnap::Major => seq![0u8, 2, 4, 5, 7, 9, 11],
        ScaleSnap::Minor => seq![0u8, 2, 3, 5, 7, 8, 10],
        ScaleSnap::PentatonicMinor => seq![0u8, 3, 5, 7, 10],
        ScaleSnap::Chromatic => seq![0u8, 1, 2, 3, 4, 5, 6, 7, 8, 9, 10, 11],
    }
}

/// A scale's pitch classes relative to the key root.
pub fn scale_classes(scale: ScaleSnap) -> (v: Vec<u8>)
    ensures
        v@ == scale_classes_spec(scale),
{
    let v = match scale {
        ScaleSnap::Major => vec![0u8, 2, 4, 5, 7, 9, 11],
        ScaleSnap::Minor => vec![0u8, 2, 3, 5, 7, 8, 10],
        ScaleSnap::PentatonicMinor => vec![0u8, 3, 5, 7, 10],
        ScaleSnap::Chromatic => vec![0u8, 1, 2, 3, 4, 5, 6, 7, 8, 9, 10, 11],
    };
    assert(v@ =~= scale_classes_spec(scale));
    v
}

/// The pitch of scale degree `degree` (0-based, unbounded — degree 7 of a
/// 7-note scale is the octave tonic) in the given key.
pub open spec fn degree_pitch_spec(key: u8, scale: ScaleSnap, degree: nat) -> int {
    let classes = scale_classes_spec(scale);
    TONIC_BASE + key + classes[(degree % classes.len()) as int] + 12 * (degree / classes.len()) as int
}

/// The pitch of scale degree `degree` in the given key.
pub fn degree_pitch(key: u8, scale: ScaleSnap, degree: usize) -> (p: i32)
    requires
        degree_pitch_spec(key, scale, degree as nat) <= i32::MAX,
    ensures
        p == degree_pitch_spec(key, scale, degree as nat),
{
    let classes = scale_classes(scale);
    let len = classes.len();
    let octave = degree / len;
    let class = classes[degree % len];
    proof {
        assert(0 <= class <= 11);
        assert(12 * octave <= i32::MAX - 60 - key - class);
    }
    TONIC_BASE + key as i32 + class as i32 + 12 * (octave as i32)
}

/// The pitch as a one-element sequence when it is a MIDI pitch, else empty.
pub open spec fn pitch_if_in_range(p: int) -> Seq<u8> {
    if 0 <= p < NOTE_SLOTS {
        seq![p as u8]
    } else {
        Seq::empty()
    }
}

/// The highest degree offset a pad stacks (the fifth of the triad).
pub open spec fn top_offset(scale: ScaleSnap) -> nat {
    if scale == ScaleSnap::Chromatic {
        0
    } else {
        4
    }
}

/// The pitches a performance pad plays: the diatonic triad on that scale
/// degree (degrees d, d+2, d+4), or a single semitone step on the chromatic
/// "scale"; out-of-range pitches are dropped.
pub open spec fn pad_pitches_spec(key: u8, scale: ScaleSnap, pad: nat) -> Seq<u8> {
    if scale == ScaleSnap::Chromatic {
        pitch_if_in_range(degree_pitch_spec(key, scale, pad))
    } else {
        pitch_if_in_range(degree_pitch_spec(key, scale, pad)) + pitch_if_in_range(
            degree_pitch_spec(key, scale, pad + 2),
        ) + pitch_if_in_range(degree_pitch_spec(key, scale, pad + 4))
    }
}

proof fn lemma_degree_pitch_monotonic(key: u8, scale: ScaleSnap, d1: nat, d2: nat)
    requires
        d1 <= d2,
    ensures
        degree_pitch_spec(key, scale, d1) <= degree_pitch_spec(key, scale, d2),
{
    let classes = scale_classes_spec(scale);
    let len = classes.len();
    assert(len > 0);
    let q1 = d1 / len;
    let q2 = d2 / len;
    let r1 = d1 % len;
    let r2 = d2 % len;
    vstd::arithmetic::div_mod::lemma_fundamental_div_mod(d1 as int, len as int);
    vstd::arithmetic::div_mod::lemma_fundamental_div_mod(d2 as int, len as int);
    vstd::arithmetic::div_mod::lemma_div_is_ordered(d1 as int, d2 as int, len as int);
    if q1 == q2 {
        assert(r1 <= r2);
        assert(forall|i: int, j: int| 0 <= i <= j < classes.len() ==> classes[i] <= classes[j]);
    } else {
        assert(forall|i: int| 0 <= i < classes.len() ==> classes[i] <= 11);
    }
}

proof fn lemma_degree_in_range(key: u8, scale: ScaleSnap, d: nat)
    requires
        degree_pitch_spec(key, scale, d) <= i32::MAX,
    ensures
        d < 0x1_0000_0000,
{
    let classes = scale_classes_spec(scale);
    let len = classes.len();
    assert(forall|i: int| 0 <= i < classes.len() ==> classes[i] <= 11);
    vstd::arithmetic::div_mod::lemma_fundamental_div_mod(d as int, len as int);
    assert(12 * (d / len) <= i32::MAX);
    assert(d / len < 0x1_0000_0000int / 12);
    let q = d / len;
    let r = d % len;
    assert(d < len * (q + 1)) by (nonlinear_arith)
        requires d == len * q + r, r < len;
    assert(len * (q + 1) <= 12 * (q + 1)) by (nonlinear_arith)
        requires len <= 12, q >= 0;
}

/// The pads of a bank (and a few past it) never overflow a pitch.
pub proof fn lemma_small_pad_fits(key: u8, scale: ScaleSnap, pad: nat)
    requires
        pad < 8,
    ensures
        degree_pitch_spec(key, scale, pad + top_offset(scale)) <= i32::MAX,
{
    let classes = scale_classes_spec(scale);
    assert(forall|i: int| 0 <= i < classes.len() ==> classes[i] <= 11);
    let d = pad + top_offset(scale);
    assert(d / classes.len() <= 11) by (nonlinear_arith)
        requires
            d <= 11,
            classes.len() >= 5,
    ;
}

fn push_if_in_range(v: &mut Vec<u8>, p: i32)
    ensures
        final(v)@ == old(v)@ + pitch_if_in_range(p as int),
{
    if 0 <= p && p < 128 {
        v.push(p as u8);
    }
    assert(final(v)@ =~= old(v)@ + pitch_if_in_range(p as int));
}

/// The pitches a performance pad plays in the given key/scale.
pub fn pad_pitches(key: u8, scale: ScaleSnap, pad: usize) -> (v: Vec<u8>)
    requires
        degree_pitch_spec(key, scale, (pad + top_offset(scale)) as nat) <= i32::MAX,
    ensures
        v@ == pad_pitches_spec(key, scale, pad as nat),
{
    let mut v: Vec<u8> = Vec::new();
    proof {
        lemma_degree_pitch_monotonic(key, scale, pad as nat, (pad + top_offset(scale)) as nat);
        lemma_degree_in_range(key, scale, (pad + top_offset(scale)) as nat);
    }
    let root = degree_pitch(key, scale, pad);
    push_if_in_range(&mut v, root);
    if scale != ScaleSnap::Chromatic {
        proof {
            lemma_degree_pitch_monotonic(key, scale, (pad + 2) as nat, (pad + 4) as nat);
        }
        let third = degree_pitch(key, scale, pad + 2);
        push_if_in_range(&mut v, third);
        let fifth = degree_pitch(key, scale, pad + 4);
        push_if_in_range(&mut v, fifth);
    }
    assert(v@ =~= pad_pitches_spec(key, scale, pad as nat));
    v
}

/// A pitch's class relative to the key root.
pub open spec fn key_class(pitch: u8, key: u8) -> int {
    (pitch - key) % 12
}

/// A scale class shifted by an octave down (`li == 0`), none (`1`) or up (`2`).
pub open spec fn lifted(class: u8, li: int) -> int {
    class - 12 + 12 * li
}

/// The snap candidates: every scale class shifted by an octave down, none or
/// up, relative to the pitch's own class.
pub open spec fn is_snap_candidate(scale: ScaleSnap, cand: int) -> bool {
    exists|j: int, li: int|
        0 <= j < scale_classes_spec(scale).len() && 0 <= li < 3 && cand == #[trigger] lifted(
            scale_classes_spec(scale)[j],
            li,
        )
}

/// Where a candidate lands the pitch.
pub open spec fn snapped_pitch(pitch: u8, key: u8, cand: int) -> int {
    pitch + cand - key_class(pitch, key)
}

/// A candidate that keeps the pitch a MIDI pitch.
pub open spec fn usable_candidate(pitch: u8, key: u8, scale: ScaleSnap, cand: int) -> bool {
    is_snap_candidate(scale, cand) && 0 <= snapped_pitch(pitch, key, cand) < NOTE_SLOTS
}

/// `a` is a strictly better snap than `b`: nearer, or as near and flatter.
pub open spec fn nearer(pitch: u8, key: u8, a: int, b: int) -> bool {
    let class = key_class(pitch, key);
    abs(a - class) < abs(b - class) || (abs(a - class) == abs(b - class) && a < b)
}

/// The snap of a raw pitch onto a key/scale: the usable candidate no other
/// usable candidate beats (ties resolve downward, the flatter neighbour);
/// chromatic, or a pitch with no usable candidate, is left alone.
pub open spec fn is_snap_of(pitch: u8, key: u8, scale: ScaleSnap, r: u8) -> bool {
    if scale == ScaleSnap::Chromatic {
        r == pitch
    } else if !(exists|c: int| usable_candidate(pitch, key, scale, c)) {
        r == pitch
    } else {
        exists|best: int|
            {
                &&& usable_candidate(pitch, key, scale, best)
                &&& r == snapped_pitch(pitch, key, best)
                &&& forall|c: int| usable_candidate(pitch, key, scale, c) ==> !nearer(pitch, key, c, best)
            }
    }
}

/// Whether the candidate `(j, li)` comes before the loop position `(j0, l0)`.
spec fn visited(j: int, li: int, j0: int, l0: int) -> bool {
    (0 <= j < j0 && 0 <= li < 3) || (j == j0 && 0 <= li < l0)
}

/// Snap a raw MIDI pitch to the nearest pitch of the key/scale (ties resolve
/// downward, the flatter neighbour). Chromatic is the identity.
pub fn snap_to_scale(pitch: u8, key: u8, scale: ScaleSnap) -> (r: u8)
    ensures
        is_snap_of(pitch, key, scale, r),
{
    let classes = scale_classes(scale);
    if classes.len() == 12 {
        return pitch;
    }
    let diff: i32 = pitch as i32 - key as i32;
    let class: i32 = ((diff % 12) + 12) % 12;
    assert(class == key_class(pitch, key));
    let mut best: i32 = i32::MAX;
    let lifts: [i32; 3] = [-12, 0, 12];
    let mut j: usize = 0;
    while j < classes.len()
        invariant
            classes@ == scale_classes_spec(scale),
            scale != ScaleSnap::Chromatic,
            0 <= j <= classes@.len(),
            class == key_class(pitch, key),
            0 <= class < 12,
            lifts@ == seq![-12i32, 0, 12],
            best == i32::MAX ==> forall|jj: int, li: int|
                visited(jj, li, j as int, 0) ==> !(0 <= snapped_pitch(
                    pitch,
                    key,
                    #[trigger] lifted(classes@[jj], li),
                ) < NOTE_SLOTS),
            best != i32::MAX ==> usable_candidate(pitch, key, scale, best as int),
            best != i32::MAX ==> forall|jj: int, li: int|
                visited(jj, li, j as int, 0) && 0 <= snapped_pitch(
                    pitch,
                    key,
                    #[trigger] lifted(classes@[jj], li),
                ) < NOTE_SLOTS ==> !nearer(pitch, key, lifted(classes@[jj], li), best as int),
            best == i32::MAX || -12 <= best < 24,
        decreases classes@.len() - j,
    {
        let c = classes[j];
        let mut l: usize = 0;
        while l < 3
            invariant
                classes@ == scale_classes_spec(scale),
                scale != ScaleSnap::Chromatic,
                0 <= j < classes@.len(),
                c == classes@[j as int],
                0 <= l <= 3,
                class == key_class(pitch, key),
                0 <= class < 12,
                lifts@ == seq![-12i32, 0, 12],
                best == i32::MAX ==> forall|jj: int, li: int|
                    visited(jj, li, j as int, l as int) ==> !(0 <= snapped_pitch(
                        pitch,
                        key,
                        #[trigger] lifted(classes@[jj], li),
                    ) < NOTE_SLOTS),
                best != i32::MAX ==> usable_candidate(pitch, key, scale, best as int),
                best != i32::MAX ==> forall|jj: int, li: int|
                    visited(jj, li, j as int, l as int) && 0 <= snapped_pitch(
                        pitch,
                        key,
                        #[trigger] lifted(classes@[jj], li),
                    ) < NOTE_SLOTS ==> !nearer(pitch, key, lifted(classes@[jj], li), best as int),
                best == i32::MAX || -12 <= best < 24,
            decreases 3 - l,
        {
            let lift = lifts[l];
            assert(lift == -12 + 12 * l);
            let candidate: i32 = c as i32 + lift;
            assert(candidate == lifted(c, l as int));
            let distance: i32 = if candidate >= class {
                candidate - class
            } else {
                class - candidate
            };
            let snapped: i32 = pitch as i32 + candidate - class;
            if 0 <= snapped && snapped < 128 {
                let best_distance: i32 = if best >= class {
                    best - class
                } else {
                    class - best
                };
                if distance < best_distance || (distance == best_distance && candidate < best) {
                    proof {
                        assert(usable_candidate(pitch, key, scale, candidate as int)) by {
                            assert(candidate == lifted(scale_classes_spec(scale)[j as int], l as int));
                        }
                    }
                    best = candidate;
                }
            }
            l = l + 1;
        }
        j = j + 1;
    }
    if best == i32::MAX {
        proof {
            assert forall|cand: int| !usable_candidate(pitch, key, scale, cand) by {
                if usable_candidate(pitch, key, scale, cand) {
                    let (jj, li) = choose|jj: int, li: int|
                        0 <= jj < scale_classes_spec(scale).len() && 0 <= li < 3 && cand
                            == #[trigger] lifted(scale_classes_spec(scale)[jj], li);
                    assert(visited(jj, li, j as int, 0));
                }
            }
        }
        return pitch;
    }
    proof {
        assert forall|cand: int| usable_candidate(pitch, key, scale, cand) implies !nearer(
            pitch,
            key,
            cand,
            best as int,
        ) by {
            let (jj, li) = choose|jj: int, li: int|
                0 <= jj < scale_classes_spec(scale).len() && 0 <= li < 3 && cand == #[trigger] lifted(
                    scale_classes_spec(scale)[jj],
                    li,
                );
            assert(visited(jj, li, j as int, 0));
        }
    }
    (pitch as i32 + best - class) as u8
}

/// The wire state of one multihot slot: a held pitch is model-decides in
/// chord mode; in onset mode a pitch also in `previous` is a continued hold
/// (sustain), a fresh one an attack; everything else is masked.
pub open spec fn multihot_slot(pitches: Seq<u8>, mode: NoteModeSnap, previous: Seq<u8>, slot: int) -> i32 {
    if 0 <= slot < NOTE_SLOTS && pitches.contains(slot as u8) {
        match mode {
            NoteModeSnap::Chord => CHORD_FOLLOW_STATE,
            NoteModeSnap::Onset => if previous.contains(slot as u8) {
                NOTE_SUSTAIN
            } else {
                NOTE_ONSET
            },
        }
    } else {
        NOTE_MASKED
    }
}

/// Whether `x` occurs in `s`.
pub fn contains_pitch(s: &[u8], x: u8) -> (b: bool)
    ensures
        b == s@.contains(x),
{
    let mut i: usize = 0;
    while i < s.len()
        invariant
            0 <= i <= s@.len(),
            forall|k: int| 0 <= k < i ==> s@[k] != x,
        decreases s@.len() - i,
    {
        if s[i] == x {
            assert(s@[i as int] == x);
            return true;
        }
        i = i + 1;
    }
    false
}

/// Build the full wire multihot from held pitches, or `None` for an empty
/// hold (`None` means fully masked: the model plays freely).
pub fn build_multihot(pitches: &[u8], mode: NoteModeSnap, previous: &[u8]) -> (r: Option<Vec<i32>>)
    ensures
        r is None <==> pitches@.len() == 0,
        r matches Some(v) ==> v@.len() == NOTE_SLOTS && forall|slot: int|
            0 <= slot < NOTE_SLOTS ==> #[trigger] v@[slot] == multihot_slot(
                pitches@,
                mode,
                previous@,
                slot,
            ),
        r matches Some(v) ==> forall|slot: int|
            0 <= slot < NOTE_SLOTS && !pitches@.contains(slot as u8) ==> #[trigger] v@[slot] == -1,
{
    if pitches.len() == 0 {
        return None;
    }
    let mut multihot: Vec<i32> = Vec::new();
    let mut k: usize = 0;
    while k < NOTE_SLOTS
        invariant
            0 <= k <= NOTE_SLOTS,
            multihot@.len() == k,
            forall|slot: int| 0 <= slot < k ==> multihot@[slot] == NOTE_MASKED,
        decreases NOTE_SLOTS - k,
    {
        multihot.push(NOTE_MASKED);
        k = k + 1;
    }
    let mut i: usize = 0;
    while i < pitches.len()
        invariant
            0 <= i <= pitches@.len(),
            multihot@.len() == NOTE_SLOTS,
            forall|slot: int|
                0 <= slot < NOTE_SLOTS ==> #[trigger] multihot@[slot] == multihot_slot(
                    pitches@.take(i as int),
                    mode,
                    previous@,
                    slot,
                ),
        decreases pitches@.len() - i,
    {
        let pitch = pitches[i];
        let slot = pitch as usize;
        proof {
            assert forall|p: u8| #[trigger] pitches@.take(i + 1).contains(p) == (pitches@.take(
                i as int,
            ).contains(p) || pitch == p) by {
                if pitches@.take(i + 1).contains(p) {
                    let w = choose|w: int|
                        0 <= w < pitches@.take(i + 1).len() && #[trigger] pitches@.take(i + 1)[w]
                            == p;
                    if w < i {
                        assert(pitches@.take(i as int)[w] == p);
                    }
                }
                if pitches@.take(i as int).contains(p) {
                    let w = choose|w: int|
                        0 <= w < pitches@.take(i as int).len() && #[trigger] pitches@.take(
                            i as int,
                        )[w] == p;
                    assert(pitches@.take(i + 1)[w] == p);
                }
                if pitch == p {
                    assert(pitches@.take(i + 1)[i as int] == p);
                }
            }
        }
        if slot < NOTE_SLOTS {
            let state = match mode {
                NoteModeSnap::Chord => CHORD_FOLLOW_STATE,
                NoteModeSnap::Onset => {
                    if contains_pitch(previous, pitch) {
                        NOTE_SUSTAIN
                    } else {
                        NOTE_ONSET
                    }
                },
            };
            multihot.set(slot, state);
        }
        i = i + 1;
    }
    assert(pitches@.take(pitches@.len() as int) =~= pitches@);
    proof {
        assert forall|slot: int| 0 <= slot < NOTE_SLOTS && !pitches@.contains(slot as u8) implies #[trigger] multihot@[slot]
            == -1 by {
            lemma_multihot_masks_what_is_not_held(pitches@, mode, previous@, slot);
        }
    }
    Some(multihot)
}

/// A MIDI pitch already in the key/scale stays where it is, and the
/// chromatic scale moves no pitch at all.
pub proof fn lemma_snap_keeps_scale_pitches(pitch: u8, key: u8, scale: ScaleSnap, r: u8)
    requires
        is_snap_of(pitch, key, scale, r),
        scale == ScaleSnap::Chromatic || (pitch < NOTE_SLOTS && scale_classes_spec(scale).contains(
            key_class(pitch, key) as u8,
        )),
    ensures
        r == pitch,
{
    if scale != ScaleSnap::Chromatic {
        let classes = scale_classes_spec(scale);
        let class = key_class(pitch, key);
        let j = choose|j: int| 0 <= j < classes.len() && classes[j] == class as u8;
        assert(lifted(classes[j], 1) == class);
        assert(is_snap_candidate(scale, class));
        assert(usable_candidate(pitch, key, scale, class));
        let best = choose|best: int|
            {
                &&& usable_candidate(pitch, key, scale, best)
                &&& r == snapped_pitch(pitch, key, best)
                &&& forall|c: int| usable_candidate(pitch, key, scale, c) ==> !nearer(pitch, key, c, best)
            };
        assert(!nearer(pitch, key, class, best));
    }
}

/// The wire multihot masks every pitch that is not held (-1), in either
/// mode and whatever the previous baseline: a released pitch never keeps
/// sounding. A held pitch is model-decides (3) in chord mode; in onset mode
/// it sustains (1) when the baseline already held it and is an onset (2)
/// otherwise.
pub proof fn lemma_multihot_masks_what_is_not_held(pitches: Seq<u8>, mode: NoteModeSnap, previous: Seq<u8>, slot: int)
    requires
        0 <= slot < 128,
    ensures
        !pitches.contains(slot as u8) ==> multihot_slot(pitches, mode, previous, slot) == -1,
        pitches.contains(slot as u8) && mode == NoteModeSnap::Chord ==> multihot_slot(pitches, mode, previous, slot)
            == 3,
        pitches.contains(slot as u8) && mode == NoteModeSnap::Onset && previous.contains(slot as u8)
            ==> multihot_slot(pitches, mode, previous, slot) == 1,
        pitches.contains(slot as u8) && mode == NoteModeSnap::Onset && !previous.contains(slot as u8)
            ==> multihot_slot(pitches, mode, previous, slot) == 2,
{
}

/// The scales' pitch classes, counted in semitones above the key root:
/// major (W-W-H-W-W-W-H), natural minor (W-H-W-W-H-W-W), minor pentatonic,
/// and all twelve for chromatic. The natural minor is the major scale read
/// from its sixth degree (its relative minor, nine semitones up), and the
/// minor pentatonic keeps five of the natural minor's classes.
pub proof fn lemma_scale_classes_are_the_named_scales()
    ensures
        scale_classes_spec(ScaleSnap::Major) == seq![0u8, 2, 4, 5, 7, 9, 11],
        scale_classes_spec(ScaleSnap::Minor) == seq![0u8, 2, 3, 5, 7, 8, 10],
        scale_classes_spec(ScaleSnap::PentatonicMinor) == seq![0u8, 3, 5, 7, 10],
        scale_classes_spec(ScaleSnap::Chromatic).len() == 12,
        forall|i: int| 0 <= i < 12 ==> #[trigger] scale_classes_spec(ScaleSnap::Chromatic)[i] == i,
        forall|i: int|
            0 <= i < 7 ==> (#[trigger] scale_classes_spec(ScaleSnap::Minor)[i] + 9) % 12 == scale_classes_spec(
                ScaleSnap::Major,
            )[(i + 5) % 7],
        forall|i: int|
            0 <= i < 5 ==> scale_classes_spec(ScaleSnap::Minor).contains(
                #[trigger] scale_classes_spec(ScaleSnap::PentatonicMinor)[i],
            ),
{
    let major = scale_classes_spec(ScaleSnap::Major);
    let minor = scale_classes_spec(ScaleSnap::Minor);
    let penta = scale_classes_spec(ScaleSnap::PentatonicMinor);
    assert forall|i: int| 0 <= i < 7 implies (#[trigger] minor[i] + 9) % 12 == major[(i + 5) % 7] by {
        if i == 0 {
        } else if i == 1 {
        } else if i == 2 {
        } else if i == 3 {
        } else if i == 4 {
        } else if i == 5 {
        } else {
        }
    }
    assert forall|i: int| 0 <= i < 5 implies minor.contains(#[trigger] penta[i]) by {
        if i == 0 {
            assert(minor[0] == penta[0]);
        } else if i == 1 {
            assert(minor[2] == penta[1]);
        } else if i == 2 {
            assert(minor[3] == penta[2]);
        } else if i == 3 {
            assert(minor[4] == penta[3]);
        } else {
            assert(minor[6] == penta[4]);
        }
    }
}

/// Every pad of a seven-note scale plays the diatonic triad on its degree:
/// the root, then the third and the fifth two and four scale steps up, each
/// a third (three or four semitones) above the one before. In the natural
/// minor the degrees' triads are minor, diminished, major, minor, minor,
/// major, major.
pub proof fn lemma_minor_scale_triads(key: u8, pad: nat)
    requires
        pad < 7,
    ensures
        ({
            let root = degree_pitch_spec(key, ScaleSnap::Minor, pad);
            let third = degree_pitch_spec(key, ScaleSnap::Minor, pad + 2);
            let fifth = degree_pitch_spec(key, ScaleSnap::Minor, pad + 4);
            &&& third - root == (if pad == 2 || pad == 5 || pad == 6 {
                4int
            } else {
                3int
            })
            &&& fifth - root == (if pad == 1 {
                6int
            } else {
                7int
            })
        }),
{
    let c = scale_classes_spec(ScaleSnap::Minor);
    assert(c.len() == 7);
    assert((pad + 2) % 7 == if pad + 2 < 7 { pad + 2 } else { (pad + 2 - 7) as nat });
    assert((pad + 2) / 7 == if pad + 2 < 7 { 0nat } else { 1nat });
    assert((pad + 4) % 7 == if pad + 4 < 7 { pad + 4 } else { (pad + 4 - 7) as nat });
    assert((pad + 4) / 7 == if pad + 4 < 7 { 0nat } else { 1nat });
    assert(pad % 7 == pad && pad / 7 == 0);
}

} // verus!
