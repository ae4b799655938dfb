//! The output-device rules of the engine host: which of a device's output
//! configs the engine opens, the buffer size it asks for, and where the
//! master and cue feeds land on the device's channels.
//!
//! The engine renders at exactly 48 kHz stereo. A device with a 48000/f32
//! config is opened there (the bit-exact fast path); otherwise it is opened
//! at its own rate and the stream is resampled to it.

use vstd::prelude::*;

verus! {

/// The engine's render rate.
pub const ENGINE_RATE: u32 = 48000;

/// The engine's channel count (interleaved stereo).
pub const ENGINE_CHANNELS: u16 = 2;

/// The device buffer size the host asks for, in frames.
pub const REQUESTED_BUFFER: u32 = 256;

/// A device with at least this many channels carries the headphone cue on
/// channels 3/4 (the FLX4 phones jack) beside the master on 1/2.
pub const CUE_CHANNELS: u16 = 4;

/// Why a device stream could not be opened.
#[derive(Debug, Clone, PartialEq)]
pub enum DeviceError {
    /// No output device, or no usable f32 config at all (a sandbox, say):
    /// not a bug, exit cleanly.
    Unavailable(String),
    /// The stream could not be built or started.
    Stream(String),
}

/// One output device the engine can open, for the picker.
#[derive(Debug, Clone, PartialEq)]
pub struct OutputDeviceInfo {
    pub name: String,
    /// Channels of its chosen config.
    pub channels: u16,
    /// Whether it can carry the headphone cue (at least four channels).
    pub cue_capable: bool,
}

/// One supported output config range of a device.
#[derive(Debug, Clone, Copy, PartialEq, Eq, Structural)]
pub struct ConfigRange {
    pub channels: u16,
    /// Samples are 32-bit floats.
    pub is_f32: bool,
    pub min_rate: u32,
    pub max_rate: u32,
}

/// A device's default output config.
#[derive(Debug, Clone, Copy, PartialEq, Eq, Structural)]
pub struct DefaultConfig {
    pub channels: u16,
    pub is_f32: bool,
    pub rate: u32,
}

/// The config the engine opens a device at.
#[derive(Debug, Clone, Copy, PartialEq, Eq, Structural)]
pub struct ChosenConfig {
    pub channels: u16,
    pub rate: u32,
}

/// Where the feeds land: the channel offset of the primary feed, and of the
/// secondary (cue) feed when it is routed.
#[derive(Debug, Clone, Copy, PartialEq, Eq, Structural)]
pub struct Routing {
    pub primary_offset: usize,
    pub secondary_offset: Option<usize>,
}

/// An f32 config with at least stereo.
pub open spec fn usable(c: ConfigRange) -> bool {
    c.channels >= ENGINE_CHANNELS && c.is_f32
}

/// A usable config whose range holds the engine rate.
pub open spec fn exact(c: ConfigRange) -> bool {
    usable(c) && c.min_rate <= ENGINE_RATE && c.max_rate >= ENGINE_RATE
}

/// The rate of a range nearest the engine rate.
pub open spec fn nearest_rate(c: ConfigRange) -> u32 {
    if ENGINE_RATE < c.min_rate {
        c.min_rate
    } else if ENGINE_RATE > c.max_rate {
        c.max_rate
    } else {
        ENGINE_RATE
    }
}

/// How far a range's nearest rate is from the engine rate.
pub open spec fn rate_gap(c: ConfigRange) -> int {
    let r = nearest_rate(c);
    if r >= ENGINE_RATE {
        r - ENGINE_RATE
    } else {
        ENGINE_RATE - r
    }
}

/// `a` is a better fallback than `b`: nearer the engine rate, or as near
/// and wider.
pub open spec fn better_fallback(a: ConfigRange, b: ConfigRange) -> bool {
    rate_gap(a) < rate_gap(b) || (rate_gap(a) == rate_gap(b) && a.channels > b.channels)
}

/// Some config holds the engine rate.
pub open spec fn has_exact(cs: Seq<ConfigRange>) -> bool {
    exists|i: int| 0 <= i < cs.len() && exact(#[trigger] cs[i])
}

/// Some config is usable.
pub open spec fn has_usable(cs: Seq<ConfigRange>) -> bool {
    exists|i: int| 0 <= i < cs.len() && usable(#[trigger] cs[i])
}

/// The default config is usable.
pub open spec fn default_usable(d: Option<DefaultConfig>) -> bool {
    d matches Some(c) && c.is_f32 && c.channels >= ENGINE_CHANNELS
}

/// `i` is the fallback pick: usable, no usable config better, every usable
/// config before it worse (the first of the best).
pub open spec fn fallback_pick(cs: Seq<ConfigRange>, i: int) -> bool {
    &&& 0 <= i < cs.len()
    &&& usable(cs[i])
    &&& forall|j: int| 0 <= j < cs.len() && usable(#[trigger] cs[j]) ==> !better_fallback(cs[j], cs[i])
    &&& forall|j: int| 0 <= j < i && usable(#[trigger] cs[j]) ==> better_fallback(cs[i], cs[j])
}

/// Whether `r` is the config the engine opens a device with `ranges` and
/// default config `default` at. Preference: the widest config holding the
/// engine rate, opened at it (bit-exact); else the usable default config at
/// its own rate (the OS will not resample under us); else the usable config
/// nearest the engine rate (widest on a tie, the first of equals), at its
/// nearest rate; else none.
pub open spec fn picks(ranges: Seq<ConfigRange>, default: Option<DefaultConfig>, r: Option<ChosenConfig>) -> bool {
    if has_exact(ranges) {
        r matches Some(c) && c.rate == ENGINE_RATE && (exists|i: int|
            0 <= i < ranges.len() && exact(#[trigger] ranges[i]) && ranges[i].channels == c.channels) && (forall|i: int|
            0 <= i < ranges.len() && exact(#[trigger] ranges[i]) ==> ranges[i].channels <= c.channels)
    } else if default_usable(default) {
        r == Some(ChosenConfig { channels: default->0.channels, rate: default->0.rate })
    } else if has_usable(ranges) {
        exists|i: int|
            fallback_pick(ranges, i) && r == Some(
                ChosenConfig { channels: ranges[i].channels, rate: nearest_rate(ranges[i]) },
            )
    } else {
        r is None
    }
}

/// The widest config holding the engine rate, if any.
fn widest_exact(ranges: &[ConfigRange]) -> (r: Option<u16>)
    ensures
        has_exact(ranges@) <==> r is Some,
        r matches Some(ch) ==> (exists|i: int|
            0 <= i < ranges@.len() && exact(#[trigger] ranges@[i]) && ranges@[i].channels == ch) && (forall|i: int|
            0 <= i < ranges@.len() && exact(#[trigger] ranges@[i]) ==> ranges@[i].channels <= ch),
{
    let mut best: Option<u16> = None;
    let mut i: usize = 0;
    while i < ranges.len()
        invariant
            0 <= i <= ranges@.len(),
            best is None <==> forall|k: int| 0 <= k < i ==> !exact(#[trigger] ranges@[k]),
            best matches Some(ch) ==> (exists|k: int|
                0 <= k < i && exact(#[trigger] ranges@[k]) && ranges@[k].channels == ch) && (forall|k: int|
                0 <= k < i && exact(#[trigger] ranges@[k]) ==> ranges@[k].channels <= ch),
        decreases ranges@.len() - i,
    {
        let c = ranges[i];
        if c.channels >= ENGINE_CHANNELS && c.is_f32 && c.min_rate <= ENGINE_RATE && c.max_rate >= ENGINE_RATE {
            assert(exact(ranges@[i as int]));
            best = match best {
                None => Some(c.channels),
                Some(ch) => if c.channels >= ch {
                    Some(c.channels)
                } else {
                    Some(ch)
                },
            };
        }
        i = i + 1;
    }
    proof {
        if has_exact(ranges@) {
            let k = choose|k: int| 0 <= k < ranges@.len() && exact(#[trigger] ranges@[k]);
            assert(exact(ranges@[k]));
        }
    }
    best
}

/// The rate of a range nearest the engine rate.
fn nearest_rate_of(c: ConfigRange) -> (r: u32)
    ensures
        r == nearest_rate(c),
{
    if ENGINE_RATE < c.min_rate {
        c.min_rate
    } else if ENGINE_RATE > c.max_rate {
        c.max_rate
    } else {
        ENGINE_RATE
    }
}

fn gap_of(c: ConfigRange) -> (g: u32)
    ensures
        g == rate_gap(c),
{
    let r = nearest_rate_of(c);
    if r >= ENGINE_RATE {
        r - ENGINE_RATE
    } else {
        ENGINE_RATE - r
    }
}

/// The index of the fallback pick, if any config is usable.
fn fallback_index(ranges: &[ConfigRange]) -> (r: Option<usize>)
    ensures
        has_usable(ranges@) <==> r is Some,
        r matches Some(i) ==> fallback_pick(ranges@, i as int),
{
    let mut best: Option<usize> = None;
    let mut i: usize = 0;
    while i < ranges.len()
        invariant
            0 <= i <= ranges@.len(),
            best is None <==> forall|k: int| 0 <= k < i ==> !usable(#[trigger] ranges@[k]),
            best matches Some(b) ==> {
                &&& b < i
                &&& usable(ranges@[b as int])
                &&& forall|j: int| 0 <= j < i && usable(#[trigger] ranges@[j]) ==> !better_fallback(ranges@[j], ranges@[b as int])
                &&& forall|j: int| 0 <= j < b && usable(#[trigger] ranges@[j]) ==> better_fallback(ranges@[b as int], ranges@[j])
            },
        decreases ranges@.len() - i,
    {
        let c = ranges[i];
        if c.channels >= ENGINE_CHANNELS && c.is_f32 {
            match best {
                None => {
                    best = Some(i);
                },
                Some(b) => {
                    let cb = ranges[b];
                    let gc = gap_of(c);
                    let gb = gap_of(cb);
                    if gc < gb || (gc == gb && c.channels > cb.channels) {
                        best = Some(i);
                    }
                },
            }
        }
        i = i + 1;
    }
    proof {
        if has_usable(ranges@) {
            let k = choose|k: int| 0 <= k < ranges@.len() && usable(#[trigger] ranges@[k]);
            assert(usable(ranges@[k]));
        }
    }
    best
}

/// Choose the config the engine opens a device at (see [`picks`]).
pub fn pick_config(ranges: &[ConfigRange], default: Option<DefaultConfig>) -> (r: Option<ChosenConfig>)
    requires
        forall|i: int| 0 <= i < ranges@.len() ==> (#[trigger] ranges@[i]).min_rate <= ranges@[i].max_rate,
    ensures
        picks(ranges@, default, r),
{
    if let Some(channels) = widest_exact(ranges) {
        return Some(ChosenConfig { channels, rate: ENGINE_RATE });
    }
    if let Some(d) = default {
        if d.is_f32 && d.channels >= ENGINE_CHANNELS {
            return Some(ChosenConfig { channels: d.channels, rate: d.rate });
        }
    }
    match fallback_index(ranges) {
        Some(i) => Some(ChosenConfig { channels: ranges[i].channels, rate: nearest_rate_of(ranges[i]) }),
        None => None,
    }
}

/// The picker's entry for a device whose chosen config has `channels`.
pub fn output_device_info(name: String, channels: u16) -> (info: OutputDeviceInfo)
    ensures
        info.name == name,
        info.channels == channels,
        info.cue_capable == (channels >= CUE_CHANNELS),
{
    OutputDeviceInfo { name, channels, cue_capable: channels >= CUE_CHANNELS }
}

/// The buffer size to ask a device for: the requested size clamped to the
/// device's supported range, or the requested size when the range is unknown.
pub fn buffer_frames(range: Option<(u32, u32)>) -> (frames: u32)
    requires
        range matches Some((lo, hi)) ==> lo <= hi,
    ensures
        range is None ==> frames == REQUESTED_BUFFER,
        range matches Some((lo, hi)) ==> frames == if REQUESTED_BUFFER < lo {
            lo
        } else if REQUESTED_BUFFER > hi {
            hi
        } else {
            REQUESTED_BUFFER
        },
{
    match range {
        None => REQUESTED_BUFFER,
        Some((lo, hi)) => if REQUESTED_BUFFER < lo {
            lo
        } else if REQUESTED_BUFFER > hi {
            hi
        } else {
            REQUESTED_BUFFER
        },
    }
}

/// Where the feeds land on a device with `device_channels` channels. The
/// secondary (cue) feed needs channels 3/4, so only a device of at least
/// four channels carries it, beside the primary on 1/2. A lone primary on
/// such a device goes to 3/4 when it is a cue stream on the phones
/// (`primary_on_phones`); everything else lands on 1/2.
pub fn routing(device_channels: usize, has_secondary: bool, primary_on_phones: bool) -> (r: Routing)
    ensures
        r.secondary_offset == if has_secondary && device_channels >= CUE_CHANNELS {
            Some(2usize)
        } else {
            None
        },
        r.primary_offset == if !(has_secondary && device_channels >= CUE_CHANNELS) && primary_on_phones
            && device_channels >= CUE_CHANNELS {
            2usize
        } else {
            0usize
        },
{
    let wide = device_channels >= CUE_CHANNELS as usize;
    let secondary_routed = has_secondary && wide;
    Routing {
        primary_offset: if !secondary_routed && primary_on_phones && wide {
            2
        } else {
            0
        },
        secondary_offset: if secondary_routed {
            Some(2)
        } else {
            None
        },
    }
}

/// What channel `c` of frame `f` carries after spreading `placements` (a
/// device-channel offset and an interleaved-stereo block each, later ones
/// over earlier ones): the block's frame `f` on channels `offset` and
/// `offset + 1` when both fit the device and the block has that frame,
/// else `silence`.
pub open spec fn placed<T>(placements: Seq<(usize, Seq<T>)>, dev_ch: int, f: int, c: int, silence: T) -> T
    decreases placements.len(),
{
    if placements.len() == 0 {
        silence
    } else {
        let (offset, block) = placements.last();
        if offset + 1 < dev_ch && 2 * f + 1 < block.len() && (c == offset || c == offset + 1) {
            block[2 * f + (c - offset)]
        } else {
            placed(placements.drop_last(), dev_ch, f, c, silence)
        }
    }
}

/// The placements as plain values.
pub open spec fn placements_view<T>(placements: Seq<(usize, &[T])>) -> Seq<(usize, Seq<T>)> {
    placements.map_values(|p: (usize, &[T])| (p.0, p.1@))
}

proof fn lemma_frame_cell(f: int, dev_ch: int, c: int)
    requires
        dev_ch > 0,
        f >= 0,
        0 <= c < dev_ch,
    ensures
        (f * dev_ch + c) / dev_ch == f,
        (f * dev_ch + c) % dev_ch == c,
{
    vstd::arithmetic::div_mod::lemma_fundamental_div_mod_converse(f * dev_ch + c, dev_ch, f, c);
}

/// Spread interleaved-stereo blocks onto a `dev_ch`-channel interleaved
/// device buffer: every whole frame is first silenced, then each block lands
/// on channels `[offset, offset + 1]` in order. A frame past a block's
/// length, or an offset past the device, stays silent; a trailing partial
/// frame of `data` is left as it was. One primitive for every routing:
/// master alone at 0, master at 0 with the cue at 2, or a cue alone at 2.
pub fn spread<T: Copy>(data: &mut [T], silence: T, dev_ch: usize, placements: &[(usize, &[T])])
    requires
        dev_ch > 0,
    ensures
        final(data)@.len() == old(data)@.len(),
        forall|k: int|
            0 <= k < (old(data)@.len() as int / dev_ch as int) * dev_ch ==> final(data)@[k] == placed(
                placements_view(placements@),
                dev_ch as int,
                k / dev_ch as int,
                k % dev_ch as int,
                silence,
            ),
        forall|k: int|
            (old(data)@.len() as int / dev_ch as int) * dev_ch <= k < old(data)@.len() ==> final(data)@[k] == old(data)@[k],
{
    let ghost d0 = data@;
    let ghost pv = placements_view(placements@);
    let n = data.len();
    let frames = n / dev_ch;
    proof {
        vstd::arithmetic::div_mod::lemma_fundamental_div_mod(n as int, dev_ch as int);
        assert(frames * dev_ch <= n) by (nonlinear_arith)
            requires
                frames == n / dev_ch,
                n == dev_ch * (n / dev_ch) + n % dev_ch,
                n % dev_ch >= 0,
        ;
    }
    let mut f: usize = 0;
    let mut base: usize = 0;
    while f < frames
        invariant
            dev_ch > 0,
            n == d0.len(),
            data@.len() == n,
            frames == n / dev_ch,
            frames * dev_ch <= n,
            0 <= f <= frames,
            base == f * dev_ch,
            pv == placements_view(placements@),
            forall|k: int| 0 <= k < base ==> data@[k] == placed(pv, dev_ch as int, k / dev_ch as int, k % dev_ch as int, silence),
            forall|k: int| base <= k < n ==> data@[k] == d0[k],
        decreases frames - f,
    {
        proof {
            assert((f + 1) * dev_ch <= frames * dev_ch) by (nonlinear_arith)
                requires
                    f + 1 <= frames,
                    dev_ch > 0,
            ;
            assert((f + 1) * dev_ch == f * dev_ch + dev_ch) by (nonlinear_arith);
        }
        let mut c: usize = 0;
        while c < dev_ch
            invariant
                dev_ch > 0,
                data@.len() == n,
                base + dev_ch <= n,
                0 <= c <= dev_ch,
                forall|k: int| 0 <= k < base ==> data@[k] == placed(pv, dev_ch as int, k / dev_ch as int, k % dev_ch as int, silence),
                forall|k: int| base <= k < base + c ==> data@[k] == silence,
                forall|k: int| base + c <= k < n ==> data@[k] == d0[k],
            decreases dev_ch - c,
        {
            data[base + c] = silence;
            c = c + 1;
        }
        let mut j: usize = 0;
        while j < placements.len()
            invariant
                dev_ch > 0,
                data@.len() == n,
                base + dev_ch <= n,
                base == f * dev_ch,
                f < frames,
                0 <= j <= placements@.len(),
                pv == placements_view(placements@),
                forall|k: int| 0 <= k < base ==> data@[k] == placed(pv, dev_ch as int, k / dev_ch as int, k % dev_ch as int, silence),
                forall|k: int|
                    base <= k < base + dev_ch ==> data@[k] == placed(pv.take(j as int), dev_ch as int, f as int, k - base, silence),
                forall|k: int| base + dev_ch <= k < n ==> data@[k] == d0[k],
            decreases placements@.len() - j,
        {
            let (offset, block) = placements[j];
            let ghost before = data@;
            proof {
                assert(pv.take(j + 1).drop_last() =~= pv.take(j as int));
                assert(pv.take(j + 1).last() == pv[j as int]);
                assert(pv[j as int] == (offset, block@));
            }
            if offset < dev_ch - 1 && block.len() >= 2 && f <= (block.len() - 2) / 2 {
                proof {
                    assert(2 * f + 1 < block@.len());
                }
                data[base + offset] = block[2 * f];
                data[base + offset + 1] = block[2 * f + 1];
                proof {
                    assert forall|k: int| base <= k < base + dev_ch implies data@[k] == placed(
                        pv.take(j + 1),
                        dev_ch as int,
                        f as int,
                        k - base,
                        silence,
                    ) by {
                        if k != base + offset && k != base + offset + 1 {
                            assert(data@[k] == before[k]);
                        }
                    }
                }
            } else {
                proof {
                    assert(!(2 * f + 1 < block@.len()) || !(offset + 1 < dev_ch));
                }
            }
            j = j + 1;
        }
        proof {
            assert(pv.take(placements@.len() as int) =~= pv);
            assert forall|k: int| 0 <= k < base + dev_ch implies data@[k] == placed(
                pv,
                dev_ch as int,
                k / dev_ch as int,
                k % dev_ch as int,
                silence,
            ) by {
                if k >= base {
                    lemma_frame_cell(f as int, dev_ch as int, k - base);
                }
            }
        }
        f = f + 1;
        base = base + dev_ch;
    }
}

} // verus!
