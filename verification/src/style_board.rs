//! A deck's style-pad arrangement rules: the targets' prompts, the sampled
//! chips, and the selection mask the blend and the pad LEDs read. One copy
//! of the edit semantics for UI, hardware and MCP: trimmed, non-empty,
//! length-capped prompts, no duplicate prompts, at most [`MAX_TARGETS`]
//! targets, sampled chips never renamed, the selection always aligned with
//! the targets. Pad positions are the host's: every edit reports the index
//! it touched so the host keeps its positions in step.

use vstd::prelude::*;
use vstd::utf8::encode_utf8;

use crate::library::{chars_of, opt_chars, string_of, trim, trim_bounds};

verus! {

/// The most targets a pad holds.
pub const MAX_TARGETS: usize = 8;

/// The longest target prompt accepted, in UTF-8 bytes.
pub const MAX_TARGET_TEXT: usize = 160;

/// One style target: a prompt, and for a sampled chip its session-only
/// embedding key.
#[derive(Debug, Clone)]
pub struct StyleChip {
    pub text: String,
    pub sample: Option<String>,
}

/// A deck's targets and selection mask.
pub struct StyleBoard {
    chips: Vec<StyleChip>,
    selected: Vec<bool>,
}

/// The prompts of `chips`.
pub open spec fn chip_texts(chips: Seq<StyleChip>) -> Seq<Seq<char>> {
    chips.map_values(|c: StyleChip| c.text@)
}

/// The sample keys of `chips`: `None` for a text target.
pub open spec fn chip_samples(chips: Seq<StyleChip>) -> Seq<Option<Seq<char>>> {
    chips.map_values(|c: StyleChip| opt_chars(c.sample))
}

/// A prompt the board accepts: trimmed, non-empty, within the byte cap.
pub open spec fn acceptable(t: Seq<char>) -> bool {
    t.len() > 0 && encode_utf8(t).len() <= MAX_TARGET_TEXT
}

/// No two targets share a prompt.
pub open spec fn distinct_texts(texts: Seq<Seq<char>>) -> bool {
    forall|i: int, j: int| 0 <= i < j < texts.len() ==> texts[i] != texts[j]
}

/// `i` is the first position of `t` in `texts`.
pub open spec fn first_at(texts: Seq<Seq<char>>, t: Seq<char>, i: int) -> bool {
    0 <= i < texts.len() && texts[i] == t && forall|j: int| 0 <= j < i ==> texts[j] != t
}

impl StyleBoard {
    /// The targets' prompts, in order.
    pub closed spec fn texts(&self) -> Seq<Seq<char>> {
        chip_texts(self.chips@)
    }

    /// Whether target `i` is a sampled chip.
    pub closed spec fn sampled(&self, i: int) -> bool {
        self.chips@[i].sample is Some
    }

    /// Target `i`'s sample key.
    pub closed spec fn sample_of(&self, i: int) -> Option<Seq<char>> {
        match self.chips@[i].sample {
            Some(s) => Some(s@),
            None => None,
        }
    }

    /// The targets' sample keys, in order.
    pub closed spec fn samples(&self) -> Seq<Option<Seq<char>>> {
        chip_samples(self.chips@)
    }

    /// The selection mask.
    pub closed spec fn selection(&self) -> Seq<bool> {
        self.selected@
    }

    pub closed spec fn wf(&self) -> bool {
        &&& self.selected@.len() == self.chips@.len()
        &&& self.chips@.len() <= MAX_TARGETS
    }

    /// An empty pad.
    pub fn new() -> (b: Self)
        ensures
            b.wf(),
            b.texts().len() == 0,
    {
        StyleBoard { chips: Vec::new(), selected: Vec::new() }
    }

    /// How many targets the pad holds.
    pub fn len(&self) -> (n: usize)
        requires
            self.wf(),
        ensures
            n == self.texts().len(),
    {
        self.chips.len()
    }

    /// The selection mask.
    pub fn selection_mask(&self) -> (m: &[bool])
        ensures
            m@ == self.selection(),
    {
        self.selected.as_slice()
    }

    /// The targets.
    pub fn chips(&self) -> (c: &[StyleChip])
        ensures
            chip_texts(c@) == self.texts(),
            forall|i: int|
                #![trigger self.sample_of(i)]
                0 <= i < c@.len() ==> match c@[i].sample {
                    Some(k) => self.sample_of(i) == Some(k@),
                    None => self.sample_of(i) is None,
                },
    {
        self.chips.as_slice()
    }

    /// The first target whose prompt is `text`.
    pub fn find(&self, text: &str) -> (r: Option<usize>)
        requires
            self.wf(),
        ensures
            r matches Some(i) ==> first_at(self.texts(), text@, i as int),
            r is None ==> !self.texts().contains(text@),
    {
        let wanted = text.to_owned();
        let mut i: usize = 0;
        while i < self.chips.len()
            invariant
                0 <= i <= self.chips@.len(),
                wanted@ == text@,
                forall|j: int| 0 <= j < i ==> self.texts()[j] != text@,
            decreases self.chips@.len() - i,
        {
            if self.chips[i].text == wanted {
                return Some(i);
            }
            i = i + 1;
        }
        proof {
            if self.texts().contains(text@) {
                let k = choose|k: int| 0 <= k < self.texts().len() && self.texts()[k] == text@;
                assert(self.texts()[k] != text@);
            }
        }
        None
    }

    /// Whether some target's prompt is `text`.
    fn holds_text(&self, text: &String) -> (b: bool)
        requires
            self.wf(),
        ensures
            b == self.texts().contains(text@),
    {
        self.find(text.as_str()).is_some()
    }

    /// Add a text target. The prompt is trimmed; an empty or over-long
    /// prompt, a full pad, or a duplicate prompt is refused. Answers whether
    /// the pad changed (the new target goes last, unselected).
    pub fn add_target(&mut self, text: &str) -> (added: bool)
        requires
            old(self).wf(),
        ensures
            distinct_texts(old(self).texts()) ==> distinct_texts(final(self).texts()),
            final(self).wf(),
            added == (acceptable(trim(text@)) && old(self).texts().len() < MAX_TARGETS && !old(
                self,
            ).texts().contains(trim(text@))),
            added ==> final(self).texts() == old(self).texts().push(trim(text@)) && final(self).selection()
                == old(self).selection().push(false) && !final(self).sampled(old(self).texts().len() as int)
                && final(self).samples() == old(self).samples().push(None),
            !added ==> final(self).texts() == old(self).texts() && final(self).selection() == old(
                self,
            ).selection() && final(self).samples() == old(self).samples(),
    {
        let t = trimmed(text);
        proof {
            lemma_encode_empty(t@);
        }
        if t.as_str().is_empty() || !fits_bytes(&t, MAX_TARGET_TEXT) || self.chips.len() >= MAX_TARGETS
            || self.holds_text(&t) {
            return false;
        }
        self.chips.push(StyleChip { text: t, sample: None });
        self.selected.push(false);
        assert(self.texts() =~= old(self).texts().push(trim(text@)));
        assert(self.samples() =~= old(self).samples().push(None));
        true
    }

    /// Add a sampled chip under a display label: same cap and duplicate
    /// rules, keyed on the trimmed label; an empty label or key is refused.
    pub fn add_sample_target(&mut self, label: &str, sample: &str) -> (added: bool)
        requires
            old(self).wf(),
        ensures
            distinct_texts(old(self).texts()) ==> distinct_texts(final(self).texts()),
            final(self).wf(),
            added == (trim(label@).len() > 0 && sample@.len() > 0 && old(self).texts().len() < MAX_TARGETS
                && !old(self).texts().contains(trim(label@))),
            added ==> final(self).texts() == old(self).texts().push(trim(label@)) && final(self).selection()
                == old(self).selection().push(false) && final(self).sample_of(old(self).texts().len() as int)
                == Some(sample@) && final(self).samples() == old(self).samples().push(Some(sample@)),
            !added ==> final(self).texts() == old(self).texts() && final(self).selection() == old(
                self,
            ).selection() && final(self).samples() == old(self).samples(),
    {
        let l = trimmed(label);
        proof {
            lemma_encode_empty(l@);
        }
        if l.as_str().is_empty() || sample.is_empty() || self.chips.len() >= MAX_TARGETS || self.holds_text(&l) {
            return false;
        }
        self.chips.push(StyleChip { text: l, sample: Some(sample.to_owned()) });
        self.selected.push(false);
        assert(self.texts() =~= old(self).texts().push(trim(label@)));
        assert(self.samples() =~= old(self).samples().push(Some(sample@)));
        true
    }

    /// Remove the first target with prompt `text` and its selection entry;
    /// answers the index removed.
    pub fn remove_target(&mut self, text: &str) -> (r: Option<usize>)
        requires
            old(self).wf(),
        ensures
            distinct_texts(old(self).texts()) ==> distinct_texts(final(self).texts()),
            final(self).wf(),
            r matches Some(i) ==> first_at(old(self).texts(), text@, i as int) && final(self).texts() == old(
                self,
            ).texts().remove(i as int) && final(self).selection() == old(self).selection().remove(i as int)
                && final(self).samples() == old(self).samples().remove(i as int),
            r is None ==> !old(self).texts().contains(text@) && final(self).texts() == old(self).texts()
                && final(self).selection() == old(self).selection() && final(self).samples() == old(self).samples(),
    {
        match self.find(text) {
            None => None,
            Some(i) => {
                let _chip = self.chips.remove(i);
                let _flag = self.selected.remove(i);
                assert(self.texts() =~= old(self).texts().remove(i as int));
                assert(self.samples() =~= old(self).samples().remove(i as int));
                Some(i)
            },
        }
    }

    /// Rename a text target in place (position and selection kept). A
    /// rename to an empty or over-long prompt, onto another target's
    /// prompt, or of a sampled chip is refused. Answers whether it renamed.
    pub fn rename_target(&mut self, from: &str, to: &str) -> (renamed: bool)
        requires
            old(self).wf(),
        ensures
            distinct_texts(old(self).texts()) ==> distinct_texts(final(self).texts()),
            final(self).wf(),
            final(self).selection() == old(self).selection(),
            final(self).samples() == old(self).samples(),
            renamed <==> {
                &&& acceptable(trim(to@))
                &&& (trim(to@) == from@ || !old(self).texts().contains(trim(to@)))
                &&& exists|i: int| first_at(old(self).texts(), from@, i) && !old(self).sampled(i)
            },
            renamed ==> exists|i: int|
                first_at(old(self).texts(), from@, i) && final(self).texts() == old(self).texts().update(
                    i,
                    trim(to@),
                ),
            !renamed ==> final(self).texts() == old(self).texts(),
    {
        let t = trimmed(to);
        proof {
            lemma_encode_empty(t@);
        }
        if t.as_str().is_empty() || !fits_bytes(&t, MAX_TARGET_TEXT) {
            return false;
        }
        let from_text = from.to_owned();
        let same = t == from_text;
        if !same && self.holds_text(&t) {
            return false;
        }
        match self.find(from) {
            None => {
                proof {
                    assert forall|j: int| !first_at(old(self).texts(), from@, j) by {
                        if first_at(old(self).texts(), from@, j) {
                            assert(old(self).texts()[j] == from@);
                            assert(old(self).texts().contains(from@));
                        }
                    }
                }
                false
            },
            Some(i) => {
                if self.chips[i].sample.is_some() {
                    proof {
                        assert forall|j: int| first_at(old(self).texts(), from@, j) implies j == i by {
                            if j < i {
                                assert(old(self).texts()[j] != from@);
                            } else if j > i {
                                assert(old(self).texts()[i as int] != from@);
                            }
                        }
                    }
                    return false;
                }
                let ghost before = self.chips@;
                let chip = StyleChip { text: t, sample: None };
                let mut old_chip = chip;
                self.chips.set_and_swap(i, &mut old_chip);
                assert(self.texts() =~= old(self).texts().update(i as int, trim(to@)));
                assert(self.samples() =~= old(self).samples());
                assert(first_at(old(self).texts(), from@, i as int) && !old(self).sampled(i as int));
                true
            },
        }
    }

    /// Toggle the first target with prompt `text` in or out of the
    /// selection; answers the index toggled.
    pub fn toggle_selection(&mut self, text: &str) -> (r: Option<usize>)
        requires
            old(self).wf(),
        ensures
            final(self).wf(),
            final(self).texts() == old(self).texts(),
            final(self).samples() == old(self).samples(),
            r matches Some(i) ==> first_at(old(self).texts(), text@, i as int) && final(self).selection()
                == old(self).selection().update(i as int, !old(self).selection()[i as int]),
            r is None ==> !old(self).texts().contains(text@) && final(self).selection() == old(self).selection(),
    {
        match self.find(text) {
            None => None,
            Some(i) => {
                let flag = self.selected[i];
                self.selected.set(i, !flag);
                Some(i)
            },
        }
    }

    /// A dead or reloading worker dropped its sample cache: strip the
    /// sampled chips and their selection entries. Answers which targets
    /// were kept, in order.
    pub fn strip_samples(&mut self) -> (kept: Vec<bool>)
        requires
            old(self).wf(),
        ensures
            final(self).wf(),
            kept@.len() == old(self).texts().len(),
            forall|i: int| 0 <= i < kept@.len() ==> kept@[i] == !old(self).sampled(i),
            final(self).texts() == kept_where(old(self).texts(), kept@),
            final(self).selection() == kept_where(old(self).selection(), kept@),
            forall|i: int| 0 <= i < final(self).texts().len() ==> !final(self).sampled(i),
    {
        let total = self.chips.len();
        let mut kept: Vec<bool> = Vec::new();
        let mut chips: Vec<StyleChip> = Vec::new();
        let mut selected: Vec<bool> = Vec::new();
        let ghost texts0 = old(self).texts();
        let ghost sel0 = old(self).selection();
        let mut rest_chips: Vec<StyleChip> = Vec::new();
        std::mem::swap(&mut rest_chips, &mut self.chips);
        let mut rest_sel: Vec<bool> = Vec::new();
        std::mem::swap(&mut rest_sel, &mut self.selected);
        let mut taken: usize = 0;
        while rest_chips.len() > 0
            invariant
                taken + rest_chips@.len() == total,
                rest_sel@.len() == rest_chips@.len(),
                total == old(self).chips@.len(),
                chip_texts(rest_chips@) == texts0.skip(taken as int),
                rest_sel@ == sel0.skip(taken as int),
                forall|k: int| 0 <= k < rest_chips@.len() ==> (rest_chips@[k].sample is Some) == old(self).sampled(taken + k),
                kept@.len() == taken,
                forall|i: int| 0 <= i < taken ==> kept@[i] == !old(self).sampled(i),
                chip_texts(chips@) == kept_where(texts0.take(taken as int), kept@),
                selected@ == kept_where(sel0.take(taken as int), kept@),
                forall|i: int| 0 <= i < chips@.len() ==> chips@[i].sample is None,
                selected@.len() == chips@.len(),
                chips@.len() <= taken,
                texts0.len() == total,
                sel0.len() == total,
            decreases rest_chips@.len(),
        {
            let ghost rc = rest_chips@;
            let ghost rs = rest_sel@;
            let ghost chips_before = chips@;
            let ghost kept_before = kept@;
            let chip = rest_chips.remove(0);
            let flag = rest_sel.remove(0);
            let keep = chip.sample.is_none();
            proof {
                assert(chip_texts(rc)[0] == texts0.skip(taken as int)[0]);
                assert(chip.text@ == texts0[taken as int]);
                assert(rs[0] == sel0.skip(taken as int)[0]);
                assert(flag == sel0[taken as int]);
                assert(keep == !old(self).sampled(taken as int));
                lemma_kept_where_push(texts0.take(taken as int), kept@, texts0[taken as int], keep);
                lemma_kept_where_push(sel0.take(taken as int), kept@, sel0[taken as int], keep);
                assert(texts0.take(taken + 1) =~= texts0.take(taken as int).push(texts0[taken as int]));
                assert(sel0.take(taken + 1) =~= sel0.take(taken as int).push(sel0[taken as int]));
                assert forall|k: int| 0 <= k < rest_chips@.len() implies chip_texts(rest_chips@)[k] == texts0.skip(taken + 1)[k] by {
                    assert(rest_chips@[k] == rc[k + 1]);
                    assert(chip_texts(rc)[k + 1] == texts0.skip(taken as int)[k + 1]);
                }
                assert(chip_texts(rest_chips@) =~= texts0.skip(taken + 1));
                assert(rest_sel@ =~= sel0.skip(taken + 1));
                assert forall|k: int| 0 <= k < rest_chips@.len() implies (rest_chips@[k].sample is Some) == old(self).sampled(taken + 1 + k) by {
                    assert(rest_chips@[k] == rc[k + 1]);
                }
            }
            if keep {
                chips.push(chip);
                selected.push(flag);
                assert(chip_texts(chips@) =~= chip_texts(chips_before).push(texts0[taken as int]));
            } else {
                assert(chips@ == chips_before);
            }
            kept.push(keep);
            assert(kept@ == kept_before.push(keep));
            taken = taken + 1;
        }
        assert(texts0.take(total as int) =~= texts0);
        assert(sel0.take(total as int) =~= sel0);
        self.chips = chips;
        self.selected = selected;
        kept
    }

    /// Replace the pad wholesale (a preset load or an external
    /// arrangement): at most [`MAX_TARGETS`] targets, in order, with the
    /// selection cleared. Invalid entries are dropped by the caller's trust
    /// boundary first.
    pub fn apply_preset(&mut self, targets: Vec<StyleChip>)
        requires
            old(self).wf(),
        ensures
            final(self).wf(),
            final(self).texts() == if targets@.len() <= MAX_TARGETS {
                chip_texts(targets@)
            } else {
                chip_texts(targets@.take(MAX_TARGETS as int))
            },
            final(self).samples() == if targets@.len() <= MAX_TARGETS {
                chip_samples(targets@)
            } else {
                chip_samples(targets@.take(MAX_TARGETS as int))
            },
            final(self).selection() == Seq::new(final(self).texts().len(), |i: int| false),
    {
        let mut targets = targets;
        if targets.len() > MAX_TARGETS {
            targets.truncate(MAX_TARGETS);
        }
        let mut selected: Vec<bool> = Vec::new();
        let mut i: usize = 0;
        while i < targets.len()
            invariant
                0 <= i <= targets@.len(),
                selected@ == Seq::new(i as nat, |k: int| false),
            decreases targets@.len() - i,
        {
            selected.push(false);
            i = i + 1;
            assert(selected@ =~= Seq::new(i as nat, |k: int| false));
        }
        self.chips = targets;
        self.selected = selected;
        assert(self.texts() =~= chip_texts(self.chips@));
        assert(self.samples() =~= chip_samples(self.chips@));
    }
}

/// The UTF-8 width of `c`.
fn utf8_width(c: char) -> (w: usize)
    ensures
        w == vstd::utf8::encode_scalar(c as u32).len(),
{
    let v = c as u32;
    if v <= 0x7F {
        1
    } else if v <= 0x7FF {
        2
    } else if v <= 0xFFFF && !(0xD800 <= v && v <= 0xDFFF) {
        3
    } else {
        4
    }
}

proof fn lemma_encode_concat(a: Seq<char>, b: Seq<char>)
    ensures
        encode_utf8(a + b) == encode_utf8(a) + encode_utf8(b),
    decreases a.len(),
{
    if a.len() == 0 {
        assert(a + b =~= b);
    } else {
        lemma_encode_concat(a.drop_first(), b);
        assert((a + b).drop_first() =~= a.drop_first() + b);
    }
}

/// Whether `t`'s UTF-8 encoding fits in `cap` bytes.
fn fits_bytes(t: &String, cap: usize) -> (b: bool)
    ensures
        b == (encode_utf8(t@).len() <= cap),
{
    let chars = chars_of(t.as_str());
    let mut n: usize = 0;
    let mut i: usize = 0;
    while i < chars.len()
        invariant
            0 <= i <= chars@.len(),
            n == encode_utf8(chars@.take(i as int)).len(),
            n <= cap,
            chars@ == t@,
        decreases chars@.len() - i,
    {
        let w = utf8_width(chars[i]);
        proof {
            lemma_encode_concat(chars@.take(i as int), seq![chars@[i as int]]);
            assert(chars@.take(i as int) + seq![chars@[i as int]] =~= chars@.take(i + 1));
            assert(seq![chars@[i as int]].drop_first() =~= Seq::<char>::empty());
            reveal_with_fuel(encode_utf8, 2);
            assert(encode_utf8(seq![chars@[i as int]]) =~= vstd::utf8::encode_scalar(chars@[i as int] as u32));
        }
        if w > cap - n {
            proof {
                lemma_encode_concat(chars@.take(i + 1), chars@.skip(i + 1));
                assert(chars@.take(i + 1) + chars@.skip(i + 1) =~= chars@);
            }
            return false;
        }
        n = n + w;
        i = i + 1;
    }
    assert(chars@.take(chars@.len() as int) =~= chars@);
    true
}

/// The trimmed text of `s`.
fn trimmed(s: &str) -> (t: String)
    ensures
        t@ == trim(s@),
{
    let chars = chars_of(s);
    let (a, b) = trim_bounds(chars.as_slice(), 0, chars.len());
    assert(chars@.subrange(0, chars@.len() as int) =~= chars@);
    string_of(chars.as_slice(), a, b)
}

/// The elements of `s` whose flag in `keep` is set, in order.
pub open spec fn kept_where<A>(s: Seq<A>, keep: Seq<bool>) -> Seq<A>
    decreases s.len(),
{
    if s.len() == 0 || keep.len() == 0 {
        Seq::empty()
    } else {
        let rest = kept_where(s.drop_last(), keep.drop_last());
        if keep.last() {
            rest.push(s.last())
        } else {
            rest
        }
    }
}

proof fn lemma_kept_where_push<A>(s: Seq<A>, keep: Seq<bool>, x: A, k: bool)
    requires
        s.len() == keep.len(),
    ensures
        kept_where(s.push(x), keep.push(k)) == if k {
            kept_where(s, keep).push(x)
        } else {
            kept_where(s, keep)
        },
{
    assert(s.push(x).drop_last() =~= s);
    assert(keep.push(k).drop_last() =~= keep);
}

/// A text encodes to no bytes exactly when it is empty.
proof fn lemma_encode_empty(t: Seq<char>)
    ensures
        encode_utf8(t).len() == 0 <==> t.len() == 0,
{
}

/// The text rule a bulk arrangement's target must pass at the trust
/// boundary (a preset load, an external writer): a text target, not a
/// sampled chip (its embedding is session state no external writer can
/// hold), whose prompt is not blank and fits the byte cap untrimmed.
pub fn preset_target_ok(text: &str, has_sample: bool) -> (ok: bool)
    ensures
        ok == (!has_sample && trim(text@).len() > 0 && encode_utf8(text@).len() <= MAX_TARGET_TEXT),
{
    if has_sample {
        return false;
    }
    let t = trimmed(text);
    if t.as_str().is_empty() {
        return false;
    }
    let whole = text.to_owned();
    fits_bytes(&whole, MAX_TARGET_TEXT)
}

} // verus!
