//! The generated-songs library: a folder of takes plus a registry carrying
//! each take's display title, prompt and model. The folder is the source of
//! truth: the registry is reconciled against what is on disk on every read,
//! so hand-added files appear with no model and deleted files drop out.

use vstd::prelude::*;

use crate::library::{file_stem_of, safe_stem, safe_stem_spec, take_path, title_from_file, unique_wav_path, answered, MAX_TAKE_SUFFIX};

verus! {

/// One row of the song registry: what the webview shows and loads from.
#[derive(Clone, Debug, PartialEq)]
pub struct SongEntry {
    /// The file name inside the folder: the registry identity.
    pub file: String,
    /// Display label.
    pub title: String,
    /// The composition prompt; `None` for a file the app did not generate.
    pub prompt: Option<String>,
    /// The engine or model that composed the take; `None` for a hand-added
    /// file.
    pub model: Option<String>,
}

/// The metadata the webview sends with a freshly composed take.
#[derive(Clone, Debug)]
pub struct NewSong {
    pub title: String,
    pub prompt: String,
    pub model: String,
}

/// The songs folder. The path is fixed at startup; nothing the webview
/// sends can redirect it.
pub struct SongLibrary {
    dir: String,
}

/// The display title of a hand-added file.
pub open spec fn title_of(file: Seq<char>) -> Seq<char> {
    match file_stem_of(file) {
        Some(s) => s,
        None => file,
    }
}

/// The file names as plain text.
pub open spec fn names(files: Seq<String>) -> Seq<Seq<char>> {
    files.map_values(|f: String| f@)
}

/// The file names of registry entries.
pub open spec fn entry_files(entries: Seq<SongEntry>) -> Seq<Seq<char>> {
    entries.map_values(|e: SongEntry| e.file@)
}

/// The registry entries whose file is still on disk, in registry order.
pub open spec fn surviving(existing: Seq<SongEntry>, disk: Seq<Seq<char>>) -> Seq<SongEntry> {
    existing.filter(|e: SongEntry| disk.contains(e.file@))
}

/// The on-disk files none of the `kept` entries names, in disk order.
pub open spec fn unknown_files(kept: Seq<SongEntry>, disk: Seq<String>) -> Seq<String> {
    disk.filter(|f: String| !entry_files(kept).contains(f@))
}

/// `e` is the entry of a hand-added file: titled by its stem, no prompt,
/// no model.
pub open spec fn hand_added(e: SongEntry, file: Seq<char>) -> bool {
    &&& e.file@ == file
    &&& e.title@ == title_of(file)
    &&& e.prompt is None
    &&& e.model is None
}

/// `out` is `existing` reconciled against `disk`: the surviving entries in
/// registry order, then one hand-added entry per on-disk file none of them
/// names, in disk order.
pub open spec fn is_reconciled(existing: Seq<SongEntry>, disk: Seq<String>, out: Seq<SongEntry>) -> bool {
    let kept = surviving(existing, names(disk));
    let added = unknown_files(kept, disk);
    &&& out.len() == kept.len() + added.len()
    &&& out.take(kept.len() as int) == kept
    &&& forall|j: int| 0 <= j < added.len() ==> hand_added(#[trigger] out[kept.len() + j], added[j]@)
}

/// Whether some entry among the first `upto` names `file`.
fn names_file(entries: &[SongEntry], upto: usize, file: &String) -> (b: bool)
    requires
        upto <= entries@.len(),
    ensures
        b == entry_files(entries@.take(upto as int)).contains(file@),
{
    let mut i: usize = 0;
    while i < upto
        invariant
            0 <= i <= upto <= entries@.len(),
            forall|k: int| 0 <= k < i ==> entries@[k].file@ != file@,
        decreases upto - i,
    {
        if entries[i].file == *file {
            assert(entry_files(entries@.take(upto as int))[i as int] == file@);
            return true;
        }
        i = i + 1;
    }
    proof {
        if entry_files(entries@.take(upto as int)).contains(file@) {
            let k = choose|k: int| 0 <= k < upto && entry_files(entries@.take(upto as int))[k] == file@;
            assert(entries@[k].file@ == file@);
        }
    }
    false
}

/// Whether `files` holds `file`.
fn holds_file(files: &[String], file: &String) -> (b: bool)
    ensures
        b == names(files@).contains(file@),
{
    let mut i: usize = 0;
    while i < files.len()
        invariant
            0 <= i <= files@.len(),
            forall|k: int| 0 <= k < i ==> files@[k]@ != file@,
        decreases files@.len() - i,
    {
        if files[i] == *file {
            assert(names(files@)[i as int] == file@);
            return true;
        }
        i = i + 1;
    }
    proof {
        if names(files@).contains(file@) {
            let k = choose|k: int| 0 <= k < files@.len() && names(files@)[k] == file@;
            assert(files@[k]@ == file@);
        }
    }
    false
}

/// Reconcile a loaded registry against the file names on disk: keep the
/// known entries whose file survives, in registry (composition) order, then
/// append each on-disk file none of them names as a hand-added song.
pub fn reconcile(existing: Vec<SongEntry>, disk: &[String]) -> (out: Vec<SongEntry>)
    ensures
        is_reconciled(existing@, disk@, out@),
{
    let ghost disk_names = names(disk@);
    let ghost pred = |e: SongEntry| disk_names.contains(e.file@);
    let total = existing.len();
    let mut rest = existing;
    let mut out: Vec<SongEntry> = Vec::new();
    let mut taken: usize = 0;
    while rest.len() > 0
        invariant
            existing@.len() == total,
            taken + rest@.len() == existing@.len(),
            rest@ == existing@.skip(taken as int),
            out@ == existing@.take(taken as int).filter(pred),
            pred == (|e: SongEntry| disk_names.contains(e.file@)),
            disk_names == names(disk@),
        decreases rest@.len(),
    {
        let e = rest.remove(0);
        let ghost before = existing@.take(taken as int);
        assert(existing@.take(taken + 1) =~= before.push(e));
        assert(existing@.take(taken + 1).drop_last() =~= before);
        proof {
            reveal(Seq::filter);
        }
        if holds_file(disk, &e.file) {
            out.push(e);
        }
        taken = taken + 1;
        assert(rest@ =~= existing@.skip(taken as int));
    }
    assert(existing@.take(taken as int) =~= existing@);
    let kept_len = out.len();
    let ghost kept = out@;
    assert(kept == surviving(existing@, names(disk@)));
    let ghost fpred = |f: String| !entry_files(kept).contains(f@);
    let mut j: usize = 0;
    while j < disk.len()
        invariant
            0 <= j <= disk@.len(),
            kept_len == kept.len(),
            out@.len() == kept.len() + disk@.take(j as int).filter(fpred).len(),
            out@.take(kept.len() as int) == kept,
            forall|k: int| 0 <= k < disk@.take(j as int).filter(fpred).len() ==> hand_added(
                #[trigger] out@[kept.len() + k],
                disk@.take(j as int).filter(fpred)[k]@,
            ),
            fpred == (|f: String| !entry_files(kept).contains(f@)),
        decreases disk@.len() - j,
    {
        let file = &disk[j];
        let ghost before = disk@.take(j as int);
        assert(disk@.take(j + 1) =~= before.push(*file));
        assert(disk@.take(j + 1).drop_last() =~= before);
        proof {
            reveal(Seq::filter);
        }
        assert(out@.take(kept_len as int) =~= kept);
        let known = names_file(out.as_slice(), kept_len, file);
        if !known {
            let entry = SongEntry { title: title_from_file(file.as_str()), file: file.clone(), prompt: None, model: None };
            out.push(entry);
            assert(out@.take(kept.len() as int) =~= kept);
        }
        j = j + 1;
    }
    assert(disk@.take(disk@.len() as int) =~= disk@);
    out
}

/// The registry entry of a freshly composed take stored as `file`.
pub fn song_entry(file: String, new: NewSong) -> (e: SongEntry)
    ensures
        e.file == file,
        e.title == new.title,
        e.prompt == Some(new.prompt),
        e.model == Some(new.model),
{
    SongEntry { file, title: new.title, prompt: Some(new.prompt), model: Some(new.model) }
}

/// The registry after recording `entry`: any older entry for the same file
/// is dropped and `entry` goes last.
pub fn recorded(entries: Vec<SongEntry>, entry: SongEntry) -> (out: Vec<SongEntry>)
    ensures
        out@ == entries@.filter(|e: SongEntry| e.file@ != entry.file@).push(entry),
{
    let mut out = forgotten(entries, entry.file.as_str());
    out.push(entry);
    out
}

/// The registry without the entries for `file`.
pub fn forgotten(entries: Vec<SongEntry>, file: &str) -> (out: Vec<SongEntry>)
    ensures
        out@ == entries@.filter(|e: SongEntry| e.file@ != file@),
{
    let ghost pred = |e: SongEntry| e.file@ != file@;
    let gone = file.to_owned();
    let total = entries.len();
    let mut rest = entries;
    let mut out: Vec<SongEntry> = Vec::new();
    let mut taken: usize = 0;
    while rest.len() > 0
        invariant
            entries@.len() == total,
            gone@ == file@,
            taken + rest@.len() == entries@.len(),
            rest@ == entries@.skip(taken as int),
            out@ == entries@.take(taken as int).filter(pred),
            pred == (|e: SongEntry| e.file@ != file@),
        decreases rest@.len(),
    {
        let e = rest.remove(0);
        let ghost before = entries@.take(taken as int);
        assert(entries@.take(taken + 1) =~= before.push(e));
        assert(entries@.take(taken + 1).drop_last() =~= before);
        proof {
            reveal(Seq::filter);
        }
        if e.file != gone {
            out.push(e);
        }
        taken = taken + 1;
        assert(rest@ =~= entries@.skip(taken as int));
    }
    assert(entries@.take(taken as int) =~= entries@);
    out
}

impl SongLibrary {
    /// The folder's path.
    pub closed spec fn dir_spec(&self) -> Seq<char> {
        self.dir@
    }

    pub fn new(dir: String) -> (lib: Self)
        ensures
            lib.dir_spec() == dir@,
    {
        SongLibrary { dir }
    }

    /// The folder songs are written to.
    pub fn dir(&self) -> (d: &str)
        ensures
            d@ == self.dir_spec(),
    {
        self.dir.as_str()
    }

    /// Where a freshly composed take titled `title` goes: its safe stem
    /// (falling back to `song`) under the first name `taken` reports free;
    /// `None` when every candidate is taken.
    pub fn take_path<F: Fn(&str) -> bool>(&self, title: &str, taken: F) -> (r: Option<String>)
        requires
            forall|q: &str| taken.requires((q,)),
        ensures
            ({
                let stem = safe_stem_spec(title@, seq!['s', 'o', 'n', 'g']);
                &&& r is None ==> forall|n: nat| 1 <= n <= MAX_TAKE_SUFFIX ==> answered(taken, #[trigger] take_path(self.dir_spec(), stem, n), true)
                &&& r matches Some(p) ==> exists|n: nat|
                    {
                        &&& 1 <= n <= MAX_TAKE_SUFFIX
                        &&& p@ == take_path(self.dir_spec(), stem, n)
                        &&& answered(taken, p@, false)
                        &&& forall|m: nat| 1 <= m < n ==> answered(taken, #[trigger] take_path(self.dir_spec(), stem, m), true)
                    }
            }),
    {
        let fallback = "song";
        proof {
            reveal_strlit("song");
        }
        let stem = safe_stem(title, fallback);
        assert(fallback@ =~= seq!['s', 'o', 'n', 'g']);
        assert(stem@ == safe_stem_spec(title@, seq!['s', 'o', 'n', 'g']));
        let dir = self.dir.as_str();
        let r = unique_wav_path(dir, stem.as_str(), taken);
        proof {
            let stem_text = safe_stem_spec(title@, seq!['s', 'o', 'n', 'g']);
            assert(dir@ == self.dir_spec());
            if r is Some {
                let p = r->0;
                let n = choose|n: nat|
                    {
                        &&& 1 <= n <= MAX_TAKE_SUFFIX
                        &&& p@ == take_path(dir@, stem@, n)
                        &&& answered(taken, p@, false)
                        &&& forall|m: nat| 1 <= m < n ==> answered(taken, #[trigger] take_path(dir@, stem@, m), true)
                    };
                assert(p@ == take_path(self.dir_spec(), stem_text, n));
                assert(forall|m: nat| 1 <= m < n ==> answered(taken, #[trigger] take_path(self.dir_spec(), stem_text, m), true));
            }
        }
        r
    }
}

/// After a reconcile the registry and the folder agree: every entry names a
/// file on disk, and every file on disk has an entry.
pub proof fn lemma_reconcile_matches_disk(existing: Seq<SongEntry>, disk: Seq<String>, out: Seq<SongEntry>)
    requires
        is_reconciled(existing, disk, out),
    ensures
        forall|i: int| 0 <= i < out.len() ==> names(disk).contains(#[trigger] out[i].file@),
        forall|j: int| 0 <= j < disk.len() ==> entry_files(out).contains(#[trigger] disk[j]@),
{
    let kept = surviving(existing, names(disk));
    let added = unknown_files(kept, disk);
    let dpred = |e: SongEntry| names(disk).contains(e.file@);
    let fpred = |f: String| !entry_files(kept).contains(f@);
    existing.lemma_filter_len(dpred);
    assert forall|i: int| 0 <= i < out.len() implies names(disk).contains(#[trigger] out[i].file@) by {
        if i < kept.len() {
            assert(out[i] == out.take(kept.len() as int)[i]);
            existing.lemma_filter_pred(dpred, i);
        } else {
            let j = i - kept.len();
            assert(hand_added(out[kept.len() + j], added[j]@));
            assert(added.contains(added[j]));
            disk.lemma_filter_contains_rev(fpred, added[j]);
            let k = choose|k: int| 0 <= k < disk.len() && disk[k] == added[j];
            assert(names(disk)[k] == out[i].file@);
        }
    }
    assert forall|j: int| 0 <= j < disk.len() implies entry_files(out).contains(#[trigger] disk[j]@) by {
        let f = disk[j];
        if entry_files(kept).contains(f@) {
            let k = choose|k: int| 0 <= k < kept.len() && entry_files(kept)[k] == f@;
            assert(out[k] == out.take(kept.len() as int)[k]);
            assert(entry_files(out)[k] == f@);
        } else {
            disk.lemma_filter_contains(fpred, j);
            let m = choose|m: int| 0 <= m < added.len() && added[m] == f;
            assert(hand_added(out[kept.len() + m], added[m]@));
            assert(entry_files(out)[kept.len() + m] == f@);
        }
    }
}

} // verus!
