//! The rules of the on-disk media libraries (generated songs and samples):
//! the write boundary for an untrusted title (`safe_stem`), the
//! non-clobbering take path (`unique_wav_path`), and how a folder's audio
//! files and their display titles are recognised.

use vstd::prelude::*;

verus! {

/// The registry file living inside a library folder.
pub const REGISTRY_FILE: &'static str = "registry.json";

/// The longest filename stem a take or sample gets: a prompt can be
/// thousands of characters, but a filename component is capped by the OS.
pub const MAX_STEM_CHARS: usize = 80;

/// The highest suffix `unique_wav_path` tries before giving up.
pub const MAX_TAKE_SUFFIX: u32 = 9999;

/// What `char::is_alphanumeric` answers for `c`.
pub uninterp spec fn alphanumeric(c: char) -> bool;

/// Unicode's White_Space property (what `char::is_whitespace` answers):
/// the ASCII controls tab through carriage return, space, NEL, no-break
/// space, the Ogham space mark, the en quad through hair space, the line
/// and paragraph separators, the narrow no-break space, the medium
/// mathematical space and the ideographic space.
pub open spec fn white_space(c: char) -> bool {
    let u = c as u32;
    ||| (0x09 <= u && u <= 0x0D)
    ||| u == 0x20
    ||| u == 0x85
    ||| u == 0xA0
    ||| u == 0x1680
    ||| (0x2000 <= u && u <= 0x200A)
    ||| u == 0x2028
    ||| u == 0x2029
    ||| u == 0x202F
    ||| u == 0x205F
    ||| u == 0x3000
}

/// `char::is_alphanumeric`: whether `c` is alphabetic or numeric in
/// Unicode. Nothing is claimed of the answer beyond naming it.
#[verifier::external_body]
fn char_is_alphanumeric(c: char) -> (b: bool)
    ensures
        b == alphanumeric(c),
{
    c.is_alphanumeric()
}

/// Whether `c` has the Unicode White_Space property.
fn char_is_whitespace(c: char) -> (b: bool)
    ensures
        b == white_space(c),
{
    let u: u32 = c as u32;
    (0x09 <= u && u <= 0x0D) || u == 0x20 || u == 0x85 || u == 0xA0 || u == 0x1680
        || (0x2000 <= u && u <= 0x200A) || u == 0x2028 || u == 0x2029 || u == 0x202F
        || u == 0x205F || u == 0x3000
}

/// `String::push`: appends `c` to the string.
#[verifier::external_body]
pub(crate) fn push_char(s: &mut String, c: char)
    ensures
        final(s)@ == old(s)@.push(c),
{
    s.push(c);
}

/// An ASCII letter or digit.
pub open spec fn ascii_alphanumeric(c: char) -> bool {
    ('0' <= c && c <= '9') || ('a' <= c && c <= 'z') || ('A' <= c && c <= 'Z')
}

/// The characters a stem keeps: ASCII letters and digits, non-ASCII
/// alphanumerics, space, `-`, `_` and `#`.
pub open spec fn stem_keeps(c: char) -> bool {
    ||| ascii_alphanumeric(c)
    ||| ((c as u32) >= 128 && alphanumeric(c))
    ||| c == ' '
    ||| c == '-'
    ||| c == '_'
    ||| c == '#'
}

/// A character of the stem: kept, or replaced by `-`.
pub open spec fn stem_char(c: char) -> char {
    if stem_keeps(c) {
        c
    } else {
        '-'
    }
}

/// `s` without its leading whitespace.
pub open spec fn trim_start(s: Seq<char>) -> Seq<char>
    decreases s.len(),
{
    if s.len() > 0 && white_space(s[0]) {
        trim_start(s.drop_first())
    } else {
        s
    }
}

/// `s` without its trailing whitespace.
pub open spec fn trim_end(s: Seq<char>) -> Seq<char>
    decreases s.len(),
{
    if s.len() > 0 && white_space(s.last()) {
        trim_end(s.drop_last())
    } else {
        s
    }
}

/// `s` without leading and trailing whitespace.
pub open spec fn trim(s: Seq<char>) -> Seq<char> {
    trim_end(trim_start(s))
}

/// At most the first `n` characters of `s`.
pub open spec fn cap(s: Seq<char>, n: nat) -> Seq<char> {
    if s.len() <= n {
        s
    } else {
        s.take(n as int)
    }
}

/// The stem of an untrusted title: every character outside the kept set
/// becomes `-`, the result is trimmed, capped at [`MAX_STEM_CHARS`] and
/// trimmed again; an empty stem falls back to `fallback`.
pub open spec fn safe_stem_spec(name: Seq<char>, fallback: Seq<char>) -> Seq<char> {
    let stem = trim(cap(trim(name.map_values(|c: char| stem_char(c))), MAX_STEM_CHARS as nat));
    if stem.len() == 0 {
        fallback
    } else {
        stem
    }
}

/// The characters of `s`.
pub(crate) fn chars_of(s: &str) -> (v: Vec<char>)
    ensures
        v@ == s@,
{
    let mut v: Vec<char> = Vec::new();
    for c in it: s.chars()
        invariant
            v@ == it.seq().take(it.index() as int),
            it.seq() == s@,
    {
        v.push(c);
    }
    v
}

/// The stem character of `c`.
fn stem_char_of(c: char) -> (r: char)
    ensures
        r == stem_char(c),
{
    let ascii_alnum = ('0' <= c && c <= '9') || ('a' <= c && c <= 'z') || ('A' <= c && c <= 'Z');
    let keep = ascii_alnum || c == ' ' || c == '-' || c == '_' || c == '#' || ((c as u32) >= 128
        && char_is_alphanumeric(c));
    if keep {
        c
    } else {
        '-'
    }
}

/// The bounds `(a, b)` of `s[from..to]` without its leading and trailing
/// whitespace.
pub(crate) fn trim_bounds(s: &[char], from: usize, to: usize) -> (r: (usize, usize))
    requires
        from <= to <= s@.len(),
    ensures
        from <= r.0 <= r.1 <= to,
        s@.subrange(r.0 as int, r.1 as int) == trim(s@.subrange(from as int, to as int)),
{
    let mut i: usize = from;
    while i < to && char_is_whitespace(s[i])
        invariant
            from <= i <= to <= s@.len(),
            trim_start(s@.subrange(from as int, to as int)) == trim_start(s@.subrange(i as int, to as int)),
        decreases to - i,
    {
        assert(s@.subrange(i as int, to as int).drop_first() =~= s@.subrange(i + 1, to as int));
        i = i + 1;
    }
    let mut j: usize = to;
    while j > i && char_is_whitespace(s[j - 1])
        invariant
            from <= i <= j <= to <= s@.len(),
            trim_end(s@.subrange(i as int, to as int)) == trim_end(s@.subrange(i as int, j as int)),
        decreases j - i,
    {
        assert(s@.subrange(i as int, j as int).drop_last() =~= s@.subrange(i as int, j - 1));
        j = j - 1;
    }
    (i, j)
}

/// A string of the characters `s[from..to]`.
pub(crate) fn string_of(s: &[char], from: usize, to: usize) -> (r: String)
    requires
        from <= to <= s@.len(),
    ensures
        r@ == s@.subrange(from as int, to as int),
{
    let mut r = String::new();
    let mut k: usize = from;
    while k < to
        invariant
            from <= k <= to <= s@.len(),
            r@ == s@.subrange(from as int, k as int),
        decreases to - k,
    {
        push_char(&mut r, s[k]);
        assert(s@.subrange(from as int, k + 1) =~= s@.subrange(from as int, k as int).push(s@[k as int]));
        k = k + 1;
    }
    r
}

/// Reduce an untrusted title to a single safe filename stem: every
/// character that is not an (ASCII or non-ASCII) letter or digit, space,
/// `-`, `_` or `#` becomes `-`, so no `/`, `\` or `.` survives and the name
/// stays one path component that cannot escape the library folder. The
/// result is trimmed and capped at [`MAX_STEM_CHARS`]; an empty result falls
/// back to `fallback`.
pub fn safe_stem(name: &str, fallback: &str) -> (r: String)
    ensures
        r@ == safe_stem_spec(name@, fallback@),
{
    let chars = chars_of(name);
    let mut cleaned: Vec<char> = Vec::new();
    let mut i: usize = 0;
    while i < chars.len()
        invariant
            0 <= i <= chars@.len(),
            chars@ == name@,
            cleaned@ == chars@.take(i as int).map_values(|c: char| stem_char(c)),
        decreases chars@.len() - i,
    {
        cleaned.push(stem_char_of(chars[i]));
        assert(chars@.take(i + 1).map_values(|c: char| stem_char(c)) =~= chars@.take(i as int).map_values(
            |c: char| stem_char(c),
        ).push(stem_char(chars@[i as int])));
        i = i + 1;
    }
    let ghost mapped = name@.map_values(|c: char| stem_char(c));
    assert(chars@.take(chars@.len() as int) =~= chars@);
    assert(cleaned@ =~= mapped);
    assert(cleaned@.subrange(0, cleaned@.len() as int) =~= cleaned@);
    let (a, b) = trim_bounds(cleaned.as_slice(), 0, cleaned.len());
    let end = if b - a <= MAX_STEM_CHARS {
        b
    } else {
        a + MAX_STEM_CHARS
    };
    assert(cleaned@.subrange(a as int, end as int) =~= cap(trim(mapped), MAX_STEM_CHARS as nat));
    let (c, d) = trim_bounds(cleaned.as_slice(), a, end);
    if c == d {
        fallback.to_owned()
    } else {
        string_of(cleaned.as_slice(), c, d)
    }
}

/// Every character of `trim_start(s)` comes from `s`, and it is no longer.
proof fn lemma_trim_start_within(s: Seq<char>)
    ensures
        trim_start(s).len() <= s.len(),
        forall|i: int| 0 <= i < trim_start(s).len() ==> s.contains(#[trigger] trim_start(s)[i]),
    decreases s.len(),
{
    if s.len() > 0 && white_space(s[0]) {
        lemma_trim_start_within(s.drop_first());
        assert forall|i: int| 0 <= i < trim_start(s).len() implies s.contains(#[trigger] trim_start(s)[i]) by {
            let x = trim_start(s)[i];
            assert(s.drop_first().contains(x));
            let k = choose|k: int| 0 <= k < s.drop_first().len() && s.drop_first()[k] == x;
            assert(s[k + 1] == x);
        }
    } else {
        assert forall|i: int| 0 <= i < s.len() implies s.contains(#[trigger] s[i]) by {}
    }
}

/// Every character of `trim_end(s)` comes from `s`, and it is no longer.
proof fn lemma_trim_end_within(s: Seq<char>)
    ensures
        trim_end(s).len() <= s.len(),
        forall|i: int| 0 <= i < trim_end(s).len() ==> s.contains(#[trigger] trim_end(s)[i]),
    decreases s.len(),
{
    if s.len() > 0 && white_space(s.last()) {
        lemma_trim_end_within(s.drop_last());
        assert forall|i: int| 0 <= i < trim_end(s).len() implies s.contains(#[trigger] trim_end(s)[i]) by {
            let x = trim_end(s)[i];
            assert(s.drop_last().contains(x));
            let k = choose|k: int| 0 <= k < s.drop_last().len() && s.drop_last()[k] == x;
            assert(s[k] == x);
        }
    } else {
        assert forall|i: int| 0 <= i < s.len() implies s.contains(#[trigger] s[i]) by {}
    }
}

/// A stem made from an untrusted title is one safe path component: at
/// most [`MAX_STEM_CHARS`] characters, none of them a path separator or a
/// dot, and never empty; otherwise it is the fallback.
pub proof fn lemma_safe_stem_is_one_component(name: Seq<char>, fallback: Seq<char>)
    ensures
        ({
            let r = safe_stem_spec(name, fallback);
            ||| r == fallback
            ||| {
                &&& 0 < r.len() <= MAX_STEM_CHARS
                &&& forall|i: int| 0 <= i < r.len() ==> stem_keeps(#[trigger] r[i])
                &&& forall|i: int| 0 <= i < r.len() ==> #[trigger] r[i] != '/' && r[i] != '\\' && r[i] != '.'
            }
        }),
{
    let mapped = name.map_values(|c: char| stem_char(c));
    let t1 = trim(mapped);
    let c1 = cap(t1, MAX_STEM_CHARS as nat);
    let r = trim(c1);
    lemma_trim_start_within(mapped);
    lemma_trim_end_within(trim_start(mapped));
    lemma_trim_start_within(c1);
    lemma_trim_end_within(trim_start(c1));
    assert forall|i: int| 0 <= i < r.len() implies stem_keeps(#[trigger] r[i]) by {
        let x = r[i];
        assert(trim_start(c1).contains(x));
        let k1 = choose|k: int| 0 <= k < trim_start(c1).len() && trim_start(c1)[k] == x;
        assert(c1.contains(trim_start(c1)[k1]));
        let k2 = choose|k: int| 0 <= k < c1.len() && c1[k] == x;
        assert(t1.contains(x)) by {
            if t1.len() > MAX_STEM_CHARS {
                assert(t1[k2] == x);
            }
        }
        let k3 = choose|k: int| 0 <= k < t1.len() && t1[k] == x;
        assert(trim_start(mapped).contains(t1[k3]));
        let k4 = choose|k: int| 0 <= k < trim_start(mapped).len() && trim_start(mapped)[k] == x;
        assert(mapped.contains(trim_start(mapped)[k4]));
        let k5 = choose|k: int| 0 <= k < mapped.len() && mapped[k] == x;
        assert(x == stem_char(name[k5]));
    }
    assert forall|i: int| 0 <= i < r.len() implies #[trigger] r[i] != '/' && r[i] != '\\' && r[i] != '.' by {
        assert(stem_keeps(r[i]));
    }
}

/// `Path::join` on Unix, as text: an absolute `file` replaces `dir`;
/// otherwise `file` follows `dir`, after a `/` unless `dir` is empty or
/// already ends in one.
pub open spec fn joined(dir: Seq<char>, file: Seq<char>) -> Seq<char> {
    if file.len() > 0 && file[0] == '/' {
        file
    } else if dir.len() == 0 || dir.last() == '/' {
        dir + file
    } else {
        dir + seq!['/'] + file
    }
}

/// `p` without what `Path::components` normalises away at its end:
/// trailing separators and `.` pieces.
pub open spec fn strip_tail(p: Seq<char>) -> Seq<char>
    decreases p.len(),
{
    if p.len() == 0 {
        p
    } else if p.last() == '/' {
        strip_tail(p.drop_last())
    } else if p.last() == '.' && (p.len() == 1 || p[p.len() - 2] == '/') {
        strip_tail(p.drop_last())
    } else {
        p
    }
}

/// Where the last piece of `q` starts: just after its last separator.
pub open spec fn piece_start(q: Seq<char>) -> int
    decreases q.len(),
{
    if q.len() == 0 {
        0
    } else if q.last() == '/' {
        q.len() as int
    } else {
        piece_start(q.drop_last())
    }
}

/// `Path::file_name` on Unix, as text: the path's last component when it is
/// a normal one (`None` for an empty path, a root, `.` or `..`).
pub open spec fn file_name_of(path: Seq<char>) -> Option<Seq<char>> {
    let q = strip_tail(path);
    let name = q.subrange(piece_start(q), q.len() as int);
    if q.len() == 0 || name == seq!['.', '.'] {
        None
    } else {
        Some(name)
    }
}

/// The index of the last `.` in `n`, or `-1`.
pub open spec fn last_dot(n: Seq<char>) -> int
    decreases n.len(),
{
    if n.len() == 0 {
        -1
    } else if n.last() == '.' {
        n.len() - 1
    } else {
        last_dot(n.drop_last())
    }
}

/// `Path::extension` on Unix, as text: what follows the file name's last
/// `.`, unless that `.` starts the name or there is none.
pub open spec fn extension_of(path: Seq<char>) -> Option<Seq<char>> {
    match file_name_of(path) {
        Some(n) => if last_dot(n) <= 0 {
            None
        } else {
            Some(n.subrange(last_dot(n) + 1, n.len() as int))
        },
        None => None,
    }
}

/// `Path::file_stem` on Unix, as text: the file name before its last `.`,
/// or the whole name when that `.` starts it or there is none.
pub open spec fn file_stem_of(path: Seq<char>) -> Option<Seq<char>> {
    match file_name_of(path) {
        Some(n) => if last_dot(n) <= 0 {
            Some(n)
        } else {
            Some(n.subrange(0, last_dot(n)))
        },
        None => None,
    }
}

/// An optional string as plain characters.
pub open spec fn opt_chars(s: Option<String>) -> Option<Seq<char>> {
    match s {
        Some(t) => Some(t@),
        None => None,
    }
}

/// The path of `file` inside `dir`, as `Path::join` gives it on Unix.
fn join_path(dir: &str, file: &str) -> (p: String)
    ensures
        p@ == joined(dir@, file@),
{
    let d = chars_of(dir);
    let f = chars_of(file);
    if f.len() > 0 && f[0] == '/' {
        return file.to_owned();
    }
    let mut out = dir.to_owned();
    if d.len() > 0 && d[d.len() - 1] != '/' {
        push_char(&mut out, '/');
    }
    let ghost start = out@;
    let mut i: usize = 0;
    while i < f.len()
        invariant
            0 <= i <= f@.len(),
            out@ == start + f@.take(i as int),
        decreases f@.len() - i,
    {
        push_char(&mut out, f[i]);
        assert(f@.take(i + 1) =~= f@.take(i as int).push(f@[i as int]));
        i = i + 1;
    }
    assert(f@.take(f@.len() as int) =~= f@);
    proof {
        if d@.len() > 0 && d@[d@.len() - 1] != '/' {
            assert(start =~= dir@ + seq!['/']);
        } else {
            assert(start =~= dir@);
        }
    }
    out
}

/// The bounds of the path's file name in `p`, as `Path::file_name` finds
/// it on Unix.
fn file_name_bounds(p: &[char]) -> (r: Option<(usize, usize)>)
    ensures
        match r {
            Some((a, b)) => a <= b <= p@.len() && file_name_of(p@) == Some(p@.subrange(a as int, b as int)),
            None => file_name_of(p@) is None,
        },
{
    let mut e: usize = p.len();
    assert(p@.take(p@.len() as int) =~= p@);
    while e > 0 && (p[e - 1] == '/' || (p[e - 1] == '.' && (e == 1 || p[e - 2] == '/')))
        invariant
            0 <= e <= p@.len(),
            strip_tail(p@.take(e as int)) == strip_tail(p@),
        decreases e,
    {
        assert(p@.take(e as int).drop_last() =~= p@.take(e - 1));
        e = e - 1;
    }
    assert(strip_tail(p@.take(e as int)) == p@.take(e as int));
    let ghost q = p@.take(e as int);
    let mut k: usize = e;
    assert(q.take(e as int) =~= q);
    while k > 0 && p[k - 1] != '/'
        invariant
            0 <= k <= e <= p@.len(),
            q == p@.take(e as int),
            piece_start(q.take(k as int)) == piece_start(q),
        decreases k,
    {
        assert(q.take(k as int).drop_last() =~= q.take(k - 1));
        k = k - 1;
    }
    assert(piece_start(q.take(k as int)) == k as int);
    assert(q.subrange(k as int, e as int) =~= p@.subrange(k as int, e as int));
    if e == 0 || (e - k == 2 && p[k] == '.' && p[k + 1] == '.') {
        proof {
            if e > 0 {
                assert(q.subrange(k as int, e as int) =~= seq!['.', '.']);
            }
        }
        return None;
    }
    proof {
        if q.subrange(k as int, e as int) == seq!['.', '.'] {
            assert(q.subrange(k as int, e as int).len() == 2);
            assert(q.subrange(k as int, e as int)[0] == p@[k as int]);
            assert(q.subrange(k as int, e as int)[1] == p@[k + 1]);
        }
    }
    Some((k, e))
}

/// The index of the last `.` in `n[from..to]`, relative to `from`.
fn last_dot_in(n: &[char], from: usize, to: usize) -> (d: Option<usize>)
    requires
        from <= to <= n@.len(),
    ensures
        match d {
            Some(i) => i as int == last_dot(n@.subrange(from as int, to as int)) && i < to - from,
            None => last_dot(n@.subrange(from as int, to as int)) == -1,
        },
{
    let ghost w = n@.subrange(from as int, to as int);
    let mut k: usize = to;
    assert(w.take(to - from) =~= w);
    while k > from && n[k - 1] != '.'
        invariant
            from <= k <= to,
            to <= n@.len(),
            w == n@.subrange(from as int, to as int),
            last_dot(w.take(k - from)) == last_dot(w),
        decreases k,
    {
        assert(w.take(k - from).drop_last() =~= w.take(k - from - 1));
        k = k - 1;
    }
    if k == from {
        assert(w.take(0) =~= Seq::<char>::empty());
        None
    } else {
        assert(w.take(k - from).last() == n@[k - 1]);
        Some(k - 1 - from)
    }
}

/// The extension of `path`'s file name, as `Path::extension` gives it.
fn path_extension(path: &str) -> (e: Option<String>)
    ensures
        opt_chars(e) == extension_of(path@),
{
    let p = chars_of(path);
    match file_name_bounds(p.as_slice()) {
        None => None,
        Some((a, b)) => {
            let ghost n = p@.subrange(a as int, b as int);
            match last_dot_in(p.as_slice(), a, b) {
                Some(d) if d > 0 => {
                    assert(n.subrange(d + 1, n.len() as int) =~= p@.subrange(a + d + 1, b as int));
                    Some(string_of(p.as_slice(), a + d + 1, b))
                },
                _ => None,
            }
        },
    }
}

/// The stem of `file`'s file name, as `Path::file_stem` gives it.
fn path_file_stem(file: &str) -> (s: Option<String>)
    ensures
        opt_chars(s) == file_stem_of(file@),
{
    let p = chars_of(file);
    match file_name_bounds(p.as_slice()) {
        None => None,
        Some((a, b)) => {
            let ghost n = p@.subrange(a as int, b as int);
            match last_dot_in(p.as_slice(), a, b) {
                Some(d) if d > 0 => {
                    assert(n.subrange(0, d as int) =~= p@.subrange(a as int, a + d));
                    Some(string_of(p.as_slice(), a, a + d))
                },
                _ => Some(string_of(p.as_slice(), a, b)),
            }
        },
    }
}

/// `s[..k]` is the first piece of `s`: the characters before its first
/// separator (or all of them), and not empty.
pub open spec fn first_piece(s: Seq<char>, k: int) -> bool {
    &&& 0 < k <= s.len()
    &&& forall|i: int| 0 <= i < k ==> s[i] != '/'
    &&& (k == s.len() || s[k] == '/')
}

/// A piece that `Path::components` yields as `Component::Normal`: neither
/// `.` nor `..` (a leading `.` is `CurDir`, a `..` is `ParentDir`).
pub open spec fn normal_piece(p: Seq<char>) -> bool {
    p != seq!['.'] && p != seq!['.', '.']
}

/// What follows the first piece yields no component: only separators and
/// lone `.` pieces, which `Path::components` normalises away.
pub open spec fn ignorable_tail(t: Seq<char>) -> bool {
    &&& forall|i: int| 0 <= i < t.len() ==> t[i] == '/' || t[i] == '.'
    &&& forall|i: int| 0 <= i < t.len() - 1 ==> !(#[trigger] t[i] == '.' && t[i + 1] == '.')
}

/// `Path::components` yields exactly one `Component::Normal` for `name`:
/// no root, no leading `.`, one piece that is neither `.` nor `..`, and
/// after it only separators and `.` pieces (repeated separators and `.`
/// pieces past the start are normalised away).
pub open spec fn single_normal_component(name: Seq<char>) -> bool {
    exists|k: int|
        #![trigger first_piece(name, k)]
        first_piece(name, k) && normal_piece(name.subrange(0, k)) && ignorable_tail(name.subrange(k, name.len() as int))
}

proof fn lemma_first_piece_unique(s: Seq<char>, k: int, k2: int)
    requires
        first_piece(s, k),
        first_piece(s, k2),
    ensures
        k == k2,
{
    if k < k2 {
        assert(s[k] != '/');
    } else if k2 < k {
        assert(s[k2] != '/');
    }
}

/// Whether `name` is a plain file name: exactly one normal path component,
/// so joining it to a folder names a direct child of that folder. The
/// read/delete boundary for a name that comes from outside.
pub fn is_plain_file_name(name: &str) -> (ok: bool)
    ensures
        ok == single_normal_component(name@),
{
    let s = chars_of(name);
    let n = s.len();
    let mut k: usize = 0;
    while k < n && s[k] != '/'
        invariant
            0 <= k <= n,
            n == s@.len(),
            forall|i: int| 0 <= i < k ==> s@[i] != '/',
        decreases n - k,
    {
        k = k + 1;
    }
    if k == 0 {
        proof {
            if single_normal_component(name@) {
                let k2 = choose|k2: int| #![trigger first_piece(name@, k2)]
                    first_piece(name@, k2) && normal_piece(name@.subrange(0, k2)) && ignorable_tail(
                        name@.subrange(k2, name@.len() as int),
                    );
                assert(s@[0] != '/');
            }
        }
        return false;
    }
    assert(first_piece(s@, k as int));
    if (k == 1 && s[0] == '.') || (k == 2 && s[0] == '.' && s[1] == '.') {
        proof {
            if single_normal_component(name@) {
                let k2 = choose|k2: int| #![trigger first_piece(name@, k2)]
                    first_piece(name@, k2) && normal_piece(name@.subrange(0, k2)) && ignorable_tail(
                        name@.subrange(k2, name@.len() as int),
                    );
                lemma_first_piece_unique(s@, k as int, k2);
                if k == 1 {
                    assert(name@.subrange(0, 1) =~= seq!['.']);
                } else {
                    assert(name@.subrange(0, 2) =~= seq!['.', '.']);
                }
            }
        }
        return false;
    }
    assert(normal_piece(s@.subrange(0, k as int))) by {
        if k == 1 {
            assert(s@.subrange(0, 1)[0] != '.');
        } else if k == 2 {
            assert(s@.subrange(0, 2)[0] != '.' || s@.subrange(0, 2)[1] != '.');
        } else {
            assert(s@.subrange(0, k as int).len() != 1 && s@.subrange(0, k as int).len() != 2);
        }
    }
    let mut j: usize = k;
    while j < n
        invariant
            k <= j <= n,
            n == s@.len(),
            s@ == name@,
            first_piece(s@, k as int),
            forall|i: int| k <= i < j ==> s@[i] == '/' || s@[i] == '.',
            forall|i: int| k <= i < j - 1 ==> !(#[trigger] s@[i] == '.' && s@[i + 1] == '.'),
        decreases n - j,
    {
        let c = s[j];
        if (c != '/' && c != '.') || (c == '.' && j > k && s[j - 1] == '.') {
            proof {
                if single_normal_component(name@) {
                    let k2 = choose|k2: int| #![trigger first_piece(name@, k2)]
                        first_piece(name@, k2) && normal_piece(name@.subrange(0, k2)) && ignorable_tail(
                            name@.subrange(k2, name@.len() as int),
                        );
                    lemma_first_piece_unique(s@, k as int, k2);
                    let t = name@.subrange(k as int, n as int);
                    assert(t[j - k] == s@[j as int]);
                    if c == '.' && j > k && s@[j - 1] == '.' {
                        assert(t[j - k - 1] == s@[j - 1]);
                    }
                }
            }
            return false;
        }
        j = j + 1;
    }
    proof {
        let t = s@.subrange(k as int, n as int);
        assert forall|i: int| 0 <= i < t.len() implies t[i] == '/' || t[i] == '.' by {
            assert(t[i] == s@[k + i]);
        }
        assert forall|i: int| 0 <= i < t.len() - 1 implies !(#[trigger] t[i] == '.' && t[i + 1] == '.') by {
            assert(t[i] == s@[k + i]);
            assert(t[i + 1] == s@[k + i + 1]);
        }
        assert(first_piece(name@, k as int));
    }
    true
}

/// The digit character of `d`.
pub open spec fn digit_char(d: nat) -> char {
    ((d + 48) as u8) as char
}

/// The decimal numeral of `n`.
pub open spec fn decimal(n: nat) -> Seq<char>
    decreases n,
{
    if n < 10 {
        seq![digit_char(n)]
    } else {
        decimal(n / 10).push(digit_char(n % 10))
    }
}

/// Append the decimal numeral of `n` to `s`.
fn push_decimal(s: &mut String, n: u32)
    ensures
        final(s)@ == old(s)@ + decimal(n as nat),
    decreases n,
{
    if n >= 10 {
        push_decimal(s, n / 10);
    }
    let d: u8 = (n % 10) as u8;
    push_char(s, (d + 48) as char);
    assert(final(s)@ =~= old(s)@ + decimal(n as nat));
}

/// The file name of take `n`: `<stem>.wav` for the first, then
/// `<stem> (n).wav`.
pub open spec fn take_file_name(stem: Seq<char>, n: nat) -> Seq<char> {
    if n == 1 {
        stem + seq!['.', 'w', 'a', 'v']
    } else {
        stem + seq![' ', '('] + decimal(n) + seq![')', '.', 'w', 'a', 'v']
    }
}

/// The file name of take `n`.
fn take_name(stem: &str, n: u32) -> (r: String)
    ensures
        r@ == take_file_name(stem@, n as nat),
{
    let mut r = stem.to_owned();
    if n != 1 {
        push_char(&mut r, ' ');
        push_char(&mut r, '(');
        push_decimal(&mut r, n);
        push_char(&mut r, ')');
    }
    push_char(&mut r, '.');
    push_char(&mut r, 'w');
    push_char(&mut r, 'a');
    push_char(&mut r, 'v');
    assert(r@ =~= take_file_name(stem@, n as nat));
    r
}

/// The candidate path of take `n` inside `dir`.
pub open spec fn take_path(dir: Seq<char>, stem: Seq<char>, n: nat) -> Seq<char> {
    joined(dir, take_file_name(stem, n))
}

/// `taken` was asked about a path spelled `path` and answered `answer`.
pub open spec fn answered<F: Fn(&str) -> bool>(taken: F, path: Seq<char>, answer: bool) -> bool {
    exists|q: &str| q@ == path && #[trigger] call_ensures(taken, (q,), answer)
}

/// A non-clobbering path inside `dir`: `<stem>.wav`, else `<stem> (2).wav`,
/// `<stem> (3).wav`, up to [`MAX_TAKE_SUFFIX`]: the first candidate `taken`
/// reports free. `None` when every candidate is taken, so the caller errors
/// rather than overwriting an earlier take.
pub fn unique_wav_path<F: Fn(&str) -> bool>(dir: &str, stem: &str, taken: F) -> (r: Option<String>)
    requires
        forall|q: &str| taken.requires((q,)),
    ensures
        r is None ==> forall|n: nat| 1 <= n <= MAX_TAKE_SUFFIX ==> answered(taken, #[trigger] take_path(dir@, stem@, n), true),
        r matches Some(p) ==> exists|n: nat|
            {
                &&& 1 <= n <= MAX_TAKE_SUFFIX
                &&& p@ == take_path(dir@, stem@, n)
                &&& answered(taken, p@, false)
                &&& forall|m: nat| 1 <= m < n ==> answered(taken, #[trigger] take_path(dir@, stem@, m), true)
            },
{
    let mut n: u32 = 1;
    while n <= MAX_TAKE_SUFFIX
        invariant
            1 <= n <= MAX_TAKE_SUFFIX + 1,
            forall|q: &str| taken.requires((q,)),
            forall|m: nat| 1 <= m < n ==> answered(taken, #[trigger] take_path(dir@, stem@, m), true),
        decreases MAX_TAKE_SUFFIX + 1 - n,
    {
        let name = take_name(stem, n);
        let candidate = join_path(dir, name.as_str());
        let in_use = taken(candidate.as_str());
        if !in_use {
            assert(answered(taken, candidate@, false));
            let ghost k = n as nat;
            assert(candidate@ == take_path(dir@, stem@, k));
            assert(forall|m: nat| 1 <= m < k ==> answered(taken, #[trigger] take_path(dir@, stem@, m), true));
            return Some(candidate);
        }
        assert(answered(taken, take_path(dir@, stem@, n as nat), true));
        n = n + 1;
    }
    None
}

/// The path of the registry inside a library folder.
pub fn registry_path(dir: &str) -> (p: String)
    ensures
        p@ == joined(dir@, REGISTRY_FILE@),
{
    join_path(dir, REGISTRY_FILE)
}

/// The ASCII lowercase of `c` (other characters unchanged).
pub open spec fn ascii_lower(c: char) -> char {
    if 'A' <= c && c <= 'Z' {
        ((c as u32) + 32) as char
    } else {
        c
    }
}

/// The audio extensions a scan surfaces, in lowercase.
pub open spec fn audio_extensions() -> Seq<Seq<char>> {
    seq![
        seq!['w', 'a', 'v'],
        seq!['m', 'p', '3'],
        seq!['f', 'l', 'a', 'c'],
        seq!['m', '4', 'a'],
        seq!['o', 'g', 'g'],
        seq!['a', 'i', 'f'],
        seq!['a', 'i', 'f', 'f'],
    ]
}

/// Whether a path's extension is one of the audio extensions, compared
/// case-insensitively (ASCII).
pub open spec fn is_audio_extension(ext: Option<Seq<char>>) -> bool {
    match ext {
        Some(e) => audio_extensions().contains(e.map_values(|c: char| ascii_lower(c))),
        None => false,
    }
}

fn ascii_lower_of(c: char) -> (r: char)
    ensures
        r == ascii_lower(c),
{
    if 'A' <= c && c <= 'Z' {
        ((c as u32) + 32) as u8 as char
    } else {
        c
    }
}

/// Whether `a` spells `b`.
fn chars_equal(a: &[char], b: &[char]) -> (r: bool)
    ensures
        r == (a@ == b@),
{
    if a.len() != b.len() {
        return false;
    }
    let mut i: usize = 0;
    while i < a.len()
        invariant
            0 <= i <= a@.len(),
            a@.len() == b@.len(),
            forall|k: int| 0 <= k < i ==> a@[k] == b@[k],
        decreases a@.len() - i,
    {
        if a[i] != b[i] {
            return false;
        }
        i = i + 1;
    }
    assert(a@ =~= b@);
    true
}

/// Whether `path` has one of the audio extensions (`wav`, `mp3`, `flac`,
/// `m4a`, `ogg`, `aif`, `aiff`), compared case-insensitively, so a file
/// dropped in by hand in any of these formats is picked up.
pub fn is_audio_file(path: &str) -> (b: bool)
    ensures
        b == is_audio_extension(extension_of(path@)),
{
    let ext = match path_extension(path) {
        Some(e) => e,
        None => {
            return false;
        },
    };
    let chars = chars_of(ext.as_str());
    let mut lower: Vec<char> = Vec::new();
    let mut i: usize = 0;
    while i < chars.len()
        invariant
            0 <= i <= chars@.len(),
            lower@ == chars@.take(i as int).map_values(|c: char| ascii_lower(c)),
        decreases chars@.len() - i,
    {
        lower.push(ascii_lower_of(chars[i]));
        assert(chars@.take(i + 1).map_values(|c: char| ascii_lower(c)) =~= chars@.take(i as int).map_values(
            |c: char| ascii_lower(c),
        ).push(ascii_lower(chars@[i as int])));
        i = i + 1;
    }
    assert(chars@.take(chars@.len() as int) =~= chars@);
    assert(lower@ == ext@.map_values(|c: char| ascii_lower(c)));
    let known: [&[char]; 7] = [
        &['w', 'a', 'v'],
        &['m', 'p', '3'],
        &['f', 'l', 'a', 'c'],
        &['m', '4', 'a'],
        &['o', 'g', 'g'],
        &['a', 'i', 'f'],
        &['a', 'i', 'f', 'f'],
    ];
    let mut k: usize = 0;
    while k < 7
        invariant
            0 <= k <= 7,
            forall|j: int| 0 <= j < 7 ==> (#[trigger] known@[j])@ == audio_extensions()[j],
            lower@ == ext@.map_values(|c: char| ascii_lower(c)),
            extension_of(path@) == Some(ext@),
            forall|j: int| 0 <= j < k ==> lower@ != audio_extensions()[j],
        decreases 7 - k,
    {
        if chars_equal(lower.as_slice(), known[k]) {
            assert(audio_extensions()[k as int] == lower@);
            assert(audio_extensions().contains(lower@));
            return true;
        }
        k = k + 1;
    }
    false
}

/// The display title of a hand-added file: its name without the extension.
pub fn title_from_file(file: &str) -> (t: String)
    ensures
        t@ == match file_stem_of(file@) {
            Some(s) => s,
            None => file@,
        },
{
    match path_file_stem(file) {
        Some(s) => s,
        None => file.to_owned(),
    }
}

} // verus!
