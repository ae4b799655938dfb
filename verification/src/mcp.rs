//! The rules of the local MCP server: the bearer token that guards it (its
//! shape, how a persisted one is read back, how a request's header is
//! judged) and the wire names of the sample engines it can ask for.

use vstd::prelude::*;

use crate::library::{chars_of, push_char, string_of, trim, trim_bounds};

verus! {

/// Random bytes in a token.
pub const TOKEN_BYTES: usize = 32;

/// The Stable Audio 3 pad engines the generation server exposes.
#[derive(Debug, Clone, Copy, PartialEq, Eq, Structural)]
pub enum Sa3Kind {
    Sfx,
    Music,
}

impl Sa3Kind {
    /// The wire value the generation server validates against.
    pub fn as_str(self) -> (s: &'static str)
        ensures
            self == Sa3Kind::Sfx ==> s@ == seq!['s', 'f', 'x'],
            self == Sa3Kind::Music ==> s@ == seq!['m', 'u', 's', 'i', 'c'],
    {
        match self {
            Sa3Kind::Sfx => {
                proof {
                    reveal_strlit("sfx");
                }
                "sfx"
            },
            Sa3Kind::Music => {
                proof {
                    reveal_strlit("music");
                }
                "music"
            },
        }
    }
}

/// The lowercase hex digit of a nibble.
pub open spec fn hex_digit(n: int) -> char {
    if n < 10 {
        ((n + 48) as u8) as char
    } else {
        ((n - 10 + 97) as u8) as char
    }
}

/// Bytes in lowercase hex, two digits each, high nibble first.
pub open spec fn hex_of(bytes: Seq<u8>) -> Seq<char>
    decreases bytes.len(),
{
    if bytes.len() == 0 {
        Seq::empty()
    } else {
        hex_of(bytes.drop_last()) + seq![hex_digit(bytes.last() as int / 16), hex_digit(bytes.last() as int % 16)]
    }
}

/// A lowercase hex digit.
pub open spec fn is_hex_digit(c: char) -> bool {
    ('0' <= c && c <= '9') || ('a' <= c && c <= 'f')
}

/// `rand::random` for 32 bytes: fresh randomness from the thread-local
/// generator. Nothing is claimed of the bytes.
#[verifier::external_body]
fn random_token_bytes() -> (bytes: [u8; 32]) {
    rand::random::<[u8; 32]>()
}

fn hex_char(n: u8) -> (c: char)
    requires
        n < 16,
    ensures
        c == hex_digit(n as int),
{
    if n < 10 {
        (n + 48) as char
    } else {
        (n - 10 + 97) as char
    }
}

/// Encode bytes as lowercase hex, two digits each.
pub fn hex_token(bytes: &[u8]) -> (t: String)
    ensures
        t@ == hex_of(bytes@),
{
    let mut t = String::new();
    let mut i: usize = 0;
    while i < bytes.len()
        invariant
            0 <= i <= bytes@.len(),
            t@ == hex_of(bytes@.take(i as int)),
        decreases bytes@.len() - i,
    {
        let b = bytes[i];
        push_char(&mut t, hex_char(b / 16));
        push_char(&mut t, hex_char(b % 16));
        assert(bytes@.take(i + 1).drop_last() =~= bytes@.take(i as int));
        assert(t@ =~= hex_of(bytes@.take(i + 1)));
        i = i + 1;
    }
    assert(bytes@.take(bytes@.len() as int) =~= bytes@);
    t
}

proof fn lemma_hex_shape(bytes: Seq<u8>)
    ensures
        hex_of(bytes).len() == 2 * bytes.len(),
        forall|i: int| 0 <= i < hex_of(bytes).len() ==> is_hex_digit(#[trigger] hex_of(bytes)[i]),
    decreases bytes.len(),
{
    if bytes.len() > 0 {
        lemma_hex_shape(bytes.drop_last());
        let b = bytes.last();
        assert(b / 16 < 16 && b % 16 < 16);
        let h = hex_of(bytes);
        let prefix = hex_of(bytes.drop_last());
        assert forall|i: int| 0 <= i < h.len() implies is_hex_digit(#[trigger] h[i]) by {
            if i < prefix.len() {
                assert(h[i] == prefix[i]);
            }
        }
    }
}

/// A bearer token: 32 random bytes, hex-encoded: 64 lowercase hex digits.
pub fn generate_token() -> (t: String)
    ensures
        t@.len() == 2 * TOKEN_BYTES,
        forall|i: int| 0 <= i < t@.len() ==> is_hex_digit(#[trigger] t@[i]),
{
    let bytes = random_token_bytes();
    let t = hex_token(&bytes);
    proof {
        lemma_hex_shape(bytes@);
    }
    t
}

/// The token a persisted token file holds: its trimmed contents, unless
/// that is empty (a first run or an emptied file mints a new one).
pub fn persisted_token(contents: &str) -> (t: Option<String>)
    ensures
        trim(contents@).len() == 0 ==> t is None,
        trim(contents@).len() > 0 ==> (t matches Some(s) && s@ == trim(contents@)),
{
    let chars = chars_of(contents);
    let (a, b) = trim_bounds(chars.as_slice(), 0, chars.len());
    assert(chars@.subrange(0, chars@.len() as int) =~= chars@);
    if a == b {
        None
    } else {
        Some(string_of(chars.as_slice(), a, b))
    }
}

/// The `Authorization` value that admits a request: `Bearer <token>`.
pub open spec fn bearer(token: Seq<char>) -> Seq<char> {
    seq!['B', 'e', 'a', 'r', 'e', 'r', ' '] + token
}

/// Whether a request's `Authorization` header admits it: present, and
/// exactly `Bearer <token>` for the current token.
pub fn bearer_admits(presented: Option<&str>, token: &str) -> (ok: bool)
    ensures
        ok == (presented is Some && presented->0@ == bearer(token@)),
{
    match presented {
        None => false,
        Some(p) => {
            let given = chars_of(p);
            let wanted = chars_of(token);
            let prefix = ['B', 'e', 'a', 'r', 'e', 'r', ' '];
            if given.len() < prefix.len() || given.len() - prefix.len() != wanted.len() {
                return false;
            }
            let mut i: usize = 0;
            while i < given.len()
                invariant
                    0 <= i <= given@.len(),
                    given@ == p@,
                    presented is Some && presented->0@ == p@,
                    wanted@ == token@,
                    prefix@ == seq!['B', 'e', 'a', 'r', 'e', 'r', ' '],
                    given@.len() == 7 + wanted@.len(),
                    forall|k: int| 0 <= k < i ==> given@[k] == bearer(token@)[k],
                decreases given@.len() - i,
            {
                let expected = if i < 7 {
                    prefix[i]
                } else {
                    wanted[i - 7]
                };
                assert(expected == bearer(token@)[i as int]);
                if given[i] != expected {
                    assert(given@[i as int] != bearer(token@)[i as int]);
                    return false;
                }
                i = i + 1;
            }
            assert(given@ =~= bearer(token@));
            true
        },
    }
}

} // verus!
