//! What the library has from other crates.

use crate::text::{
    string_of,
};
use vstd::prelude::*;

verus! {

// ── Digests ──────────────────────────────────────────────────────────────────

/// The SHA-256 digest of some bytes, as `sha2::Sha256::digest` gives it.
pub uninterp spec fn sha256_of(bytes: Seq<u8>) -> Seq<u8>;

/// `sha2::Sha256::digest`: the SHA-256 digest of `bytes`, which has 32 bytes.
#[verifier::external_body]
pub(crate) fn sha256(bytes: &[u8]) -> (r: Vec<u8>)
    ensures
        r@ == sha256_of(bytes@),
        r@.len() == 32,
{
    <sha2::Sha256 as sha2::Digest>::digest(bytes).to_vec()
}

/// The hexadecimal digit of value `d`, in small letters.
pub open spec fn hex_digit(d: nat) -> char {
    if d < 10 {
        ('0' as u32 + d) as char
    } else {
        ('a' as u32 + (d - 10)) as char
    }
}

/// Bytes in hexadecimal, two digits each.
pub open spec fn hex(bytes: Seq<u8>) -> Seq<char> {
    Seq::new(
        2 * bytes.len(),
        |i: int|
            if i % 2 == 0 {
                hex_digit((bytes[i / 2] / 16) as nat)
            } else {
                hex_digit((bytes[i / 2] % 16) as nat)
            },
    )
}

fn hex_char(d: u8) -> (r: char)
    requires
        d < 16,
    ensures
        r == hex_digit(d as nat),
{
    if d < 10 {
        (48u8 + d) as char
    } else {
        (97u8 + (d - 10)) as char
    }
}

/// The first `n` bytes in hexadecimal.
pub fn hex_of(bytes: &[u8], n: usize) -> (r: String)
    requires
        n <= bytes@.len(),
    ensures
        r@ == hex(bytes@.take(n as int)),
{
    let mut out: Vec<char> = Vec::new();
    let mut i: usize = 0;
    assert(out@ =~= hex(bytes@.take(0)));
    while i < n
        invariant
            i <= n <= bytes@.len(),
            out@ == hex(bytes@.take(i as int)),
        decreases n - i,
    {
        let b: u8 = bytes[i];
        let ghost done = out@;
        out.push(hex_char(b / 16));
        out.push(hex_char(b % 16));
        i += 1;
        assert(out@ =~= hex(bytes@.take(i as int))) by {
            let now = bytes@.take(i as int);
            assert forall|k: int| 0 <= k < 2 * i implies out@[k] == #[trigger] hex(now)[k] by {
                if k < 2 * (i - 1) {
                    assert(done[k] == hex(bytes@.take(i - 1))[k]);
                }
            }
        }
    }
    string_of(out.as_slice())
}

// ── JSON ─────────────────────────────────────────────────────────────────────

/// The pairs of a list.
pub open spec fn pairs(v: Seq<(String, String)>) -> Seq<(Seq<char>, Seq<char>)> {
    Seq::new(v.len(), |i: int| (v[i].0@, v[i].1@))
}

/// What `serde_json::from_str` makes of a text as a map from texts to texts, its
/// entries in the order of their keys; or its complaint.
pub uninterp spec fn json_pairs(raw: Seq<char>) -> Result<Seq<(Seq<char>, Seq<char>)>, Seq<char>>;

/// `serde_json::from_str` into a `BTreeMap<String, String>`: the entries in the
/// order of their keys, or the error's own words.
#[verifier::external_body]
pub(crate) fn parse_json_pairs(raw: &str) -> (r: Result<Vec<(String, String)>, String>)
    ensures
        match r {
            Ok(v) => json_pairs(raw@) == Ok::<Seq<(Seq<char>, Seq<char>)>, Seq<char>>(pairs(v@)),
            Err(e) => json_pairs(raw@) == Err::<Seq<(Seq<char>, Seq<char>)>, Seq<char>>(e@),
        },
{
    match serde_json::from_str::<std::collections::BTreeMap<String, String>>(raw) {
        Ok(map) => Ok(map.into_iter().collect()),
        Err(e) => Err(e.to_string()),
    }
}

// ── Hashes ───────────────────────────────────────────────────────────────────

/// `std::hash::BuildHasher::hash_one` with the default hasher, over a text. The algorithm is not fixed from one
/// release of std to the next, so nothing is claimed of the number.
#[verifier::external_body]
pub(crate) fn default_hash(t: &str) -> (r: u64) {
    std::hash::BuildHasher::hash_one(
        &std::hash::BuildHasherDefault::<std::hash::DefaultHasher>::default(),
        t,
    )
}

} // verus!
