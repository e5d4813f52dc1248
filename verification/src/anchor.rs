//! Anchor registry: deterministic hashing of symbol URIs into 64-bit raw
//! identifiers, and derivation of short human-readable anchor strings.
//!
//! All graph linkage is keyed by the 64-bit identifier; the anchor string is
//! only the materialized name. Registration is first-writer-wins, so a symbol
//! URI revisited across documents keeps its original anchor.

use std::collections::HashMap;
use vstd::prelude::*;

use crate::text;

verus! {

broadcast use vstd::std_specs::hash::group_hash_axioms;

/// The 64-bit digest that the hashing routine assigns to a byte sequence and
/// seed. Named, not defined: the digest is a pure function of its inputs.
pub uninterp spec fn xxh64_of(input: Seq<u8>, seed: u64) -> u64;

/// Relies on `xxhash_rust::xxh64::xxh64`: the digest depends on the input
/// bytes and the seed alone, and the call never panics.
#[verifier::external_body]
fn xxh64_exec(input: &[u8], seed: u64) -> (h: u64)
    ensures
        h == xxh64_of(input@, seed),
{
    xxhash_rust::xxh64::xxh64(input, seed)
}

/// Raw identifier of a symbol URI: the seed-0 digest of its UTF-8 bytes.
pub open spec fn uri_hash(s: Seq<char>) -> u64 {
    xxh64_of(vstd::utf8::encode_utf8(s), 0)
}

/// Hash a symbol URI string into its raw 64-bit identifier.
pub fn hash_uri(s: &str) -> (h: u64)
    ensures
        h == uri_hash(s@),
{
    xxh64_exec(s.as_bytes(), 0)
}

/// Hashing is deterministic: equal symbol URIs always map to the same raw
/// identifier, in this run and in any other.
pub proof fn lemma_hash_deterministic(s1: Seq<char>, s2: Seq<char>)
    requires
        s1 == s2,
    ensures
        uri_hash(s1) == uri_hash(s2),
{
}

/// Lowercase hexadecimal digit for a value below 16.
pub open spec fn hex_digit(d: int) -> char {
    if d == 0 {
        '0'
    } else if d == 1 {
        '1'
    } else if d == 2 {
        '2'
    } else if d == 3 {
        '3'
    } else if d == 4 {
        '4'
    } else if d == 5 {
        '5'
    } else if d == 6 {
        '6'
    } else if d == 7 {
        '7'
    } else if d == 8 {
        '8'
    } else if d == 9 {
        '9'
    } else if d == 10 {
        'a'
    } else if d == 11 {
        'b'
    } else if d == 12 {
        'c'
    } else if d == 13 {
        'd'
    } else if d == 14 {
        'e'
    } else {
        'f'
    }
}

fn hex_digit_exec(d: u64) -> (c: char)
    requires
        d < 16,
    ensures
        c == hex_digit(d as int),
{
    if d == 0 {
        '0'
    } else if d == 1 {
        '1'
    } else if d == 2 {
        '2'
    } else if d == 3 {
        '3'
    } else if d == 4 {
        '4'
    } else if d == 5 {
        '5'
    } else if d == 6 {
        '6'
    } else if d == 7 {
        '7'
    } else if d == 8 {
        '8'
    } else if d == 9 {
        '9'
    } else if d == 10 {
        'a'
    } else if d == 11 {
        'b'
    } else if d == 12 {
        'c'
    } else if d == 13 {
        'd'
    } else if d == 14 {
        'e'
    } else {
        'f'
    }
}

/// Hexadecimal rendering of a number, lowercase, without leading zeros.
pub open spec fn hex_seq(n: int) -> Seq<char>
    decreases n,
{
    if n < 16 {
        seq![hex_digit(n)]
    } else {
        hex_seq(n / 16).push(hex_digit(n % 16))
    }
}

fn hex_chars(n: u64) -> (v: Vec<char>)
    ensures
        v@ == hex_seq(n as int),
    decreases n,
{
    if n < 16 {
        let mut v: Vec<char> = Vec::new();
        v.push(hex_digit_exec(n));
        proof {
            assert(v@ =~= hex_seq(n as int));
        }
        v
    } else {
        let mut v = hex_chars(n / 16);
        v.push(hex_digit_exec(n % 16));
        v
    }
}

/// The anchor derived from a name hint and a raw identifier: the hint, an
/// underscore, and the first four hexadecimal digits of the identifier.
pub open spec fn anchor_of(name: Seq<char>, id: u64) -> Seq<char> {
    let hex = hex_seq(id as int);
    let short = if hex.len() <= 4 {
        hex
    } else {
        hex.subrange(0, 4)
    };
    name + seq!['_'] + short
}

/// Derive the anchor string for a name hint and a raw identifier.
pub fn generate_anchor(name: &str, id: u64) -> (r: String)
    ensures
        r@ == anchor_of(name@, id),
{
    let hex = hex_chars(id);
    let mut out = text::chars_of(name);
    out.push('_');
    let mut i: usize = 0;
    let take = if hex.len() <= 4 {
        hex.len()
    } else {
        4
    };
    while i < take
        invariant
            take <= hex@.len(),
            i <= take,
            out@ == name@ + seq!['_'] + hex@.subrange(0, i as int),
        decreases take - i,
    {
        out.push(hex[i]);
        proof {
            assert(name@ + seq!['_'] + hex@.subrange(0, i + 1) =~= (name@ + seq!['_']
                + hex@.subrange(0, i as int)).push(hex@[i as int]));
        }
        i += 1;
    }
    proof {
        if hex@.len() <= 4 {
            assert(hex@.subrange(0, hex@.len() as int) =~= hex@);
        }
        assert(out@ =~= anchor_of(name@, id));
    }
    text::string_from_chars(&out)
}

/// What a first-writer-wins registration leaves in the registry.
pub open spec fn registered(m: Map<u64, Seq<char>>, id: u64, anchor: Seq<char>) -> Map<
    u64,
    Seq<char>,
> {
    if m.contains_key(id) {
        m
    } else {
        m.insert(id, anchor)
    }
}

/// Registration never overwrites: a second registration of the same raw
/// identifier leaves the registry exactly as the first left it, whatever
/// anchor the second offered.
pub proof fn lemma_first_writer_wins(m: Map<u64, Seq<char>>, id: u64, a1: Seq<char>, a2: Seq<char>)
    ensures
        registered(registered(m, id, a1), id, a2) == registered(m, id, a1),
        registered(m, id, a1).contains_key(id),
        registered(m, id, a1)[id] == if m.contains_key(id) {
            m[id]
        } else {
            a1
        },
{
}

/// The registry mapping raw 64-bit identifiers to their anchor strings.
pub struct AnchorRegistry {
    map: HashMap<u64, String>,
}

impl View for AnchorRegistry {
    type V = Map<u64, Seq<char>>;

    closed spec fn view(&self) -> Map<u64, Seq<char>> {
        self.map@.map_values(|s: String| s@)
    }
}

impl AnchorRegistry {
    /// An empty registry.
    pub fn new() -> (r: Self)
        ensures
            r@ == Map::<u64, Seq<char>>::empty(),
    {
        let r = AnchorRegistry { map: HashMap::new() };
        proof {
            assert(r@ =~= Map::<u64, Seq<char>>::empty());
        }
        r
    }

    /// Whether a raw identifier is already registered.
    pub fn contains(&self, id: u64) -> (r: bool)
        ensures
            r == self@.contains_key(id),
    {
        let r = self.map.contains_key(&id);
        proof {
            assert(self@.contains_key(id) == self.map@.contains_key(id));
        }
        r
    }

    /// Register an anchor for a raw identifier, first-writer-wins.
    pub fn register(&mut self, id: u64, anchor: String)
        ensures
            final(self)@ == registered(old(self)@, id, anchor@),
    {
        if !self.map.contains_key(&id) {
            let ghost before = self.map@;
            self.map.insert(id, anchor);
            proof {
                assert(self@ =~= before.map_values(|s: String| s@).insert(id, anchor@));
            }
        } else {
            proof {
                assert(self@.contains_key(id));
            }
        }
    }

    /// Look up the anchor registered for a raw identifier.
    pub fn get(&self, id: u64) -> (r: Option<&String>)
        ensures
            match r {
                Some(a) => self@.contains_key(id) && a@ == self@[id],
                None => !self@.contains_key(id),
            },
    {
        let r = self.map.get(&id);
        proof {
            assert(self@.contains_key(id) == self.map@.contains_key(id));
            if self.map@.contains_key(id) {
                assert(self@[id] == self.map@[id]@);
            }
        }
        r
    }

    /// Look up an anchor, or derive a fresh one from the given hint when the
    /// identifier was never registered.
    pub fn get_or_generate(&self, id: u64, hint: &str) -> (r: String)
        ensures
            r@ == if self@.contains_key(id) {
                self@[id]
            } else {
                anchor_of(hint@, id)
            },
    {
        match self.get(id) {
            Some(a) => a.clone(),
            None => generate_anchor(hint, id),
        }
    }
}

} // verus!
