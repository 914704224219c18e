use vstd::prelude::*;

use crate::model::is_alnum_char;
use crate::model::valid_alias;

verus! {

/// Number of characters in every generated alias.
pub const ALIAS_LEN: usize = 6;

/// Multiplier of the 64-bit FNV-1a hash.
pub const FNV_PRIME: u64 = 0x100000001b3;

/// Offset basis of the 64-bit FNV-1a hash.
pub const FNV_OFFSET: u64 = 0xcbf29ce484222325;

/// Size of the alias alphabet: the decimal digits and both cases of the
/// latin letters.
pub const ALPHABET_SIZE: u64 = 62;

/// One FNV-1a round: fold a value into the running hash.
pub open spec fn mix(h: u64, v: u64) -> u64 {
    (h ^ v).wrapping_mul(FNV_PRIME)
}

/// Hash of the first `n` characters of `s`, starting from the offset basis.
pub open spec fn hash_prefix(s: Seq<char>, n: int) -> u64
    decreases n,
{
    if n <= 0 {
        FNV_OFFSET
    } else {
        mix(hash_prefix(s, n - 1), s[n - 1] as u64)
    }
}

/// Hash of a whole character sequence.
pub open spec fn hash_chars(s: Seq<char>) -> u64 {
    hash_prefix(s, s.len() as int)
}

/// The hash state a candidate is derived from: the URL hash folded with the
/// salt and then with the attempt number, so that every retry draws a fresh
/// candidate.
pub open spec fn candidate_state(salt: u64, url: Seq<char>, attempt: u64) -> u64 {
    mix(mix(hash_chars(url), salt), attempt)
}

/// Digit `i` (0-based) of a candidate: ten bits of the hash state, reduced
/// to the alphabet size.
pub open spec fn digit_at(h: u64, i: int) -> u64 {
    (h >> ((10 * i) as u64)) % ALPHABET_SIZE
}

/// The alphabet character for digit `d`: '0'-'9', then 'a'-'z', then 'A'-'Z'.
pub open spec fn alphabet_char(d: u64) -> char {
    if d < 10 {
        (('0' as u8 + d as u8) as u8) as char
    } else if d < 36 {
        (('a' as u8 + (d - 10) as u8) as u8) as char
    } else {
        (('A' as u8 + (d - 36) as u8) as u8) as char
    }
}

/// The candidate alias drawn for a given salt, long URL and attempt number.
pub open spec fn candidate_seq(salt: u64, url: Seq<char>, attempt: u64) -> Seq<char> {
    Seq::new(
        ALIAS_LEN as nat,
        |i: int| alphabet_char(digit_at(candidate_state(salt, url, attempt), i)),
    )
}

/// Every alphabet character is alphanumeric.
pub proof fn lemma_alphabet_char_alnum(d: u64)
    requires
        d < ALPHABET_SIZE,
    ensures
        is_alnum_char(alphabet_char(d)),
{
}

/// Every candidate is a well-formed alias of exactly `ALIAS_LEN` characters.
pub proof fn lemma_candidate_valid(salt: u64, url: Seq<char>, attempt: u64)
    ensures
        candidate_seq(salt, url, attempt).len() == ALIAS_LEN,
        valid_alias(candidate_seq(salt, url, attempt)),
{
    let c = candidate_seq(salt, url, attempt);
    assert forall|i: int| 0 <= i < c.len() implies is_alnum_char(#[trigger] c[i]) by {
        lemma_alphabet_char_alnum(digit_at(candidate_state(salt, url, attempt), i));
    }
}

/// Relies on `String::push`: appends the given character to the end of the
/// string.
#[verifier::external_body]
fn push_char(s: &mut String, c: char)
    ensures
        final(s)@ == old(s)@.push(c),
{
    s.push(c);
}

/// Produces candidate aliases. The salt is injected at construction — from
/// the caller's source of randomness, if any — so that generation itself is
/// a pure function of its inputs and carries no hidden state.
pub struct AliasGenerator {
    /// Value folded into every candidate, fixed at construction.
    pub salt: u64,
}

impl AliasGenerator {
    /// A generator around the given salt.
    pub fn new(salt: u64) -> (r: AliasGenerator)
        ensures
            r.salt == salt,
    {
        AliasGenerator { salt }
    }

    /// The candidate alias for this long URL and attempt number: a pure
    /// function of the salt and both arguments. Any candidate may collide
    /// with a stored alias; the manager checks every one against the store.
    pub fn candidate(&self, long_url: &str, attempt: u64) -> (r: String)
        ensures
            r@ == candidate_seq(self.salt, long_url@, attempt),
            r@.len() == ALIAS_LEN,
            valid_alias(r@),
    {
        let h0 = hash_str(long_url);
        let h1 = (h0 ^ self.salt).wrapping_mul(FNV_PRIME);
        let h = (h1 ^ attempt).wrapping_mul(FNV_PRIME);
        let ghost cand = candidate_seq(self.salt, long_url@, attempt);
        let mut out = String::new();
        let mut i: usize = 0;
        while i < ALIAS_LEN
            invariant
                i <= ALIAS_LEN,
                h == candidate_state(self.salt, long_url@, attempt),
                cand == candidate_seq(self.salt, long_url@, attempt),
                out@ =~= cand.subrange(0, i as int),
            decreases ALIAS_LEN - i,
        {
            let shift: u64 = (10 * i) as u64;
            let d: u64 = (h >> shift) % ALPHABET_SIZE;
            let c = alphabet_char_of(d);
            push_char(&mut out, c);
            proof {
                assert(cand[i as int] == alphabet_char(digit_at(h, i as int)));
                assert(out@ =~= cand.subrange(0, i + 1));
            }
            i += 1;
        }
        proof {
            assert(out@ =~= cand);
            lemma_candidate_valid(self.salt, long_url@, attempt);
        }
        out
    }
}

/// FNV-1a over the characters of a string.
fn hash_str(s: &str) -> (r: u64)
    ensures
        r == hash_chars(s@),
{
    let n = s.unicode_len();
    let mut h: u64 = FNV_OFFSET;
    let mut i: usize = 0;
    while i < n
        invariant
            n == s@.len(),
            i <= n,
            h == hash_prefix(s@, i as int),
        decreases n - i,
    {
        let c = s.get_char(i);
        h = (h ^ (c as u64)).wrapping_mul(FNV_PRIME);
        i += 1;
    }
    h
}

/// The executable counterpart of [`alphabet_char`].
fn alphabet_char_of(d: u64) -> (r: char)
    requires
        d < ALPHABET_SIZE,
    ensures
        r == alphabet_char(d),
{
    if d < 10 {
        ('0' as u8 + d as u8) as char
    } else if d < 36 {
        ('a' as u8 + (d as u8 - 10)) as char
    } else {
        ('A' as u8 + (d as u8 - 36)) as char
    }
}

} // verus!
