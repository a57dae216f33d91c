use vstd::prelude::*;
use std::collections::hash_map::DefaultHasher;
use std::hash::BuildHasher;
use std::hash::BuildHasherDefault;

use crate::text::push_char;

verus! {

/// The digest that std's default hasher, as created by `DefaultHasher::new`,
/// gives a text.
pub uninterp spec fn digest_of(text: Seq<char>) -> u64;

/// Relies on `BuildHasher::hash_one` over `DefaultHasher`: a hasher with fixed
/// keys, so equal texts give equal digests within one build of the program.
#[verifier::external_body]
fn text_digest(text: &str) -> (r: u64)
    ensures
        r == digest_of(text@),
{
    BuildHasherDefault::<DefaultHasher>::default().hash_one(text)
}

/// The character of a decimal digit.
pub open spec fn digit_char(d: nat) -> char {
    if d == 0 {
        '0'
    } else if d == 1 {
        '1'
    } else if d == 2 {
        '2'
    } else if d == 3 {
        '3'
    } else if d == 4 {
        '4'
    } else if d == 5 {
        '5'
    } else if d == 6 {
        '6'
    } else if d == 7 {
        '7'
    } else if d == 8 {
        '8'
    } else {
        '9'
    }
}

/// The decimal rendering of `n`, without leading zeros.
pub open spec fn decimal(n: nat) -> Seq<char>
    decreases n,
{
    if n < 10 {
        seq![digit_char(n)]
    } else {
        decimal(n / 10).push(digit_char(n % 10))
    }
}

/// The file name under which the audio for a normalized text is stored.
pub open spec fn entry_name(normalized: Seq<char>) -> Seq<char> {
    decimal(digest_of(normalized) as nat)
}

fn digit_to_char(d: u64) -> (c: char)
    requires
        d < 10,
    ensures
        c == digit_char(d as nat),
{
    if d == 0 {
        '0'
    } else if d == 1 {
        '1'
    } else if d == 2 {
        '2'
    } else if d == 3 {
        '3'
    } else if d == 4 {
        '4'
    } else if d == 5 {
        '5'
    } else if d == 6 {
        '6'
    } else if d == 7 {
        '7'
    } else if d == 8 {
        '8'
    } else {
        '9'
    }
}

/// Appends the decimal rendering of `n`.
fn push_decimal(out: &mut String, n: u64)
    ensures
        final(out)@ == old(out)@ + decimal(n as nat),
    decreases n,
{
    if n >= 10 {
        push_decimal(out, n / 10);
    }
    push_char(out, digit_to_char(n % 10));
    assert(final(out)@ =~= old(out)@ + decimal(n as nat));
}

/// The decimal rendering of `n`.
pub fn decimal_string(n: u64) -> (r: String)
    ensures
        r@ == decimal(n as nat),
{
    let mut out = String::new();
    push_decimal(&mut out, n);
    assert(out@ =~= decimal(n as nat));
    out
}

/// The cache key of a normalized text.
pub fn cache_key(normalized: &str) -> (r: u64)
    ensures
        r == digest_of(normalized@),
{
    text_digest(normalized)
}

/// The name of the cache entry that holds the audio for a normalized text.
pub fn cache_entry_name(normalized: &str) -> (r: String)
    ensures
        r@ == entry_name(normalized@),
{
    decimal_string(cache_key(normalized))
}

/// What to do with one normalized text, given what the cache holds under its
/// entry name.
#[derive(Debug, PartialEq, Eq)]
pub enum CachePlan {
    /// The entry exists: play these bytes, with no call to the service.
    Play(Vec<u8>),
    /// The entry is missing: synthesize, store under this name, then play.
    Synthesize(String),
}

/// The cache as a map from entry name to stored audio.
pub type Store = Map<Seq<char>, Seq<u8>>;

/// Whether resolving `normalized` against `store` calls the service.
pub open spec fn needs_synthesis(store: Store, normalized: Seq<char>) -> bool {
    !store.contains_key(entry_name(normalized))
}

/// The cache after resolving `normalized`, where a call to the service would
/// return `fresh`: a missing entry is stored, an existing one is kept.
pub open spec fn store_after(store: Store, normalized: Seq<char>, fresh: Seq<u8>) -> Store {
    if needs_synthesis(store, normalized) {
        store.insert(entry_name(normalized), fresh)
    } else {
        store
    }
}

/// The audio that resolving `normalized` against `store` plays.
pub open spec fn audio_played(store: Store, normalized: Seq<char>, fresh: Seq<u8>) -> Seq<u8> {
    store_after(store, normalized, fresh)[entry_name(normalized)]
}

/// Decides how a normalized text is resolved, given the stored entry under its
/// name, if any.
pub fn plan_resolution(normalized: &str, stored: Option<Vec<u8>>) -> (r: CachePlan)
    ensures
        match stored {
            Some(bytes) => r == CachePlan::Play(bytes),
            None => r matches CachePlan::Synthesize(name) && name@ == entry_name(normalized@),
        },
{
    match stored {
        Some(bytes) => CachePlan::Play(bytes),
        None => CachePlan::Synthesize(cache_entry_name(normalized)),
    }
}

/// Resolving the same normalized text twice plays the same audio both times,
/// and the second resolution never calls the service: the first stored what it
/// synthesized under the text's entry name.
pub proof fn lemma_resolution_idempotent(
    store: Store,
    normalized: Seq<char>,
    fresh1: Seq<u8>,
    fresh2: Seq<u8>,
)
    ensures
        !needs_synthesis(store_after(store, normalized, fresh1), normalized),
        audio_played(store_after(store, normalized, fresh1), normalized, fresh2) == audio_played(
            store,
            normalized,
            fresh1,
        ),
        store_after(store_after(store, normalized, fresh1), normalized, fresh2) == store_after(
            store,
            normalized,
            fresh1,
        ),
{
}

} // verus!
