use vstd::prelude::*;
use vstd::std_specs::hash::DefaultHasherAdditionalSpecFns;
use vstd::utf8::encode_utf8;
use std::collections::hash_map::DefaultHasher;
use std::hash::Hasher;

verus! {

/// Fingerprint token of a byte sequence: the digest the default hasher
/// produces after one write of exactly those bytes. The hasher's digest is
/// a fixed function of the bytes written, so equal byte sequences yield
/// equal tokens, across calls and across process runs.
pub open spec fn fingerprint_of(bytes: Seq<u8>) -> u64 {
    DefaultHasher::spec_finish(seq![bytes])
}

/// Fingerprint token of a block's content string, taken over its UTF-8
/// encoding.
pub open spec fn content_fingerprint(content: Seq<char>) -> u64 {
    fingerprint_of(encode_utf8(content))
}

/// Deterministic content fingerprint used to detect no-op writes.
///
/// The result is pinned to `content_fingerprint`, a function of the bytes
/// alone, so repeated calls on equal content always agree.
pub fn fingerprint(content: &str) -> (token: u64)
    ensures
        token == content_fingerprint(content@),
{
    let mut hasher = DefaultHasher::new();
    hasher.write(content.as_bytes());
    hasher.finish()
}

} // verus!
