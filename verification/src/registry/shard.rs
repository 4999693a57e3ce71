//! Where a crate stands in an index. The index is spread over directories by the first
//! letters of the crate's name in lower case.

use vstd::prelude::*;
use vstd::utf8::*;

use crate::text;
use crate::text::{byte_len, slice_bytes};

verus! {

/// A lower-case name that has a place in an index: its directories are named by its
/// leading bytes, so it must be long enough, and these bytes must be whole characters.
pub open spec fn shardable(lower: Seq<char>) -> bool {
    let n = encode_utf8(lower).len();
    ||| n == 1
    ||| n == 2
    ||| n == 3 && text::cuts_at(lower, 1)
    ||| n >= 4 && text::cuts_at(lower, 2) && text::cuts_at(lower, 4)
}

/// The directory in which a crate's index file stands, as one part or two.
pub open spec fn shard_of(lower: Seq<char>) -> (Seq<char>, Option<Seq<char>>) {
    let n = encode_utf8(lower).len();
    if n == 1 {
        ("1"@, None)
    } else if n == 2 {
        ("2"@, None)
    } else if n == 3 {
        ("3"@, Some(text::byte_slice(lower, 0, 1)))
    } else {
        (text::byte_slice(lower, 0, 2), Some(text::byte_slice(lower, 2, 4)))
    }
}

/// Whether a lower-case name has a place in an index.
pub fn is_shardable(lower: &str) -> (yes: bool)
    ensures
        yes == shardable(lower@),
{
    let n = byte_len(lower);
    n == 1 || n == 2 || (n == 3 && lower.is_char_boundary(1)) || (n >= 4 && lower.is_char_boundary(
        2,
    ) && lower.is_char_boundary(4))
}

/// The directory in which a crate's index file stands.
pub fn shard<'a>(lower: &'a str) -> (parts: (&'a str, Option<&'a str>))
    requires
        shardable(lower@),
    ensures
        parts.0@ == shard_of(lower@).0,
        text::opt_str(parts.1) == shard_of(lower@).1,
{
    let n = byte_len(lower);
    if n == 1 {
        ("1", None)
    } else if n == 2 {
        ("2", None)
    } else if n == 3 {
        proof {
            lemma_cuts_at_start(lower@);
        }
        ("3", Some(slice_bytes(lower, 0, 1)))
    } else {
        proof {
            lemma_cuts_at_start(lower@);
        }
        (slice_bytes(lower, 0, 2), Some(slice_bytes(lower, 2, 4)))
    }
}

/// Text can be cut before its first byte.
pub proof fn lemma_cuts_at_start(s: Seq<char>)
    ensures
        text::cuts_at(s, 0),
{
    encode_utf8_valid_utf8(s);
    is_char_boundary_start_end_of_seq(encode_utf8(s));
}

/// Every name in ASCII has a place in an index, and its directories are named by its
/// first characters.
pub proof fn law_ascii_names_have_a_place(lower: Seq<char>)
    requires
        is_ascii_chars(lower),
        lower.len() > 0,
    ensures
        shardable(lower),
        lower.len() == 1 ==> shard_of(lower) == ("1"@, None::<Seq<char>>),
        lower.len() == 2 ==> shard_of(lower) == ("2"@, None::<Seq<char>>),
        lower.len() == 3 ==> shard_of(lower) == ("3"@, Some(lower.take(1))),
        lower.len() > 3 ==> shard_of(lower) == (lower.take(2), Some(lower.subrange(2, 4))),
{
    let n = lower.len() as int;
    text::lemma_ascii_bytes(lower, 0, n);
    if n == 3 {
        text::lemma_ascii_bytes(lower, 0, 1);
    }
    if n > 3 {
        text::lemma_ascii_bytes(lower, 0, 2);
        text::lemma_ascii_bytes(lower, 2, 4);
    }
}

} // verus!
