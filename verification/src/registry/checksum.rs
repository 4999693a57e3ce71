//! The checksum of a crate file.

use vstd::prelude::*;

use crate::outside;

verus! {

/// The character that writes a number below sixteen.
pub open spec fn hex_char(d: int) -> char {
    if d < 10 {
        ('0' as u32 + d) as char
    } else {
        ('a' as u32 + (d - 10)) as char
    }
}

/// Bytes in lower-case hexadecimal, two characters for each.
pub open spec fn hex(data: Seq<u8>) -> Seq<char> {
    Seq::new(
        2 * data.len(),
        |i: int|
            if i % 2 == 0 {
                hex_char(data[i / 2] as int / 16)
            } else {
                hex_char(data[i / 2] as int % 16)
            },
    )
}

/// The checksum of a crate file: its SHA-256 digest in hexadecimal.
pub open spec fn checksum_of(data: Seq<u8>) -> Seq<char> {
    hex(outside::sha256_of(data))
}

/// A number below sixteen as a hexadecimal digit.
fn hex_text(d: u8) -> (t: &'static str)
    requires
        d < 16,
    ensures
        t@ == seq![hex_char(d as int)],
{
    proof {
        reveal_strlit("0");
        reveal_strlit("1");
        reveal_strlit("2");
        reveal_strlit("3");
        reveal_strlit("4");
        reveal_strlit("5");
        reveal_strlit("6");
        reveal_strlit("7");
        reveal_strlit("8");
        reveal_strlit("9");
        reveal_strlit("a");
        reveal_strlit("b");
        reveal_strlit("c");
        reveal_strlit("d");
        reveal_strlit("e");
        reveal_strlit("f");
    }
    let t: &'static str = match d {
        0 => "0",
        1 => "1",
        2 => "2",
        3 => "3",
        4 => "4",
        5 => "5",
        6 => "6",
        7 => "7",
        8 => "8",
        9 => "9",
        10 => "a",
        11 => "b",
        12 => "c",
        13 => "d",
        14 => "e",
        _ => "f",
    };
    assert(t@ =~= seq![hex_char(d as int)]);
    t
}

/// Writes bytes in hexadecimal.
pub fn to_hex(data: &[u8]) -> (t: String)
    ensures
        t@ == hex(data@),
{
    let mut t = String::new();
    let mut i: usize = 0;
    assert(t@ =~= hex(data@.take(0)));
    while i < data.len()
        invariant
            i <= data@.len(),
            t@ == hex(data@.take(i as int)),
        decreases data@.len() - i,
    {
        let b = data[i];
        t.append(hex_text(b / 16));
        t.append(hex_text(b % 16));
        proof {
            let now = data@.take(i + 1);
            assert(t@ =~= hex(now)) by {
                assert forall|k: int| 0 <= k < 2 * (i + 1) implies t@[k] == hex(now)[k] by {
                    if k < 2 * i {
                        assert(t@[k] == hex(data@.take(i as int))[k]);
                    }
                }
            }
        }
        i = i + 1;
    }
    assert(data@.take(data@.len() as int) =~= data@);
    t
}

/// Computes the checksum of a crate file. It is always 64 characters long.
pub fn checksum(data: &[u8]) -> (t: String)
    ensures
        t@ == checksum_of(data@),
        t@ == hex(outside::sha256_of(data@)),
        t@.len() == 64,
{
    let digest = outside::sha256(data);
    to_hex(digest.as_slice())
}

} // verus!
