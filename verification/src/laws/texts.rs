//! Text: characters, pieces, lines, numbers and bytes.

use vstd::prelude::*;
use vstd::utf8::*;

use crate::text;

verus! {

/// Texts are seen as they are: all of them, in order, and each in full.
pub proof fn law_texts_are_seen_in_full(list: Seq<String>, s: String, t: &str)
    ensures
        text::views(list).len() == list.len(),
        forall|i: int| 0 <= i < list.len() ==> #[trigger] text::views(list)[i] == list[i]@,
        text::opt_view(Some(s)) == Some(s@),
        text::opt_view(None) is None,
        text::opt_str(Some(t)) == Some(t@),
        text::opt_str(None) is None,
{
}

/// A character may stand in a name exactly where its code is that of an ASCII digit or
/// letter, or of the hyphen or the underscore.
pub proof fn law_name_characters_by_code(c: char)
    ensures
        text::is_name_char(c) <==> {
            let code = c as int;
            ||| 0x30 <= code <= 0x39
            ||| 0x41 <= code <= 0x5a
            ||| 0x61 <= code <= 0x7a
            ||| code == 0x2d
            ||| code == 0x5f
        },
        text::is_ascii_letter(c) <==> {
            let code = c as int;
            0x41 <= code <= 0x5a || 0x61 <= code <= 0x7a
        },
{
}

/// A text is made of name characters exactly where each of its characters is one: a text
/// put together of two is, where both are.
pub proof fn law_names_by_their_characters(s: Seq<char>, t: Seq<char>, c: char)
    ensures
        text::all_name_chars(Seq::empty()),
        text::all_name_chars(seq![c]) == text::is_name_char(c),
        text::all_name_chars(s + t) == (text::all_name_chars(s) && text::all_name_chars(t)),
{
    assert(seq![c][0] == c);
    assert forall|i: int| 0 <= i < s.len() implies (s + t)[i] == s[i] by {}
    assert forall|i: int| 0 <= i < t.len() implies (s + t)[s.len() + i] == t[i] by {}
    if text::all_name_chars(s + t) {
        assert forall|i: int| 0 <= i < s.len() implies #[trigger] text::is_name_char(s[i]) by {
            assert(text::is_name_char((s + t)[i]));
        }
        assert forall|i: int| 0 <= i < t.len() implies #[trigger] text::is_name_char(t[i]) by {
            assert(text::is_name_char((s + t)[s.len() + i]));
        }
    }
}

/// The codes of the characters that count as white space.
pub open spec fn white_space_codes() -> Seq<int> {
    seq![
        9, 10, 11, 12, 13, 32, 133, 160, 5760, 8192, 8193, 8194, 8195, 8196, 8197, 8198, 8199,
        8200, 8201, 8202, 8232, 8233, 8239, 8287, 12288,
    ]
}

/// White space is made of these characters and no others, and a text is blank exactly where
/// it is made of them.
pub proof fn law_white_space_by_code(c: char, s: Seq<char>, t: Seq<char>)
    ensures
        text::is_white_space(c) <==> white_space_codes().contains(c as int),
        text::blank(Seq::empty()),
        text::blank(seq![c]) == text::is_white_space(c),
        text::blank(s + t) == (text::blank(s) && text::blank(t)),
{
    let codes = white_space_codes();
    let u = c as int;
    assert(codes[0] == 9 && codes[1] == 10 && codes[2] == 11 && codes[3] == 12 && codes[4] == 13
        && codes[5] == 32 && codes[6] == 133 && codes[7] == 160 && codes[8] == 5760 && codes[9]
        == 8192 && codes[10] == 8193 && codes[11] == 8194 && codes[12] == 8195 && codes[13] == 8196
        && codes[14] == 8197 && codes[15] == 8198 && codes[16] == 8199 && codes[17] == 8200
        && codes[18] == 8201 && codes[19] == 8202 && codes[20] == 8232 && codes[21] == 8233
        && codes[22] == 8239 && codes[23] == 8287 && codes[24] == 12288);
    assert(seq![c][0] == c);
    if text::blank(s + t) {
        assert forall|i: int| 0 <= i < s.len() implies #[trigger] text::is_white_space(s[i]) by {
            assert(text::is_white_space((s + t)[i]));
        }
        assert forall|i: int| 0 <= i < t.len() implies #[trigger] text::is_white_space(t[i]) by {
            assert(text::is_white_space((s + t)[s.len() + i]));
        }
    }
}

/// Lower case is a matter of single characters: one with the code of an ASCII capital goes
/// up by thirty-two, every other stays, and none is lost.
pub proof fn law_lower_case_by_code(s: Seq<char>, i: int)
    requires
        0 <= i < s.len(),
    ensures
        text::ascii_lower(s).len() == s.len(),
        0x41 <= s[i] as int <= 0x5a ==> text::ascii_lower(s)[i] as int == s[i] as int + 0x20,
        !(0x41 <= s[i] as int <= 0x5a) ==> text::ascii_lower(s)[i] == s[i],
{
}

/// A text is cut at the first separator: what stands before it holds none, and all of the
/// text is kept. Without a separator it is not cut.
pub proof fn law_cut_at_the_first_separator(before: Seq<char>, sep: char, after: Seq<char>)
    requires
        !before.contains(sep),
    ensures
        text::split_once(before + seq![sep] + after, sep) == Some((before, after)),
        text::split_once(before, sep) is None,
{
    text::lemma_split_once_of(before, sep, after);
    text::lemma_split_once_none(before, sep);
}

/// Pieces make up the text: joined by the separator they are the text again, and none of
/// them holds it.
pub proof fn law_pieces_make_up_the_text(s: Seq<char>, sep: char)
    ensures
        text::join(text::split(s, sep), seq![sep]) == s,
        forall|i: int|
            0 <= i < text::split(s, sep).len() ==> !(#[trigger] text::split(s, sep)[i]).contains(
                sep,
            ),
        text::split(s, sep).len() > 0,
    decreases s.len(),
{
    text::lemma_split_once_shape(s, sep);
    match text::split_once(s, sep) {
        Some((before, after)) => {
            law_pieces_make_up_the_text(after, sep);
            let rest = text::split(after, sep);
            let all = text::split(s, sep);
            assert(all =~= seq![before] + rest);
            assert(all.skip(1) =~= rest);
            assert(all[0] == before);
            assert(s =~= before + seq![sep] + after);
            assert forall|i: int| 0 <= i < all.len() implies !(#[trigger] all[i]).contains(sep) by {
                if i > 0 {
                    assert(all[i] == rest[i - 1]);
                }
            }
        },
        None => {},
    }
}

/// Joining puts the separator between neighbours and nowhere else.
pub proof fn law_joined_texts(a: Seq<char>, b: Seq<Seq<char>>, sep: Seq<char>)
    ensures
        text::join(Seq::empty(), sep) == Seq::<char>::empty(),
        text::join(seq![a], sep) == a,
        b.len() > 0 ==> text::join(seq![a] + b, sep) == a + sep + text::join(b, sep),
{
    assert((seq![a] + b).skip(1) =~= b);
}

/// A line ends with a line feed, which a carriage return may precede; the last may end
/// without. No line holds a line feed.
pub proof fn law_lines_end_with_line_feeds(line: Seq<char>, rest: Seq<char>)
    requires
        !line.contains('\n'),
    ensures
        text::lines(Seq::empty()) == Seq::<Seq<char>>::empty(),
        line.len() > 0 ==> text::lines(line) == seq![line],
        (line.len() == 0 || line.last() != '\r') ==> text::lines(line + seq!['\n'] + rest) == seq![line]
            + text::lines(rest),
        text::lines(line + seq!['\r', '\n'] + rest) == seq![line] + text::lines(rest),
{
    text::lemma_split_once_none(Seq::<char>::empty(), '\n');
    text::lemma_split_once_none(line, '\n');
    text::lemma_split_once_of(line, '\n', rest);
    let with_cr = line.push('\r');
    assert forall|i: int| 0 <= i < with_cr.len() implies with_cr[i] != '\n' by {
        if i < line.len() {
            assert(line.contains(line[i]));
        }
    }
    text::lemma_split_once_of(with_cr, '\n', rest);
    assert(line + seq!['\r', '\n'] + rest =~= with_cr + seq!['\n'] + rest);
    assert(with_cr.drop_last() =~= line);
    assert(text::lines(Seq::empty()) =~= Seq::<Seq<char>>::empty());
}

/// What a sequence of decimal digits is worth.
pub open spec fn worth(digits: Seq<char>) -> int
    decreases digits.len(),
{
    if digits.len() == 0 {
        0
    } else {
        10 * worth(digits.drop_last()) + (digits.last() as int - 0x30)
    }
}

/// A number is written in digits that are worth it, without leading zeros.
pub proof fn law_written_numbers_are_worth_themselves(n: nat)
    ensures
        worth(text::decimal(n)) == n,
        text::decimal(n).len() > 0,
        forall|i: int|
            0 <= i < text::decimal(n).len() ==> 0x30 <= #[trigger] text::decimal(n)[i] as int
                <= 0x39,
        text::decimal(n).len() > 1 ==> text::decimal(n)[0] as int != 0x30,
        n > 0 ==> text::decimal(n)[0] as int != 0x30,
    decreases n,
{
    let t = text::decimal(n);
    if n < 10 {
        assert(t.drop_last() =~= Seq::empty());
        assert(worth(t.drop_last()) == 0);
    } else {
        let head = text::decimal(n / 10);
        law_written_numbers_are_worth_themselves(n / 10);
        assert(t.drop_last() =~= head);
        assert forall|i: int| 0 <= i < t.len() implies 0x30 <= #[trigger] t[i] as int <= 0x39 by {
            if i < head.len() {
                assert(t[i] == head[i]);
            }
        }
        assert(t[0] == head[0]);
    }
}

/// What is left once every leading copy of a prefix is gone does not begin with it, and
/// what went before are copies of it.
pub proof fn law_leading_copies_are_dropped(s: Seq<char>, prefix: Seq<char>)
    requires
        prefix.len() > 0,
    ensures
        !prefix.is_prefix_of(text::trim_start_all(s, prefix)),
        text::trim_start_all(prefix + s, prefix) == text::trim_start_all(s, prefix),
        !prefix.is_prefix_of(s) ==> text::trim_start_all(s, prefix) == s,
    decreases s.len(),
{
    let all = prefix + s;
    assert(all.subrange(0, prefix.len() as int) =~= prefix);
    assert(all.skip(prefix.len() as int) =~= s);
    if prefix.is_prefix_of(s) {
        law_leading_copies_are_dropped(s.skip(prefix.len() as int), prefix);
    }
}

/// What is left once every trailing copy of a suffix is gone does not end with it, and what
/// came after are copies of it.
pub proof fn law_trailing_copies_are_dropped(s: Seq<char>, suffix: Seq<char>)
    requires
        suffix.len() > 0,
    ensures
        !suffix.is_suffix_of(text::trim_end_all(s, suffix)),
        text::trim_end_all(s + suffix, suffix) == text::trim_end_all(s, suffix),
        !suffix.is_suffix_of(s) ==> text::trim_end_all(s, suffix) == s,
    decreases s.len(),
{
    let all = s + suffix;
    assert(all.subrange(all.len() - suffix.len(), all.len() as int) =~= suffix);
    assert(all.take(all.len() - suffix.len()) =~= s);
    if suffix.is_suffix_of(s) {
        law_trailing_copies_are_dropped(s.take(s.len() - suffix.len()), suffix);
    }
}

/// A part stands in a text exactly where the text is something, the part, and something.
pub proof fn law_parts_stand_in_the_text(s: Seq<char>, part: Seq<char>)
    ensures
        text::includes(s, part) <==> exists|before: Seq<char>, after: Seq<char>|
            s == #[trigger] ((before + part) + after),
{
    if text::includes(s, part) {
        let i = choose|i: int|
            0 <= i <= s.len() - part.len() && #[trigger] s.subrange(i, i + part.len()) == part;
        assert(s =~= (s.take(i) + part) + s.skip(i + part.len()));
    }
    if exists|before: Seq<char>, after: Seq<char>| s == #[trigger] ((before + part) + after) {
        let (before, after) = choose|before: Seq<char>, after: Seq<char>|
            s == #[trigger] ((before + part) + after);
        let i = before.len() as int;
        assert(s.subrange(i, i + part.len()) =~= part);
    }
}

/// The bytes of two texts put together are the bytes of the one and then of the other.
pub proof fn lemma_bytes_of_both(a: Seq<char>, b: Seq<char>)
    ensures
        encode_utf8(a + b) == encode_utf8(a) + encode_utf8(b),
    decreases a.len(),
{
    if a.len() == 0 {
        assert(a + b =~= b);
        assert(encode_utf8(a) + encode_utf8(b) =~= encode_utf8(b));
    } else {
        assert((a + b).drop_first() =~= a.drop_first() + b);
        lemma_bytes_of_both(a.drop_first(), b);
        assert(encode_utf8(a + b) =~= encode_utf8(a) + encode_utf8(b));
    }
}

/// Text can be cut between two characters, by counting bytes: the bytes of a part hold
/// that part.
pub proof fn law_bytes_of_a_part_hold_the_part(a: Seq<char>, b: Seq<char>, c: Seq<char>)
    ensures
        ({
            let s = a + b + c;
            let from = encode_utf8(a).len() as int;
            let to = from + encode_utf8(b).len();
            &&& text::cuts_at(s, from)
            &&& text::cuts_at(s, to)
            &&& text::byte_slice(s, from, to) == b
        }),
{
    let s = a + b + c;
    let from = encode_utf8(a).len() as int;
    let to = from + encode_utf8(b).len();
    lemma_bytes_of_both(a + b, c);
    lemma_bytes_of_both(a, b);
    assert(encode_utf8(s).subrange(from, to) =~= encode_utf8(b));
    encode_utf8_decode_utf8(b);
    assert(s =~= a + (b + c));
    lemma_cut_between(a, b + c);
    lemma_cut_between(a + b, c);
}

/// Text can be cut between two characters.
proof fn lemma_cut_between(a: Seq<char>, b: Seq<char>)
    ensures
        text::cuts_at(a + b, encode_utf8(a).len() as int),
    decreases a.len(),
{
    let bytes = encode_utf8(a + b);
    lemma_bytes_of_both(a, b);
    encode_utf8_valid_utf8(a + b);
    encode_utf8_valid_utf8(b);
    let at = encode_utf8(a).len() as int;
    if b.len() == 0 {
        assert(encode_utf8(b).len() == 0);
        is_char_boundary_start_end_of_seq(bytes);
    } else {
        is_char_boundary_start_end_of_seq(encode_utf8(b));
        encode_utf8_first_scalar(b);
        is_char_boundary_iff_not_is_continuation_byte(encode_utf8(b), 0);
        is_char_boundary_iff_not_is_continuation_byte(bytes, at);
        assert(bytes[at] == encode_utf8(b)[0]);
    }
}

/// Where text can be cut, it is the two parts.
pub proof fn law_cut_text_is_two_parts(s: Seq<char>, at: int)
    requires
        text::cuts_at(s, at),
    ensures
        ({
            let n = encode_utf8(s).len() as int;
            let before = text::byte_slice(s, 0, at);
            let after = text::byte_slice(s, at, n);
            &&& before + after == s
            &&& encode_utf8(before).len() == at
        }),
{
    let bytes = encode_utf8(s);
    encode_utf8_valid_utf8(s);
    encode_utf8_decode_utf8(s);
    valid_utf8_split(bytes, at);
    decode_utf8_split(bytes, at);
    decode_utf8_encode_utf8(bytes.subrange(0, at));
}

} // verus!
