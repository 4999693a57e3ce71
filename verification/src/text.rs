//! Text as sequences of characters: the string operations that the rest of the
//! crate is built from, each with the sequence it computes.

use vstd::prelude::*;
use vstd::utf8::*;

verus! {

broadcast use vstd::string::group_string_axioms;

/// The views of the strings of a list.
pub open spec fn views(list: Seq<String>) -> Seq<Seq<char>> {
    list.map_values(|s: String| s@)
}

/// The view of a string that may be absent.
pub open spec fn opt_view(s: Option<String>) -> Option<Seq<char>> {
    match s {
        Some(t) => Some(t@),
        None => None,
    }
}

/// The view of a text that may be absent.
pub open spec fn opt_str(s: Option<&str>) -> Option<Seq<char>> {
    match s {
        Some(t) => Some(t@),
        None => None,
    }
}

/// Whether two strings hold the same characters.
pub fn same_text(a: &str, b: &str) -> (same: bool)
    ensures
        same == (a@ == b@),
{
    let x = a.as_bytes();
    let y = b.as_bytes();
    proof {
        encode_utf8_decode_utf8(a@);
        encode_utf8_decode_utf8(b@);
    }
    if x.len() != y.len() {
        return false;
    }
    let mut i: usize = 0;
    while i < x.len()
        invariant
            x@ == encode_utf8(a@),
            y@ == encode_utf8(b@),
            x@.len() == y@.len(),
            i <= x@.len(),
            forall|k: int| 0 <= k < i ==> x@[k] == y@[k],
        decreases x@.len() - i,
    {
        if x[i] != y[i] {
            return false;
        }
        i = i + 1;
    }
    assert(x@ =~= y@);
    true
}

/// The characters of a string.
pub fn to_chars(s: &str) -> (chars: Vec<char>)
    ensures
        chars@ == s@,
{
    let mut chars: Vec<char> = Vec::new();
    for c in it: s.chars()
        invariant
            it.seq() == s@,
            chars@ == s@.take(it.index()),
    {
        chars.push(c);
    }
    assert(s@.take(s@.len() as int) =~= s@);
    chars
}

/// The number of bytes that a string takes in UTF-8.
pub fn byte_len(s: &str) -> (n: usize)
    ensures
        n == encode_utf8(s@).len(),
{
    s.as_bytes().len()
}

/// Whether `s` begins with `prefix`.
pub fn starts_with(s: &str, prefix: &str) -> (yes: bool)
    ensures
        yes == prefix@.is_prefix_of(s@),
{
    let n = prefix.unicode_len();
    if s.unicode_len() < n {
        return false;
    }
    same_text(s.substring_char(0, n), prefix)
}

/// Whether `s` ends with `suffix`.
pub fn ends_with(s: &str, suffix: &str) -> (yes: bool)
    ensures
        yes == suffix@.is_suffix_of(s@),
{
    let n = suffix.unicode_len();
    let len = s.unicode_len();
    if len < n {
        return false;
    }
    same_text(s.substring_char(len - n, len), suffix)
}

/// The first `n` characters dropped.
pub fn skip_chars(s: &str, n: usize) -> (rest: &str)
    requires
        n <= s@.len(),
    ensures
        rest@ == s@.skip(n as int),
{
    let len = s.unicode_len();
    s.substring_char(n, len)
}

/// What is left of `s` once every leading copy of `prefix` is gone.
pub open spec fn trim_start_all(s: Seq<char>, prefix: Seq<char>) -> Seq<char>
    decreases s.len(),
{
    if prefix.len() > 0 && prefix.is_prefix_of(s) {
        trim_start_all(s.skip(prefix.len() as int), prefix)
    } else {
        s
    }
}

/// What is left of `s` once every trailing copy of `suffix` is gone.
pub open spec fn trim_end_all(s: Seq<char>, suffix: Seq<char>) -> Seq<char>
    decreases s.len(),
{
    if suffix.len() > 0 && suffix.is_suffix_of(s) {
        trim_end_all(s.take(s.len() - suffix.len()), suffix)
    } else {
        s
    }
}

/// Drops every leading copy of `prefix`.
pub fn trim_start_matches<'a>(s: &'a str, prefix: &str) -> (rest: &'a str)
    ensures
        rest@ == trim_start_all(s@, prefix@),
{
    let n = prefix.unicode_len();
    let mut rest: &'a str = s;
    if n == 0 {
        return rest;
    }
    while starts_with(rest, prefix)
        invariant
            n == prefix@.len(),
            n > 0,
            trim_start_all(rest@, prefix@) == trim_start_all(s@, prefix@),
        decreases rest@.len(),
    {
        rest = skip_chars(rest, n);
    }
    rest
}

/// Drops every trailing copy of `suffix`.
pub fn trim_end_matches<'a>(s: &'a str, suffix: &str) -> (rest: &'a str)
    ensures
        rest@ == trim_end_all(s@, suffix@),
{
    let n = suffix.unicode_len();
    let mut rest: &'a str = s;
    if n == 0 {
        return rest;
    }
    while ends_with(rest, suffix)
        invariant
            n == suffix@.len(),
            n > 0,
            trim_end_all(rest@, suffix@) == trim_end_all(s@, suffix@),
        decreases rest@.len(),
    {
        let len = rest.unicode_len();
        rest = rest.substring_char(0, len - n);
    }
    rest
}

/// Whether `part` stands somewhere in `s`.
pub open spec fn includes(s: Seq<char>, part: Seq<char>) -> bool {
    exists|i: int|
        0 <= i <= s.len() - part.len() && #[trigger] s.subrange(i, i + part.len()) == part
}

/// Whether `part` stands somewhere in `s`.
pub fn has_part(s: &str, part: &str) -> (yes: bool)
    ensures
        yes == includes(s@, part@),
{
    let len = s.unicode_len();
    let n = part.unicode_len();
    if len < n {
        return false;
    }
    let last = len - n;
    let mut i: usize = 0;
    while i < last
        invariant
            len == s@.len(),
            n == part@.len(),
            last == len - n,
            i <= last,
            forall|k: int| 0 <= k < i ==> #[trigger] s@.subrange(k, k + n) != part@,
        decreases last - i,
    {
        if same_text(s.substring_char(i, i + n), part) {
            assert(s@.subrange(i as int, i + part@.len()) == part@);
            return true;
        }
        i = i + 1;
    }
    let found = same_text(s.substring_char(last, len), part);
    assert(found ==> s@.subrange(last as int, last + part@.len()) == part@);
    found
}

/// The parts before and after the first `sep`, if there is one.
pub open spec fn split_once(s: Seq<char>, sep: char) -> Option<(Seq<char>, Seq<char>)>
    decreases s.len(),
{
    if s.len() == 0 {
        None
    } else if s[0] == sep {
        Some((Seq::empty(), s.skip(1)))
    } else {
        match split_once(s.skip(1), sep) {
            Some((before, after)) => Some((seq![s[0]] + before, after)),
            None => None,
        }
    }
}

/// Where the first `sep` stands, `split_once` cuts; without one it gives nothing.
pub proof fn lemma_split_once(s: Seq<char>, sep: char, i: int)
    requires
        0 <= i <= s.len(),
        forall|k: int| 0 <= k < i ==> s[k] != sep,
    ensures
        i < s.len() && s[i] == sep ==> split_once(s, sep) == Some((s.take(i), s.skip(i + 1))),
        i == s.len() ==> split_once(s, sep) is None,
    decreases i,
{
    if i == 0 {
        if s.len() > 0 && s[0] == sep {
            assert(s.take(0) =~= Seq::empty());
        }
    } else {
        let rest = s.skip(1);
        assert forall|k: int| 0 <= k < i - 1 implies rest[k] != sep by {
            assert(rest[k] == s[k + 1]);
        }
        lemma_split_once(rest, sep, i - 1);
        if i < s.len() && s[i] == sep {
            assert(rest[i - 1] == s[i]);
            assert(seq![s[0]] + rest.take(i - 1) =~= s.take(i));
            assert(rest.skip(i) =~= s.skip(i + 1));
        }
    }
}

/// What `split_once` gives is the text on both sides of the first separator.
pub proof fn lemma_split_once_shape(s: Seq<char>, sep: char)
    ensures
        match split_once(s, sep) {
            Some((before, after)) => {
                &&& s == before + seq![sep] + after
                &&& !before.contains(sep)
                &&& before.len() + 1 + after.len() == s.len()
            },
            None => !s.contains(sep),
        },
    decreases s.len(),
{
    if s.len() > 0 {
        lemma_split_once_shape(s.skip(1), sep);
        if s[0] == sep {
            assert(s =~= Seq::<char>::empty() + seq![sep] + s.skip(1));
        } else {
            match split_once(s.skip(1), sep) {
                Some((b, a)) => {
                    let before = seq![s[0]] + b;
                    assert(s =~= before + seq![sep] + a) by {
                        assert(s =~= seq![s[0]] + s.skip(1));
                    }
                    assert forall|k: int| 0 <= k < before.len() implies before[k] != sep by {
                        if k > 0 {
                            assert(before[k] == b[k - 1]);
                            assert(b.contains(b[k - 1]));
                        }
                    }
                },
                None => {
                    assert forall|k: int| 0 <= k < s.len() implies s[k] != sep by {
                        if k > 0 {
                            assert(s[k] == s.skip(1)[k - 1]);
                            assert(s.skip(1).contains(s.skip(1)[k - 1]));
                        }
                    }
                },
            }
        }
    }
}

/// Text joined around a separator that its first part lacks splits there again.
pub proof fn lemma_split_once_of(before: Seq<char>, sep: char, after: Seq<char>)
    requires
        !before.contains(sep),
    ensures
        split_once(before + seq![sep] + after, sep) == Some((before, after)),
{
    let s = before + seq![sep] + after;
    let i = before.len() as int;
    assert forall|k: int| 0 <= k < i implies s[k] != sep by {
        assert(s[k] == before[k]);
        assert(before.contains(before[k]));
    }
    lemma_split_once(s, sep, i);
    assert(s.take(i) =~= before);
    assert(s.skip(i + 1) =~= after);
}

/// Text without the separator does not split.
pub proof fn lemma_split_once_none(s: Seq<char>, sep: char)
    requires
        !s.contains(sep),
    ensures
        split_once(s, sep) is None,
{
    assert forall|k: int| 0 <= k < s.len() implies s[k] != sep by {
        assert(s.contains(s[k]));
    }
    lemma_split_once(s, sep, s.len() as int);
}

/// Cuts `s` at the first `sep`.
pub fn cut<'a>(s: &'a str, sep: char) -> (parts: Option<(&'a str, &'a str)>)
    ensures
        match parts {
            Some((before, after)) => split_once(s@, sep) == Some((before@, after@)),
            None => split_once(s@, sep) is None,
        },
{
    let chars = to_chars(s);
    let len = chars.len();
    let mut i: usize = 0;
    while i < len
        invariant
            chars@ == s@,
            len == chars@.len(),
            i <= len,
            forall|k: int| 0 <= k < i ==> s@[k] != sep,
        decreases len - i,
    {
        if chars[i] == sep {
            proof {
                lemma_split_once(s@, sep, i as int);
            }
            let before = s.substring_char(0, i);
            let after = s.substring_char(i + 1, len);
            assert(before@ =~= s@.take(i as int));
            assert(after@ =~= s@.skip(i + 1));
            return Some((before, after));
        }
        i = i + 1;
    }
    proof {
        lemma_split_once(s@, sep, len as int);
    }
    None
}

/// The pieces of `s` between its separators; there is always at least one.
pub open spec fn split(s: Seq<char>, sep: char) -> Seq<Seq<char>>
    decreases s.len(),
{
    match split_once(s, sep) {
        Some((before, after)) => {
            proof {
                lemma_split_once_shape(s, sep);
            }
            seq![before] + split(after, sep)
        },
        None => seq![s],
    }
}

/// The pieces of `s` between its separators.
pub fn split_on<'a>(s: &'a str, sep: char) -> (pieces: Vec<&'a str>)
    ensures
        pieces@.map_values(|p: &str| p@) == split(s@, sep),
{
    let mut pieces: Vec<&'a str> = Vec::new();
    let mut rest: &'a str = s;
    loop
        invariant_except_break
            pieces@.map_values(|p: &str| p@) + split(rest@, sep) == split(s@, sep),
        ensures
            pieces@.map_values(|p: &str| p@) == split(s@, sep),
        decreases rest@.len(),
    {
        let ghost done = pieces@.map_values(|p: &str| p@);
        proof {
            lemma_split_once_shape(rest@, sep);
        }
        match cut(rest, sep) {
            Some((before, after)) => {
                pieces.push(before);
                assert(pieces@.map_values(|p: &str| p@) =~= done.push(before@));
                assert(done.push(before@) + split(after@, sep) =~= done + split(rest@, sep));
                rest = after;
            },
            None => {
                pieces.push(rest);
                assert(pieces@.map_values(|p: &str| p@) =~= done + split(rest@, sep));
                break;
            },
        }
    }
    pieces
}

/// A line without the carriage return that ends it, if one does.
pub open spec fn strip_cr(line: Seq<char>) -> Seq<char> {
    if line.len() > 0 && line.last() == '\r' {
        line.drop_last()
    } else {
        line
    }
}

/// The lines of a text. A line ends with a line feed, which a carriage return may
/// precede; the end of the last line may be missing.
pub open spec fn lines(s: Seq<char>) -> Seq<Seq<char>>
    decreases s.len(),
{
    match split_once(s, '\n') {
        Some((line, rest)) => {
            proof {
                lemma_split_once_shape(s, '\n');
            }
            seq![strip_cr(line)] + lines(rest)
        },
        None => if s.len() == 0 {
            Seq::empty()
        } else {
            seq![s]
        },
    }
}

/// The lines of a text.
pub fn split_lines<'a>(s: &'a str) -> (found: Vec<&'a str>)
    ensures
        found@.map_values(|p: &str| p@) == lines(s@),
{
    let mut found: Vec<&'a str> = Vec::new();
    let mut rest: &'a str = s;
    loop
        invariant_except_break
            found@.map_values(|p: &str| p@) + lines(rest@) == lines(s@),
        ensures
            found@.map_values(|p: &str| p@) == lines(s@),
        decreases rest@.len(),
    {
        let ghost done = found@.map_values(|p: &str| p@);
        proof {
            lemma_split_once_shape(rest@, '\n');
        }
        match cut(rest, '\n') {
            Some((line, after)) => {
                let n = line.unicode_len();
                let line = if n > 0 && line.get_char(n - 1) == '\r' {
                    line.substring_char(0, n - 1)
                } else {
                    line
                };
                found.push(line);
                assert(found@.map_values(|p: &str| p@) =~= done.push(line@));
                assert(done.push(line@) + lines(after@) =~= done + lines(rest@));
                rest = after;
            },
            None => {
                if !rest.is_empty() {
                    found.push(rest);
                }
                assert(found@.map_values(|p: &str| p@) =~= done + lines(rest@));
                break;
            },
        }
    }
    found
}

/// The pieces of a list one after another, with `sep` between them.
pub open spec fn join(pieces: Seq<Seq<char>>, sep: Seq<char>) -> Seq<char>
    decreases pieces.len(),
{
    if pieces.len() == 0 {
        Seq::empty()
    } else if pieces.len() == 1 {
        pieces[0]
    } else {
        pieces[0] + sep + join(pieces.skip(1), sep)
    }
}

/// One more piece at the end comes behind one more separator.
pub proof fn lemma_join_push(pieces: Seq<Seq<char>>, sep: Seq<char>, last: Seq<char>)
    ensures
        join(pieces.push(last), sep) == if pieces.len() == 0 {
            last
        } else {
            join(pieces, sep) + sep + last
        },
    decreases pieces.len(),
{
    let all = pieces.push(last);
    if pieces.len() > 0 {
        assert(all.skip(1) =~= pieces.skip(1).push(last));
        lemma_join_push(pieces.skip(1), sep, last);
        assert(join(all, sep) =~= join(pieces, sep) + sep + last);
    }
}

/// Joins a list of strings.
pub fn join_strings(pieces: &Vec<String>, sep: &str) -> (joined: String)
    ensures
        joined@ == join(views(pieces@), sep@),
{
    let mut joined = String::new();
    let mut i: usize = 0;
    while i < pieces.len()
        invariant
            i <= pieces@.len(),
            joined@ == join(views(pieces@.take(i as int)), sep@),
        decreases pieces@.len() - i,
    {
        let ghost before = pieces@.take(i as int);
        proof {
            assert(views(pieces@.take(i + 1)) =~= views(before).push(pieces@[i as int]@));
            lemma_join_push(views(before), sep@, pieces@[i as int]@);
        }
        if i > 0 {
            joined.append(sep);
        }
        joined.append(pieces[i].as_str());
        assert(i == 0 ==> joined@ =~= pieces@[i as int]@);
        i = i + 1;
    }
    assert(pieces@.take(pieces@.len() as int) =~= pieces@);
    joined
}

/// The character that writes a digit below ten.
pub open spec fn digit_char(d: nat) -> char {
    ('0' as u32 + d) as char
}

/// A number written in decimal, without leading zeros.
pub open spec fn decimal(n: nat) -> Seq<char>
    decreases n,
{
    if n < 10 {
        seq![digit_char(n)]
    } else {
        decimal(n / 10).push(digit_char(n % 10))
    }
}

/// A digit as a string.
fn digit_text(d: usize) -> (t: &'static str)
    requires
        d < 10,
    ensures
        t@ == seq![digit_char(d as nat)],
{
    proof {
        reveal_strlit("0");
        reveal_strlit("1");
        reveal_strlit("2");
        reveal_strlit("3");
        reveal_strlit("4");
        reveal_strlit("5");
        reveal_strlit("6");
        reveal_strlit("7");
        reveal_strlit("8");
        reveal_strlit("9");
    }
    let t: &'static str = if d == 0 {
        "0"
    } else if d == 1 {
        "1"
    } else if d == 2 {
        "2"
    } else if d == 3 {
        "3"
    } else if d == 4 {
        "4"
    } else if d == 5 {
        "5"
    } else if d == 6 {
        "6"
    } else if d == 7 {
        "7"
    } else if d == 8 {
        "8"
    } else {
        "9"
    };
    assert(t@ =~= seq![digit_char(d as nat)]);
    t
}

/// Writes a number in decimal.
pub fn decimal_text(n: usize) -> (t: String)
    ensures
        t@ == decimal(n as nat),
    decreases n,
{
    if n < 10 {
        String::from_str(digit_text(n))
    } else {
        let mut t = decimal_text(n / 10);
        let ghost head = t@;
        t.append(digit_text(n % 10));
        assert(t@ =~= head.push(digit_char((n % 10) as nat)));
        t
    }
}

/// The characters with the Unicode property White_Space.
pub open spec fn is_white_space(c: char) -> bool {
    let u = c as u32;
    ||| 0x09 <= u <= 0x0d
    ||| u == 0x20
    ||| u == 0x85
    ||| u == 0xa0
    ||| u == 0x1680
    ||| 0x2000 <= u <= 0x200a
    ||| u == 0x2028
    ||| u == 0x2029
    ||| u == 0x202f
    ||| u == 0x205f
    ||| u == 0x3000
}

/// Text with nothing but white space in it, or nothing at all.
pub open spec fn blank(s: Seq<char>) -> bool {
    forall|i: int| 0 <= i < s.len() ==> #[trigger] is_white_space(s[i])
}

/// Whether a text is blank.
pub fn is_blank(s: &str) -> (yes: bool)
    ensures
        yes == blank(s@),
{
    let chars = to_chars(s);
    let mut i: usize = 0;
    while i < chars.len()
        invariant
            chars@ == s@,
            i <= chars@.len(),
            forall|k: int| 0 <= k < i ==> #[trigger] is_white_space(s@[k]),
        decreases chars@.len() - i,
    {
        let u = chars[i] as u32;
        let white = (0x09 <= u && u <= 0x0d) || u == 0x20 || u == 0x85 || u == 0xa0 || u == 0x1680
            || (0x2000 <= u && u <= 0x200a) || u == 0x2028 || u == 0x2029 || u == 0x202f || u
            == 0x205f || u == 0x3000;
        assert(white == is_white_space(s@[i as int]));
        if !white {
            return false;
        }
        i = i + 1;
    }
    true
}

/// The letters of ASCII.
pub open spec fn is_ascii_letter(c: char) -> bool {
    ('a' <= c && c <= 'z') || ('A' <= c && c <= 'Z')
}

/// What a crate name or a keyword is made of.
pub open spec fn is_name_char(c: char) -> bool {
    is_ascii_letter(c) || ('0' <= c && c <= '9') || c == '-' || c == '_'
}

/// Text made of name characters only.
pub open spec fn all_name_chars(s: Seq<char>) -> bool {
    forall|i: int| 0 <= i < s.len() ==> #[trigger] is_name_char(s[i])
}

/// Whether a text is made of name characters only.
pub fn only_name_chars(s: &str) -> (yes: bool)
    ensures
        yes == all_name_chars(s@),
{
    let chars = to_chars(s);
    let mut i: usize = 0;
    while i < chars.len()
        invariant
            chars@ == s@,
            i <= chars@.len(),
            forall|k: int| 0 <= k < i ==> #[trigger] is_name_char(s@[k]),
        decreases chars@.len() - i,
    {
        let c = chars[i];
        let fits = ('a' <= c && c <= 'z') || ('A' <= c && c <= 'Z') || ('0' <= c && c <= '9') || c
            == '-' || c == '_';
        assert(fits == is_name_char(s@[i as int]));
        if !fits {
            return false;
        }
        i = i + 1;
    }
    true
}

/// A character with the case of an ASCII letter dropped.
pub open spec fn ascii_lower_char(c: char) -> char {
    if 'A' <= c && c <= 'Z' {
        (c as u32 + 32) as char
    } else {
        c
    }
}

/// A text with the case of its ASCII letters dropped.
pub open spec fn ascii_lower(s: Seq<char>) -> Seq<char> {
    s.map_values(|c: char| ascii_lower_char(c))
}

/// The case of an ASCII letter dropped.
fn lower_char(c: char) -> (l: char)
    ensures
        l == ascii_lower_char(c),
{
    if 'A' <= c && c <= 'Z' {
        ((c as u8) + 32) as char
    } else {
        c
    }
}

/// Whether two texts are the same but for the case of ASCII letters.
pub fn eq_ignore_ascii_case(a: &str, b: &str) -> (same: bool)
    ensures
        same == (ascii_lower(a@) == ascii_lower(b@)),
{
    let x = to_chars(a);
    let y = to_chars(b);
    if x.len() != y.len() {
        assert(ascii_lower(a@).len() != ascii_lower(b@).len());
        return false;
    }
    let mut i: usize = 0;
    while i < x.len()
        invariant
            x@ == a@,
            y@ == b@,
            x@.len() == y@.len(),
            i <= x@.len(),
            forall|k: int| 0 <= k < i ==> ascii_lower(a@)[k] == ascii_lower(b@)[k],
        decreases x@.len() - i,
    {
        if lower_char(x[i]) != lower_char(y[i]) {
            assert(ascii_lower(a@)[i as int] != ascii_lower(b@)[i as int]);
            return false;
        }
        i = i + 1;
    }
    assert(ascii_lower(a@) =~= ascii_lower(b@));
    true
}

/// The lower case of ASCII text is ASCII text of the same length.
pub proof fn lemma_lower_is_ascii(s: Seq<char>)
    requires
        is_ascii_chars(s),
    ensures
        is_ascii_chars(ascii_lower(s)),
        ascii_lower(s).len() == s.len(),
{
    assert forall|i: int| 0 <= i < s.len() implies (#[trigger] ascii_lower(s)[i] as u32)
        < 128 by {
        assert((s[i] as u32) < 128);
    }
}

/// What is in lower case stays as it is.
pub proof fn lemma_lower_stays(s: Seq<char>)
    ensures
        ascii_lower(ascii_lower(s)) == ascii_lower(s),
{
    assert forall|i: int| 0 <= i < s.len() implies ascii_lower_char(
        #[trigger] ascii_lower(s)[i],
    ) == ascii_lower(s)[i] by {}
    assert(ascii_lower(ascii_lower(s)) =~= ascii_lower(s));
}

/// The text that stands in the bytes `from..to` of the UTF-8 form of `s`.
pub open spec fn byte_slice(s: Seq<char>, from: int, to: int) -> Seq<char> {
    decode_utf8(encode_utf8(s).subrange(from, to))
}

/// Whether the UTF-8 form of `s` can be cut before its byte `at`.
pub open spec fn cuts_at(s: Seq<char>, at: int) -> bool {
    0 <= at <= encode_utf8(s).len() && is_char_boundary(encode_utf8(s), at)
}

/// The text before the byte `at`, and the text from it on.
pub fn cut_at_byte<'a>(s: &'a str, at: usize) -> (parts: (&'a str, &'a str))
    requires
        cuts_at(s@, at as int),
    ensures
        parts.0@ == byte_slice(s@, 0, at as int),
        parts.1@ == byte_slice(s@, at as int, encode_utf8(s@).len() as int),
        encode_utf8(parts.0@) == encode_utf8(s@).subrange(0, at as int),
        encode_utf8(parts.1@) == encode_utf8(s@).subrange(at as int, encode_utf8(s@).len() as int),
{
    let parts = s.split_at(at);
    proof {
        encode_utf8_decode_utf8(parts.0@);
        encode_utf8_decode_utf8(parts.1@);
    }
    parts
}

/// The text in the bytes `from..to`.
pub fn slice_bytes<'a>(s: &'a str, from: usize, to: usize) -> (part: &'a str)
    requires
        from <= to,
        cuts_at(s@, from as int),
        cuts_at(s@, to as int),
    ensures
        part@ == byte_slice(s@, from as int, to as int),
{
    let head = cut_at_byte(s, to).0;
    proof {
        let b = encode_utf8(s@);
        let h = encode_utf8(head@);
        encode_utf8_valid_utf8(s@);
        encode_utf8_valid_utf8(head@);
        if from == to {
            is_char_boundary_start_end_of_seq(h);
        } else {
            is_char_boundary_iff_not_is_continuation_byte(b, from as int);
            is_char_boundary_iff_not_is_continuation_byte(h, from as int);
            assert(h[from as int] == b[from as int]);
        }
        assert(h.subrange(from as int, to as int) =~= b.subrange(from as int, to as int));
    }
    cut_at_byte(head, from).1
}

/// What stands in some of the bytes of a text is part of the text.
pub proof fn lemma_byte_slice_within(s: Seq<char>, from: int, to: int)
    requires
        from <= to,
        cuts_at(s, from),
        cuts_at(s, to),
    ensures
        forall|c: char| #[trigger] byte_slice(s, from, to).contains(c) ==> s.contains(c),
        from < to ==> byte_slice(s, from, to).len() > 0,
{
    let b = encode_utf8(s);
    let head = b.subrange(0, to);
    let part = b.subrange(from, to);
    encode_utf8_valid_utf8(s);
    encode_utf8_decode_utf8(s);
    valid_utf8_split(b, to);
    decode_utf8_split(b, to);
    if from == to {
        is_char_boundary_start_end_of_seq(head);
    } else {
        is_char_boundary_iff_not_is_continuation_byte(b, from);
        is_char_boundary_iff_not_is_continuation_byte(head, from);
        assert(head[from] == b[from]);
    }
    valid_utf8_split(head, from);
    decode_utf8_split(head, from);
    assert(head.subrange(from, to) =~= part);
    let h = decode_utf8(head);
    let p = decode_utf8(part);
    assert forall|c: char| #[trigger] p.contains(c) implies s.contains(c) by {
        let k = choose|k: int| 0 <= k < p.len() && p[k] == c;
        let j = h.len() - p.len() + k;
        assert(h[j] == c);
        assert(s[j] == c);
    }
}

/// In ASCII text a character is a byte.
pub proof fn lemma_ascii_bytes(s: Seq<char>, from: int, to: int)
    requires
        is_ascii_chars(s),
        0 <= from <= to <= s.len(),
    ensures
        encode_utf8(s).len() == s.len(),
        cuts_at(s, from),
        cuts_at(s, to),
        byte_slice(s, from, to) == s.subrange(from, to),
{
    let b = encode_utf8(s);
    is_ascii_chars_encode_utf8(s);
    encode_utf8_valid_utf8(s);
    lemma_ascii_boundary(s, from);
    lemma_ascii_boundary(s, to);
    let part = s.subrange(from, to);
    assert(is_ascii_chars(part));
    is_ascii_chars_encode_utf8(part);
    assert(encode_utf8(part) =~= b.subrange(from, to)) by {
        assert forall|k: int| 0 <= k < part.len() implies encode_utf8(part)[k] == b.subrange(
            from,
            to,
        )[k] by {
            assert(part[k] == s[from + k]);
            assert(b[from + k] == s[from + k] as u8);
        }
    }
    encode_utf8_decode_utf8(part);
}

proof fn lemma_ascii_boundary(s: Seq<char>, at: int)
    requires
        is_ascii_chars(s),
        0 <= at <= s.len(),
    ensures
        is_char_boundary(encode_utf8(s), at),
{
    let b = encode_utf8(s);
    is_ascii_chars_encode_utf8(s);
    encode_utf8_valid_utf8(s);
    if at == s.len() {
        is_char_boundary_start_end_of_seq(b);
    } else {
        is_char_boundary_iff_not_is_continuation_byte(b, at);
        assert(b[at] == s[at] as u8);
    }
}

} // verus!
