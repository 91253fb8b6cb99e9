//! Working with source text: byte-addressed slices and the literals of the
//! value grammar.

use vstd::prelude::*;
use vstd::string::*;
use vstd::utf8::*;

verus! {

/// The characters that `text` holds between two byte offsets of its UTF-8
/// encoding, when both offsets are in order, in bounds and on character
/// boundaries.
pub open spec fn spec_slice(text: Seq<char>, start: int, end: int) -> Option<Seq<char>> {
    let bytes = encode_utf8(text);
    if 0 <= start <= end <= bytes.len() && is_char_boundary(bytes, start) && is_char_boundary(
        bytes,
        end,
    ) {
        Some(decode_utf8(bytes.subrange(start, end)))
    } else {
        None
    }
}

proof fn lemma_boundary_in_prefix(bytes: Seq<u8>, start: int, end: int)
    requires
        valid_utf8(bytes),
        0 <= start <= end <= bytes.len(),
        is_char_boundary(bytes, start),
        is_char_boundary(bytes, end),
    ensures
        valid_utf8(bytes.subrange(0, end)),
        is_char_boundary(bytes.subrange(0, end), start),
{
    broadcast use group_utf8_lib;

    let head = bytes.subrange(0, end);
    valid_utf8_split(bytes, end);
    if start == end {
        is_char_boundary_start_end_of_seq(head);
    } else {
        is_char_boundary_iff_not_is_continuation_byte(bytes, start);
        is_char_boundary_iff_not_is_continuation_byte(head, start);
    }
}

/// The part of `text` between two byte offsets.
pub fn slice<'a>(text: &'a str, start: usize, end: usize) -> (r: Option<&'a str>)
    ensures
        match r {
            Some(s) => spec_slice(text@, start as int, end as int) == Some(s@),
            None => spec_slice(text@, start as int, end as int) is None,
        },
{
    broadcast use group_utf8_lib;

    let len = text.as_bytes().len();
    if start <= end && end <= len && text.is_char_boundary(start) && text.is_char_boundary(end) {
        proof {
            lemma_boundary_in_prefix(text.spec_bytes(), start as int, end as int);
        }
        let (head, _) = text.split_at(end);
        let (_, tail) = head.split_at(start);
        proof {
            let bytes = encode_utf8(text@);
            assert(text.spec_bytes() == bytes);
            assert(head.spec_bytes() =~= bytes.subrange(0, end as int));
            assert(tail.spec_bytes() =~= bytes.subrange(start as int, end as int));
            assert(encode_utf8(tail@) == bytes.subrange(start as int, end as int));
            assert(decode_utf8(encode_utf8(tail@)) == tail@);
            assert(is_char_boundary(bytes, start as int));
            assert(is_char_boundary(bytes, end as int));
            assert(0 <= start <= end <= bytes.len());
        }
        Some(tail)
    } else {
        None
    }
}

/// Whether two strings hold the same characters.
pub fn str_eq(a: &str, b: &str) -> (r: bool)
    ensures
        r == (a@ == b@),
{
    broadcast use group_utf8_lib;

    let x = a.as_bytes();
    let y = b.as_bytes();
    proof {
        assert(decode_utf8(encode_utf8(a@)) == a@);
        assert(decode_utf8(encode_utf8(b@)) == b@);
    }
    if x.len() != y.len() {
        return false;
    }
    let mut i: usize = 0;
    while i < x.len()
        invariant
            i <= x@.len(),
            x@.len() == y@.len(),
            x@ == encode_utf8(a@),
            y@ == encode_utf8(b@),
            x@.subrange(0, i as int) == y@.subrange(0, i as int),
        decreases x@.len() - i,
    {
        if x[i] != y[i] {
            proof {
                assert(x@[i as int] != y@[i as int]);
            }
            return false;
        }
        proof {
            assert(x@.subrange(0, i + 1) =~= x@.subrange(0, i as int).push(x@[i as int]));
            assert(y@.subrange(0, i + 1) =~= y@.subrange(0, i as int).push(y@[i as int]));
        }
        i += 1;
    }
    proof {
        assert(x@ =~= x@.subrange(0, i as int));
        assert(y@ =~= y@.subrange(0, i as int));
    }
    true
}

/// Whether a text begins with the sigil of directives, `@`.
pub open spec fn has_sigil(text: Seq<char>) -> bool {
    text.len() > 0 && text[0] == '@'
}

/// The text with the sigil of directives in front, unless it is there already.
pub open spec fn spec_with_sigil(text: Seq<char>) -> Seq<char> {
    if has_sigil(text) {
        text
    } else {
        seq!['@'] + text
    }
}

/// Whether a text begins with `@`.
pub fn starts_with_sigil(text: &str) -> (b: bool)
    ensures
        b == has_sigil(text@),
{
    !text.is_empty() && text.get_char(0) == '@'
}

/// Puts `@` in front of a text that does not begin with it.
pub fn with_sigil(text: &str) -> (r: String)
    ensures
        r@ == spec_with_sigil(text@),
        has_sigil(r@),
{
    if starts_with_sigil(text) {
        text.to_owned()
    } else {
        let mut out = "@".to_owned();
        proof {
            reveal_strlit("@");
            assert("@"@ =~= seq!['@']);
        }
        out.append(text);
        out
    }
}

/// The text without the double quotes at its front.
pub open spec fn skip_quotes_front(s: Seq<char>) -> Seq<char>
    decreases s.len(),
{
    if s.len() > 0 && s[0] == '"' {
        skip_quotes_front(s.drop_first())
    } else {
        s
    }
}

/// The text without the double quotes at its back.
pub open spec fn skip_quotes_back(s: Seq<char>) -> Seq<char>
    decreases s.len(),
{
    if s.len() > 0 && s.last() == '"' {
        skip_quotes_back(s.drop_last())
    } else {
        s
    }
}

/// The text without the double quotes at either end.
pub open spec fn spec_trim_quotes(s: Seq<char>) -> Seq<char> {
    skip_quotes_back(skip_quotes_front(s))
}

/// Strips every double quote from both ends of a text.
pub fn trim_quotes<'a>(text: &'a str) -> (r: &'a str)
    ensures
        r@ == spec_trim_quotes(text@),
{
    let n = text.unicode_len();
    let mut start: usize = 0;
    proof {
        assert(text@.subrange(0, n as int) =~= text@);
    }
    while start < n && text.get_char(start) == '"'
        invariant
            start <= n,
            n == text@.len(),
            skip_quotes_front(text@) == skip_quotes_front(text@.subrange(start as int, n as int)),
        decreases n - start,
    {
        proof {
            let cur = text@.subrange(start as int, n as int);
            assert(cur[0] == text@[start as int]);
            assert(cur.drop_first() =~= text@.subrange(start + 1, n as int));
        }
        start += 1;
    }
    proof {
        let cur = text@.subrange(start as int, n as int);
        if start < n {
            assert(cur[0] == text@[start as int]);
        }
        assert(skip_quotes_front(text@) == cur);
    }
    let mut end: usize = n;
    while end > start && text.get_char(end - 1) == '"'
        invariant
            start <= end <= n,
            n == text@.len(),
            skip_quotes_back(text@.subrange(start as int, n as int)) == skip_quotes_back(
                text@.subrange(start as int, end as int),
            ),
        decreases end,
    {
        proof {
            let cur = text@.subrange(start as int, end as int);
            assert(cur.last() == text@[end - 1]);
            assert(cur.drop_last() =~= text@.subrange(start as int, end - 1));
        }
        end -= 1;
    }
    proof {
        let cur = text@.subrange(start as int, end as int);
        if end > start {
            assert(cur.last() == text@[end - 1]);
        }
    }
    text.substring_char(start, end)
}

/// The value of a decimal digit.
pub open spec fn digit_value(c: char) -> Option<int> {
    if '0' <= c && c <= '9' {
        Some(c as int - '0' as int)
    } else {
        None
    }
}

/// The number that the first `upto` characters spell in decimal digits.
pub open spec fn digits_value(s: Seq<char>, upto: int) -> Option<int>
    decreases upto,
{
    if upto <= 0 {
        Some(0)
    } else {
        match (digits_value(s, upto - 1), digit_value(s[upto - 1])) {
            (Some(v), Some(d)) => Some(v * 10 + d),
            _ => None,
        }
    }
}

/// The integer that a text spells: an optional sign and at least one
/// decimal digit.
pub open spec fn int_value(s: Seq<char>) -> Option<int> {
    if s.len() == 0 {
        None
    } else if s[0] == '-' || s[0] == '+' {
        if s.len() == 1 {
            None
        } else {
            match digits_value(s.drop_first(), s.len() - 1) {
                Some(v) => Some(
                    if s[0] == '-' {
                        -v
                    } else {
                        v
                    },
                ),
                None => None,
            }
        }
    } else {
        digits_value(s, s.len() as int)
    }
}

/// The 32-bit integer that a text spells, if it spells one that fits.
pub open spec fn i32_value(s: Seq<char>) -> Option<i32> {
    match int_value(s) {
        Some(v) => if i32::MIN <= v <= i32::MAX {
            Some(v as i32)
        } else {
            None
        },
        None => None,
    }
}

proof fn lemma_digits_grow(s: Seq<char>, at: int, upto: int)
    requires
        0 <= at <= upto,
    ensures
        digits_value(s, at) is None ==> digits_value(s, upto) is None,
        digits_value(s, at) matches Some(a) ==> a >= 0 && (digits_value(s, upto) matches Some(b)
            ==> b >= a),
    decreases upto,
{
    if upto > at {
        lemma_digits_grow(s, at, upto - 1);
    } else {
        lemma_digits_nonnegative(s, at);
    }
}

proof fn lemma_digits_nonnegative(s: Seq<char>, upto: int)
    ensures
        digits_value(s, upto) matches Some(a) ==> a >= 0,
    decreases upto,
{
    if upto > 0 {
        lemma_digits_nonnegative(s, upto - 1);
    }
}

/// Reads a 32-bit integer in decimal notation.
pub fn parse_i32(text: &str) -> (r: Option<i32>)
    ensures
        r == i32_value(text@),
{
    let n = text.unicode_len();
    if n == 0 {
        return None;
    }
    let first = text.get_char(0);
    let signed = first == '-' || first == '+';
    let negative = first == '-';
    let start: usize = if signed { 1 } else { 0 };
    if signed && n == 1 {
        return None;
    }
    let ghost body = if signed { text@.drop_first() } else { text@ };
    let mut acc: i64 = 0;
    let mut i: usize = start;
    while i < n
        invariant
            start <= i <= n,
            n == text@.len(),
            n > 0,
            signed == (text@[0] == '-' || text@[0] == '+'),
            signed ==> n > 1,
            start == if signed { 1usize } else { 0usize },
            body == if signed { text@.drop_first() } else { text@ },
            body.len() == n - start,
            forall|k: int| 0 <= k < body.len() ==> body[k] == text@[k + start],
            digits_value(body, i - start) == Some(acc as int),
            0 <= acc <= 0x8000_0000,
        decreases n - i,
    {
        let c = text.get_char(i);
        if c < '0' || c > '9' {
            proof {
                assert(digit_value(body[i - start]) is None);
                assert(digits_value(body, i - start + 1) is None);
                lemma_digits_grow(body, i - start + 1, n - start);
            }
            return None;
        }
        let d = (c as u32 - '0' as u32) as i64;
        acc = acc * 10 + d;
        proof {
            assert(digit_value(body[i - start]) == Some(d as int));
        }
        if acc > 0x8000_0000 {
            proof {
                lemma_digits_grow(body, i - start + 1, n - start);
            }
            return None;
        }
        i += 1;
    }
    if negative {
        Some((-acc) as i32)
    } else if acc <= 0x7fff_ffff {
        Some(acc as i32)
    } else {
        None
    }
}

} // verus!
