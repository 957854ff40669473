//! Text handling at the engine's boundary: comparing operation names, splitting argument
//! lists and reading decimal integers.

use vstd::prelude::*;
use vstd::string::StrSliceExecFns;

verus! {

/// Whether two string slices hold the same characters.
pub fn text_eq(a: &str, b: &str) -> (same: bool)
    ensures
        same == (a@ == b@),
{
    let n = a.unicode_len();
    if n != b.unicode_len() {
        return false;
    }
    let mut i: usize = 0;
    while i < n
        invariant
            n == a@.len(),
            n == b@.len(),
            i <= n,
            forall|k: int| 0 <= k < i ==> a@[k] == b@[k],
        decreases n - i,
    {
        if a.get_char(i) != b.get_char(i) {
            return false;
        }
        i += 1;
    }
    assert(a@ =~= b@);
    true
}

/// Whether a character is white space, which is ignored around an argument.
pub open spec fn is_blank_spec(c: char) -> bool {
    let u = c as u32;
    ||| 0x09 <= u <= 0x0D
    ||| u == 0x20
    ||| u == 0x85
    ||| u == 0xA0
    ||| u == 0x1680
    ||| 0x2000 <= u <= 0x200A
    ||| u == 0x2028
    ||| u == 0x2029
    ||| u == 0x202F
    ||| u == 0x205F
    ||| u == 0x3000
}

/// Whether a character is white space.
#[verifier::when_used_as_spec(is_blank_spec)]
pub fn is_blank(c: char) -> (blank: bool)
    ensures
        blank == is_blank_spec(c),
{
    let u = c as u32;
    (0x09 <= u && u <= 0x0D) || u == 0x20 || u == 0x85 || u == 0xA0 || u == 0x1680 || (0x2000 <= u
        && u <= 0x200A) || u == 0x2028 || u == 0x2029 || u == 0x202F || u == 0x205F || u == 0x3000
}

/// The text without its leading white space.
pub open spec fn trim_start(s: Seq<char>) -> Seq<char>
    decreases s.len(),
{
    if s.len() > 0 && is_blank_spec(s[0]) {
        trim_start(s.drop_first())
    } else {
        s
    }
}

/// The text without its trailing white space.
pub open spec fn trim_end(s: Seq<char>) -> Seq<char>
    decreases s.len(),
{
    if s.len() > 0 && is_blank_spec(s.last()) {
        trim_end(s.drop_last())
    } else {
        s
    }
}

/// The text without the white space around it.
pub open spec fn trimmed(s: Seq<char>) -> Seq<char> {
    trim_end(trim_start(s))
}

/// Removes the white space around a text.
pub fn trim<'a>(text: &'a str) -> (out: &'a str)
    ensures
        out@ == trimmed(text@),
{
    let n = text.unicode_len();
    let mut a: usize = 0;
    assert(text@.subrange(0, n as int) =~= text@);
    while a < n && is_blank(text.get_char(a))
        invariant
            n == text@.len(),
            a <= n,
            trim_start(text@) == trim_start(text@.subrange(a as int, n as int)),
        decreases n - a,
    {
        assert(text@.subrange(a as int, n as int).drop_first() =~= text@.subrange(
            a + 1,
            n as int,
        ));
        a += 1;
    }
    assert(trim_start(text@) == text@.subrange(a as int, n as int));
    let mut b: usize = n;
    while b > a && is_blank(text.get_char(b - 1))
        invariant
            n == text@.len(),
            a <= b <= n,
            trimmed(text@) == trim_end(text@.subrange(a as int, b as int)),
        decreases b,
    {
        assert(text@.subrange(a as int, b as int).drop_last() =~= text@.subrange(
            a as int,
            b - 1,
        ));
        b -= 1;
    }
    text.substring_char(a, b)
}

/// The comma-separated arguments of `s` from position `start` on, each without the white
/// space around it, where the text from `start` up to `pos` is known to hold no comma.
pub open spec fn arguments_from(s: Seq<char>, start: int, pos: int) -> Seq<Seq<char>>
    decreases s.len() - pos,
{
    if pos >= s.len() {
        seq![trimmed(s.subrange(start, s.len() as int))]
    } else if s[pos] == ',' {
        seq![trimmed(s.subrange(start, pos))] + arguments_from(s, pos + 1, pos + 1)
    } else {
        arguments_from(s, start, pos + 1)
    }
}

/// The comma-separated arguments of a text, each without the white space around it. A text
/// without a comma is one argument, an empty text too.
pub open spec fn arguments_of(s: Seq<char>) -> Seq<Seq<char>> {
    arguments_from(s, 0, 0)
}

/// The characters of each of a list of texts.
pub open spec fn texts(pieces: Seq<&str>) -> Seq<Seq<char>> {
    Seq::new(pieces.len(), |i: int| pieces[i]@)
}

/// Splits a text at its commas and removes the white space around every piece.
pub fn split_arguments<'a>(text: &'a str) -> (pieces: Vec<&'a str>)
    ensures
        texts(pieces@) == arguments_of(text@),
        pieces@.len() >= 1,
{
    let n = text.unicode_len();
    let mut pieces: Vec<&'a str> = Vec::new();
    let mut from: usize = 0;
    assert(texts(pieces@) + arguments_from(text@, 0, 0) =~= arguments_of(text@));
    loop
        invariant_except_break
            n == text@.len(),
            from <= n,
            arguments_of(text@) == texts(pieces@) + arguments_from(text@, from as int, from as int),
        ensures
            texts(pieces@) == arguments_of(text@),
            pieces@.len() >= 1,
        decreases n - from,
    {
        let mut end: usize = from;
        while end < n && text.get_char(end) != ','
            invariant
                n == text@.len(),
                from <= end <= n,
                arguments_from(text@, from as int, from as int) == arguments_from(
                    text@,
                    from as int,
                    end as int,
                ),
            decreases n - end,
        {
            end += 1;
        }
        let piece = trim(text.substring_char(from, end));
        let ghost before = pieces@;
        pieces.push(piece);
        proof {
            assert(texts(pieces@) =~= texts(before) + seq![piece@]);
            if end >= n {
                assert(text@.subrange(from as int, end as int) =~= text@.subrange(
                    from as int,
                    text@.len() as int,
                ));
            }
        }
        if end >= n {
            break;
        }
        proof {
            assert(texts(before) + (seq![piece@] + arguments_from(text@, end + 1, end + 1)) =~= (
                texts(before) + seq![piece@]) + arguments_from(text@, end + 1, end + 1));
        }
        from = end + 1;
    }
    pieces
}

/// Whether a character is a decimal digit.
pub open spec fn is_digit(c: char) -> bool {
    '0' <= c <= '9'
}

/// Whether a text consists of decimal digits only.
pub open spec fn all_digits(s: Seq<char>) -> bool {
    forall|i: int| 0 <= i < s.len() ==> is_digit(#[trigger] s[i])
}

/// The number that a sequence of decimal digits writes.
pub open spec fn decimal_value(s: Seq<char>) -> int
    decreases s.len(),
{
    if s.len() == 0 {
        0
    } else {
        10 * decimal_value(s.drop_last()) + (s.last() as int - '0' as int)
    }
}

/// The integer that a text writes in decimal: an optional sign, `+` or, where `signed`,
/// `-`, followed by at least one digit and nothing else. `None` for any other text.
pub open spec fn written_integer(s: Seq<char>, signed: bool) -> Option<int> {
    let negative = signed && s.len() > 0 && s[0] == '-';
    let digits = if s.len() > 0 && (s[0] == '+' || negative) {
        s.drop_first()
    } else {
        s
    };
    if digits.len() == 0 || !all_digits(digits) {
        None
    } else if negative {
        Some(-decimal_value(digits))
    } else {
        Some(decimal_value(digits))
    }
}

/// The integer that a text writes, if it lies within `lo..=hi`.
pub open spec fn integer_within(s: Seq<char>, signed: bool, lo: int, hi: int) -> Option<int> {
    match written_integer(s, signed) {
        Some(v) => if lo <= v <= hi {
            Some(v)
        } else {
            None
        },
        None => None,
    }
}

/// A sequence of digits writes a number that is no smaller than the one any of its
/// prefixes writes.
proof fn lemma_decimal_value_grows(s: Seq<char>, k: int)
    requires
        all_digits(s),
        0 <= k <= s.len(),
    ensures
        0 <= decimal_value(s.take(k)) <= decimal_value(s),
    decreases s.len() - k,
{
    if k == s.len() {
        assert(s.take(k) =~= s);
        lemma_decimal_value_nonnegative(s);
    } else {
        lemma_decimal_value_grows(s, k + 1);
        assert(s.take(k + 1).drop_last() =~= s.take(k));
        assert(is_digit(s[k]));
        lemma_decimal_value_nonnegative(s.take(k));
    }
}

/// A sequence of digits writes a natural number.
proof fn lemma_decimal_value_nonnegative(s: Seq<char>)
    requires
        all_digits(s),
    ensures
        0 <= decimal_value(s),
    decreases s.len(),
{
    if s.len() > 0 {
        assert(is_digit(s.last()));
        assert forall|i: int| 0 <= i < s.drop_last().len() implies is_digit(
            #[trigger] s.drop_last()[i],
        ) by {
            assert(s.drop_last()[i] == s[i]);
        }
        lemma_decimal_value_nonnegative(s.drop_last());
    }
}

/// The largest magnitude that [`parse_integer`] can tell apart from "too large".
pub const MAX_MAGNITUDE: i128 = 0x1_0000_0000_0000_0000;

/// Reads a decimal integer within `lo..=hi`: an optional sign, `+` or, where `signed`, `-`,
/// followed by digits only. `None` for any other text and for a number outside the range.
pub fn parse_integer(text: &str, signed: bool, lo: i128, hi: i128) -> (value: Option<i128>)
    requires
        -MAX_MAGNITUDE <= lo,
        hi <= MAX_MAGNITUDE,
    ensures
        value == match integer_within(text@, signed, lo as int, hi as int) {
            Some(v) => Some(v as i128),
            None => None,
        },
{
    let n = text.unicode_len();
    if n == 0 {
        return None;
    }
    let first = text.get_char(0);
    let negative = signed && first == '-';
    let start: usize = if first == '+' || negative {
        1
    } else {
        0
    };
    let ghost digits = text@.subrange(start as int, n as int);
    proof {
        if start == 1 {
            assert(digits =~= text@.drop_first());
        } else {
            assert(digits =~= text@);
        }
    }
    if start == n {
        return None;
    }
    let mut magnitude: i128 = 0;
    let mut i: usize = start;
    assert(digits.take(0) =~= Seq::<char>::empty());
    while i < n
        invariant
            n == text@.len(),
            start <= i <= n,
            start < n,
            digits == text@.subrange(start as int, n as int),
            written_integer(text@, signed) == (if !all_digits(digits) {
                None
            } else if negative {
                Some(-decimal_value(digits))
            } else {
                Some(decimal_value(digits))
            }),
            all_digits(digits.take(i - start)),
            magnitude == decimal_value(digits.take(i - start)),
            0 <= magnitude <= MAX_MAGNITUDE,
            -MAX_MAGNITUDE <= lo,
            hi <= MAX_MAGNITUDE,
        decreases n - i,
    {
        let c = text.get_char(i);
        let ghost prefix = digits.take(i - start);
        let ghost longer = digits.take(i - start + 1);
        proof {
            assert(longer.drop_last() =~= prefix);
            assert(longer.last() == c);
        }
        if !('0' <= c && c <= '9') {
            proof {
                assert(!is_digit(digits[i - start]));
            }
            return None;
        }
        proof {
            assert forall|k: int| 0 <= k < longer.len() implies is_digit(#[trigger] longer[k]) by {
                if k < prefix.len() {
                    assert(longer[k] == prefix[k]);
                }
            }
        }
        magnitude = 10 * magnitude + (c as u32 - '0' as u32) as i128;
        if magnitude > MAX_MAGNITUDE {
            proof {
                if all_digits(digits) {
                    lemma_decimal_value_grows(digits, i - start + 1);
                }
            }
            return None;
        }
        i += 1;
    }
    proof {
        assert(digits.take(n - start) =~= digits);
    }
    let v: i128 = if negative {
        -magnitude
    } else {
        magnitude
    };
    if lo <= v && v <= hi {
        Some(v)
    } else {
        None
    }
}

/// The `i32` that a text writes, if any.
pub open spec fn written_i32(s: Seq<char>) -> Option<i32> {
    match integer_within(s, true, i32::MIN as int, i32::MAX as int) {
        Some(v) => Some(v as i32),
        None => None,
    }
}

/// The `u32` that a text writes, if any.
pub open spec fn written_u32(s: Seq<char>) -> Option<u32> {
    match integer_within(s, false, 0, u32::MAX as int) {
        Some(v) => Some(v as u32),
        None => None,
    }
}

/// The `u8` that a text writes, if any.
pub open spec fn written_u8(s: Seq<char>) -> Option<u8> {
    match integer_within(s, false, 0, u8::MAX as int) {
        Some(v) => Some(v as u8),
        None => None,
    }
}

/// The `usize` that a text writes, if any.
pub open spec fn written_usize(s: Seq<char>) -> Option<usize> {
    match integer_within(s, false, 0, usize::MAX as int) {
        Some(v) => Some(v as usize),
        None => None,
    }
}

/// Reads an `i32` written in decimal.
pub fn parse_i32(text: &str) -> (value: Option<i32>)
    ensures
        value == written_i32(text@),
{
    match parse_integer(text, true, i32::MIN as i128, i32::MAX as i128) {
        Some(v) => Some(v as i32),
        None => None,
    }
}

/// Reads a `u32` written in decimal.
pub fn parse_u32(text: &str) -> (value: Option<u32>)
    ensures
        value == written_u32(text@),
{
    match parse_integer(text, false, 0, u32::MAX as i128) {
        Some(v) => Some(v as u32),
        None => None,
    }
}

/// Reads a `u8` written in decimal.
pub fn parse_u8(text: &str) -> (value: Option<u8>)
    ensures
        value == written_u8(text@),
{
    match parse_integer(text, false, 0, u8::MAX as i128) {
        Some(v) => Some(v as u8),
        None => None,
    }
}

/// Reads a `usize` written in decimal.
pub fn parse_usize(text: &str) -> (value: Option<usize>)
    ensures
        value == written_usize(text@),
{
    match parse_integer(text, false, 0, usize::MAX as i128) {
        Some(v) => Some(v as usize),
        None => None,
    }
}

} // verus!
