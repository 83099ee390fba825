use vstd::prelude::*;
use vstd::string::StringSliceAdditionalSpecFns;

verus! {

/// What the user's answer to a list of hits asks for.
#[derive(Clone, Copy, Debug, PartialEq, Eq, Structural)]
pub enum Selection {
    /// Open the hit at this position of the list, counted from zero.
    Open(usize),
    /// The answer was zero: open nothing.
    Cancelled,
    /// The answer was a number beyond the list.
    OutOfRange,
    /// The answer was no number.
    NotANumber,
}

/// A white-space character that one byte writes: a blank, a tab, a line
/// feed, a vertical tab, a form feed or a carriage return.
pub open spec fn is_narrow_space(b: u8) -> bool {
    b == 0x20 || (0x09 <= b <= 0x0D)
}

/// A white-space character that two bytes write: the next-line control
/// U+0085 or the no-break space U+00A0.
pub open spec fn is_middle_space(a: u8, b: u8) -> bool {
    a == 0xC2 && (b == 0x85 || b == 0xA0)
}

/// A white-space character that three bytes write: U+1680, U+2000 to U+200A,
/// U+2028, U+2029, U+202F, U+205F or U+3000.
pub open spec fn is_wide_space(a: u8, b: u8, c: u8) -> bool {
    ||| (a == 0xE1 && b == 0x9A && c == 0x80)
    ||| (a == 0xE2 && b == 0x80 && ((0x80 <= c <= 0x8A) || c == 0xA8 || c == 0xA9 || c == 0xAF))
    ||| (a == 0xE2 && b == 0x81 && c == 0x9F)
    ||| (a == 0xE3 && b == 0x80 && c == 0x80)
}

/// The number of bytes of the white-space character that begins at `i`, or
/// zero where none begins there.
pub open spec fn space_len_at(text: Seq<u8>, i: int) -> int {
    if 0 <= i < text.len() && is_narrow_space(text[i]) {
        1
    } else if 0 <= i && i + 1 < text.len() && is_middle_space(text[i], text[i + 1]) {
        2
    } else if 0 <= i && i + 2 < text.len() && is_wide_space(text[i], text[i + 1], text[i + 2]) {
        3
    } else {
        0
    }
}

/// The number of bytes of the white-space character that ends just before
/// `hi` and begins at `lo` or later, or zero where there is none.
pub open spec fn space_len_before(text: Seq<u8>, lo: int, hi: int) -> int {
    if 0 <= lo <= hi - 1 && hi <= text.len() && is_narrow_space(text[hi - 1]) {
        1
    } else if 0 <= lo <= hi - 2 && hi <= text.len() && is_middle_space(text[hi - 2], text[hi - 1]) {
        2
    } else if 0 <= lo <= hi - 3 && hi <= text.len() && is_wide_space(
        text[hi - 3],
        text[hi - 2],
        text[hi - 1],
    ) {
        3
    } else {
        0
    }
}

/// Where `text` begins once the white space from `i` on is passed over.
pub open spec fn after_leading_space(text: Seq<u8>, i: int) -> int
    decreases text.len() - i,
{
    if space_len_at(text, i) > 0 {
        after_leading_space(text, i + space_len_at(text, i))
    } else {
        i
    }
}

/// Where the text from `lo` up to `hi` ends once the white space at its end
/// is passed over.
pub open spec fn before_trailing_space(text: Seq<u8>, lo: int, hi: int) -> int
    decreases hi - lo,
{
    if space_len_before(text, lo, hi) > 0 {
        before_trailing_space(text, lo, hi - space_len_before(text, lo, hi))
    } else {
        hi
    }
}

/// `text` without the white-space characters at its beginning and at its end.
pub open spec fn trimmed(text: Seq<u8>) -> Seq<u8> {
    let lo = after_leading_space(text, 0);
    let hi = before_trailing_space(text, lo, text.len() as int);
    text.subrange(lo, hi)
}

/// An ASCII decimal digit.
pub open spec fn is_digit(b: u8) -> bool {
    0x30 <= b <= 0x39
}

/// The number that a string of decimal digits writes.
pub open spec fn digits_value(digits: Seq<u8>) -> nat
    decreases digits.len(),
{
    if digits.len() == 0 {
        0
    } else {
        digits_value(digits.drop_last()) * 10 + (digits.last() - 0x30) as nat
    }
}

/// The digits of a number's text: the text itself, without a leading plus sign.
pub open spec fn digits_of(text: Seq<u8>) -> Seq<u8> {
    if text.len() > 0 && text[0] == 0x2B {
        text.drop_first()
    } else {
        text
    }
}

/// The number that `text` writes: an optional plus sign and then one decimal
/// digit or more, nothing else.
pub open spec fn number_of(text: Seq<u8>) -> Option<nat> {
    let digits = digits_of(text);
    if digits.len() > 0 && (forall|i: int| 0 <= i < digits.len() ==> is_digit(#[trigger] digits[i])) {
        Some(digits_value(digits))
    } else {
        None
    }
}

/// The selection that a parsed answer makes from a list of `shown` hits.
pub open spec fn selection_for(answer: Option<nat>, shown: nat) -> Selection {
    match answer {
        None => Selection::NotANumber,
        Some(n) => if n > usize::MAX {
            Selection::NotANumber
        } else if n == 0 {
            Selection::Cancelled
        } else if n <= shown {
            Selection::Open((n - 1) as usize)
        } else {
            Selection::OutOfRange
        },
    }
}

/// Longer strings of digits write numbers that are no smaller.
pub proof fn lemma_digits_value_grows(digits: Seq<u8>, i: int)
    requires
        0 <= i <= digits.len(),
        forall|j: int| 0 <= j < digits.len() ==> is_digit(#[trigger] digits[j]),
    ensures
        digits_value(digits.take(i)) <= digits_value(digits),
    decreases digits.len() - i,
{
    if i == digits.len() {
        assert(digits.take(i) =~= digits);
    } else {
        lemma_digits_value_grows(digits, i + 1);
        assert(digits.take(i + 1).drop_last() =~= digits.take(i));
        assert(is_digit(digits[i]));
    }
}

/// The number of bytes of the white-space character that begins at `i`.
fn space_at(text: &[u8], i: usize) -> (width: usize)
    requires
        i <= text.len(),
    ensures
        width == space_len_at(text@, i as int),
        i + width <= text.len(),
{
    let n: usize = text.len();
    if i < n && (text[i] == 0x20 || (0x09 <= text[i] && text[i] <= 0x0D)) {
        1
    } else if n - i >= 2 && text[i] == 0xC2 && (text[i + 1] == 0x85 || text[i + 1] == 0xA0) {
        2
    } else if n - i >= 3 && wide_space(text[i], text[i + 1], text[i + 2]) {
        3
    } else {
        0
    }
}

/// The number of bytes of the white-space character that ends just before
/// `hi` and begins at `lo` or later.
fn space_before(text: &[u8], lo: usize, hi: usize) -> (width: usize)
    requires
        lo <= hi <= text.len(),
    ensures
        width == space_len_before(text@, lo as int, hi as int),
        lo + width <= hi,
{
    if hi - lo >= 1 && (text[hi - 1] == 0x20 || (0x09 <= text[hi - 1] && text[hi - 1] <= 0x0D)) {
        1
    } else if hi - lo >= 2 && text[hi - 2] == 0xC2 && (text[hi - 1] == 0x85 || text[hi - 1]
        == 0xA0) {
        2
    } else if hi - lo >= 3 && wide_space(text[hi - 3], text[hi - 2], text[hi - 1]) {
        3
    } else {
        0
    }
}

/// Whether three bytes write a white-space character.
fn wide_space(a: u8, b: u8, c: u8) -> (wide: bool)
    ensures
        wide == is_wide_space(a, b, c),
{
    (a == 0xE1 && b == 0x9A && c == 0x80) || (a == 0xE2 && b == 0x80 && ((0x80 <= c && c <= 0x8A)
        || c == 0xA8 || c == 0xA9 || c == 0xAF)) || (a == 0xE2 && b == 0x81 && c == 0x9F) || (a
        == 0xE3 && b == 0x80 && c == 0x80)
}

/// Where the text without its outer white space begins and ends.
fn trim_bounds(text: &[u8]) -> (bounds: (usize, usize))
    ensures
        bounds.0 <= bounds.1 <= text.len(),
        text@.subrange(bounds.0 as int, bounds.1 as int) == trimmed(text@),
{
    let mut lo: usize = 0;
    let mut width: usize = space_at(text, lo);
    while width > 0
        invariant
            lo <= text.len(),
            width == space_len_at(text@, lo as int),
            lo + width <= text.len(),
            after_leading_space(text@, lo as int) == after_leading_space(text@, 0),
        decreases text.len() - lo,
    {
        lo = lo + width;
        width = space_at(text, lo);
    }
    let mut hi: usize = text.len();
    let mut back: usize = space_before(text, lo, hi);
    while back > 0
        invariant
            lo <= hi <= text.len(),
            back == space_len_before(text@, lo as int, hi as int),
            lo + back <= hi,
            before_trailing_space(text@, lo as int, hi as int) == before_trailing_space(
                text@,
                lo as int,
                text.len() as int,
            ),
        decreases hi - lo,
    {
        hi = hi - back;
        back = space_before(text, lo, hi);
    }
    (lo, hi)
}

/// Reads the number that the text from `lo` up to `hi` writes, where it
/// writes one that a `usize` holds.
fn read_number(text: &[u8], lo: usize, hi: usize) -> (value: Option<usize>)
    requires
        lo <= hi <= text.len(),
    ensures
        match number_of(text@.subrange(lo as int, hi as int)) {
            Some(n) => if n <= usize::MAX {
                value == Some(n as usize)
            } else {
                value.is_none()
            },
            None => value.is_none(),
        },
{
    let ghost body = text@.subrange(lo as int, hi as int);
    let ghost digits = digits_of(body);
    let mut i: usize = lo;
    if i < hi && text[i] == 0x2B {
        i = i + 1;
    }
    let start: usize = i;
    assert(digits =~= text@.subrange(start as int, hi as int));
    if start == hi {
        return None;
    }
    let mut acc: usize = 0;
    while i < hi
        invariant
            lo <= start <= i <= hi <= text.len(),
            digits == text@.subrange(start as int, hi as int),
            digits == digits_of(text@.subrange(lo as int, hi as int)),
            forall|j: int| 0 <= j < i - start ==> is_digit(#[trigger] digits[j]),
            acc == digits_value(digits.take(i - start)),
        decreases hi - i,
    {
        let b: u8 = text[i];
        assert(digits[i - start] == b);
        if b < 0x30 || b > 0x39 {
            assert(!is_digit(digits[i - start]));
            return None;
        }
        let d: usize = (b - 0x30) as usize;
        assert(digits.take(i - start + 1).drop_last() =~= digits.take(i - start));
        if acc > (usize::MAX - d) / 10 {
            proof {
                // The digits read so far already write too great a number.
                let far = digits_value(digits.take(i - start + 1));
                assert(far == acc * 10 + d);
                assert(far > usize::MAX);
                if forall|j: int| 0 <= j < digits.len() ==> is_digit(#[trigger] digits[j]) {
                    lemma_digits_value_grows(digits, i - start + 1);
                }
            }
            return None;
        }
        acc = acc * 10 + d;
        i = i + 1;
    }
    assert(digits.take(hi - start) =~= digits);
    Some(acc)
}

/// The selection that a parsed answer makes from a list of `shown` hits:
/// zero cancels, a number from one to `shown` opens the hit at that place,
/// a greater one is out of range, and no number is no selection.
pub fn decide_selection(answer: Option<usize>, shown: usize) -> (selection: Selection)
    ensures
        selection == selection_for(
            match answer {
                Some(n) => Some(n as nat),
                None => None,
            },
            shown as nat,
        ),
{
    match answer {
        None => Selection::NotANumber,
        Some(n) => {
            if n == 0 {
                Selection::Cancelled
            } else if n <= shown {
                Selection::Open(n - 1)
            } else {
                Selection::OutOfRange
            }
        },
    }
}

/// Reads the user's answer to a list of `shown` hits. White space around
/// the answer, of any script, does not count. The answer is a number when it
/// is an optional plus sign followed by decimal digits and a `usize` holds it.
pub fn read_selection(input: &str, shown: usize) -> (selection: Selection)
    ensures
        selection == selection_for(number_of(trimmed(input.spec_bytes())), shown as nat),
{
    let text = input.as_bytes();
    let (lo, hi) = trim_bounds(text);
    let answer = read_number(text, lo, hi);
    decide_selection(answer, shown)
}

} // verus!
