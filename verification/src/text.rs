//! Text helpers: comparison, search, trimming, line splitting and decimal numerals.
//!
//! Contracts speak of a text as the sequence of its characters.

use vstd::arithmetic::mul::*;
use vstd::arithmetic::power2::*;
use vstd::prelude::*;
use vstd::utf8::*;

verus! {

/// `String::push` of the standard library appends the given character at the end.
pub assume_specification[ String::push ](s: &mut String, ch: char)
    ensures
        final(s)@ == old(s)@.push(ch),
;

/// The characters of a text, in order.
pub fn to_chars(text: &str) -> (chars: Vec<char>)
    ensures
        chars@ == text@,
{
    let mut chars: Vec<char> = Vec::new();
    for c in it: text.chars()
        invariant
            chars@ == it.seq().take(it.index() as int),
            it.seq() == text@,
    {
        chars.push(c);
    }
    chars
}

/// Whether two texts hold the same characters.
pub fn same_text(a: &str, b: &str) -> (same: bool)
    ensures
        same == (a@ == b@),
{
    let x: &[u8] = a.as_bytes();
    let y: &[u8] = b.as_bytes();
    proof {
        encode_utf8_decode_utf8(a@);
        encode_utf8_decode_utf8(b@);
    }
    if x.len() != y.len() {
        return false;
    }
    let mut i: usize = 0;
    while i < x.len()
        invariant
            i <= x.len(),
            x@.len() == y@.len(),
            x@ == encode_utf8(a@),
            y@ == encode_utf8(b@),
            forall|j: int| 0 <= j < i ==> x@[j] == y@[j],
        decreases x.len() - i,
    {
        if x[i] != y[i] {
            return false;
        }
        i = i + 1;
    }
    assert(x@ =~= y@);
    true
}

/// A copy of the characters from `from` up to, not including, `to`.
pub fn chars_text(chars: &Vec<char>, from: usize, to: usize) -> (text: String)
    requires
        from <= to <= chars@.len(),
    ensures
        text@ == chars@.subrange(from as int, to as int),
{
    let mut text: String = String::new();
    let mut i: usize = from;
    while i < to
        invariant
            from <= i <= to <= chars@.len(),
            text@ == chars@.subrange(from as int, i as int),
        decreases to - i,
    {
        text.push(chars[i]);
        i = i + 1;
    }
    text
}

/// Whether `prefix` stands at the start of `text`.
pub fn has_prefix(text: &str, prefix: &str) -> (found: bool)
    ensures
        found == prefix@.is_prefix_of(text@),
{
    let t: Vec<char> = to_chars(text);
    let p: Vec<char> = to_chars(prefix);
    p.len() <= t.len() && matches_at(&t, &p, 0)
}

/// Whether `suffix` stands at the end of `text`.
pub fn has_suffix(text: &str, suffix: &str) -> (found: bool)
    ensures
        found == suffix@.is_suffix_of(text@),
{
    let t: Vec<char> = to_chars(text);
    let p: Vec<char> = to_chars(suffix);
    p.len() <= t.len() && matches_at(&t, &p, t.len() - p.len())
}

/// Whether `part` stands in `text` from position `at` on.
fn matches_at(text: &Vec<char>, part: &Vec<char>, at: usize) -> (found: bool)
    requires
        at + part@.len() <= text@.len(),
    ensures
        found == (text@.subrange(at as int, at + part@.len()) == part@),
{
    let mut i: usize = 0;
    while i < part.len()
        invariant
            i <= part.len(),
            at + part.len() <= text.len(),
            forall|j: int| 0 <= j < i ==> text@[at + j] == part@[j],
        decreases part.len() - i,
    {
        if text[at + i] != part[i] {
            assert(text@.subrange(at as int, at + part@.len())[i as int] != part@[i as int]);
            return false;
        }
        i = i + 1;
    }
    assert(text@.subrange(at as int, at + part@.len()) =~= part@);
    true
}

/// `part` occurs somewhere in `text`.
pub open spec fn occurs(part: Seq<char>, text: Seq<char>) -> bool {
    exists|at: int|
        0 <= at && at + part.len() <= text.len() && #[trigger] text.subrange(at, at + part.len())
            == part
}

fn occurs_in(text: &Vec<char>, part: &Vec<char>) -> (found: bool)
    ensures
        found == occurs(part@, text@),
{
    if part.len() > text.len() {
        return false;
    }
    let mut at: usize = 0;
    while at <= text.len() - part.len()
        invariant
            part@.len() <= text@.len(),
            at <= text.len() - part.len() + 1,
            forall|i: int|
                0 <= i < at ==> #[trigger] text@.subrange(i, i + part@.len()) != part@,
        decreases text.len() - part.len() + 1 - at,
    {
        if matches_at(text, part, at) {
            return true;
        }
        if at == text.len() - part.len() {
            return false;
        }
        at = at + 1;
    }
    false
}

/// Whether `part` occurs in `text`.
pub fn contains_text(text: &str, part: &str) -> (found: bool)
    ensures
        found == occurs(part@, text@),
{
    occurs_in(&to_chars(text), &to_chars(part))
}

/// The lower-case form of an ASCII letter; any other character itself.
pub open spec fn ascii_lower(c: char) -> char {
    if 'A' <= c && c <= 'Z' {
        (c as u32 + 32) as char
    } else {
        c
    }
}

/// A text with its ASCII letters in lower case.
pub open spec fn ascii_lowered(text: Seq<char>) -> Seq<char> {
    text.map_values(|c: char| ascii_lower(c))
}

/// Whether `part` occurs in `text` once the ASCII letters of `text` are in lower case.
pub fn contains_lowered(text: &str, part: &str) -> (found: bool)
    ensures
        found == occurs(part@, ascii_lowered(text@)),
{
    let chars: Vec<char> = to_chars(text);
    let mut lowered: Vec<char> = Vec::new();
    let mut i: usize = 0;
    while i < chars.len()
        invariant
            i <= chars.len(),
            lowered@ == ascii_lowered(chars@.take(i as int)),
        decreases chars.len() - i,
    {
        let c: char = chars[i];
        if 'A' <= c && c <= 'Z' {
            lowered.push((c as u8 + 32) as char);
        } else {
            lowered.push(c);
        }
        i = i + 1;
        assert(lowered@ =~= ascii_lowered(chars@.take(i as int)));
    }
    assert(chars@.take(chars@.len() as int) =~= chars@);
    occurs_in(&lowered, &to_chars(part))
}

/// A character with the Unicode property White_Space.
pub open spec fn white_space(c: char) -> bool {
    ||| '\u{9}' <= c <= '\u{d}'
    ||| c == ' '
    ||| c == '\u{85}'
    ||| c == '\u{a0}'
    ||| c == '\u{1680}'
    ||| '\u{2000}' <= c <= '\u{200a}'
    ||| c == '\u{2028}'
    ||| c == '\u{2029}'
    ||| c == '\u{202f}'
    ||| c == '\u{205f}'
    ||| c == '\u{3000}'
}

/// Whether a character is white space.
pub fn is_white_space(c: char) -> (white: bool)
    ensures
        white == white_space(c),
{
    ('\u{9}' <= c && c <= '\u{d}') || c == ' ' || c == '\u{85}' || c == '\u{a0}' || c == '\u{1680}'
        || ('\u{2000}' <= c && c <= '\u{200a}') || c == '\u{2028}' || c == '\u{2029}' || c
        == '\u{202f}' || c == '\u{205f}' || c == '\u{3000}'
}

/// A text without the white space at its two ends.
pub open spec fn trimmed(text: Seq<char>) -> Seq<char>
    decreases text.len(),
{
    if text.len() > 0 && white_space(text[0]) {
        trimmed(text.drop_first())
    } else if text.len() > 0 && white_space(text.last()) {
        trimmed(text.drop_last())
    } else {
        text
    }
}

/// A copy of a text without the white space at its two ends.
pub fn trim_text(text: &str) -> (result: String)
    ensures
        result@ == trimmed(text@),
{
    let chars: Vec<char> = to_chars(text);
    let mut from: usize = 0;
    let mut to: usize = chars.len();
    assert(chars@.subrange(0, to as int) =~= chars@);
    while from < to && is_white_space(chars[from])
        invariant
            from <= to <= chars@.len(),
            trimmed(chars@) == trimmed(chars@.subrange(from as int, to as int)),
        ensures
            from <= to <= chars@.len(),
            trimmed(chars@) == trimmed(chars@.subrange(from as int, to as int)),
            from < to ==> !white_space(chars@[from as int]),
        decreases to - from,
    {
        assert(chars@.subrange(from as int, to as int).drop_first() =~= chars@.subrange(
            from + 1,
            to as int,
        ));
        from = from + 1;
    }
    while from < to && is_white_space(chars[to - 1])
        invariant
            from <= to <= chars@.len(),
            trimmed(chars@) == trimmed(chars@.subrange(from as int, to as int)),
            from < to ==> !white_space(chars@[from as int]),
        ensures
            from <= to <= chars@.len(),
            trimmed(chars@) == trimmed(chars@.subrange(from as int, to as int)),
            from < to ==> !white_space(chars@[from as int]),
            from < to ==> !white_space(chars@[to - 1]),
        decreases to - from,
    {
        assert(chars@.subrange(from as int, to as int).drop_last() =~= chars@.subrange(
            from as int,
            to - 1,
        ));
        to = to - 1;
    }
    chars_text(&chars, from, to)
}

/// Trimming a trimmed text changes nothing.
pub proof fn lemma_trimmed_twice(text: Seq<char>)
    ensures
        trimmed(trimmed(text)) == trimmed(text),
    decreases text.len(),
{
    if text.len() > 0 && white_space(text[0]) {
        lemma_trimmed_twice(text.drop_first());
    } else if text.len() > 0 && white_space(text.last()) {
        lemma_trimmed_twice(text.drop_last());
    }
}

/// The position of the first line feed, or the length of the text where it has none.
pub open spec fn line_feed_at(text: Seq<char>) -> int
    decreases text.len(),
{
    if text.len() == 0 || text[0] == '\n' {
        0
    } else {
        1 + line_feed_at(text.drop_first())
    }
}

pub proof fn lemma_line_feed_at(text: Seq<char>, at: int)
    requires
        0 <= at <= text.len(),
        forall|i: int| 0 <= i < at ==> text[i] != '\n',
        at < text.len() ==> text[at] == '\n',
    ensures
        line_feed_at(text) == at,
    decreases at,
{
    if at > 0 {
        lemma_line_feed_at(text.drop_first(), at - 1);
    }
}

/// The first line feed stands within the text or at its end.
pub proof fn lemma_line_feed_range(text: Seq<char>)
    ensures
        0 <= line_feed_at(text) <= text.len(),
    decreases text.len(),
{
    if text.len() > 0 && text[0] != '\n' {
        lemma_line_feed_range(text.drop_first());
    }
}

/// A line without the carriage return at its end, if it has one.
pub open spec fn without_return(line: Seq<char>) -> Seq<char> {
    if line.len() > 0 && line.last() == '\r' {
        line.drop_last()
    } else {
        line
    }
}

/// The lines of a text. A line ends with a line feed, or a carriage return and a line feed,
/// neither of which belongs to it; what follows the last line feed is a line if it is not
/// empty, taken as it stands.
pub open spec fn lines(text: Seq<char>) -> Seq<Seq<char>>
    decreases text.len(),
{
    let at = line_feed_at(text);
    if text.len() == 0 {
        Seq::empty()
    } else if at >= text.len() {
        seq![text]
    } else {
        proof {
            lemma_line_feed_range(text);
        }
        seq![without_return(text.take(at))] + lines(text.skip(at + 1))
    }
}

/// The characters that a list of strings holds.
pub open spec fn texts(list: Seq<String>) -> Seq<Seq<char>> {
    list.map_values(|text: String| text@)
}

/// The lines of a text, first to last.
pub fn split_lines(text: &str) -> (list: Vec<String>)
    ensures
        texts(list@) == lines(text@),
{
    let chars: Vec<char> = to_chars(text);
    let mut list: Vec<String> = Vec::new();
    let mut start: usize = 0;
    assert(chars@.skip(0) =~= chars@);
    assert(texts(list@) + lines(chars@.skip(0)) =~= lines(chars@));
    while start < chars.len()
        invariant
            start <= chars@.len(),
            texts(list@) + lines(chars@.skip(start as int)) == lines(chars@),
        decreases chars.len() - start,
    {
        let mut end: usize = start;
        while end < chars.len() && chars[end] != '\n'
            invariant
                start <= end <= chars@.len(),
                forall|i: int| start <= i < end ==> chars@[i] != '\n',
            ensures
                start <= end <= chars@.len(),
                forall|i: int| start <= i < end ==> chars@[i] != '\n',
                end < chars@.len() ==> chars@[end as int] == '\n',
            decreases chars.len() - end,
        {
            end = end + 1;
        }
        let ghost rest = chars@.skip(start as int);
        let ghost before = texts(list@);
        proof {
            lemma_line_feed_at(rest, end - start);
        }
        if end == chars.len() {
            let line: String = chars_text(&chars, start, end);
            assert(line@ =~= rest);
            list.push(line);
            start = end;
            assert(texts(list@) =~= before + seq![rest]);
            assert(lines(chars@.skip(start as int)) =~= Seq::empty());
        } else {
            let mut stop: usize = end;
            if start < end && chars[end - 1] == '\r' {
                stop = end - 1;
            }
            let line: String = chars_text(&chars, start, stop);
            assert(line@ =~= without_return(rest.take(end - start)));
            assert(rest.skip(end - start + 1) =~= chars@.skip(end + 1));
            list.push(line);
            start = end + 1;
            assert(texts(list@) =~= before + seq![line@]);
            assert(before + (seq![line@] + lines(chars@.skip(start as int))) =~= texts(list@)
                + lines(chars@.skip(start as int)));
        }
    }
    assert(lines(chars@.skip(start as int)) =~= Seq::empty());
    assert(texts(list@) + Seq::<Seq<char>>::empty() =~= texts(list@));
    list
}

/// What follows the first line feed of a text; nothing where it has none.
pub open spec fn after_line_feed(text: Seq<char>) -> Seq<char> {
    let at = line_feed_at(text);
    if at < text.len() {
        text.skip(at + 1)
    } else {
        Seq::empty()
    }
}

/// A copy of what follows the first line feed of a text; nothing where it has none.
pub fn rest_after_line_feed(text: &str) -> (rest: String)
    ensures
        rest@ == after_line_feed(text@),
{
    let chars: Vec<char> = to_chars(text);
    let mut end: usize = 0;
    while end < chars.len() && chars[end] != '\n'
        invariant
            end <= chars@.len(),
            forall|i: int| 0 <= i < end ==> chars@[i] != '\n',
        ensures
            end <= chars@.len(),
            forall|i: int| 0 <= i < end ==> chars@[i] != '\n',
            end < chars@.len() ==> chars@[end as int] == '\n',
        decreases chars.len() - end,
    {
        end = end + 1;
    }
    proof {
        lemma_line_feed_at(chars@, end as int);
    }
    if end < chars.len() {
        chars_text(&chars, end + 1, chars.len())
    } else {
        String::new()
    }
}

/// The digit character of a number below ten.
pub open spec fn digit(value: int) -> char {
    ('0' as u32 + value) as char
}

/// The decimal numeral of a number, without leading zeros.
pub open spec fn decimal(value: nat) -> Seq<char>
    decreases value,
{
    if value < 10 {
        seq![digit(value as int)]
    } else {
        decimal(value / 10).push(digit((value % 10) as int))
    }
}

/// The decimal numeral of a number, filled up with a zero in front to two digits.
pub open spec fn two_digits(value: nat) -> Seq<char> {
    if value < 10 {
        seq!['0'] + decimal(value)
    } else {
        decimal(value)
    }
}

/// Appends the decimal numeral of a number.
pub fn push_decimal(text: &mut String, value: u64)
    ensures
        final(text)@ == old(text)@ + decimal(value as nat),
    decreases value,
{
    if value >= 10 {
        push_decimal(text, value / 10);
    }
    text.push((48 + (value % 10) as u8) as char);
    assert(text@ =~= old(text)@ + decimal(value as nat));
}

/// Appends the decimal numeral of a number, with at least two digits.
pub fn push_two_digits(text: &mut String, value: u64)
    ensures
        final(text)@ == old(text)@ + two_digits(value as nat),
{
    if value < 10 {
        text.push('0');
    }
    push_decimal(text, value);
    assert(text@ =~= old(text)@ + two_digits(value as nat));
}

/// The number that decimal digits stand for, the last digit of the numeral first.
spec fn digits_value(digits: Seq<u8>) -> nat
    decreases digits.len(),
{
    if digits.len() == 0 {
        0
    } else {
        digits[0] as nat + 10 * digits_value(digits.drop_first())
    }
}

/// Ten to the power of `k`.
spec fn power_of_ten(k: nat) -> nat
    decreases k,
{
    if k == 0 {
        1
    } else {
        10 * power_of_ten((k - 1) as nat)
    }
}

/// Decimal digits without a superfluous leading zero.
spec fn numeral(digits: Seq<u8>) -> bool {
    &&& digits.len() >= 1
    &&& forall|i: int| 0 <= i < digits.len() ==> digits[i] < 10
    &&& digits.len() > 1 ==> digits.last() != 0
}

proof fn lemma_digits_push(digits: Seq<u8>, top: u8)
    ensures
        digits_value(digits.push(top)) == digits_value(digits) + power_of_ten(digits.len()) * top,
    decreases digits.len(),
{
    if digits.len() == 0 {
        assert(digits.push(top).drop_first() =~= Seq::<u8>::empty());
        reveal_with_fuel(digits_value, 2);
        lemma_mul_basics(top as int);
    } else {
        assert(digits.push(top).drop_first() =~= digits.drop_first().push(top));
        lemma_digits_push(digits.drop_first(), top);
        let p = power_of_ten((digits.len() - 1) as nat);
        assert(10 * (p * top) == (10 * p) * top) by (nonlinear_arith);
    }
}

proof fn lemma_digits_positive(digits: Seq<u8>)
    requires
        digits.len() >= 1,
        digits.last() != 0,
    ensures
        digits_value(digits) >= 1,
    decreases digits.len(),
{
    if digits.len() > 1 {
        lemma_digits_positive(digits.drop_first());
    }
}

/// The decimal digits of a number.
fn number_digits(value: u64) -> (digits: Vec<u8>)
    ensures
        numeral(digits@),
        digits_value(digits@) == value,
{
    let mut digits: Vec<u8> = Vec::new();
    let mut rest: u64 = value;
    assert(1 * rest as nat == rest);
    while rest >= 10
        invariant
            forall|i: int| 0 <= i < digits@.len() ==> digits@[i] < 10,
            value == digits_value(digits@) + power_of_ten(digits@.len()) * rest,
            digits@.len() > 0 ==> rest > 0,
        decreases rest,
    {
        proof {
            lemma_digits_push(digits@, (rest % 10) as u8);
            let p = power_of_ten(digits@.len());
            let q = rest / 10;
            let r = rest % 10;
            assert(p * rest == p * r + (10 * p) * q) by (nonlinear_arith)
                requires
                    rest == 10 * q + r,
            ;
        }
        digits.push((rest % 10) as u8);
        rest = rest / 10;
    }
    proof {
        lemma_digits_push(digits@, rest as u8);
    }
    digits.push(rest as u8);
    digits
}

/// The decimal digits of twice a number.
fn doubled_digits(digits: &Vec<u8>) -> (result: Vec<u8>)
    requires
        numeral(digits@),
    ensures
        numeral(result@),
        digits_value(result@) == 2 * digits_value(digits@),
{
    let mut result: Vec<u8> = Vec::new();
    let mut carry: u8 = 0;
    let mut i: usize = 0;
    assert(digits@.skip(0) =~= digits@);
    assert(1 * (2 * digits_value(digits@)) == 2 * digits_value(digits@));
    while i < digits.len()
        invariant
            i <= digits@.len(),
            numeral(digits@),
            carry <= 1,
            result@.len() == i,
            forall|j: int| 0 <= j < i ==> result@[j] < 10,
            i == digits@.len() && digits@.len() > 1 ==> carry == 1 || result@.last() != 0,
            2 * digits_value(digits@) == digits_value(result@) + power_of_ten(i as nat) * (carry
                + 2 * digits_value(digits@.skip(i as int))),
        decreases digits.len() - i,
    {
        let sum: u8 = 2 * digits[i] + carry;
        let (low, high): (u8, u8) = if sum >= 10 {
            (sum - 10, 1)
        } else {
            (sum, 0)
        };
        proof {
            lemma_digits_push(result@, low);
            assert(digits@.skip(i as int).drop_first() =~= digits@.skip(i + 1));
            let p = power_of_ten(i as nat);
            let rest = digits_value(digits@.skip(i + 1));
            let d = digits@[i as int];
            assert(p * (carry + 2 * (d as nat + 10 * rest)) == p * low + (10 * p) * (high + 2
                * rest)) by (nonlinear_arith)
                requires
                    carry + 2 * d == low + 10 * high,
            ;
        }
        result.push(low);
        carry = high;
        i = i + 1;
    }
    proof {
        lemma_mul_basics(power_of_ten(i as nat) as int);
        lemma_mul_is_commutative(power_of_ten(i as nat) as int, carry as int);
    }
    assert(digits_value(digits@.skip(i as int)) == 0);
    if carry == 1 {
        proof {
            lemma_digits_push(result@, 1);
        }
        result.push(1);
    }
    result
}

/// Appends the decimal numeral of a number that was doubled the given number of times.
pub fn push_doubled_decimal(text: &mut String, value: u64, doublings: u32)
    ensures
        final(text)@ == old(text)@ + decimal(value as nat * pow2(doublings as nat)),
{
    let mut digits: Vec<u8> = number_digits(value);
    let mut left: u32 = doublings;
    while left > 0
        invariant
            numeral(digits@),
            digits_value(digits@) * pow2(left as nat) == value as nat * pow2(doublings as nat),
        decreases left,
    {
        proof {
            lemma_pow2_unfold(left as nat);
            let v = digits_value(digits@);
            let p = pow2((left - 1) as nat);
            assert(v * (2 * p) == (2 * v) * p) by (nonlinear_arith);
        }
        digits = doubled_digits(&digits);
        left = left - 1;
    }
    proof {
        lemma2_to64();
        lemma_mul_basics(digits_value(digits@) as int);
    }
    let last: usize = digits.len() - 1;
    let mut at: usize = last;
    proof {
        assert(digits@.skip(at as int) =~= seq![digits@[at as int]]);
        reveal_with_fuel(digits_value, 2);
    }
    text.push((48 + digits[at]) as char);
    assert(text@ =~= old(text)@ + decimal(digits_value(digits@.skip(at as int))));
    while at > 0
        invariant
            at <= last < digits@.len(),
            last == digits@.len() - 1,
            numeral(digits@),
            text@ == old(text)@ + decimal(digits_value(digits@.skip(at as int))),
        decreases at,
    {
        proof {
            lemma_digits_positive(digits@.skip(at as int));
            assert(digits@.skip(at - 1).drop_first() =~= digits@.skip(at as int));
        }
        at = at - 1;
        text.push((48 + digits[at]) as char);
        assert(text@ =~= old(text)@ + decimal(digits_value(digits@.skip(at as int))));
    }
    assert(digits@.skip(0) =~= digits@);
}

/// The number that decimal digits stand for, the last digit counting least.
pub open spec fn numeral_value(numeral: Seq<char>) -> int
    decreases numeral.len(),
{
    if numeral.len() == 0 {
        0
    } else {
        numeral_value(numeral.drop_last()) * 10 + (numeral.last() as int - 48)
    }
}

/// The numeral of a number reads as the number, holds digits only, and has no zero in front.
pub proof fn law_numerals_read_back(value: nat)
    ensures
        numeral_value(decimal(value)) == value,
        decimal(value).len() >= 1,
        forall|i: int|
            0 <= i < decimal(value).len() ==> '0' <= #[trigger] decimal(value)[i] <= '9',
        decimal(value).len() > 1 ==> decimal(value)[0] != '0',
        value < 10 <==> decimal(value).len() == 1,
    decreases value,
{
    reveal_with_fuel(numeral_value, 2);
    if value >= 10 {
        law_numerals_read_back(value / 10);
        let front = decimal(value / 10);
        assert(decimal(value).drop_last() =~= front);
        assert forall|i: int| 0 <= i < decimal(value).len() implies '0' <= #[trigger] decimal(
            value,
        )[i] <= '9' by {
            if i < front.len() {
                assert(decimal(value)[i] == front[i]);
            }
        }
        if value / 10 < 10 {
            assert(front[0] == digit((value / 10) as int));
        }
    } else {
        assert(decimal(value).drop_last() =~= Seq::empty());
    }
}

/// Two digits are two digits, and read as the number.
pub proof fn law_two_digits_read_back(value: nat)
    requires
        value < 100,
    ensures
        two_digits(value).len() == 2,
        '0' <= two_digits(value)[0] <= '9',
        '0' <= two_digits(value)[1] <= '9',
        (two_digits(value)[0] as int - 48) * 10 + (two_digits(value)[1] as int - 48) == value,
{
    reveal_with_fuel(decimal, 2);
}

/// The first line of a text ends with its first line feed, and a carriage return before that is
/// no part of it.
pub proof fn law_a_line_ends_with_a_line_feed(line: Seq<char>, rest: Seq<char>)
    requires
        !line.contains('\n'),
    ensures
        lines(line.push('\n') + rest) == seq![
            if line.len() > 0 && line.last() == '\r' {
                line.drop_last()
            } else {
                line
            },
        ] + lines(rest),
        after_line_feed(line.push('\n') + rest) == rest,
{
    let whole = line.push('\n') + rest;
    assert forall|i: int| 0 <= i < line.len() implies whole[i] != '\n' by {
        assert(line.contains(line[i]));
    }
    lemma_line_feed_at(whole, line.len() as int);
    assert(whole.take(line.len() as int) =~= line);
    assert(whole.skip(line.len() as int + 1) =~= rest);
}

/// What follows the last line feed is a line as it stands, unless it is empty.
pub proof fn law_the_last_line_needs_no_line_feed(line: Seq<char>)
    requires
        !line.contains('\n'),
    ensures
        lines(line) == (if line.len() == 0 {
            Seq::empty()
        } else {
            seq![line]
        }),
        after_line_feed(line) == Seq::<char>::empty(),
{
    assert forall|i: int| 0 <= i < line.len() implies line[i] != '\n' by {
        assert(line.contains(line[i]));
    }
    lemma_line_feed_at(line, line.len() as int);
}

/// Everything outside a range of a text is white space.
pub open spec fn white_outside(text: Seq<char>, from: int, to: int) -> bool {
    forall|i: int| 0 <= i < from || to <= i < text.len() ==> white_space(#[trigger] text[i])
}

/// A trimmed text is what stands between the white space at the two ends.
pub proof fn law_trimming_takes_white_space_only(text: Seq<char>)
    ensures
        exists|from: int, to: int|
            0 <= from <= to <= text.len() && trimmed(text) == text.subrange(from, to)
                && #[trigger] white_outside(text, from, to),
        trimmed(text).len() > 0 ==> !white_space(trimmed(text)[0]) && !white_space(
            trimmed(text).last(),
        ),
{
    let (from, to) = lemma_trimmed_range(text);
    assert(white_outside(text, from, to));
}

proof fn lemma_trimmed_range(text: Seq<char>) -> (range: (int, int))
    ensures
        0 <= range.0 <= range.1 <= text.len(),
        trimmed(text) == text.subrange(range.0, range.1),
        white_outside(text, range.0, range.1),
        trimmed(text).len() > 0 ==> !white_space(trimmed(text)[0]) && !white_space(
            trimmed(text).last(),
        ),
    decreases text.len(),
{
    if text.len() > 0 && white_space(text[0]) {
        let rest = text.drop_first();
        let (from, to) = lemma_trimmed_range(rest);
        assert(text.subrange(from + 1, to + 1) =~= rest.subrange(from, to));
        lemma_white_before(text, from, to);
        (from + 1, to + 1)
    } else if text.len() > 0 && white_space(text.last()) {
        let rest = text.drop_last();
        let (from, to) = lemma_trimmed_range(rest);
        assert(text.subrange(from, to) =~= rest.subrange(from, to));
        lemma_white_behind(text, from, to);
        (from, to)
    } else {
        assert(text.subrange(0, text.len() as int) =~= text);
        (0, text.len() as int)
    }
}

proof fn lemma_white_before(text: Seq<char>, from: int, to: int)
    requires
        text.len() > 0,
        white_space(text[0]),
        0 <= from <= to < text.len(),
        white_outside(text.drop_first(), from, to),
    ensures
        white_outside(text, from + 1, to + 1),
{
    let rest = text.drop_first();
    assert forall|i: int| 0 <= i < from + 1 || to + 1 <= i < text.len() implies white_space(
        #[trigger] text[i],
    ) by {
        if i > 0 {
            assert(white_space(rest[i - 1]));
        }
    }
}

proof fn lemma_white_behind(text: Seq<char>, from: int, to: int)
    requires
        text.len() > 0,
        white_space(text.last()),
        0 <= from <= to < text.len(),
        white_outside(text.drop_last(), from, to),
    ensures
        white_outside(text, from, to),
{
    let rest = text.drop_last();
    assert forall|i: int| 0 <= i < from || to <= i < text.len() implies white_space(
        #[trigger] text[i],
    ) by {
        if i < rest.len() {
            assert(white_space(rest[i]));
        }
    }
}

/// The visible characters of ASCII are no white space; the space, the tabulator and the ends of
/// lines are.
pub proof fn law_visible_characters_are_no_white_space(c: char)
    ensures
        '!' <= c <= '~' ==> !white_space(c),
        c == ' ' || c == '\t' || c == '\n' || c == '\r' ==> white_space(c),
{
}

/// A text occurs in another exactly if the other is made of something, the text, and something.
pub proof fn law_occurring_is_standing_somewhere(part: Seq<char>, text: Seq<char>)
    ensures
        occurs(part, text) <==> exists|front: Seq<char>, back: Seq<char>|
            text == #[trigger] (front + part + back),
{
    if occurs(part, text) {
        let at = choose|at: int|
            0 <= at && at + part.len() <= text.len() && #[trigger] text.subrange(
                at,
                at + part.len(),
            ) == part;
        let front = text.take(at);
        let back = text.skip(at + part.len());
        assert(text =~= front + part + back) by {
            assert(text.subrange(at, at + part.len()) == part);
            assert forall|i: int| at <= i < at + part.len() implies text[i] == part[i - at] by {
                assert(text.subrange(at, at + part.len())[i - at] == text[i]);
            }
        }
    }
    if exists|front: Seq<char>, back: Seq<char>| text == #[trigger] (front + part + back) {
        let (front, back) = choose|front: Seq<char>, back: Seq<char>|
            text == #[trigger] (front + part + back);
        let at = front.len() as int;
        assert(text.subrange(at, at + part.len()) =~= part);
    }
}

/// Lower case changes the 26 capital letters of ASCII, each to its small letter, and nothing else.
pub proof fn law_lower_case_changes_capital_letters(text: Seq<char>, i: int)
    requires
        0 <= i < text.len(),
    ensures
        ascii_lowered(text).len() == text.len(),
        65 <= text[i] as int <= 90 ==> ascii_lowered(text)[i] as int == text[i] as int + 32,
        !(65 <= text[i] as int <= 90) ==> ascii_lowered(text)[i] == text[i],
{
}

/// Trimming takes white space off both ends until something else comes.
pub proof fn lemma_trimmed_parts(front: Seq<char>, middle: Seq<char>, back: Seq<char>)
    requires
        forall|i: int| 0 <= i < front.len() ==> white_space(#[trigger] front[i]),
        forall|i: int| 0 <= i < back.len() ==> white_space(#[trigger] back[i]),
        middle.len() > 0 ==> !white_space(middle[0]) && !white_space(middle.last()),
    ensures
        trimmed(front + middle + back) == middle,
    decreases front.len() + back.len(),
{
    let text = front + middle + back;
    if front.len() > 0 {
        assert(text[0] == front[0]);
        assert(text.drop_first() =~= front.drop_first() + middle + back);
        assert forall|i: int| 0 <= i < front.drop_first().len() implies white_space(
            #[trigger] front.drop_first()[i],
        ) by {
            assert(front.drop_first()[i] == front[i + 1]);
        }
        lemma_trimmed_parts(front.drop_first(), middle, back);
    } else if back.len() > 0 {
        if middle.len() == 0 {
            assert(text[0] == back[0]);
            assert(text.drop_first() =~= front + middle + back.drop_first());
            assert forall|i: int| 0 <= i < back.drop_first().len() implies white_space(
                #[trigger] back.drop_first()[i],
            ) by {
                assert(back.drop_first()[i] == back[i + 1]);
            }
            lemma_trimmed_parts(front, middle, back.drop_first());
        } else {
            assert(text[0] == middle[0]);
            assert(text.last() == back.last());
            assert(white_space(back[back.len() - 1]));
            assert(text.drop_last() =~= front + middle + back.drop_last());
            assert forall|i: int| 0 <= i < back.drop_last().len() implies white_space(
                #[trigger] back.drop_last()[i],
            ) by {
                assert(back.drop_last()[i] == back[i]);
            }
            lemma_trimmed_parts(front, middle, back.drop_last());
        }
    } else {
        assert(text =~= middle);
    }
}

/// White space is what is listed here and nothing else.
pub proof fn law_what_is_white_space(c: char)
    ensures
        white_space(c) <==> {
            let point = c as int;
            ||| 9 <= point <= 13
            ||| point == 32
            ||| point == 133
            ||| point == 160
            ||| point == 5760
            ||| 8192 <= point <= 8202
            ||| point == 8232
            ||| point == 8233
            ||| point == 8239
            ||| point == 8287
            ||| point == 12288
        },
{
}

} // verus!
