//! Reading a pair of numbers, such as a position `12,34` or a size
//! `640x480`, out of a line of text that a window tool has printed.

use vstd::prelude::*;

verus! {

pub open spec fn is_digit(c: u8) -> bool {
    0x30 <= c <= 0x39
}

/// Whether `c` parts the first number from the second: a comma or an `x`.
pub open spec fn is_divider(c: u8) -> bool {
    c == 0x2c || c == 0x78
}

/// What the reader has gathered from a stretch of text: the digits of the
/// first number, those of the second, whether a divider was passed, and
/// whether a character that belongs to no pair has ended the reading.
pub struct Gathered {
    pub first: Seq<u8>,
    pub second: Seq<u8>,
    pub divided: bool,
    pub ended: bool,
}

/// What the reader has gathered after one more character. A divider turns
/// it to the second number, a blank is passed over, a digit goes to the
/// number that is being read, and anything else ends the reading.
pub open spec fn gather_one(g: Gathered, c: u8) -> Gathered {
    if g.ended {
        g
    } else if is_divider(c) {
        Gathered { divided: true, ..g }
    } else if c == 0x20 {
        g
    } else if !is_digit(c) {
        Gathered { ended: true, ..g }
    } else if g.divided {
        Gathered { second: g.second.push(c), ..g }
    } else {
        Gathered { first: g.first.push(c), ..g }
    }
}

/// What the reader has gathered from the first `n` characters of `text`.
pub open spec fn gathered(text: Seq<u8>, n: int) -> Gathered
    decreases n,
{
    if n <= 0 {
        Gathered { first: Seq::empty(), second: Seq::empty(), divided: false, ended: false }
    } else {
        gather_one(gathered(text, n - 1), text[n - 1])
    }
}

/// The number that a sequence of digits writes in the decimal system.
pub open spec fn number(digits: Seq<u8>) -> nat
    decreases digits.len(),
{
    if digits.len() == 0 {
        0
    } else {
        (number(digits.drop_last()) * 10 + (digits.last() - 0x30)) as nat
    }
}

/// Whether the digits write a number that 64 bits can hold; no digits
/// write none.
pub open spec fn is_number(digits: Seq<u8>) -> bool {
    digits.len() > 0 && number(digits) <= u64::MAX
}

/// The pair of numbers at the start of `text`, if there is one.
pub open spec fn pair_of(text: Seq<u8>) -> Option<(u64, u64)> {
    let g = gathered(text, text.len() as int);
    if is_number(g.first) && is_number(g.second) {
        Some((number(g.first) as u64, number(g.second) as u64))
    } else {
        None
    }
}

/// Whether `name` stands in `text` at the place `at`.
pub open spec fn stands_at(text: Seq<u8>, name: Seq<u8>, at: int) -> bool {
    0 <= at && at + name.len() <= text.len() && text.subrange(at, at + name.len()) == name
}

/// Whether `at` is the first place at which `name` stands in `text`.
pub open spec fn first_stands_at(text: Seq<u8>, name: Seq<u8>, at: int) -> bool {
    stands_at(text, name, at) && forall|i: int| 0 <= i < at ==> !stands_at(text, name, i)
}

/// The state of one number while its digits are read.
struct Reading {
    value: u64,
    any: bool,
    over: bool,
}

/// Whether a reading stands for the digits read so far: it has their
/// number as long as 64 bits hold it, and knows if they no longer do.
spec fn reads(r: Reading, digits: Seq<u8>) -> bool {
    &&& r.any == (digits.len() > 0)
    &&& r.over == (number(digits) > u64::MAX)
    &&& !r.over ==> r.value == number(digits)
}

/// Takes one more digit into a reading.
fn read_digit(r: Reading, c: u8, Ghost(digits): Ghost<Seq<u8>>) -> (next: Reading)
    requires
        is_digit(c),
        reads(r, digits),
    ensures
        reads(next, digits.push(c)),
{
    proof {
        assert(digits.push(c).drop_last() =~= digits);
        assert(number(digits.push(c)) == number(digits) * 10 + (c - 0x30));
    }
    if r.over {
        return Reading { value: r.value, any: true, over: true };
    }
    let digit: u64 = (c - 0x30) as u64;
    match r.value.checked_mul(10) {
        Some(tens) => match tens.checked_add(digit) {
            Some(value) => Reading { value, any: true, over: false },
            None => Reading { value: r.value, any: true, over: true },
        },
        None => Reading { value: r.value, any: true, over: true },
    }
}

/// The pair of numbers that `text` holds from the place `from` on.
pub fn parse_pair(text: &[u8], from: usize) -> (pair: Option<(u64, u64)>)
    requires
        from <= text@.len(),
    ensures
        pair == pair_of(text@.skip(from as int)),
{
    let ghost rest = text@.skip(from as int);
    let mut first = Reading { value: 0, any: false, over: false };
    let mut second = Reading { value: 0, any: false, over: false };
    let mut divided: bool = false;
    let mut ended: bool = false;
    let mut i: usize = from;
    while i < text.len() && !ended
        invariant
            from <= i <= text@.len(),
            rest == text@.skip(from as int),
            reads(first, gathered(rest, i - from).first),
            reads(second, gathered(rest, i - from).second),
            divided == gathered(rest, i - from).divided,
            ended == gathered(rest, i - from).ended,
        decreases text@.len() - i + (if ended { 0int } else { 1int }),
    {
        let c: u8 = text[i];
        let ghost before = gathered(rest, i - from);
        proof {
            assert(rest[i - from] == c);
            assert(gathered(rest, i - from + 1) == gather_one(before, c));
        }
        if c == 0x2c || c == 0x78 {
            divided = true;
            i += 1;
        } else if c == 0x20 {
            i += 1;
        } else if c < 0x30 || c > 0x39 {
            ended = true;
            i += 1;
        } else if divided {
            second = read_digit(second, c, Ghost(before.second));
            i += 1;
        } else {
            first = read_digit(first, c, Ghost(before.first));
            i += 1;
        }
    }
    proof {
        gathered_stays_ended(rest, i - from, rest.len() as int);
    }
    if first.any && !first.over && second.any && !second.over {
        Some((first.value, second.value))
    } else {
        None
    }
}

/// Once the reading has ended, or the text has, nothing more is gathered.
proof fn gathered_stays_ended(text: Seq<u8>, n: int, m: int)
    requires
        0 <= n <= m,
        gathered(text, n).ended || n == m,
    ensures
        gathered(text, m) == gathered(text, n),
    decreases m - n,
{
    if n < m {
        gathered_stays_ended(text, n, m - 1);
    }
}

/// The pair of numbers that follows the first place at which `name` stands
/// in `text`. There is none where `name` does not stand in `text`, where a
/// number has no digit, and where one is too great for 64 bits.
pub fn parse_info(text: &[u8], name: &[u8]) -> (pair: Option<(u64, u64)>)
    ensures
        pair.is_some() <==> exists|at: int|
            first_stands_at(text@, name@, at) && pair_of(text@.skip(at + name@.len())).is_some(),
        forall|at: int|
            first_stands_at(text@, name@, at) ==> pair == pair_of(text@.skip(at + name@.len())),
{
    if name.len() > text.len() {
        return None;
    }
    let last: usize = text.len() - name.len();
    let mut at: usize = 0;
    proof {
        assert(text@.len() <= usize::MAX);
    }
    while at <= last
        invariant
            name@.len() <= text@.len() <= usize::MAX,
            last == text@.len() - name@.len(),
            at <= last + 1,
            forall|i: int| 0 <= i < at ==> !stands_at(text@, name@, i),
        decreases last + 1 - at,
    {
        let mut k: usize = 0;
        while k < name.len() && text[at + k] == name[k]
            invariant
                at <= last,
                name@.len() <= text@.len() <= usize::MAX,
                last == text@.len() - name@.len(),
                k <= name@.len(),
                forall|j: int| 0 <= j < k ==> text@[at + j] == name@[j],
            decreases name@.len() - k,
        {
            k += 1;
        }
        if k == name.len() {
            proof {
                assert(text@.subrange(at as int, at + name@.len()) =~= name@);
                assert(first_stands_at(text@, name@, at as int));
                assert forall|other: int| first_stands_at(text@, name@, other) implies other
                    == at by {
                    if other < at {
                        assert(!stands_at(text@, name@, other));
                    } else if other > at {
                        assert(!stands_at(text@, name@, at as int));
                    }
                }
            }
            return parse_pair(text, at + k);
        }
        proof {
            assert(!stands_at(text@, name@, at as int)) by {
                if stands_at(text@, name@, at as int) {
                    let stretch = text@.subrange(at as int, at + name@.len());
                    assert(stretch[k as int] == name@[k as int]);
                }
            }
        }
        at += 1;
    }
    None
}

/// Whether `c` is a blank of the ASCII set: a space, a tab, or one of the
/// characters that end or feed a line.
pub open spec fn is_blank(c: u8) -> bool {
    c == 0x20 || 0x09 <= c <= 0x0d
}

/// The text without the blanks at its start.
pub open spec fn without_leading_blanks(text: Seq<u8>) -> Seq<u8>
    decreases text.len(),
{
    if text.len() > 0 && is_blank(text[0]) {
        without_leading_blanks(text.skip(1))
    } else {
        text
    }
}

/// The text without the blanks at its end.
pub open spec fn without_trailing_blanks(text: Seq<u8>) -> Seq<u8>
    decreases text.len(),
{
    if text.len() > 0 && is_blank(text.last()) {
        without_trailing_blanks(text.drop_last())
    } else {
        text
    }
}

/// Whether every character of the text is a digit.
pub open spec fn all_digits(text: Seq<u8>) -> bool {
    forall|i: int| 0 <= i < text.len() ==> is_digit(#[trigger] text[i])
}

/// The number that the text writes, where it is nothing but digits and
/// they write a number that 64 bits can hold.
pub open spec fn number_of(text: Seq<u8>) -> Option<u64> {
    if all_digits(text) && is_number(text) {
        Some(number(text) as u64)
    } else {
        None
    }
}

/// The number that a line holds: what it writes between the blanks at its
/// ends, after a plus sign if there is one.
pub open spec fn id_of(line: Seq<u8>) -> Option<u64> {
    let bare = without_trailing_blanks(without_leading_blanks(line));
    if bare.len() > 0 && bare[0] == 0x2b {
        number_of(bare.skip(1))
    } else {
        number_of(bare)
    }
}

/// The id of a window that a line of text holds, if it holds one.
pub fn parse_id(line: &[u8]) -> (id: Option<u64>)
    ensures
        id == id_of(line@),
{
    let mut from: usize = 0;
    proof {
        assert(line@.skip(0) =~= line@);
    }
    while from < line.len() && is_blank_byte(line[from])
        invariant
            from <= line@.len(),
            without_leading_blanks(line@) == without_leading_blanks(line@.skip(from as int)),
        decreases line@.len() - from,
    {
        proof {
            assert(line@.skip(from as int).skip(1) =~= line@.skip(from + 1));
        }
        from += 1;
    }
    let ghost led = line@.skip(from as int);
    proof {
        assert(led =~= line@.subrange(from as int, line@.len() as int));
    }
    let mut to: usize = line.len();
    while to > from && is_blank_byte(line[to - 1])
        invariant
            from <= to <= line@.len(),
            without_trailing_blanks(led) == without_trailing_blanks(
                line@.subrange(from as int, to as int),
            ),
        decreases to - from,
    {
        proof {
            assert(line@.subrange(from as int, to as int).drop_last() =~= line@.subrange(
                from as int,
                to - 1,
            ));
        }
        to -= 1;
    }
    let ghost bare = line@.subrange(from as int, to as int);
    let mut i: usize = from;
    if i < to && line[i] == 0x2b {
        i += 1;
    }
    let ghost digits = line@.subrange(i as int, to as int);
    proof {
        assert(without_leading_blanks(led) == led);
        assert(without_trailing_blanks(bare) == bare);
        if i > from {
            assert(bare.skip(1) =~= digits);
        } else {
            assert(bare =~= digits);
        }
        assert(id_of(line@) == number_of(digits));
    }
    let start: usize = i;
    let mut reading = Reading { value: 0, any: false, over: false };
    while i < to
        invariant
            start <= i <= to <= line@.len(),
            digits == line@.subrange(start as int, to as int),
            id_of(line@) == number_of(digits),
            all_digits(line@.subrange(start as int, i as int)),
            reads(reading, line@.subrange(start as int, i as int)),
        decreases to - i,
    {
        let c: u8 = line[i];
        if c < 0x30 || c > 0x39 {
            proof {
                assert(digits[i - start] == c);
            }
            return None;
        }
        let ghost read = line@.subrange(start as int, i as int);
        reading = read_digit(reading, c, Ghost(read));
        proof {
            assert(read.push(c) =~= line@.subrange(start as int, i + 1));
        }
        i += 1;
    }
    proof {
        assert(line@.subrange(start as int, i as int) =~= digits);
    }
    if reading.any && !reading.over {
        Some(reading.value)
    } else {
        None
    }
}

/// Whether `c` is a blank of the ASCII set.
fn is_blank_byte(c: u8) -> (blank: bool)
    ensures
        blank == is_blank(c),
{
    c == 0x20 || (0x09 <= c && c <= 0x0d)
}

} // verus!
