//! The date embedded in a Wikipedia dump filename.
//!
//! Filenames look like `enwiki-20250123-pages-articles-multistream`: the date
//! is the run of eight digits between `enwiki-` and the next `-`.

use vstd::prelude::*;
use crate::strutil::push_char;

verus! {

/// The civil date of a dump, as parsed from its filename.
#[derive(Copy, Clone, Debug, PartialEq, Eq, Structural)]
pub struct DumpDate {
    pub year: u16,
    pub month: u8,
    pub day: u8,
}

pub open spec fn is_leap_year(y: int) -> bool {
    y % 4 == 0 && (y % 100 != 0 || y % 400 == 0)
}

pub open spec fn days_in_month(y: int, m: int) -> int {
    if m == 2 {
        if is_leap_year(y) {
            29
        } else {
            28
        }
    } else if m == 4 || m == 6 || m == 9 || m == 11 {
        30
    } else {
        31
    }
}

pub open spec fn date_valid(y: int, m: int, d: int) -> bool {
    &&& 0 <= y <= 9999
    &&& 1 <= m <= 12
    &&& 1 <= d <= days_in_month(y, m)
}

impl DumpDate {
    pub open spec fn wf(self) -> bool {
        date_valid(self.year as int, self.month as int, self.day as int)
    }
}

pub open spec fn spec_is_digit(c: char) -> bool {
    48 <= c as u32 <= 57
}

pub open spec fn digit_val(c: char) -> int {
    c as u32 - 48
}

pub open spec fn digit_char(d: int) -> char {
    if d == 0 {
        '0'
    } else if d == 1 {
        '1'
    } else if d == 2 {
        '2'
    } else if d == 3 {
        '3'
    } else if d == 4 {
        '4'
    } else if d == 5 {
        '5'
    } else if d == 6 {
        '6'
    } else if d == 7 {
        '7'
    } else if d == 8 {
        '8'
    } else {
        '9'
    }
}

pub open spec fn two_digits_val(s: Seq<char>, i: int) -> int {
    10 * digit_val(s[i]) + digit_val(s[i + 1])
}

pub open spec fn four_digits_val(s: Seq<char>, i: int) -> int {
    1000 * digit_val(s[i]) + 100 * digit_val(s[i + 1]) + 10 * digit_val(s[i + 2]) + digit_val(
        s[i + 3],
    )
}

pub open spec fn dump_prefix() -> Seq<char> {
    seq!['e', 'n', 'w', 'i', 'k', 'i', '-']
}

pub open spec fn dump_suffix() -> Seq<char> {
    seq!['-', 'p', 'a', 'g', 'e', 's', '-', 'a', 'r', 't', 'i', 'c', 'l', 'e', 's', '-', 'm', 'u', 'l', 't', 'i', 's', 't', 'r', 'e', 'a', 'm']
}

/// What a dump filename parses to: the eight digits after `enwiki-` as a
/// date, provided they run up to the end of the name or to a `-`, and they
/// form a valid civil date.
pub open spec fn dump_date_of_filename(s: Seq<char>) -> Option<DumpDate> {
    if s.len() >= 15 && s.subrange(0, 7) == dump_prefix() && (forall|i: int|
        7 <= i < 15 ==> spec_is_digit(s[i])) && (s.len() == 15 || s[15] == '-') {
        let y = four_digits_val(s, 7);
        let m = two_digits_val(s, 11);
        let d = two_digits_val(s, 13);
        if date_valid(y, m, d) {
            Some(DumpDate { year: y as u16, month: m as u8, day: d as u8 })
        } else {
            None
        }
    } else {
        None
    }
}

fn is_digit(c: char) -> (r: bool)
    ensures
        r == spec_is_digit(c),
{
    c >= '0' && c <= '9'
}

fn digit_of(c: char) -> (r: u16)
    requires
        spec_is_digit(c),
    ensures
        r as int == digit_val(c),
{
    (c as u32 - 48) as u16
}

/// Reads the date out of a dump filename such as
/// `enwiki-20250123-pages-articles-multistream`, if the name conforms.
pub fn parse_wiki_dump_date(filename: &str) -> (r: Option<DumpDate>)
    ensures
        r == dump_date_of_filename(filename@),
        r is Some ==> r->Some_0.wf(),
{
    let n = filename.unicode_len();
    if n < 15 {
        return None;
    }
    let mut i: usize = 0;
    while i < 7
        invariant
            i <= 7,
            n == filename@.len(),
            n >= 15,
            forall|j: int| 0 <= j < i ==> filename@[j] == dump_prefix()[j],
        decreases 7 - i,
    {
        let c = filename.get_char(i);
        let expect: char = if i == 0 {
            'e'
        } else if i == 1 {
            'n'
        } else if i == 2 {
            'w'
        } else if i == 3 {
            'i'
        } else if i == 4 {
            'k'
        } else if i == 5 {
            'i'
        } else {
            '-'
        };
        if c != expect {
            proof {
                assert(filename@.subrange(0, 7) != dump_prefix()) by {
                    assert(filename@.subrange(0, 7)[i as int] != dump_prefix()[i as int]);
                }
            }
            return None;
        }
        i = i + 1;
    }
    proof {
        assert(filename@.subrange(0, 7) =~= dump_prefix());
    }
    let mut k: usize = 7;
    while k < 15
        invariant
            7 <= k <= 15,
            n == filename@.len(),
            n >= 15,
            forall|j: int| 7 <= j < k ==> spec_is_digit(filename@[j]),
        decreases 15 - k,
    {
        if !is_digit(filename.get_char(k)) {
            return None;
        }
        k = k + 1;
    }
    if n > 15 && filename.get_char(15) != '-' {
        return None;
    }
    let d7 = digit_of(filename.get_char(7));
    let d8 = digit_of(filename.get_char(8));
    let d9 = digit_of(filename.get_char(9));
    let d10 = digit_of(filename.get_char(10));
    let year: u16 = 1000 * d7 + 100 * d8 + 10 * d9 + d10;
    let month: u8 = (10 * digit_of(filename.get_char(11)) + digit_of(
        filename.get_char(12),
    )) as u8;
    let day: u8 = (10 * digit_of(filename.get_char(13)) + digit_of(filename.get_char(14))) as u8;
    if month < 1 || month > 12 {
        return None;
    }
    let max_day = days_in_month_exec(year, month);
    if day < 1 || day > max_day {
        return None;
    }
    Some(DumpDate { year, month, day })
}

fn days_in_month_exec(y: u16, m: u8) -> (r: u8)
    ensures
        r as int == days_in_month(y as int, m as int),
{
    if m == 2 {
        if y % 4 == 0 && (y % 100 != 0 || y % 400 == 0) {
            29
        } else {
            28
        }
    } else if m == 4 || m == 6 || m == 9 || m == 11 {
        30
    } else {
        31
    }
}

pub open spec fn pad2(n: int) -> Seq<char> {
    seq![digit_char(n / 10), digit_char(n % 10)]
}

pub open spec fn pad4(n: int) -> Seq<char> {
    seq![
        digit_char(n / 1000),
        digit_char((n / 100) % 10),
        digit_char((n / 10) % 10),
        digit_char(n % 10),
    ]
}

/// The eight-digit form of a date, as it appears inside a dump filename.
pub open spec fn dump_date_compact(d: DumpDate) -> Seq<char> {
    pad4(d.year as int) + pad2(d.month as int) + pad2(d.day as int)
}

/// The conforming dump filename carrying the given date.
pub open spec fn dump_filename_of(d: DumpDate) -> Seq<char> {
    dump_prefix() + dump_date_compact(d) + dump_suffix()
}

/// The ISO form of a date, `YYYY-MM-DD`, used for the output document and
/// the per-dump output directory.
pub open spec fn date_iso(d: DumpDate) -> Seq<char> {
    pad4(d.year as int) + seq!['-'] + pad2(d.month as int) + seq!['-'] + pad2(d.day as int)
}

pub fn digit_char_of(d: u16) -> (r: char)
    requires
        0 <= d <= 9,
    ensures
        r == digit_char(d as int),
{
    if d == 0 {
        '0'
    } else if d == 1 {
        '1'
    } else if d == 2 {
        '2'
    } else if d == 3 {
        '3'
    } else if d == 4 {
        '4'
    } else if d == 5 {
        '5'
    } else if d == 6 {
        '6'
    } else if d == 7 {
        '7'
    } else if d == 8 {
        '8'
    } else {
        '9'
    }
}

fn push_pad4(out: &mut String, n: u16)
    requires
        n <= 9999,
    ensures
        final(out)@ == old(out)@ + pad4(n as int),
{
    push_char(out, digit_char_of(n / 1000));
    push_char(out, digit_char_of((n / 100) % 10));
    push_char(out, digit_char_of((n / 10) % 10));
    push_char(out, digit_char_of(n % 10));
    proof {
        assert(final(out)@ =~= old(out)@ + pad4(n as int));
    }
}

fn push_pad2(out: &mut String, n: u8)
    requires
        n <= 99,
    ensures
        final(out)@ == old(out)@ + pad2(n as int),
{
    push_char(out, digit_char_of((n / 10) as u16));
    push_char(out, digit_char_of((n % 10) as u16));
    proof {
        assert(final(out)@ =~= old(out)@ + pad2(n as int));
    }
}

/// Writes the date as `YYYY-MM-DD`.
pub fn format_date_iso(d: &DumpDate) -> (r: String)
    requires
        d.wf(),
    ensures
        r@ == date_iso(*d),
{
    let mut out = String::new();
    push_pad4(&mut out, d.year);
    push_char(&mut out, '-');
    push_pad2(&mut out, d.month);
    push_char(&mut out, '-');
    push_pad2(&mut out, d.day);
    proof {
        assert(out@ =~= date_iso(*d));
    }
    out
}

/// Writes the conforming dump filename that carries the given date.
pub fn format_dump_filename(d: &DumpDate) -> (r: String)
    requires
        d.wf(),
    ensures
        r@ == dump_filename_of(*d),
{
    let mut out = String::new();
    out.append("enwiki-");
    push_pad4(&mut out, d.year);
    push_pad2(&mut out, d.month);
    push_pad2(&mut out, d.day);
    out.append("-pages-articles-multistream");
    proof {
        reveal_strlit("enwiki-");
        reveal_strlit("-pages-articles-multistream");
        assert(out@ =~= dump_filename_of(*d));
    }
    out
}

proof fn lemma_digit_char_val(k: int)
    requires
        0 <= k <= 9,
    ensures
        digit_val(digit_char(k)) == k,
        spec_is_digit(digit_char(k)),
{
}

/// A valid date written into a dump filename is read back unchanged: the
/// filename format round-trips.
pub proof fn lemma_dump_date_round_trip(d: DumpDate)
    requires
        d.wf(),
    ensures
        dump_date_of_filename(dump_filename_of(d)) == Some(d),
{
    let s = dump_filename_of(d);
    assert(s.subrange(0, 7) =~= dump_prefix());
    let y = d.year as int;
    let m = d.month as int;
    let dy = d.day as int;
    lemma_digit_char_val(y / 1000);
    lemma_digit_char_val((y / 100) % 10);
    lemma_digit_char_val((y / 10) % 10);
    lemma_digit_char_val(y % 10);
    lemma_digit_char_val(m / 10);
    lemma_digit_char_val(m % 10);
    lemma_digit_char_val(dy / 10);
    lemma_digit_char_val(dy % 10);
    assert(s[7] == digit_char(y / 1000));
    assert(s[8] == digit_char((y / 100) % 10));
    assert(s[9] == digit_char((y / 10) % 10));
    assert(s[10] == digit_char(y % 10));
    assert(s[11] == digit_char(m / 10));
    assert(s[12] == digit_char(m % 10));
    assert(s[13] == digit_char(dy / 10));
    assert(s[14] == digit_char(dy % 10));
    assert(s[15] == '-');
    assert(four_digits_val(s, 7) == y) by {
        assert(y == 1000 * (y / 1000) + 100 * ((y / 100) % 10) + 10 * ((y / 10) % 10) + y % 10);
    }
    assert(two_digits_val(s, 11) == m) by {
        assert(m == 10 * (m / 10) + m % 10);
    }
    assert(two_digits_val(s, 13) == dy) by {
        assert(dy == 10 * (dy / 10) + dy % 10);
    }
}

} // verus!
