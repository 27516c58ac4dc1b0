//! Partial calendar dates: year, month and day each carry a presence flag,
//! so a date may be given only in part (`2019-11`, or just a day). Parsing
//! tries a fixed, ordered list of textual patterns and takes the first that
//! matches a prefix of the input.

use vstd::prelude::*;
use crate::decimal::{
    dec2, dec4, digit_run, is_digit, lemma_num_val_bound, lemma_pow10_mono,
    lemma_run_in_bounds, num_at, num_val, pad2_text, pad4_text, pow10, run_len,
};

verus! {

#[derive(Debug, Clone, Copy, PartialEq, Eq, Structural)]
pub enum DateError {
    InvalidDate,
}

/// A calendar date in which year, month and day may each be unknown.
/// Unset parts default to the components of 1970-01-01 but are excluded
/// from rendering.
#[derive(Debug, Clone, Copy)]
pub struct Date {
    pub year: i32,
    pub month: u32,
    pub day: u32,
    pub used_y: bool,
    pub used_m: bool,
    pub used_d: bool,
}

pub open spec fn is_leap_year(y: int) -> bool {
    (y % 4 == 0 && y % 100 != 0) || y % 400 == 0
}

pub open spec fn days_in_month(y: int, m: int) -> int {
    if m == 2 {
        if is_leap_year(y) {
            29
        } else {
            28
        }
    } else if m == 4 || m == 6 || m == 9 || m == 11 {
        30
    } else {
        31
    }
}

/// The calendar combinations this library accepts: proleptic Gregorian
/// validity, with years restricted to the four-digit range that the
/// file-name and rendering conventions rely on.
pub open spec fn valid_ymd(y: int, m: int, d: int) -> bool {
    0 <= y <= 9999 && 1 <= m <= 12 && 1 <= d <= days_in_month(y, m)
}

/// Two dates are compared on their resolved calendar values alone; the
/// presence flags are deliberately ignored.
pub open spec fn date_eq(a: Date, b: Date) -> bool {
    a.year == b.year && a.month == b.month && a.day == b.day
}

impl Date {
    pub open spec fn wf(self) -> bool {
        valid_ymd(self.year as int, self.month as int, self.day as int)
    }

    pub open spec fn spec_year(self) -> int {
        self.year as int
    }

    pub open spec fn spec_month(self) -> int {
        self.month as int
    }

    pub open spec fn spec_day(self) -> int {
        self.day as int
    }

    pub open spec fn spec_has_year(self) -> bool {
        self.used_y
    }

    pub open spec fn spec_has_month(self) -> bool {
        self.used_m
    }

    pub open spec fn spec_has_day(self) -> bool {
        self.used_d
    }

    /// The empty date: no part present, resolved values 1970-01-01.
    pub fn new() -> (d: Date)
        ensures
            d.wf(),
            d.spec_year() == 1970,
            d.spec_month() == 1,
            d.spec_day() == 1,
            !d.spec_has_year(),
            !d.spec_has_month(),
            !d.spec_has_day(),
    {
        Date { year: 1970, month: 1, day: 1, used_y: false, used_m: false, used_d: false }
    }

    pub fn has_year(&self) -> (b: bool)
        ensures
            b == self.spec_has_year(),
    {
        self.used_y
    }

    pub fn has_month(&self) -> (b: bool)
        ensures
            b == self.spec_has_month(),
    {
        self.used_m
    }

    pub fn has_day(&self) -> (b: bool)
        ensures
            b == self.spec_has_day(),
    {
        self.used_d
    }

    pub fn year(&self) -> (y: i32)
        ensures
            y as int == self.spec_year(),
    {
        self.year
    }

    pub fn month(&self) -> (m: u32)
        ensures
            m as int == self.spec_month(),
    {
        self.month
    }

    pub fn day(&self) -> (d: u32)
        ensures
            d as int == self.spec_day(),
    {
        self.day
    }

    /// Sets the year and marks it present.
    pub fn set_year(&mut self, y: i32)
        requires
            valid_ymd(y as int, old(self).spec_month(), old(self).spec_day()),
        ensures
            final(self).wf(),
            final(self).spec_year() == y as int,
            final(self).spec_month() == old(self).spec_month(),
            final(self).spec_day() == old(self).spec_day(),
            final(self).spec_has_year(),
            final(self).spec_has_month() == old(self).spec_has_month(),
            final(self).spec_has_day() == old(self).spec_has_day(),
    {
        self.year = y;
        self.used_y = true;
    }

    /// Sets the year without marking it present.
    pub fn raw_set_year(&mut self, y: i32)
        requires
            valid_ymd(y as int, old(self).spec_month(), old(self).spec_day()),
        ensures
            final(self).wf(),
            final(self).spec_year() == y as int,
            final(self).spec_month() == old(self).spec_month(),
            final(self).spec_day() == old(self).spec_day(),
            final(self).spec_has_year() == old(self).spec_has_year(),
            final(self).spec_has_month() == old(self).spec_has_month(),
            final(self).spec_has_day() == old(self).spec_has_day(),
    {
        self.year = y;
    }

    /// Sets the month and marks it present.
    pub fn set_month(&mut self, m: u32)
        requires
            valid_ymd(old(self).spec_year(), m as int, old(self).spec_day()),
        ensures
            final(self).wf(),
            final(self).spec_year() == old(self).spec_year(),
            final(self).spec_month() == m as int,
            final(self).spec_day() == old(self).spec_day(),
            final(self).spec_has_year() == old(self).spec_has_year(),
            final(self).spec_has_month(),
            final(self).spec_has_day() == old(self).spec_has_day(),
    {
        self.month = m;
        self.used_m = true;
    }

    /// Sets the month without marking it present.
    pub fn raw_set_month(&mut self, m: u32)
        requires
            valid_ymd(old(self).spec_year(), m as int, old(self).spec_day()),
        ensures
            final(self).wf(),
            final(self).spec_year() == old(self).spec_year(),
            final(self).spec_month() == m as int,
            final(self).spec_day() == old(self).spec_day(),
            final(self).spec_has_year() == old(self).spec_has_year(),
            final(self).spec_has_month() == old(self).spec_has_month(),
            final(self).spec_has_day() == old(self).spec_has_day(),
    {
        self.month = m;
    }

    /// Sets the day and marks it present.
    pub fn set_day(&mut self, d: u32)
        requires
            valid_ymd(old(self).spec_year(), old(self).spec_month(), d as int),
        ensures
            final(self).wf(),
            final(self).spec_year() == old(self).spec_year(),
            final(self).spec_month() == old(self).spec_month(),
            final(self).spec_day() == d as int,
            final(self).spec_has_year() == old(self).spec_has_year(),
            final(self).spec_has_month() == old(self).spec_has_month(),
            final(self).spec_has_day(),
    {
        self.day = d;
        self.used_d = true;
    }

    /// Sets the day without marking it present.
    pub fn raw_set_day(&mut self, d: u32)
        requires
            valid_ymd(old(self).spec_year(), old(self).spec_month(), d as int),
        ensures
            final(self).wf(),
            final(self).spec_year() == old(self).spec_year(),
            final(self).spec_month() == old(self).spec_month(),
            final(self).spec_day() == d as int,
            final(self).spec_has_year() == old(self).spec_has_year(),
            final(self).spec_has_month() == old(self).spec_has_month(),
            final(self).spec_has_day() == old(self).spec_has_day(),
    {
        self.day = d;
    }
}

/// The rendering of the present parts of a date, joined by `sep`:
/// four-digit year, two-digit month, two-digit day.
pub open spec fn ymd_sep_spec(d: Date, sep: Seq<char>) -> Seq<char> {
    let y = dec4(d.year as nat);
    let m = dec2(d.month as nat);
    let dd = dec2(d.day as nat);
    if d.used_y && d.used_m && d.used_d {
        y + sep + m + sep + dd
    } else if d.used_y && d.used_m {
        y + sep + m
    } else if d.used_y && d.used_d {
        y + sep + dd
    } else if d.used_y {
        y
    } else if d.used_m && d.used_d {
        m + sep + dd
    } else if d.used_m {
        m
    } else if d.used_d {
        dd
    } else {
        Seq::empty()
    }
}

/// The rendering of the present year and month parts, joined by `sep`.
pub open spec fn ym_sep_spec(d: Date, sep: Seq<char>) -> Seq<char> {
    let y = dec4(d.year as nat);
    let m = dec2(d.month as nat);
    if d.used_y && d.used_m {
        y + sep + m
    } else if d.used_y {
        y
    } else if d.used_m {
        m
    } else {
        Seq::empty()
    }
}

/// The raw year-month rendering, always both parts, joined by `_`.
pub open spec fn rym_spec(d: Date) -> Seq<char> {
    dec4(d.year as nat) + seq!['_'] + dec2(d.month as nat)
}

impl Date {
    /// Two-digit month text.
    pub fn fmonth(&self) -> (r: String)
        requires
            self.wf(),
        ensures
            r@ == dec2(self.spec_month() as nat),
    {
        pad2_text(self.month as u64)
    }

    /// The present year and month joined by `-`.
    pub fn ym(&self) -> (r: String)
        requires
            self.wf(),
        ensures
            r@ == ym_sep_spec(*self, seq!['-']),
    {
        let r = self.fym("-");
        proof {
            reveal_strlit("-");
            assert("-"@ =~= seq!['-']);
        }
        r
    }

    /// The present year and month joined by a custom separator.
    pub fn fym(&self, f: &str) -> (r: String)
        requires
            self.wf(),
        ensures
            r@ == ym_sep_spec(*self, f@),
    {
        let mut s = String::new();
        if self.used_y {
            let y = pad4_text(self.year as u64);
            s.append(y.as_str());
        }
        if self.used_m {
            if self.used_y {
                s.append(f);
            }
            let m = pad2_text(self.month as u64);
            s.append(m.as_str());
        }
        assert(s@ =~= ym_sep_spec(*self, f@));
        s
    }

    /// Year and month joined by `_`, with no regard to presence; this names
    /// the month file a date belongs to.
    pub fn rym(&self) -> (r: String)
        requires
            self.wf(),
        ensures
            r@ == rym_spec(*self),
    {
        let mut s = pad4_text(self.year as u64);
        s.append("_");
        let m = pad2_text(self.month as u64);
        s.append(m.as_str());
        proof {
            reveal_strlit("_");
        }
        assert(s@ =~= rym_spec(*self));
        s
    }

    /// The present parts joined by `-`; also the display form of a date.
    pub fn ymd(&self) -> (r: String)
        requires
            self.wf(),
        ensures
            r@ == ymd_sep_spec(*self, seq!['-']),
    {
        let mut s = String::new();
        if self.used_y {
            let y = pad4_text(self.year as u64);
            s.append(y.as_str());
        }
        if self.used_m {
            if self.used_y {
                s.append("-");
            }
            let m = pad2_text(self.month as u64);
            s.append(m.as_str());
        }
        if self.used_d {
            if self.used_y || self.used_m {
                s.append("-");
            }
            let d = pad2_text(self.day as u64);
            s.append(d.as_str());
        }
        proof {
            reveal_strlit("-");
        }
        assert(s@ =~= ymd_sep_spec(*self, seq!['-']));
        s
    }
}

pub open spec fn min2(r: int) -> int {
    if r >= 2 {
        2
    } else {
        r
    }
}

pub open spec fn min4(r: int) -> int {
    if r >= 4 {
        4
    } else {
        r
    }
}

/// A one-or-two-digit field starting at `i`, followed by the separator `c`.
pub open spec fn mid_ok(s: Seq<char>, i: int, c: char) -> bool {
    1 <= run_len(s, i) <= 2 && i + run_len(s, i) < s.len() && s[i + run_len(s, i)] == c
}

/// A four-digit field at the start, followed by the separator `c`.
pub open spec fn y4_ok(s: Seq<char>, c: char) -> bool {
    run_len(s, 0) >= 4 && 4 < s.len() && s[4] == c
}

/// A two-digit field at the start, followed by the separator `c`.
pub open spec fn y2_ok(s: Seq<char>, c: char) -> bool {
    run_len(s, 0) >= 2 && 2 < s.len() && s[2] == c
}

/// The raw (year, month, day) fields read from `s` by the first matching
/// pattern, in priority order; a field the pattern does not bind is 0.
/// The patterns match a prefix of the input; what follows is ignored.
pub open spec fn date_fields(s: Seq<char>) -> (int, int, int) {
    let r0 = run_len(s, 0);
    if y4_ok(s, '-') && mid_ok(s, 5, '-') && run_len(s, 5 + run_len(s, 5) + 1) >= 1 {
        // YYYY-MM-DD
        let rm = run_len(s, 5);
        let dp = 5 + rm + 1;
        (num_val(s, 0, 4) as int, num_val(s, 5, rm) as int, num_val(s, dp, min2(run_len(s, dp))) as int)
    } else if y4_ok(s, '/') && mid_ok(s, 5, '/') && run_len(s, 5 + run_len(s, 5) + 1) >= 1 {
        // YYYY/MM/DD
        let rm = run_len(s, 5);
        let dp = 5 + rm + 1;
        (num_val(s, 0, 4) as int, num_val(s, 5, rm) as int, num_val(s, dp, min2(run_len(s, dp))) as int)
    } else if y2_ok(s, '-') && mid_ok(s, 3, '-') && run_len(s, 3 + run_len(s, 3) + 1) >= 1 {
        // YY-MM-DD
        let rm = run_len(s, 3);
        let dp = 3 + rm + 1;
        (num_val(s, 0, 2) as int, num_val(s, 3, rm) as int, num_val(s, dp, min2(run_len(s, dp))) as int)
    } else if y2_ok(s, '/') && mid_ok(s, 3, '/') && run_len(s, 3 + run_len(s, 3) + 1) >= 1 {
        // YY/MM/DD
        let rm = run_len(s, 3);
        let dp = 3 + rm + 1;
        (num_val(s, 0, 2) as int, num_val(s, 3, rm) as int, num_val(s, dp, min2(run_len(s, dp))) as int)
    } else if y4_ok(s, '-') && run_len(s, 5) >= 1 {
        // YYYY-MM
        (num_val(s, 0, 4) as int, num_val(s, 5, min2(run_len(s, 5))) as int, 0)
    } else if mid_ok(s, 0, '-') && run_len(s, run_len(s, 0) + 1) >= 1 {
        // MM-DD
        let rm = run_len(s, 0);
        let dp = rm + 1;
        (0, num_val(s, 0, rm) as int, num_val(s, dp, min2(run_len(s, dp))) as int)
    } else if mid_ok(s, 0, '.') && mid_ok(s, run_len(s, 0) + 1, '.') && run_len(
        s,
        run_len(s, 0) + 1 + run_len(s, run_len(s, 0) + 1) + 1,
    ) >= 4 {
        // DD.MM.YYYY
        let rd = run_len(s, 0);
        let rm = run_len(s, rd + 1);
        let yp = rd + 1 + rm + 1;
        (num_val(s, yp, 4) as int, num_val(s, rd + 1, rm) as int, num_val(s, 0, rd) as int)
    } else if mid_ok(s, 0, '.') && run_len(s, run_len(s, 0) + 1) >= 1 {
        // DD.MM
        let rd = run_len(s, 0);
        let mp = rd + 1;
        (0, num_val(s, mp, min2(run_len(s, mp))) as int, num_val(s, 0, rd) as int)
    } else if mid_ok(s, 0, '/') && mid_ok(s, run_len(s, 0) + 1, '/') && run_len(
        s,
        run_len(s, 0) + 1 + run_len(s, run_len(s, 0) + 1) + 1,
    ) >= 2 {
        // MM/DD/YYYY
        let rm = run_len(s, 0);
        let rd = run_len(s, rm + 1);
        let yp = rm + 1 + rd + 1;
        (num_val(s, yp, min4(run_len(s, yp))) as int, num_val(s, 0, rm) as int, num_val(s, rm + 1, rd) as int)
    } else if mid_ok(s, 0, '/') && run_len(s, run_len(s, 0) + 1) >= 1 {
        // MM/DD
        let rm = run_len(s, 0);
        let dp = rm + 1;
        (0, num_val(s, 0, rm) as int, num_val(s, dp, min2(run_len(s, dp))) as int)
    } else if r0 >= 4 {
        // YYYY
        (num_val(s, 0, 4) as int, 0, 0)
    } else if r0 >= 1 {
        // DD
        (0, 0, num_val(s, 0, min2(r0)) as int)
    } else {
        (0, 0, 0)
    }
}

/// The parse of a date string: the raw fields of the first matching
/// pattern, normalized. A zero or unbound field counts as unset; an unset
/// year becomes 1970, an unset month or day becomes 1; a bound two-digit
/// year is moved into the twenty-first century. A parse that binds no
/// field at all fails.
pub open spec fn parse_date_spec(s: Seq<char>) -> Option<Date> {
    let (y0, m0, d0) = date_fields(s);
    let y = if y0 == 0 { 1970 } else if y0 < 100 { y0 + 2000 } else { y0 };
    let m = if m0 == 0 { 1 } else { m0 };
    let d = if d0 == 0 { 1 } else { d0 };
    if y0 == 0 && m0 == 0 && d0 == 0 {
        None::<Date>
    } else {
        Some(
            Date {
                year: y as i32,
                month: m as u32,
                day: d as u32,
                used_y: y0 != 0,
                used_m: m0 != 0,
                used_d: d0 != 0,
            },
        )
    }
}

fn sep_at(s: &str, i: usize, c: char) -> (b: bool)
    ensures
        b == (i < s@.len() && s@[i as int] == c),
{
    if i < s.unicode_len() {
        s.get_char(i) == c
    } else {
        false
    }
}

/// Reads a one-or-two-digit field at `i` that must be followed by the
/// separator `c`; returns its digit count.
fn mid_field(s: &str, i: usize, c: char) -> (m: Option<usize>)
    requires
        i <= s@.len(),
        s@.len() <= usize::MAX,
    ensures
        m matches Some(r) ==> mid_ok(s@, i as int, c) && r == run_len(s@, i as int),
        m is None ==> !mid_ok(s@, i as int, c),
{
    let r = digit_run(s, i);
    if 1 <= r && r <= 2 && sep_at(s, i + r, c) {
        Some(r)
    } else {
        None
    }
}

/// Reads the value of an `l`-digit field at `i`; fields are at most four
/// digits wide.
fn field_val(s: &str, i: usize, l: usize) -> (v: u64)
    requires
        i + l <= s@.len(),
        s@.len() <= usize::MAX,
        1 <= l <= 4,
        forall|j: int| i <= j < i + l ==> is_digit(s@[j]),
    ensures
        v as nat == num_val(s@, i as int, l as int),
        v <= 9999,
{
    let v = num_at(s, i, l);
    proof {
        lemma_num_val_bound(s@, i as int, l as int);
        lemma_pow10_mono(l as nat, 4);
        reveal_with_fuel(pow10, 6);
        assert(pow10(4) == 10000);
    }
    v
}

/// Reads the raw (year, month, day) fields by trying the patterns in
/// priority order.
#[verifier::rlimit(100)]
fn scan_fields(s: &str) -> (t: (u64, u64, u64))
    ensures
        t.0 as int == date_fields(s@).0,
        t.1 as int == date_fields(s@).1,
        t.2 as int == date_fields(s@).2,
        t.0 <= 9999 && t.1 <= 9999 && t.2 <= 9999,
{
    let n = s.unicode_len();
    let r0 = digit_run(s, 0);
    proof {
        lemma_run_in_bounds(s@, 0);
    }
    // YYYY-MM-DD and YYYY/MM/DD
    if r0 >= 4 && sep_at(s, 4, '-') {
        if let Some(rm) = mid_field(s, 5, '-') {
            let dp = 5 + rm + 1;
            let rd = digit_run(s, dp);
            if rd >= 1 {
                proof {
                    lemma_run_in_bounds(s@, 5);
                    lemma_run_in_bounds(s@, dp as int);
                }
                let dl: usize = if rd >= 2 { 2 } else { rd };
                return (field_val(s, 0, 4), field_val(s, 5, rm), field_val(s, dp, dl));
            }
        }
    }
    if r0 >= 4 && sep_at(s, 4, '/') {
        if let Some(rm) = mid_field(s, 5, '/') {
            let dp = 5 + rm + 1;
            let rd = digit_run(s, dp);
            if rd >= 1 {
                proof {
                    lemma_run_in_bounds(s@, 5);
                    lemma_run_in_bounds(s@, dp as int);
                }
                let dl: usize = if rd >= 2 { 2 } else { rd };
                return (field_val(s, 0, 4), field_val(s, 5, rm), field_val(s, dp, dl));
            }
        }
    }
    // YY-MM-DD and YY/MM/DD
    if r0 >= 2 && sep_at(s, 2, '-') {
        if let Some(rm) = mid_field(s, 3, '-') {
            let dp = 3 + rm + 1;
            let rd = digit_run(s, dp);
            if rd >= 1 {
                proof {
                    lemma_run_in_bounds(s@, 3);
                    lemma_run_in_bounds(s@, dp as int);
                }
                let dl: usize = if rd >= 2 { 2 } else { rd };
                return (field_val(s, 0, 2), field_val(s, 3, rm), field_val(s, dp, dl));
            }
        }
    }
    if r0 >= 2 && sep_at(s, 2, '/') {
        if let Some(rm) = mid_field(s, 3, '/') {
            let dp = 3 + rm + 1;
            let rd = digit_run(s, dp);
            if rd >= 1 {
                proof {
                    lemma_run_in_bounds(s@, 3);
                    lemma_run_in_bounds(s@, dp as int);
                }
                let dl: usize = if rd >= 2 { 2 } else { rd };
                return (field_val(s, 0, 2), field_val(s, 3, rm), field_val(s, dp, dl));
            }
        }
    }
    // YYYY-MM
    if r0 >= 4 && sep_at(s, 4, '-') {
        let rm = digit_run(s, 5);
        if rm >= 1 {
            proof {
                lemma_run_in_bounds(s@, 5);
            }
            let ml: usize = if rm >= 2 { 2 } else { rm };
            return (field_val(s, 0, 4), field_val(s, 5, ml), 0);
        }
    }
    // MM-DD
    if let Some(rm) = mid_field(s, 0, '-') {
        let dp = rm + 1;
        let rd = digit_run(s, dp);
        if rd >= 1 {
            proof {
                lemma_run_in_bounds(s@, dp as int);
            }
            let dl: usize = if rd >= 2 { 2 } else { rd };
            return (0, field_val(s, 0, rm), field_val(s, dp, dl));
        }
    }
    // DD.MM.YYYY
    if let Some(rd) = mid_field(s, 0, '.') {
        if let Some(rm) = mid_field(s, rd + 1, '.') {
            let yp = rd + 1 + rm + 1;
            let ry = digit_run(s, yp);
            if ry >= 4 {
                proof {
                    lemma_run_in_bounds(s@, (rd + 1) as int);
                    lemma_run_in_bounds(s@, yp as int);
                }
                return (field_val(s, yp, 4), field_val(s, rd + 1, rm), field_val(s, 0, rd));
            }
        }
    }
    // DD.MM
    if let Some(rd) = mid_field(s, 0, '.') {
        let mp = rd + 1;
        let rm = digit_run(s, mp);
        if rm >= 1 {
            proof {
                lemma_run_in_bounds(s@, mp as int);
            }
            let ml: usize = if rm >= 2 { 2 } else { rm };
            return (0, field_val(s, mp, ml), field_val(s, 0, rd));
        }
    }
    // MM/DD/YYYY
    if let Some(rm) = mid_field(s, 0, '/') {
        if let Some(rd) = mid_field(s, rm + 1, '/') {
            let yp = rm + 1 + rd + 1;
            let ry = digit_run(s, yp);
            if ry >= 2 {
                proof {
                    lemma_run_in_bounds(s@, (rm + 1) as int);
                    lemma_run_in_bounds(s@, yp as int);
                }
                let yl: usize = if ry >= 4 { 4 } else { ry };
                return (field_val(s, yp, yl), field_val(s, 0, rm), field_val(s, rm + 1, rd));
            }
        }
    }
    // MM/DD
    if let Some(rm) = mid_field(s, 0, '/') {
        let dp = rm + 1;
        let rd = digit_run(s, dp);
        if rd >= 1 {
            proof {
                lemma_run_in_bounds(s@, dp as int);
            }
            let dl: usize = if rd >= 2 { 2 } else { rd };
            return (0, field_val(s, 0, rm), field_val(s, dp, dl));
        }
    }
    // YYYY
    if r0 >= 4 {
        return (field_val(s, 0, 4), 0, 0);
    }
    // DD
    if r0 >= 1 {
        let dl: usize = if r0 >= 2 { 2 } else { r0 };
        return (0, 0, field_val(s, 0, dl));
    }
    (0, 0, 0)
}

fn valid_ymd_exec(y: u64, m: u64, d: u64) -> (b: bool)
    ensures
        b == valid_ymd(y as int, m as int, d as int),
{
    if y > 9999 || m < 1 || m > 12 || d < 1 {
        return false;
    }
    let leap = (y % 4 == 0 && y % 100 != 0) || y % 400 == 0;
    let dim: u64 = if m == 2 {
        if leap {
            29
        } else {
            28
        }
    } else if m == 4 || m == 6 || m == 9 || m == 11 {
        30
    } else {
        31
    };
    d <= dim
}

impl Date {
    /// Whether the combination is a calendar date this library accepts.
    pub fn valid_combination(y: i32, m: u32, d: u32) -> (b: bool)
        ensures
            b == valid_ymd(y as int, m as int, d as int),
    {
        if y < 0 {
            return false;
        }
        valid_ymd_exec(y as u64, m as u64, d as u64)
    }

    /// Parses a date string, trying each pattern in priority order, and
    /// rejects both unrecognized text and invalid calendar combinations.
    pub fn from_str(s: &str) -> (res: Result<Date, DateError>)
        ensures
            (match parse_date_spec(s@) {
                Some(d) => if d.wf() {
                    res == Ok::<Date, DateError>(d)
                } else {
                    res == Err::<Date, DateError>(DateError::InvalidDate)
                },
                None => res == Err::<Date, DateError>(DateError::InvalidDate),
            }),
            res matches Ok(d) ==> d.wf(),
    {
        let (y0, m0, d0) = scan_fields(s);
        let used_y = y0 != 0;
        let used_m = m0 != 0;
        let used_d = d0 != 0;
        if !used_y && !used_m && !used_d {
            return Err(DateError::InvalidDate);
        }
        let y: u64 = if y0 == 0 {
            1970
        } else if y0 < 100 {
            y0 + 2000
        } else {
            y0
        };
        let m: u64 = if m0 == 0 {
            1
        } else {
            m0
        };
        let d: u64 = if d0 == 0 {
            1
        } else {
            d0
        };
        if !valid_ymd_exec(y, m, d) {
            return Err(DateError::InvalidDate);
        }
        Ok(Date { year: y as i32, month: m as u32, day: d as u32, used_y, used_m, used_d })
    }
}

impl Date {
    /// Fills every absent part from the given components and marks the
    /// filled parts present — the autofill an add command applies, where
    /// the filled value becomes semantically specified.
    pub fn fill(&mut self, y: i32, m: u32, d: u32)
        requires
            valid_ymd(
                if old(self).used_y {
                    old(self).spec_year()
                } else {
                    y as int
                },
                if old(self).used_m {
                    old(self).spec_month()
                } else {
                    m as int
                },
                if old(self).used_d {
                    old(self).spec_day()
                } else {
                    d as int
                },
            ),
        ensures
            final(self).wf(),
            final(self).spec_year() == (if old(self).used_y {
                old(self).spec_year()
            } else {
                y as int
            }),
            final(self).spec_month() == (if old(self).used_m {
                old(self).spec_month()
            } else {
                m as int
            }),
            final(self).spec_day() == (if old(self).used_d {
                old(self).spec_day()
            } else {
                d as int
            }),
            final(self).used_y && final(self).used_m && final(self).used_d,
    {
        if !self.used_y {
            self.year = y;
            self.used_y = true;
        }
        if !self.used_m {
            self.month = m;
            self.used_m = true;
        }
        if !self.used_d {
            self.day = d;
            self.used_d = true;
        }
    }

    /// Fills every absent part from the given components without marking
    /// anything present — the autofill a filter command applies, where the
    /// filled value is cosmetic and must not narrow the filter.
    pub fn fill_raw(&mut self, y: i32, m: u32, d: u32)
        requires
            valid_ymd(
                if old(self).used_y {
                    old(self).spec_year()
                } else {
                    y as int
                },
                if old(self).used_m {
                    old(self).spec_month()
                } else {
                    m as int
                },
                if old(self).used_d {
                    old(self).spec_day()
                } else {
                    d as int
                },
            ),
        ensures
            final(self).wf(),
            final(self).spec_year() == (if old(self).used_y {
                old(self).spec_year()
            } else {
                y as int
            }),
            final(self).spec_month() == (if old(self).used_m {
                old(self).spec_month()
            } else {
                m as int
            }),
            final(self).spec_day() == (if old(self).used_d {
                old(self).spec_day()
            } else {
                d as int
            }),
            final(self).used_y == old(self).used_y,
            final(self).used_m == old(self).used_m,
            final(self).used_d == old(self).used_d,
    {
        if !self.used_y {
            self.year = y;
        }
        if !self.used_m {
            self.month = m;
        }
        if !self.used_d {
            self.day = d;
        }
    }
}

impl PartialEq for Date {
    fn eq(&self, other: &Date) -> (r: bool) {
        self.year == other.year && self.month == other.month && self.day == other.day
    }
}

impl vstd::std_specs::cmp::PartialEqSpecImpl for Date {
    open spec fn obeys_eq_spec() -> bool {
        true
    }

    open spec fn eq_spec(&self, other: &Date) -> bool {
        date_eq(*self, *other)
    }
}

} // verus!
