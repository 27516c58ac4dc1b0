//! Decimal text: rendering integers and fixed-point cent amounts to strings,
//! and parsing them back. Amounts are stored as integer cents; the textual
//! form always carries exactly two fraction digits.

use vstd::prelude::*;

verus! {

/// Largest amount (in cents) the ledger accepts: one quadrillion cents.
/// Amounts are kept strictly below this bound so that sums of arbitrarily
/// many entries fit comfortably in 128-bit accumulators.
pub const AMOUNT_LIMIT: i64 = 1_000_000_000_000_000;

pub open spec fn is_digit(c: char) -> bool {
    '0' <= c && c <= '9'
}

pub open spec fn digit_val(c: char) -> nat {
    ((c as int) - ('0' as int)) as nat
}

pub open spec fn digit_char(d: nat) -> char {
    if d == 0 { '0' }
    else if d == 1 { '1' }
    else if d == 2 { '2' }
    else if d == 3 { '3' }
    else if d == 4 { '4' }
    else if d == 5 { '5' }
    else if d == 6 { '6' }
    else if d == 7 { '7' }
    else if d == 8 { '8' }
    else { '9' }
}

/// The ordinary decimal rendering of a natural number, no padding.
pub open spec fn dec_digits(n: nat) -> Seq<char>
    decreases n,
{
    if n < 10 {
        seq![digit_char(n)]
    } else {
        dec_digits(n / 10) + seq![digit_char(n % 10)]
    }
}

/// Two-digit zero-padded rendering of `n % 100`.
pub open spec fn dec2(n: nat) -> Seq<char> {
    seq![digit_char((n / 10) % 10), digit_char(n % 10)]
}

/// Four-digit zero-padded rendering of `n % 10000`.
pub open spec fn dec4(n: nat) -> Seq<char> {
    seq![
        digit_char((n / 1000) % 10),
        digit_char((n / 100) % 10),
        digit_char((n / 10) % 10),
        digit_char(n % 10),
    ]
}

/// The canonical text of a cent amount: integer dollars, a point, and
/// exactly two fraction digits, with a leading minus for negative amounts.
pub open spec fn cents_text(c: int) -> Seq<char> {
    if c >= 0 {
        dec_digits((c / 100) as nat) + seq!['.'] + dec2((c % 100) as nat)
    } else {
        seq!['-'] + dec_digits(((-c) / 100) as nat) + seq!['.'] + dec2(((-c) % 100) as nat)
    }
}

fn digit_str(d: u64) -> (r: &'static str)
    requires
        d < 10,
    ensures
        r@ =~= seq![digit_char(d as nat)],
{
    proof {
        reveal_strlit("0");
        reveal_strlit("1");
        reveal_strlit("2");
        reveal_strlit("3");
        reveal_strlit("4");
        reveal_strlit("5");
        reveal_strlit("6");
        reveal_strlit("7");
        reveal_strlit("8");
        reveal_strlit("9");
    }
    match d {
        0 => "0",
        1 => "1",
        2 => "2",
        3 => "3",
        4 => "4",
        5 => "5",
        6 => "6",
        7 => "7",
        8 => "8",
        _ => "9",
    }
}

/// Decimal rendering of an unsigned integer.
pub fn u64_text(n: u64) -> (r: String)
    ensures
        r@ == dec_digits(n as nat),
    decreases n,
{
    if n < 10 {
        String::from_str(digit_str(n))
    } else {
        let mut s = u64_text(n / 10);
        s.append(digit_str(n % 10));
        assert(s@ =~= dec_digits(n as nat));
        s
    }
}

/// Two-digit zero-padded rendering.
pub fn pad2_text(n: u64) -> (r: String)
    requires
        n < 100,
    ensures
        r@ == dec2(n as nat),
{
    let mut s = String::from_str(digit_str(n / 10));
    s.append(digit_str(n % 10));
    assert(s@ =~= dec2(n as nat));
    s
}

/// Four-digit zero-padded rendering.
pub fn pad4_text(n: u64) -> (r: String)
    requires
        n < 10000,
    ensures
        r@ == dec4(n as nat),
{
    let mut s = String::from_str(digit_str(n / 1000));
    s.append(digit_str((n / 100) % 10));
    s.append(digit_str((n / 10) % 10));
    s.append(digit_str(n % 10));
    assert(s@ =~= dec4(n as nat));
    s
}

/// Renders a cent amount with exactly two fraction digits, e.g. `-12.05`.
pub fn cents_to_text(c: i64) -> (r: String)
    requires
        c > i64::MIN,
    ensures
        r@ == cents_text(c as int),
{
    if c >= 0 {
        let mut s = u64_text((c / 100) as u64);
        s.append(".");
        let t = pad2_text((c % 100) as u64);
        s.append(t.as_str());
        proof {
            reveal_strlit(".");
        }
        assert(s@ =~= cents_text(c as int));
        s
    } else {
        let a: i64 = -c;
        let mut s = String::from_str("-");
        let d = u64_text((a / 100) as u64);
        s.append(d.as_str());
        s.append(".");
        let t = pad2_text((a % 100) as u64);
        s.append(t.as_str());
        proof {
            reveal_strlit(".");
            reveal_strlit("-");
        }
        assert(s@ =~= cents_text(c as int));
        s
    }
}

/// Length of the run of decimal digits in `s` starting at position `i`.
pub open spec fn run_len(s: Seq<char>, i: int) -> int
    decreases s.len() - i,
{
    if i < 0 || i >= s.len() || !is_digit(s[i]) {
        0
    } else {
        1 + run_len(s, i + 1)
    }
}

/// Value of the `l` digits of `s` starting at position `i`.
pub open spec fn num_val(s: Seq<char>, i: int, l: int) -> nat
    decreases l,
{
    if l <= 0 {
        0
    } else {
        num_val(s, i, l - 1) * 10 + digit_val(s[i + l - 1])
    }
}

pub proof fn lemma_run_in_bounds(s: Seq<char>, i: int)
    ensures
        run_len(s, i) >= 0,
        0 <= i <= s.len() ==> i + run_len(s, i) <= s.len(),
        forall|j: int| i <= j < i + run_len(s, i) ==> is_digit(s[j]),
    decreases s.len() - i,
{
    if !(i < 0 || i >= s.len() || !is_digit(s[i])) {
        lemma_run_in_bounds(s, i + 1);
    }
}

fn digit_at(s: &str, j: usize) -> (b: bool)
    requires
        j < s@.len(),
    ensures
        b == is_digit(s@[j as int]),
{
    let c = s.get_char(j);
    '0' <= c && c <= '9'
}

/// Counts the digits of `s` from position `i` on.
pub fn digit_run(s: &str, i: usize) -> (r: usize)
    requires
        i <= s@.len(),
    ensures
        r == run_len(s@, i as int),
        i + r <= s@.len(),
{
    proof {
        lemma_run_in_bounds(s@, i as int);
    }
    let n = s.unicode_len();
    let mut j = i;
    while j < n && digit_at(s, j)
        invariant
            i <= j <= n,
            n == s@.len(),
            run_len(s@, i as int) == (j - i) + run_len(s@, j as int),
            forall|k: int| i <= k < j ==> is_digit(s@[k]),
        decreases n - j,
    {
        j = j + 1;
    }
    assert(run_len(s@, j as int) == 0);
    j - i
}

/// Reads the value of the `l` digits of `s` at position `i`.
pub fn num_at(s: &str, i: usize, l: usize) -> (v: u64)
    requires
        i + l <= s@.len(),
        s@.len() <= usize::MAX,
        l <= 15,
        forall|j: int| i <= j < i + l ==> is_digit(s@[j]),
    ensures
        v as nat == num_val(s@, i as int, l as int),
        v < 1_000_000_000_000_000,
{
    let mut v: u64 = 0;
    let mut k: usize = 0;
    proof {
        lemma_num_val_bound(s@, i as int, 0);
    }
    while k < l
        invariant
            0 <= k <= l,
            i + l <= s@.len(),
            s@.len() <= usize::MAX,
            l <= 15,
            forall|j: int| i <= j < i + l ==> is_digit(s@[j]),
            v as nat == num_val(s@, i as int, k as int),
            (v as nat) < pow10(k as nat),
        decreases l - k,
    {
        let c = s.get_char(i + k);
        let d: u32 = (c as u32) - ('0' as u32);
        proof {
            lemma_pow10_mono(k as nat, 14);
        }
        v = v * 10 + (d as u64);
        k = k + 1;
    }
    proof {
        lemma_pow10_mono(l as nat, 15);
    }
    v
}

pub open spec fn pow10(k: nat) -> nat
    decreases k,
{
    if k == 0 {
        1
    } else {
        10 * pow10((k - 1) as nat)
    }
}

pub proof fn lemma_pow10_mono(a: nat, b: nat)
    requires
        a <= b,
    ensures
        pow10(a) <= pow10(b),
        pow10(15) == 1_000_000_000_000_000,
    decreases b,
{
    if b > 0 && a < b {
        lemma_pow10_mono(a, (b - 1) as nat);
    }
    reveal_with_fuel(pow10, 17);
    assert(pow10(15) == 1_000_000_000_000_000);
}

pub proof fn lemma_num_val_bound(s: Seq<char>, i: int, l: int)
    requires
        forall|j: int| i <= j < i + l ==> is_digit(s[j]),
    ensures
        num_val(s, i, l) < pow10(if l <= 0 { 0 } else { l as nat }),
    decreases l,
{
    if l > 0 {
        lemma_num_val_bound(s, i, l - 1);
    }
}

/// The parse of a decimal amount string into cents.
///
/// Accepted form: an optional minus sign, one to thirteen integer digits,
/// then optionally a point followed by one or two fraction digits, with
/// nothing left over. Anything else is rejected.
pub open spec fn parse_cents_spec(s: Seq<char>) -> Option<int> {
    let neg = s.len() > 0 && s[0] == '-';
    let st: int = if neg { 1 } else { 0 };
    let r = run_len(s, st);
    if r < 1 || r > 13 {
        None::<int>
    } else if st + r == s.len() {
        let c = num_val(s, st, r) * 100;
        Some(if neg { -(c as int) } else { c as int })
    } else if s[st + r] == '.' && s.len() - (st + r) - 1 >= 1 && s.len() - (st + r) - 1 <= 2
        && run_len(s, st + r + 1) == s.len() - (st + r) - 1 {
        let f = if s.len() - (st + r) - 1 == 1 {
            num_val(s, st + r + 1, 1) * 10
        } else {
            num_val(s, st + r + 1, 2)
        };
        let c = num_val(s, st, r) * 100 + f;
        Some(if neg { -(c as int) } else { c as int })
    } else {
        None::<int>
    }
}

/// Parses a decimal amount string into cents; `None` on any malformed or
/// out-of-range input.
pub fn parse_cents(s: &str) -> (res: Option<i64>)
    ensures
        res matches Some(c) ==> parse_cents_spec(s@) == Some(c as int) && -AMOUNT_LIMIT < c
            < AMOUNT_LIMIT,
        res is None ==> parse_cents_spec(s@) is None,
{
    let n = s.unicode_len();
    let neg = n > 0 && s.get_char(0) == '-';
    let start: usize = if neg { 1 } else { 0 };
    let r = digit_run(s, start);
    proof {
        lemma_run_in_bounds(s@, start as int);
    }
    if r < 1 || r > 13 {
        return None;
    }
    let intval = num_at(s, start, r);
    proof {
        lemma_num_val_bound(s@, start as int, r as int);
        lemma_pow10_mono(r as nat, 13);
        reveal_with_fuel(pow10, 15);
        assert(pow10(13) == 10_000_000_000_000);
    }
    if start + r == n {
        let c: i64 = (intval as i64) * 100;
        return Some(if neg { -c } else { c });
    }
    if s.get_char(start + r) != '.' {
        return None;
    }
    let fl = n - (start + r) - 1;
    if fl < 1 || fl > 2 {
        return None;
    }
    let fr = digit_run(s, start + r + 1);
    proof {
        lemma_run_in_bounds(s@, (start + r + 1) as int);
    }
    if fr != fl {
        return None;
    }
    let fv = num_at(s, start + r + 1, fl);
    proof {
        lemma_num_val_bound(s@, (start + r + 1) as int, fl as int);
        lemma_pow10_mono(fl as nat, 2);
        reveal_with_fuel(pow10, 4);
        assert(pow10(2) == 100);
    }
    let f: u64 = if fl == 1 {
        fv * 10
    } else {
        fv
    };
    let c: i64 = (intval as i64) * 100 + (f as i64);
    proof {
        let st: int = start as int;
        assert(run_len(s@, st) == r);
        assert(st + r != s@.len());
        assert(s@[st + r] == '.');
        assert(s@.len() - (st + r) - 1 == fl);
        assert(run_len(s@, st + r + 1) == fl);
        assert(f as nat == if fl == 1 {
            num_val(s@, st + r + 1, 1) * 10
        } else {
            num_val(s@, st + r + 1, 2)
        });
        assert(c as int == num_val(s@, st, r as int) * 100 + f);
    }
    Some(if neg { -c } else { c })
}

} // verus!
