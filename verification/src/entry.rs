//! Ledger entries: one revenue/expense line with a partial date, category,
//! comment and epic tag. The balance field is derived from revenue and
//! expense whenever either is set through a setter, and is read as stored
//! only when an entry is decoded from a file.

use vstd::prelude::*;
use crate::date::{parse_date_spec, Date};
use crate::decimal::{parse_cents, parse_cents_spec, AMOUNT_LIMIT};
use crate::ids::fresh_id;
use crate::number::Number;

verus! {

pub open spec fn abs_i(v: int) -> int {
    if v < 0 {
        -v
    } else {
        v
    }
}

/// The mathematical image of an entry.
pub ghost struct EntryV {
    pub id: Seq<char>,
    pub title: Seq<char>,
    pub date: Date,
    pub revenue: int,
    pub expense: int,
    pub balance: int,
    pub category: Seq<char>,
    pub comment: Seq<char>,
    pub epic: Seq<char>,
}

#[derive(Debug, Clone)]
pub struct Entry {
    pub id: String,
    pub title: String,
    pub date: Date,
    pub revenue: i64,
    pub expense: i64,
    pub balance: i64,
    pub category: String,
    pub comment: String,
    pub epic: String,
}

impl View for Entry {
    type V = EntryV;

    open spec fn view(&self) -> EntryV {
        EntryV {
            id: self.id@,
            title: self.title@,
            date: self.date,
            revenue: self.revenue as int,
            expense: self.expense as int,
            balance: self.balance as int,
            category: self.category@,
            comment: self.comment@,
            epic: self.epic@,
        }
    }
}

impl Entry {
    /// Amounts in range, revenue non-negative, expense non-positive, and a
    /// valid (possibly partial) date.
    pub open spec fn wf(self) -> bool {
        &&& 0 <= self.revenue < AMOUNT_LIMIT
        &&& -AMOUNT_LIMIT < self.expense <= 0
        &&& -AMOUNT_LIMIT < self.balance < AMOUNT_LIMIT
        &&& self.date.wf()
    }

    /// A fresh entry: random id, empty title and comment, the empty date,
    /// zero amounts, category and epic `default`.
    pub fn new() -> (e: Entry)
        ensures
            e.wf(),
            e@.id.len() == 36,
            e@.title == Seq::<char>::empty(),
            e@.date == (Date { year: 1970, month: 1, day: 1, used_y: false, used_m: false, used_d: false }),
            e@.revenue == 0,
            e@.expense == 0,
            e@.balance == 0,
            e@.category == "default"@,
            e@.comment == Seq::<char>::empty(),
            e@.epic == "default"@,
    {
        Entry {
            id: fresh_id(),
            title: String::new(),
            date: Date::new(),
            revenue: 0,
            expense: 0,
            balance: 0,
            category: String::from_str("default"),
            comment: String::new(),
            epic: String::from_str("default"),
        }
    }

    pub fn id(&self) -> (r: String)
        ensures
            r@ == self@.id,
    {
        self.id.clone()
    }

    pub fn set_id(&mut self, id: String)
        ensures
            final(self)@ == (EntryV { id: id@, ..old(self)@ }),
    {
        self.id = id;
    }

    pub fn title(&self) -> (r: String)
        ensures
            r@ == self@.title,
    {
        self.title.clone()
    }

    pub fn set_title(&mut self, title: String)
        ensures
            final(self)@ == (EntryV { title: title@, ..old(self)@ }),
    {
        self.title = title;
    }

    pub fn date(&self) -> (r: Date)
        ensures
            r == self.date,
    {
        self.date
    }

    pub fn set_date(&mut self, d: Date)
        ensures
            final(self)@ == (EntryV { date: d, ..old(self)@ }),
    {
        self.date = d;
    }

    pub fn revenue(&self) -> (r: Number)
        ensures
            r.n == self.revenue,
    {
        Number::from(self.revenue)
    }

    /// Stores the absolute value of `v` as the revenue and re-derives the
    /// balance.
    pub fn set_revenue(&mut self, v: i64)
        requires
            -AMOUNT_LIMIT < v < AMOUNT_LIMIT,
            old(self).wf(),
        ensures
            final(self).wf(),
            final(self)@ == (EntryV {
                revenue: abs_i(v as int),
                balance: abs_i(v as int) + old(self)@.expense,
                ..old(self)@
            }),
    {
        self.revenue = if v < 0 {
            -v
        } else {
            v
        };
        self.calc();
    }

    pub fn has_revenue(&self) -> (r: bool)
        ensures
            r == (self.revenue > 0),
    {
        self.revenue > 0
    }

    pub fn expense(&self) -> (r: Number)
        ensures
            r.n == self.expense,
    {
        Number::from(self.expense)
    }

    /// Stores the negated absolute value of `v` as the expense and
    /// re-derives the balance.
    pub fn set_expense(&mut self, v: i64)
        requires
            -AMOUNT_LIMIT < v < AMOUNT_LIMIT,
            old(self).wf(),
        ensures
            final(self).wf(),
            final(self)@ == (EntryV {
                expense: -abs_i(v as int),
                balance: old(self)@.revenue + -abs_i(v as int),
                ..old(self)@
            }),
    {
        self.expense = if v < 0 {
            v
        } else {
            -v
        };
        self.calc();
    }

    pub fn has_expense(&self) -> (r: bool)
        ensures
            r == (self.expense < 0),
    {
        self.expense < 0
    }

    pub fn category(&self) -> (r: String)
        ensures
            r@ == self@.category,
    {
        self.category.clone()
    }

    pub fn set_category(&mut self, v: String)
        ensures
            final(self)@ == (EntryV { category: v@, ..old(self)@ }),
    {
        self.category = v;
    }

    pub fn comment(&self) -> (r: String)
        ensures
            r@ == self@.comment,
    {
        self.comment.clone()
    }

    pub fn set_comment(&mut self, v: String)
        ensures
            final(self)@ == (EntryV { comment: v@, ..old(self)@ }),
    {
        self.comment = v;
    }

    pub fn epic(&self) -> (r: String)
        ensures
            r@ == self@.epic,
    {
        self.epic.clone()
    }

    pub fn set_epic(&mut self, v: String)
        ensures
            final(self)@ == (EntryV { epic: v@, ..old(self)@ }),
    {
        self.epic = v;
    }

    pub fn balance(&self) -> (r: Number)
        ensures
            r.n == self.balance,
    {
        Number::from(self.balance)
    }

    /// A field-for-field copy; unlike the derived clone, its contract
    /// states that nothing changes.
    pub fn duplicate(&self) -> (r: Entry)
        ensures
            r@ == self@,
            r.date == self.date,
            r.revenue == self.revenue,
            r.expense == self.expense,
            r.balance == self.balance,
    {
        Entry {
            id: self.id.clone(),
            title: self.title.clone(),
            date: self.date,
            revenue: self.revenue,
            expense: self.expense,
            balance: self.balance,
            category: self.category.clone(),
            comment: self.comment.clone(),
            epic: self.epic.clone(),
        }
    }

    fn calc(&mut self)
        requires
            -AMOUNT_LIMIT < old(self).revenue < AMOUNT_LIMIT,
            -AMOUNT_LIMIT < old(self).expense < AMOUNT_LIMIT,
            old(self).revenue >= 0 ==> old(self).expense <= 0,
        ensures
            final(self)@ == (EntryV {
                balance: old(self)@.revenue + old(self)@.expense,
                ..old(self)@
            }),
    {
        self.balance = self.revenue + self.expense;
    }
}

/// The optional fields an entry can be built from; absent fields keep the
/// defaults of a fresh entry.
pub struct EntryOptions {
    pub id: Option<String>,
    pub title: Option<String>,
    pub date: Option<Date>,
    pub revenue: Option<i64>,
    pub expense: Option<i64>,
    pub category: Option<String>,
    pub comment: Option<String>,
    pub epic: Option<String>,
}

impl EntryOptions {
    pub fn new() -> (o: EntryOptions)
        ensures
            (o.id is None),
            (o.title is None),
            (o.date is None),
            (o.revenue is None),
            (o.expense is None),
            (o.category is None),
            (o.comment is None),
            (o.epic is None),
    {
        EntryOptions {
            id: None,
            title: None,
            date: None,
            revenue: None,
            expense: None,
            category: None,
            comment: None,
            epic: None,
        }
    }
}

impl Entry {
    /// Builds an entry from the fields present in `options`; the rest keep
    /// their defaults.
    pub fn from_options(options: EntryOptions) -> (e: Entry)
        requires
            options.date matches Some(d) ==> d.wf(),
            options.revenue matches Some(v) ==> -AMOUNT_LIMIT < v < AMOUNT_LIMIT,
            options.expense matches Some(v) ==> -AMOUNT_LIMIT < v < AMOUNT_LIMIT,
        ensures
            e.wf(),
            (match options.id {
                Some(i) => e@.id == i@,
                None => e@.id.len() == 36,
            }),
            e@.title == (match options.title {
                Some(t) => t@,
                None => Seq::<char>::empty(),
            }),
            e.date == (match options.date {
                Some(d) => d,
                None => Date {
                    year: 1970,
                    month: 1,
                    day: 1,
                    used_y: false,
                    used_m: false,
                    used_d: false,
                },
            }),
            e@.revenue == (match options.revenue {
                Some(v) => abs_i(v as int),
                None => 0,
            }),
            e@.expense == (match options.expense {
                Some(v) => -abs_i(v as int),
                None => 0,
            }),
            e@.balance == e@.revenue + e@.expense,
            e@.category == (match options.category {
                Some(c) => c@,
                None => "default"@,
            }),
            e@.comment == (match options.comment {
                Some(c) => c@,
                None => Seq::<char>::empty(),
            }),
            e@.epic == (match options.epic {
                Some(x) => x@,
                None => "default"@,
            }),
    {
        let mut entry = Entry::new();
        if let Some(id) = options.id {
            entry.set_id(id);
        }
        if let Some(date) = options.date {
            entry.set_date(date);
        }
        if let Some(title) = options.title {
            entry.set_title(title);
        }
        if let Some(revenue) = options.revenue {
            entry.set_revenue(revenue);
        }
        if let Some(expense) = options.expense {
            entry.set_expense(expense);
        }
        if let Some(category) = options.category {
            entry.set_category(category);
        }
        if let Some(comment) = options.comment {
            entry.set_comment(comment);
        }
        if let Some(epic) = options.epic {
            entry.set_epic(epic);
        }
        entry
    }
}

/// The position of the first `c` in `s` at or after `from`; the length of
/// `s` if there is none.
pub open spec fn idx_of(s: Seq<char>, from: int, c: char) -> int
    decreases s.len() - from,
{
    if from < 0 || from >= s.len() {
        s.len() as int
    } else if s[from] == c {
        from
    } else {
        idx_of(s, from + 1, c)
    }
}

fn find_from(s: &str, from: usize, c: char) -> (r: usize)
    requires
        from <= s@.len(),
        s@.len() <= usize::MAX,
    ensures
        r == idx_of(s@, from as int, c),
        from <= r <= s@.len(),
        r < s@.len() ==> s@[r as int] == c,
{
    let n = s.unicode_len();
    let mut j = from;
    while j < n && s.get_char(j) != c
        invariant
            from <= j <= n,
            n == s@.len(),
            idx_of(s@, from as int, c) == idx_of(s@, j as int, c),
            forall|k: int| from <= k < j ==> s@[k] != c,
        decreases n - j,
    {
        j = j + 1;
    }
    j
}

/// The cut points of an entry line `title/date/revenue/expense`: the
/// positions of its first three separators and, for the expense segment,
/// the following separator or the end.
pub open spec fn line_cut(s: Seq<char>) -> (int, int, int, int) {
    let q1 = idx_of(s, 0, '/');
    let q2 = idx_of(s, q1 + 1, '/');
    let q3 = idx_of(s, q2 + 1, '/');
    let q4 = idx_of(s, q3 + 1, '/');
    (q1, q2, q3, q4)
}

/// Whether an entry line has its four segments and each parses.
pub open spec fn line_ok(s: Seq<char>) -> bool {
    let (q1, q2, q3, q4) = line_cut(s);
    &&& q1 < s.len()
    &&& q2 < s.len()
    &&& q3 < s.len()
    &&& (match parse_date_spec(s.subrange(q1 + 1, q2)) {
        Some(d) => d.wf(),
        None => false,
    })
    &&& (parse_cents_spec(s.subrange(q2 + 1, q3)) is Some)
    &&& (parse_cents_spec(s.subrange(q3 + 1, q4)) is Some)
}

impl Entry {
    /// Builds a fresh entry from a `title/date/revenue/expense` line; the
    /// amounts are whole or two-fraction-digit decimals. Returns `None` on
    /// any malformed segment.
    pub fn from_line(s: &str) -> (res: Option<Entry>)
        ensures
            (res is Some) == line_ok(s@),
            res matches Some(e) ==> ({
                let (q1, q2, q3, q4) = line_cut(s@);
                &&& e.wf()
                &&& e@.title == s@.subrange(0, q1)
                &&& Some(e.date) == parse_date_spec(s@.subrange(q1 + 1, q2))
                &&& e@.revenue == abs_i(parse_cents_spec(s@.subrange(q2 + 1, q3)).unwrap())
                &&& e@.expense == -abs_i(parse_cents_spec(s@.subrange(q3 + 1, q4)).unwrap())
                &&& e@.balance == e@.revenue + e@.expense
                &&& e@.category == "default"@
                &&& e@.comment == Seq::<char>::empty()
                &&& e@.epic == "default"@
                &&& e@.id.len() == 36
            }),
    {
        let n = s.unicode_len();
        let p1 = find_from(s, 0, '/');
        if p1 == n {
            return None;
        }
        let p2 = find_from(s, p1 + 1, '/');
        if p2 == n {
            return None;
        }
        let p3 = find_from(s, p2 + 1, '/');
        if p3 == n {
            return None;
        }
        let p4 = find_from(s, p3 + 1, '/');
        let date_part = s.substring_char(p1 + 1, p2);
        let d = match Date::from_str(date_part) {
            Ok(d) => d,
            Err(_) => {
                return None;
            },
        };
        let rev = match parse_cents(s.substring_char(p2 + 1, p3)) {
            Some(v) => v,
            None => {
                return None;
            },
        };
        let exp = match parse_cents(s.substring_char(p3 + 1, p4)) {
            Some(v) => v,
            None => {
                return None;
            },
        };
        let title = s.substring_char(0, p1);
        let mut e = Entry::new();
        e.set_title(String::from_str(title));
        e.set_date(d);
        e.set_revenue(rev);
        e.set_expense(exp);
        Some(e)
    }
}

/// A running total over a displayed list of entries.
#[derive(Debug)]
pub struct EntrySum {
    pub n: u64,
    pub revenue: Number,
    pub expense: Number,
    pub balance: Number,
}

impl EntrySum {
    pub fn new() -> (s: EntrySum)
        ensures
            s.n == 0,
            s.revenue.n == 0,
            s.expense.n == 0,
            s.balance.n == 0,
    {
        EntrySum { n: 0, revenue: Number::new(), expense: Number::new(), balance: Number::new() }
    }

    pub fn inc(&mut self)
        requires
            old(self).n < u64::MAX,
        ensures
            final(self).n == old(self).n + 1,
            final(self).revenue == old(self).revenue,
            final(self).expense == old(self).expense,
            final(self).balance == old(self).balance,
    {
        self.n = self.n + 1;
    }

    pub fn inc_revenue(&mut self, v: Number)
        requires
            i64::MIN <= old(self).revenue.n + v.n <= i64::MAX,
        ensures
            final(self).revenue.n == old(self).revenue.n + v.n,
            final(self).n == old(self).n,
            final(self).expense == old(self).expense,
            final(self).balance == old(self).balance,
    {
        self.revenue = self.revenue.plus(v);
    }

    pub fn inc_expense(&mut self, v: Number)
        requires
            i64::MIN <= old(self).expense.n + v.n <= i64::MAX,
        ensures
            final(self).expense.n == old(self).expense.n + v.n,
            final(self).n == old(self).n,
            final(self).revenue == old(self).revenue,
            final(self).balance == old(self).balance,
    {
        self.expense = self.expense.plus(v);
    }

    pub fn inc_balance(&mut self, v: Number)
        requires
            i64::MIN <= old(self).balance.n + v.n <= i64::MAX,
        ensures
            final(self).balance.n == old(self).balance.n + v.n,
            final(self).n == old(self).n,
            final(self).revenue == old(self).revenue,
            final(self).expense == old(self).expense,
    {
        self.balance = self.balance.plus(v);
    }
}

/// How wide a console listing of entries should be.
pub enum EntryDisplayKind {
    Short,
    Normal,
    Long,
}

} // verus!
