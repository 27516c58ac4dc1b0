//! The aggregation accumulators: running revenue/expense/balance sums at
//! every grouping level. Each `add` folds one entry into a summary; the
//! grouping differs by level, the three-field update is always the same.
//! Sums are held in 128-bit integers, wide enough that folding any number
//! of in-range entries cannot overflow.

use vstd::prelude::*;
use crate::decimal::AMOUNT_LIMIT;
use crate::entry::{abs_i, Entry, EntryV};

verus! {

/// One revenue/expense/balance triple, as mathematical integers.
pub ghost struct Tri {
    pub r: int,
    pub e: int,
    pub b: int,
}

pub open spec fn tri_zero() -> Tri {
    Tri { r: 0, e: 0, b: 0 }
}

pub open spec fn tri_plus(a: Tri, c: Tri) -> Tri {
    Tri { r: a.r + c.r, e: a.e + c.e, b: a.b + c.b }
}

pub open spec fn tri_of_entry(ev: EntryV) -> Tri {
    Tri { r: ev.revenue, e: ev.expense, b: ev.balance }
}

/// Each component within `n` amount limits.
pub open spec fn tri_bounded(t: Tri, n: int) -> bool {
    let m = n * (AMOUNT_LIMIT as int);
    &&& -m <= t.r <= m
    &&& -m <= t.e <= m
    &&& -m <= t.b <= m
}

pub open spec fn sum_tris(s: Seq<Tri>) -> Tri
    decreases s.len(),
{
    if s.len() == 0 {
        tri_zero()
    } else {
        tri_plus(sum_tris(s.drop_last()), s.last())
    }
}

pub proof fn lemma_sum_tris_push(s: Seq<Tri>, t: Tri)
    ensures
        sum_tris(s.push(t)) == tri_plus(sum_tris(s), t),
{
    assert(s.push(t).drop_last() =~= s);
    assert(s.push(t).last() == t);
}

pub proof fn lemma_sum_tris_update(s: Seq<Tri>, i: int, t: Tri)
    requires
        0 <= i < s.len(),
    ensures
        sum_tris(s.update(i, t)) == (Tri {
            r: sum_tris(s).r - s[i].r + t.r,
            e: sum_tris(s).e - s[i].e + t.e,
            b: sum_tris(s).b - s[i].b + t.b,
        }),
    decreases s.len(),
{
    if i == s.len() - 1 {
        assert(s.update(i, t).drop_last() =~= s.drop_last());
        assert(s.update(i, t).last() == t);
    } else {
        assert(s.update(i, t).drop_last() =~= s.drop_last().update(i, t));
        assert(s.update(i, t).last() == s.last());
        lemma_sum_tris_update(s.drop_last(), i, t);
    }
}

pub proof fn lemma_sum_tris_bound(s: Seq<Tri>)
    requires
        forall|k: int| 0 <= k < s.len() ==> tri_bounded(#[trigger] s[k], 1),
    ensures
        tri_bounded(sum_tris(s), s.len() as int),
    decreases s.len(),
{
    if s.len() > 0 {
        lemma_sum_tris_bound(s.drop_last());
        assert(s.last() == s[s.len() - 1]);
    }
}

/// The per-day accumulator: sums only.
#[derive(Debug, Clone, Copy)]
pub struct DaySummary {
    pub revenue: i128,
    pub expense: i128,
    pub balance: i128,
}

impl DaySummary {
    pub open spec fn tri(self) -> Tri {
        Tri { r: self.revenue as int, e: self.expense as int, b: self.balance as int }
    }

    pub fn new() -> (s: DaySummary)
        ensures
            s.tri() == tri_zero(),
    {
        DaySummary { revenue: 0, expense: 0, balance: 0 }
    }

    /// Folds one entry in.
    pub fn add(&mut self, e: &Entry)
        requires
            e.wf(),
            tri_bounded(old(self).tri(), usize::MAX as int),
        ensures
            final(self).tri() == tri_plus(old(self).tri(), tri_of_entry(e@)),
    {
        proof {
            lemma_room_for_one(old(self).tri());
        }
        self.revenue = self.revenue + e.revenue as i128;
        self.expense = self.expense + e.expense as i128;
        self.balance = self.balance + e.balance as i128;
    }
}

/// The per-category accumulator; `balance_percent` is in hundredths of a
/// percent and is valid only after the finalization pass has run.
#[derive(Debug, Clone)]
pub struct CategorySummary {
    pub name: String,
    pub revenue: i128,
    pub expense: i128,
    pub balance: i128,
    pub balance_percent: u64,
}

impl CategorySummary {
    pub open spec fn tri(self) -> Tri {
        Tri { r: self.revenue as int, e: self.expense as int, b: self.balance as int }
    }

    pub fn new() -> (s: CategorySummary)
        ensures
            s.tri() == tri_zero(),
            s@.name == Seq::<char>::empty(),
            s.balance_percent == 0,
    {
        CategorySummary {
            name: String::new(),
            revenue: 0,
            expense: 0,
            balance: 0,
            balance_percent: 0,
        }
    }

    /// Folds one entry in; the name and the percentage are untouched.
    pub fn add(&mut self, e: &Entry)
        requires
            e.wf(),
            tri_bounded(old(self).tri(), usize::MAX as int),
        ensures
            final(self).tri() == tri_plus(old(self).tri(), tri_of_entry(e@)),
            final(self).name == old(self).name,
            final(self).balance_percent == old(self).balance_percent,
    {
        proof {
            lemma_room_for_one(old(self).tri());
        }
        self.revenue = self.revenue + e.revenue as i128;
        self.expense = self.expense + e.expense as i128;
        self.balance = self.balance + e.balance as i128;
    }
}

impl View for CategorySummary {
    type V = CategorySummaryV;

    open spec fn view(&self) -> CategorySummaryV {
        CategorySummaryV {
            name: self.name@,
            tri: self.tri(),
            balance_percent: self.balance_percent as int,
        }
    }
}

pub ghost struct CategorySummaryV {
    pub name: Seq<char>,
    pub tri: Tri,
    pub balance_percent: int,
}

/// The per-epic accumulator.
#[derive(Debug, Clone)]
pub struct EpicSummary {
    pub name: String,
    pub revenue: i128,
    pub expense: i128,
    pub balance: i128,
}

impl EpicSummary {
    pub open spec fn tri(self) -> Tri {
        Tri { r: self.revenue as int, e: self.expense as int, b: self.balance as int }
    }

    pub fn new() -> (s: EpicSummary)
        ensures
            s.tri() == tri_zero(),
            s.name@ == Seq::<char>::empty(),
    {
        EpicSummary { name: String::new(), revenue: 0, expense: 0, balance: 0 }
    }

    /// Folds one entry in; the name is untouched.
    pub fn add(&mut self, e: &Entry)
        requires
            e.wf(),
            tri_bounded(old(self).tri(), usize::MAX as int),
        ensures
            final(self).tri() == tri_plus(old(self).tri(), tri_of_entry(e@)),
            final(self).name == old(self).name,
    {
        proof {
            lemma_room_for_one(old(self).tri());
        }
        self.revenue = self.revenue + e.revenue as i128;
        self.expense = self.expense + e.expense as i128;
        self.balance = self.balance + e.balance as i128;
    }
}

pub open spec fn entry_views(s: Seq<Entry>) -> Seq<EntryV> {
    s.map_values(|en: Entry| en@)
}

pub open spec fn entry_tris(s: Seq<Entry>) -> Seq<Tri> {
    s.map_values(|en: Entry| tri_of_entry(en@))
}

pub open spec fn day_tris(s: Seq<(u32, DaySummary)>) -> Seq<Tri> {
    s.map_values(|p: (u32, DaySummary)| p.1.tri())
}

pub open spec fn cat_tris(s: Seq<(String, CategorySummary)>) -> Seq<Tri> {
    s.map_values(|p: (String, CategorySummary)| p.1.tri())
}

pub open spec fn epic_tris(s: Seq<(String, EpicSummary)>) -> Seq<Tri> {
    s.map_values(|p: (String, EpicSummary)| p.1.tri())
}

/// The first pair with this key, or the pair count if there is none.
pub open spec fn u32_key_index<V>(s: Seq<(u32, V)>, k: u32) -> int
    decreases s.len(),
{
    if s.len() == 0 {
        0
    } else if s[0].0 == k {
        0
    } else {
        1 + u32_key_index(s.skip(1), k)
    }
}

pub open spec fn str_key_index<V>(s: Seq<(String, V)>, k: Seq<char>) -> int
    decreases s.len(),
{
    if s.len() == 0 {
        0
    } else if s[0].0@ == k {
        0
    } else {
        1 + str_key_index(s.skip(1), k)
    }
}

pub open spec fn i32_key_index<V>(s: Seq<(i32, V)>, k: i32) -> int
    decreases s.len(),
{
    if s.len() == 0 {
        0
    } else if s[0].0 == k {
        0
    } else {
        1 + i32_key_index(s.skip(1), k)
    }
}

pub proof fn lemma_u32_key_index_bound<V>(s: Seq<(u32, V)>, k: u32)
    ensures
        0 <= u32_key_index(s, k) <= s.len(),
        u32_key_index(s, k) < s.len() ==> s[u32_key_index(s, k)].0 == k,
    decreases s.len(),
{
    if s.len() > 0 && s[0].0 != k {
        lemma_u32_key_index_bound(s.skip(1), k);
    }
}

pub proof fn lemma_str_key_index_bound<V>(s: Seq<(String, V)>, k: Seq<char>)
    ensures
        0 <= str_key_index(s, k) <= s.len(),
        str_key_index(s, k) < s.len() ==> s[str_key_index(s, k)].0@ == k,
    decreases s.len(),
{
    if s.len() > 0 && s[0].0@ != k {
        lemma_str_key_index_bound(s.skip(1), k);
    }
}

pub proof fn lemma_i32_key_index_bound<V>(s: Seq<(i32, V)>, k: i32)
    ensures
        0 <= i32_key_index(s, k) <= s.len(),
        i32_key_index(s, k) < s.len() ==> s[i32_key_index(s, k)].0 == k,
    decreases s.len(),
{
    if s.len() > 0 && s[0].0 != k {
        lemma_i32_key_index_bound(s.skip(1), k);
    }
}

fn find_u32<V>(v: &Vec<(u32, V)>, k: u32) -> (r: usize)
    ensures
        r == u32_key_index(v@, k),
        r <= v@.len(),
        r < v@.len() ==> v@[r as int].0 == k,
{
    let mut i: usize = 0;
    proof {
        assert(v@.skip(0) =~= v@);
    }
    while i < v.len()
        invariant
            0 <= i <= v@.len(),
            u32_key_index(v@, k) == i + u32_key_index(v@.skip(i as int), k),
        decreases v@.len() - i,
    {
        proof {
            assert(v@.skip(i as int)[0] == v@[i as int]);
        }
        if v[i].0 == k {
            return i;
        }
        proof {
            assert(v@.skip(i as int).skip(1) =~= v@.skip(i as int + 1));
        }
        i = i + 1;
    }
    proof {
        lemma_u32_key_index_bound(v@, k);
    }
    i
}

fn find_str<V>(v: &Vec<(String, V)>, k: &String) -> (r: usize)
    ensures
        r == str_key_index(v@, k@),
        r <= v@.len(),
        r < v@.len() ==> v@[r as int].0@ == k@,
{
    let mut i: usize = 0;
    proof {
        assert(v@.skip(0) =~= v@);
    }
    while i < v.len()
        invariant
            0 <= i <= v@.len(),
            str_key_index(v@, k@) == i + str_key_index(v@.skip(i as int), k@),
        decreases v@.len() - i,
    {
        proof {
            assert(v@.skip(i as int)[0] == v@[i as int]);
        }
        if v[i].0.eq(k) {
            return i;
        }
        proof {
            assert(v@.skip(i as int).skip(1) =~= v@.skip(i as int + 1));
        }
        i = i + 1;
    }
    proof {
        lemma_str_key_index_bound(v@, k@);
    }
    i
}

fn find_i32<V>(v: &Vec<(i32, V)>, k: i32) -> (r: usize)
    ensures
        r == i32_key_index(v@, k),
        r <= v@.len(),
        r < v@.len() ==> v@[r as int].0 == k,
{
    let mut i: usize = 0;
    proof {
        assert(v@.skip(0) =~= v@);
    }
    while i < v.len()
        invariant
            0 <= i <= v@.len(),
            i32_key_index(v@, k) == i + i32_key_index(v@.skip(i as int), k),
        decreases v@.len() - i,
    {
        proof {
            assert(v@.skip(i as int)[0] == v@[i as int]);
        }
        if v[i].0 == k {
            return i;
        }
        proof {
            assert(v@.skip(i as int).skip(1) =~= v@.skip(i as int + 1));
        }
        i = i + 1;
    }
    proof {
        lemma_i32_key_index_bound(v@, k);
    }
    i
}

/// How folding one entry reshapes a day map: the bucket of `k` grows by
/// `t`, a new bucket holding `t` appears at the end when `k` is new, and
/// every other pair stands untouched.
pub open spec fn day_map_folded(
    old_m: Seq<(u32, DaySummary)>,
    new_m: Seq<(u32, DaySummary)>,
    k: u32,
    t: Tri,
) -> bool {
    let i = u32_key_index(old_m, k);
    if i < old_m.len() {
        &&& new_m.len() == old_m.len()
        &&& (forall|j: int| 0 <= j < old_m.len() && j != i ==> new_m[j] == old_m[j])
        &&& new_m[i].0 == k
        &&& new_m[i].1.tri() == tri_plus(old_m[i].1.tri(), t)
    } else {
        &&& new_m.len() == old_m.len() + 1
        &&& (forall|j: int| 0 <= j < old_m.len() ==> new_m[j] == old_m[j])
        &&& new_m[i].0 == k
        &&& new_m[i].1.tri() == t
    }
}

/// As `day_map_folded`, for a category map; a bucket created for a new key
/// carries `name` as its display name and percentage zero.
pub open spec fn cat_map_folded(
    old_m: Seq<(String, CategorySummary)>,
    new_m: Seq<(String, CategorySummary)>,
    k: Seq<char>,
    t: Tri,
    name: Seq<char>,
) -> bool {
    let i = str_key_index(old_m, k);
    if i < old_m.len() {
        &&& new_m.len() == old_m.len()
        &&& (forall|j: int| 0 <= j < old_m.len() && j != i ==> new_m[j] == old_m[j])
        &&& new_m[i].0@ == k
        &&& new_m[i].1.tri() == tri_plus(old_m[i].1.tri(), t)
        &&& new_m[i].1.name@ == old_m[i].1.name@
        &&& new_m[i].1.balance_percent == old_m[i].1.balance_percent
    } else {
        &&& new_m.len() == old_m.len() + 1
        &&& (forall|j: int| 0 <= j < old_m.len() ==> new_m[j] == old_m[j])
        &&& new_m[i].0@ == k
        &&& new_m[i].1.tri() == t
        &&& new_m[i].1.name@ == name
        &&& new_m[i].1.balance_percent == 0
    }
}

/// As `day_map_folded`, for an epic map.
pub open spec fn epic_map_folded(
    old_m: Seq<(String, EpicSummary)>,
    new_m: Seq<(String, EpicSummary)>,
    k: Seq<char>,
    t: Tri,
) -> bool {
    let i = str_key_index(old_m, k);
    if i < old_m.len() {
        &&& new_m.len() == old_m.len()
        &&& (forall|j: int| 0 <= j < old_m.len() && j != i ==> new_m[j] == old_m[j])
        &&& new_m[i].0@ == k
        &&& new_m[i].1.tri() == tri_plus(old_m[i].1.tri(), t)
    } else {
        &&& new_m.len() == old_m.len() + 1
        &&& (forall|j: int| 0 <= j < old_m.len() ==> new_m[j] == old_m[j])
        &&& new_m[i].0@ == k
        &&& new_m[i].1.tri() == t
    }
}

/// The per-month accumulator: the entries it has seen, its day buckets,
/// and its own category and epic rollups.
#[derive(Debug)]
pub struct MonthSummary {
    pub entries: Vec<Entry>,
    pub days: Vec<(u32, DaySummary)>,
    pub categories: Vec<(String, CategorySummary)>,
    pub epics: Vec<(String, EpicSummary)>,
    pub revenue: i128,
    pub expense: i128,
    pub balance: i128,
}

impl MonthSummary {
    pub open spec fn tri(self) -> Tri {
        Tri { r: self.revenue as int, e: self.expense as int, b: self.balance as int }
    }

    /// The month's sums equal the fold of its entries, and so do the sums
    /// of its day, category and epic maps; every bucket stays within the
    /// range that its entry count allows.
    pub open spec fn wf(self) -> bool {
        let n = self.entries@.len() as int;
        let t = sum_tris(entry_tris(self.entries@));
        &&& forall|k: int| 0 <= k < n ==> (#[trigger] self.entries@[k]).wf()
        &&& self.tri() == t
        &&& sum_tris(day_tris(self.days@)) == t
        &&& sum_tris(cat_tris(self.categories@)) == t
        &&& sum_tris(epic_tris(self.epics@)) == t
        &&& forall|i: int|
            0 <= i < self.days@.len() ==> tri_bounded((#[trigger] self.days@[i]).1.tri(), n)
        &&& forall|i: int|
            0 <= i < self.categories@.len() ==> tri_bounded(
                (#[trigger] self.categories@[i]).1.tri(),
                n,
            )
        &&& forall|i: int|
            0 <= i < self.epics@.len() ==> tri_bounded((#[trigger] self.epics@[i]).1.tri(), n)
    }

    pub fn new() -> (s: MonthSummary)
        ensures
            s.wf(),
            s.tri() == tri_zero(),
            s.entries@.len() == 0,
            s.days@.len() == 0,
            s.categories@.len() == 0,
            s.epics@.len() == 0,
    {
        let s = MonthSummary {
            entries: Vec::new(),
            days: Vec::new(),
            categories: Vec::new(),
            epics: Vec::new(),
            revenue: 0,
            expense: 0,
            balance: 0,
        };
        proof {
            assert(entry_tris(s.entries@) =~= Seq::<Tri>::empty());
            assert(day_tris(s.days@) =~= Seq::<Tri>::empty());
            assert(cat_tris(s.categories@) =~= Seq::<Tri>::empty());
            assert(epic_tris(s.epics@) =~= Seq::<Tri>::empty());
        }
        s
    }

    /// Folds one entry into the month: its sums, its day bucket, and its
    /// category and epic rollups. A category created here carries no
    /// display name.
    pub fn add(&mut self, e: &Entry)
        requires
            e.wf(),
            old(self).wf(),
        ensures
            final(self).wf(),
            final(self).tri() == tri_plus(old(self).tri(), tri_of_entry(e@)),
            entry_views(final(self).entries@) == entry_views(old(self).entries@).push(e@),
            day_map_folded(
                old(self).days@,
                final(self).days@,
                e.date.spec_day() as u32,
                tri_of_entry(e@),
            ),
            cat_map_folded(
                old(self).categories@,
                final(self).categories@,
                e@.category,
                tri_of_entry(e@),
                Seq::<char>::empty(),
            ),
            epic_map_folded(old(self).epics@, final(self).epics@, e@.epic, tri_of_entry(e@)),
    {
        let ghost n = self.entries@.len() as int;
        let nlen = self.entries.len();
        proof {
            sum_bound_prep(*self);
            lemma_room_for_one(self.tri());
        }
        self.revenue = self.revenue + e.revenue as i128;
        self.expense = self.expense + e.expense as i128;
        self.balance = self.balance + e.balance as i128;
        self.entries.push(e.duplicate());
        proof {
            assert(entry_views(self.entries@) =~= entry_views(old(self).entries@).push(e@));
            assert(entry_tris(self.entries@) =~= entry_tris(old(self).entries@).push(
                tri_of_entry(e@),
            ));
            lemma_sum_tris_push(entry_tris(old(self).entries@), tri_of_entry(e@));
        }
        // Day bucket
        let dkey = e.date.day();
        let di = find_u32(&self.days, dkey);
        if di < self.days.len() {
            let mut ds = self.days[di].1;
            proof {
                lemma_widen(ds.tri(), n);
            }
            ds.add(e);
            self.days.set(di, (dkey, ds));
            proof {
                assert(day_tris(self.days@) =~= day_tris(old(self).days@).update(
                    di as int,
                    ds.tri(),
                ));
                lemma_sum_tris_update(day_tris(old(self).days@), di as int, ds.tri());
            }
        } else {
            let mut ds = DaySummary::new();
            ds.add(e);
            self.days.push((dkey, ds));
            proof {
                assert(day_tris(self.days@) =~= day_tris(old(self).days@).push(ds.tri()));
                lemma_sum_tris_push(day_tris(old(self).days@), ds.tri());
            }
        }
        // Category rollup
        let ckey = e.category();
        let ci = find_str(&self.categories, &ckey);
        if ci < self.categories.len() {
            let ghost before = self.categories@;
            let (k, mut cs) = self.categories.remove(ci);
            proof {
                lemma_widen(cs.tri(), n);
            }
            cs.add(e);
            self.categories.insert(ci, (k, cs));
            proof {
                assert(self.categories@ =~= before.update(ci as int, self.categories@[ci as int]));
                assert(cat_tris(self.categories@) =~= cat_tris(before).update(
                    ci as int,
                    cs.tri(),
                ));
                lemma_sum_tris_update(cat_tris(before), ci as int, cs.tri());
            }
        } else {
            let mut cs = CategorySummary::new();
            cs.add(e);
            self.categories.push((ckey, cs));
            proof {
                assert(cat_tris(self.categories@) =~= cat_tris(old(self).categories@).push(
                    cs.tri(),
                ));
                lemma_sum_tris_push(cat_tris(old(self).categories@), cs.tri());
            }
        }
        // Epic rollup
        let ekey = e.epic();
        let ei = find_str(&self.epics, &ekey);
        if ei < self.epics.len() {
            let ghost before = self.epics@;
            let (k, mut es) = self.epics.remove(ei);
            proof {
                lemma_widen(es.tri(), n);
            }
            es.add(e);
            self.epics.insert(ei, (k, es));
            proof {
                assert(self.epics@ =~= before.update(ei as int, self.epics@[ei as int]));
                assert(epic_tris(self.epics@) =~= epic_tris(before).update(ei as int, es.tri()));
                lemma_sum_tris_update(epic_tris(before), ei as int, es.tri());
            }
        } else {
            let mut es = EpicSummary::new();
            es.add(e);
            self.epics.push((ekey, es));
            proof {
                assert(epic_tris(self.epics@) =~= epic_tris(old(self).epics@).push(es.tri()));
                lemma_sum_tris_push(epic_tris(old(self).epics@), es.tri());
            }
        }
    }
}

pub open spec fn month_tris(s: Seq<(u32, MonthSummary)>) -> Seq<Tri> {
    s.map_values(|p: (u32, MonthSummary)| p.1.tri())
}

/// How folding one entry reshapes a month map: the month of `k` absorbs
/// the entry, a new well-formed month holding only it appears at the end
/// when `k` is new, and every other pair stands untouched.
pub open spec fn month_map_folded(
    old_m: Seq<(u32, MonthSummary)>,
    new_m: Seq<(u32, MonthSummary)>,
    k: u32,
    e: Entry,
) -> bool {
    let i = u32_key_index(old_m, k);
    if i < old_m.len() {
        &&& new_m.len() == old_m.len()
        &&& (forall|j: int| 0 <= j < old_m.len() && j != i ==> new_m[j] == old_m[j])
        &&& new_m[i].0 == k
        &&& new_m[i].1.wf()
        &&& new_m[i].1.tri() == tri_plus(old_m[i].1.tri(), tri_of_entry(e@))
        &&& entry_views(new_m[i].1.entries@) == entry_views(old_m[i].1.entries@).push(e@)
    } else {
        &&& new_m.len() == old_m.len() + 1
        &&& (forall|j: int| 0 <= j < old_m.len() ==> new_m[j] == old_m[j])
        &&& new_m[i].0 == k
        &&& new_m[i].1.wf()
        &&& new_m[i].1.tri() == tri_of_entry(e@)
        &&& entry_views(new_m[i].1.entries@) == seq![e@]
    }
}

/// The per-year accumulator: the entries it has seen, its month
/// summaries, and its own category and epic rollups.
#[derive(Debug)]
pub struct YearSummary {
    pub year: i32,
    pub entries: Vec<Entry>,
    pub months: Vec<(u32, MonthSummary)>,
    pub categories: Vec<(String, CategorySummary)>,
    pub epics: Vec<(String, EpicSummary)>,
    pub revenue: i128,
    pub expense: i128,
    pub balance: i128,
}

impl YearSummary {
    pub open spec fn tri(self) -> Tri {
        Tri { r: self.revenue as int, e: self.expense as int, b: self.balance as int }
    }

    /// The year's sums equal the fold of its entries; so do the sums of
    /// its month map and of its category and epic rollups; every month
    /// bucket is itself well formed.
    pub open spec fn wf(self) -> bool {
        let n = self.entries@.len() as int;
        let t = sum_tris(entry_tris(self.entries@));
        &&& forall|k: int| 0 <= k < n ==> (#[trigger] self.entries@[k]).wf()
        &&& self.tri() == t
        &&& sum_tris(month_tris(self.months@)) == t
        &&& sum_tris(cat_tris(self.categories@)) == t
        &&& sum_tris(epic_tris(self.epics@)) == t
        &&& forall|i: int| 0 <= i < self.months@.len() ==> (#[trigger] self.months@[i]).1.wf()
        &&& forall|i: int|
            0 <= i < self.categories@.len() ==> tri_bounded(
                (#[trigger] self.categories@[i]).1.tri(),
                n,
            )
        &&& forall|i: int|
            0 <= i < self.epics@.len() ==> tri_bounded((#[trigger] self.epics@[i]).1.tri(), n)
    }

    pub fn new(year: i32) -> (s: YearSummary)
        ensures
            s.wf(),
            s.year == year,
            s.tri() == tri_zero(),
            s.entries@.len() == 0,
            s.months@.len() == 0,
            s.categories@.len() == 0,
            s.epics@.len() == 0,
    {
        let s = YearSummary {
            year,
            entries: Vec::new(),
            months: Vec::new(),
            categories: Vec::new(),
            epics: Vec::new(),
            revenue: 0,
            expense: 0,
            balance: 0,
        };
        proof {
            assert(entry_tris(s.entries@) =~= Seq::<Tri>::empty());
            assert(month_tris(s.months@) =~= Seq::<Tri>::empty());
            assert(cat_tris(s.categories@) =~= Seq::<Tri>::empty());
            assert(epic_tris(s.epics@) =~= Seq::<Tri>::empty());
        }
        s
    }

    /// Folds one entry into the year: its sums, the summary of the
    /// entry's month, and the year's category and epic rollups. A
    /// category created here carries the category string as its name.
    #[verifier::rlimit(100)]
    pub fn add(&mut self, e: &Entry)
        requires
            e.wf(),
            old(self).wf(),
        ensures
            final(self).wf(),
            final(self).year == old(self).year,
            final(self).tri() == tri_plus(old(self).tri(), tri_of_entry(e@)),
            entry_views(final(self).entries@) == entry_views(old(self).entries@).push(e@),
            month_map_folded(
                old(self).months@,
                final(self).months@,
                e.date.spec_month() as u32,
                *e,
            ),
            cat_map_folded(
                old(self).categories@,
                final(self).categories@,
                e@.category,
                tri_of_entry(e@),
                e@.category,
            ),
            epic_map_folded(old(self).epics@, final(self).epics@, e@.epic, tri_of_entry(e@)),
    {
        let ghost n = self.entries@.len() as int;
        proof {
            lemma_len_in_range(&self.entries);
            year_sum_bound_prep(*self);
            lemma_room_for_one(self.tri());
        }
        self.revenue = self.revenue + e.revenue as i128;
        self.expense = self.expense + e.expense as i128;
        self.balance = self.balance + e.balance as i128;
        self.entries.push(e.duplicate());
        proof {
            assert(entry_views(self.entries@) =~= entry_views(old(self).entries@).push(e@));
            assert(entry_tris(self.entries@) =~= entry_tris(old(self).entries@).push(
                tri_of_entry(e@),
            ));
            lemma_sum_tris_push(entry_tris(old(self).entries@), tri_of_entry(e@));
        }
        // Month bucket
        let mkey = e.date.month();
        let mi = find_u32(&self.months, mkey);
        if mi < self.months.len() {
            let ghost before = self.months@;
            let (k, mut ms) = self.months.remove(mi);
            ms.add(e);
            self.months.insert(mi, (k, ms));
            proof {
                assert(self.months@ =~= before.update(mi as int, self.months@[mi as int]));
                assert(month_tris(self.months@) =~= month_tris(before).update(
                    mi as int,
                    ms.tri(),
                ));
                lemma_sum_tris_update(month_tris(before), mi as int, ms.tri());
            }
        } else {
            let mut ms = MonthSummary::new();
            ms.add(e);
            self.months.push((mkey, ms));
            proof {
                assert(month_tris(self.months@) =~= month_tris(old(self).months@).push(ms.tri()));
                lemma_sum_tris_push(month_tris(old(self).months@), ms.tri());
                assert(entry_views(ms.entries@) =~= seq![e@]);
            }
        }
        // Category rollup
        let ckey = e.category();
        let ci = find_str(&self.categories, &ckey);
        if ci < self.categories.len() {
            let ghost before = self.categories@;
            let (k, mut cs) = self.categories.remove(ci);
            proof {
                lemma_widen(cs.tri(), n);
            }
            cs.add(e);
            self.categories.insert(ci, (k, cs));
            proof {
                assert(self.categories@ =~= before.update(ci as int, self.categories@[ci as int]));
                assert(cat_tris(self.categories@) =~= cat_tris(before).update(
                    ci as int,
                    cs.tri(),
                ));
                lemma_sum_tris_update(cat_tris(before), ci as int, cs.tri());
            }
        } else {
            let mut cs = CategorySummary::new();
            cs.name = e.category();
            cs.add(e);
            self.categories.push((ckey, cs));
            proof {
                assert(cat_tris(self.categories@) =~= cat_tris(old(self).categories@).push(
                    cs.tri(),
                ));
                lemma_sum_tris_push(cat_tris(old(self).categories@), cs.tri());
            }
        }
        // Epic rollup
        let ekey = e.epic();
        let ei = find_str(&self.epics, &ekey);
        if ei < self.epics.len() {
            let ghost before = self.epics@;
            let (k, mut es) = self.epics.remove(ei);
            proof {
                lemma_widen(es.tri(), n);
            }
            es.add(e);
            self.epics.insert(ei, (k, es));
            proof {
                assert(self.epics@ =~= before.update(ei as int, self.epics@[ei as int]));
                assert(epic_tris(self.epics@) =~= epic_tris(before).update(ei as int, es.tri()));
                lemma_sum_tris_update(epic_tris(before), ei as int, es.tri());
            }
        } else {
            let mut es = EpicSummary::new();
            es.add(e);
            self.epics.push((ekey, es));
            proof {
                assert(epic_tris(self.epics@) =~= epic_tris(old(self).epics@).push(es.tri()));
                lemma_sum_tris_push(epic_tris(old(self).epics@), es.tri());
            }
        }
    }
}

pub open spec fn year_tris(s: Seq<(i32, YearSummary)>) -> Seq<Tri> {
    s.map_values(|p: (i32, YearSummary)| p.1.tri())
}

/// How folding one entry reshapes the year map.
pub open spec fn year_map_folded(
    old_m: Seq<(i32, YearSummary)>,
    new_m: Seq<(i32, YearSummary)>,
    k: i32,
    e: Entry,
) -> bool {
    let i = i32_key_index(old_m, k);
    if i < old_m.len() {
        &&& new_m.len() == old_m.len()
        &&& (forall|j: int| 0 <= j < old_m.len() && j != i ==> new_m[j] == old_m[j])
        &&& new_m[i].0 == k
        &&& new_m[i].1.wf()
        &&& new_m[i].1.tri() == tri_plus(old_m[i].1.tri(), tri_of_entry(e@))
        &&& entry_views(new_m[i].1.entries@) == entry_views(old_m[i].1.entries@).push(e@)
    } else {
        &&& new_m.len() == old_m.len() + 1
        &&& (forall|j: int| 0 <= j < old_m.len() ==> new_m[j] == old_m[j])
        &&& new_m[i].0 == k
        &&& new_m[i].1.wf()
        &&& new_m[i].1.year == k
        &&& new_m[i].1.tri() == tri_of_entry(e@)
        &&& entry_views(new_m[i].1.entries@) == seq![e@]
    }
}

/// The absolute balances of a category map, summed.
pub open spec fn abs_sum_cats(s: Seq<(String, CategorySummary)>) -> int
    decreases s.len(),
{
    if s.len() == 0 {
        0
    } else {
        abs_sum_cats(s.drop_last()) + abs_i(s.last().1.balance as int)
    }
}

pub proof fn lemma_abs_sum_push(s: Seq<(String, CategorySummary)>, p: (String, CategorySummary))
    ensures
        abs_sum_cats(s.push(p)) == abs_sum_cats(s) + abs_i(p.1.balance as int),
{
    assert(s.push(p).drop_last() =~= s);
    assert(s.push(p).last() == p);
}

pub proof fn lemma_abs_sum_update(
    s: Seq<(String, CategorySummary)>,
    i: int,
    p: (String, CategorySummary),
)
    requires
        0 <= i < s.len(),
    ensures
        abs_sum_cats(s.update(i, p)) == abs_sum_cats(s) - abs_i(s[i].1.balance as int) + abs_i(
            p.1.balance as int,
        ),
    decreases s.len(),
{
    if i == s.len() - 1 {
        assert(s.update(i, p).drop_last() =~= s.drop_last());
        assert(s.update(i, p).last() == p);
    } else {
        assert(s.update(i, p).drop_last() =~= s.drop_last().update(i, p));
        assert(s.update(i, p).last() == s.last());
        lemma_abs_sum_update(s.drop_last(), i, p);
    }
}

pub proof fn lemma_abs_sum_nonneg(s: Seq<(String, CategorySummary)>)
    ensures
        0 <= abs_sum_cats(s),
    decreases s.len(),
{
    if s.len() > 0 {
        lemma_abs_sum_nonneg(s.drop_last());
    }
}

/// No single category's absolute balance exceeds the total volume.
pub proof fn lemma_abs_sum_elem(s: Seq<(String, CategorySummary)>, i: int)
    requires
        0 <= i < s.len(),
    ensures
        abs_i(s[i].1.balance as int) <= abs_sum_cats(s),
    decreases s.len(),
{
    lemma_abs_sum_nonneg(s.drop_last());
    if i < s.len() - 1 {
        lemma_abs_sum_elem(s.drop_last(), i);
    }
}

/// The whole filtered result: the surviving entries and every rollup.
#[derive(Debug)]
pub struct FilterResult {
    pub entries: Vec<Entry>,
    pub years: Vec<(i32, YearSummary)>,
    pub categories: Vec<(String, CategorySummary)>,
    pub epics: Vec<(String, EpicSummary)>,
    pub revenue: i128,
    pub expense: i128,
    pub balance: i128,
}

impl FilterResult {
    pub open spec fn tri(self) -> Tri {
        Tri { r: self.revenue as int, e: self.expense as int, b: self.balance as int }
    }

    /// The global sums equal the fold of all entries; so do the sums of
    /// the year map and of the top-level category and epic rollups; every
    /// year is itself well formed and keyed by its own year number; and
    /// the category volume stays within range.
    pub open spec fn wf(self) -> bool {
        let n = self.entries@.len() as int;
        let t = sum_tris(entry_tris(self.entries@));
        &&& forall|k: int| 0 <= k < n ==> (#[trigger] self.entries@[k]).wf()
        &&& self.tri() == t
        &&& sum_tris(year_tris(self.years@)) == t
        &&& sum_tris(cat_tris(self.categories@)) == t
        &&& sum_tris(epic_tris(self.epics@)) == t
        &&& forall|i: int|
            0 <= i < self.years@.len() ==> (#[trigger] self.years@[i]).1.wf()
                && self.years@[i].1.year == self.years@[i].0
        &&& forall|i: int|
            0 <= i < self.categories@.len() ==> tri_bounded(
                (#[trigger] self.categories@[i]).1.tri(),
                n,
            )
        &&& forall|i: int|
            0 <= i < self.epics@.len() ==> tri_bounded((#[trigger] self.epics@[i]).1.tri(), n)
        &&& abs_sum_cats(self.categories@) <= n * (AMOUNT_LIMIT as int)
    }

    pub fn new() -> (s: FilterResult)
        ensures
            s.wf(),
            s.tri() == tri_zero(),
            s.entries@.len() == 0,
            s.years@.len() == 0,
            s.categories@.len() == 0,
            s.epics@.len() == 0,
    {
        let s = FilterResult {
            entries: Vec::new(),
            years: Vec::new(),
            categories: Vec::new(),
            epics: Vec::new(),
            revenue: 0,
            expense: 0,
            balance: 0,
        };
        proof {
            assert(entry_tris(s.entries@) =~= Seq::<Tri>::empty());
            assert(year_tris(s.years@) =~= Seq::<Tri>::empty());
            assert(cat_tris(s.categories@) =~= Seq::<Tri>::empty());
            assert(epic_tris(s.epics@) =~= Seq::<Tri>::empty());
        }
        s
    }

    /// Folds one entry into the result: the global sums, the summary of
    /// the entry's year, and the top-level category and epic rollups.
    #[verifier::rlimit(100)]
    pub fn add(&mut self, entry: Entry)
        requires
            entry.wf(),
            old(self).wf(),
        ensures
            final(self).wf(),
            final(self).tri() == tri_plus(old(self).tri(), tri_of_entry(entry@)),
            entry_views(final(self).entries@) == entry_views(old(self).entries@).push(entry@),
            year_map_folded(
                old(self).years@,
                final(self).years@,
                entry.date.spec_year() as i32,
                entry,
            ),
            cat_map_folded(
                old(self).categories@,
                final(self).categories@,
                entry@.category,
                tri_of_entry(entry@),
                entry@.category,
            ),
            epic_map_folded(old(self).epics@, final(self).epics@, entry@.epic, tri_of_entry(entry@)),
    {
        let e = &entry;
        let ghost n = self.entries@.len() as int;
        proof {
            lemma_len_in_range(&self.entries);
            filter_sum_bound_prep(*self);
            lemma_room_for_one(self.tri());
        }
        self.revenue = self.revenue + e.revenue as i128;
        self.expense = self.expense + e.expense as i128;
        self.balance = self.balance + e.balance as i128;
        self.entries.push(e.duplicate());
        proof {
            assert(entry_views(self.entries@) =~= entry_views(old(self).entries@).push(e@));
            assert(entry_tris(self.entries@) =~= entry_tris(old(self).entries@).push(
                tri_of_entry(e@),
            ));
            lemma_sum_tris_push(entry_tris(old(self).entries@), tri_of_entry(e@));
        }
        // Year bucket
        let ykey = e.date.year();
        let yi = find_i32(&self.years, ykey);
        if yi < self.years.len() {
            let ghost before = self.years@;
            let (k, mut ys) = self.years.remove(yi);
            ys.add(e);
            self.years.insert(yi, (k, ys));
            proof {
                assert(self.years@ =~= before.update(yi as int, self.years@[yi as int]));
                assert(year_tris(self.years@) =~= year_tris(before).update(yi as int, ys.tri()));
                lemma_sum_tris_update(year_tris(before), yi as int, ys.tri());
            }
        } else {
            let mut ys = YearSummary::new(ykey);
            ys.add(e);
            self.years.push((ykey, ys));
            proof {
                assert(year_tris(self.years@) =~= year_tris(old(self).years@).push(ys.tri()));
                lemma_sum_tris_push(year_tris(old(self).years@), ys.tri());
                assert(entry_views(ys.entries@) =~= seq![e@]);
            }
        }
        // Category rollup
        let ckey = e.category();
        let ci = find_str(&self.categories, &ckey);
        if ci < self.categories.len() {
            let ghost before = self.categories@;
            let (k, mut cs) = self.categories.remove(ci);
            let ghost oldabs = abs_i(cs.balance as int);
            proof {
                lemma_widen(cs.tri(), n);
            }
            cs.add(e);
            self.categories.insert(ci, (k, cs));
            proof {
                assert(self.categories@ =~= before.update(ci as int, self.categories@[ci as int]));
                assert(cat_tris(self.categories@) =~= cat_tris(before).update(
                    ci as int,
                    cs.tri(),
                ));
                lemma_sum_tris_update(cat_tris(before), ci as int, cs.tri());
                lemma_abs_sum_update(before, ci as int, self.categories@[ci as int]);
            }
        } else {
            let mut cs = CategorySummary::new();
            cs.name = e.category();
            cs.add(e);
            self.categories.push((ckey, cs));
            proof {
                assert(cat_tris(self.categories@) =~= cat_tris(old(self).categories@).push(
                    cs.tri(),
                ));
                lemma_sum_tris_push(cat_tris(old(self).categories@), cs.tri());
                lemma_abs_sum_push(
                    old(self).categories@,
                    self.categories@[self.categories@.len() - 1],
                );
            }
        }
        // Epic rollup
        let ekey = e.epic();
        let ei = find_str(&self.epics, &ekey);
        if ei < self.epics.len() {
            let ghost before = self.epics@;
            let (k, mut es) = self.epics.remove(ei);
            proof {
                lemma_widen(es.tri(), n);
            }
            es.add(e);
            self.epics.insert(ei, (k, es));
            proof {
                assert(self.epics@ =~= before.update(ei as int, self.epics@[ei as int]));
                assert(epic_tris(self.epics@) =~= epic_tris(before).update(ei as int, es.tri()));
                lemma_sum_tris_update(epic_tris(before), ei as int, es.tri());
            }
        } else {
            let mut es = EpicSummary::new();
            es.add(e);
            self.epics.push((ekey, es));
            proof {
                assert(epic_tris(self.epics@) =~= epic_tris(old(self).epics@).push(es.tri()));
                lemma_sum_tris_push(epic_tris(old(self).epics@), es.tri());
            }
        }
    }
}

pub proof fn lemma_abs_sum_take(s: Seq<(String, CategorySummary)>, i: int)
    requires
        0 <= i <= s.len(),
    ensures
        0 <= abs_sum_cats(s.take(i)) <= abs_sum_cats(s),
    decreases s.len() - i,
{
    lemma_abs_sum_nonneg(s.take(i));
    if i == s.len() {
        assert(s.take(i) =~= s);
    } else {
        assert(s.take(i + 1).drop_last() =~= s.take(i));
        assert(s.take(i + 1).last() == s[i]);
        lemma_abs_sum_take(s, i + 1);
    }
}

/// Two category maps with the same balances have the same volume.
proof fn lemma_abs_sum_congruent(s1: Seq<(String, CategorySummary)>, s2: Seq<(String, CategorySummary)>)
    requires
        s1.len() == s2.len(),
        forall|i: int| 0 <= i < s1.len() ==> (#[trigger] s1[i]).1.balance == s2[i].1.balance,
    ensures
        abs_sum_cats(s1) == abs_sum_cats(s2),
    decreases s1.len(),
{
    if s1.len() > 0 {
        lemma_abs_sum_congruent(s1.drop_last(), s2.drop_last());
        assert(s1.last() == s1[s1.len() - 1]);
        assert(s2.last() == s2[s2.len() - 1]);
    }
}

/// What the finalization pass does to the category map: keys, names and
/// sums stand; each percentage becomes the category's share of `total`.
pub open spec fn cats_finalized(
    old_c: Seq<(String, CategorySummary)>,
    new_c: Seq<(String, CategorySummary)>,
    total: int,
) -> bool {
    &&& new_c.len() == old_c.len()
    &&& forall|i: int|
        0 <= i < old_c.len() ==> (#[trigger] new_c[i]).0 == old_c[i].0 && new_c[i].1.name
            == old_c[i].1.name && new_c[i].1.tri() == old_c[i].1.tri() && new_c[i].1.balance_percent
            as int == abs_i(old_c[i].1.balance as int) * 10000 / total
}

impl FilterResult {
    /// The finalization pass: computes the total category volume, the sum
    /// of the absolute category balances, and gives each category its
    /// share of it in hundredths of a percent, rounded down. With zero
    /// volume there is no share to compute and nothing changes.
    #[verifier::rlimit(100)]
    pub fn post_calc(&mut self)
        requires
            old(self).wf(),
        ensures
            final(self).wf(),
            abs_sum_cats(old(self).categories@) == 0 ==> *final(self) == *old(self),
            abs_sum_cats(old(self).categories@) != 0 ==> ({
                &&& final(self).entries@ == old(self).entries@
                &&& final(self).years@ == old(self).years@
                &&& final(self).epics@ == old(self).epics@
                &&& final(self).revenue == old(self).revenue
                &&& final(self).expense == old(self).expense
                &&& final(self).balance == old(self).balance
                &&& cats_finalized(
                    old(self).categories@,
                    final(self).categories@,
                    abs_sum_cats(old(self).categories@),
                )
            }),
    {
        let ghost cats = self.categories@;
        let ghost n = self.entries@.len() as int;
        proof {
            lemma_len_in_range(&self.entries);
            lemma_abs_sum_nonneg(cats);
        }
        let mut total: u128 = 0;
        let mut i: usize = 0;
        proof {
            assert(cats.take(0) =~= Seq::<(String, CategorySummary)>::empty());
        }
        while i < self.categories.len()
            invariant
                0 <= i <= cats.len(),
                self == old(self),
                cats == self.categories@,
                old(self).wf(),
                n == old(self).entries@.len(),
                0 <= n <= usize::MAX as int,
                total as int == abs_sum_cats(cats.take(i as int)),
            decreases cats.len() - i,
        {
            proof {
                lemma_abs_sum_take(cats, i as int + 1);
                assert(cats.take(i as int + 1).drop_last() =~= cats.take(i as int));
                assert(cats.take(i as int + 1).last() == cats[i as int]);
                assert(tri_bounded(cats[i as int].1.tri(), n));
                assert(abs_sum_cats(cats) <= n * (AMOUNT_LIMIT as int));
                assert((usize::MAX as int) * (AMOUNT_LIMIT as int) * 10000 < u128::MAX) by (nonlinear_arith);
                assert(n * (AMOUNT_LIMIT as int) <= (usize::MAX as int) * (AMOUNT_LIMIT as int))
                    by (nonlinear_arith)
                    requires
                        0 <= n <= usize::MAX as int,
                ;
            }
            let b = self.categories[i].1.balance;
            let v: u128 = if b < 0 {
                (-b) as u128
            } else {
                b as u128
            };
            total = total + v;
            i = i + 1;
        }
        proof {
            assert(cats.take(cats.len() as int) =~= cats);
        }
        if total == 0 {
            return ;
        }
        let mut i: usize = 0;
        while i < self.categories.len()
            invariant
                0 <= i <= cats.len(),
                old(self).wf(),
                cats == old(self).categories@,
                n == old(self).entries@.len(),
                0 <= n <= usize::MAX as int,
                total as int == abs_sum_cats(cats),
                total > 0,
                self.entries == old(self).entries,
                self.years == old(self).years,
                self.epics == old(self).epics,
                self.revenue == old(self).revenue,
                self.expense == old(self).expense,
                self.balance == old(self).balance,
                self.categories@.len() == cats.len(),
                forall|j: int| i <= j < cats.len() ==> self.categories@[j] == cats[j],
                forall|j: int|
                    0 <= j < i ==> ((#[trigger] self.categories@[j]).0 == cats[j].0
                        && self.categories@[j].1.name == cats[j].1.name
                        && self.categories@[j].1.tri() == cats[j].1.tri()
                        && self.categories@[j].1.balance_percent as int == abs_i(
                        cats[j].1.balance as int,
                    ) * 10000 / (total as int)),
            decreases cats.len() - i,
        {
            let ghost before = self.categories@;
            let (k, mut cs) = self.categories.remove(i);
            proof {
                assert(before[i as int] == cats[i as int]);
                lemma_abs_sum_elem(cats, i as int);
                assert(old(self).wf());
                assert(tri_bounded(cats[i as int].1.tri(), n));
                assert(abs_i(cs.balance as int) <= total as int);
            }
            let b = cs.balance;
            let v: u128 = if b < 0 {
                (-b) as u128
            } else {
                b as u128
            };
            proof {
                assert(v as int == abs_i(cs.balance as int));
                assert(v <= total);
                assert(total as int <= n * (AMOUNT_LIMIT as int));
                assert(n * (AMOUNT_LIMIT as int) <= (usize::MAX as int) * (AMOUNT_LIMIT as int))
                    by (nonlinear_arith)
                    requires
                        0 <= n <= usize::MAX as int,
                ;
                assert((usize::MAX as int) * (AMOUNT_LIMIT as int) * 10000 < u128::MAX) by (nonlinear_arith);
                assert(v * 10000 <= total * 10000) by (nonlinear_arith)
                    requires
                        v <= total,
                ;
            }
            let share: u128 = v * 10000 / total;
            proof {
                vstd::arithmetic::div_mod::lemma_div_is_ordered(
                    (v * 10000) as int,
                    (total * 10000) as int,
                    total as int,
                );
                assert((total as int) * 10000 / (total as int) == 10000) by (nonlinear_arith)
                    requires
                        total > 0,
                ;
                assert(share <= 10000);
            }
            cs.balance_percent = share as u64;
            self.categories.insert(i, (k, cs));
            proof {
                assert(self.categories@ =~= before.update(i as int, self.categories@[i as int]));
                assert(self.categories@[i as int].0 == cats[i as int].0);
                assert(self.categories@[i as int].1.name == cats[i as int].1.name);
                assert(self.categories@[i as int].1.tri() == cats[i as int].1.tri());
                assert(self.categories@[i as int].1.balance_percent as int == abs_i(
                    cats[i as int].1.balance as int,
                ) * 10000 / (total as int));
            }
            i = i + 1;
        }
        proof {
            assert(cats_finalized(cats, self.categories@, total as int));
            assert(cat_tris(self.categories@) =~= cat_tris(old(self).categories@));
            lemma_abs_sum_congruent(self.categories@, old(self).categories@);
            assert(entry_tris(self.entries@) == entry_tris(old(self).entries@));
            assert(year_tris(self.years@) == year_tris(old(self).years@));
            assert(epic_tris(self.epics@) == epic_tris(old(self).epics@));
        }
    }

    /// Builds the aggregation of a whole entry list: every entry folded
    /// in order, then the finalization pass. With any volume at all, every
    /// category carries its rounded-down share of the total volume; with
    /// none, every share is zero.
    pub fn from_entries(entries: Vec<Entry>) -> (r: FilterResult)
        requires
            forall|k: int| 0 <= k < entries@.len() ==> (#[trigger] entries@[k]).wf(),
        ensures
            r.wf(),
            entry_views(r.entries@) == entry_views(entries@),
            r.tri() == sum_tris(entry_tris(entries@)),
            percents_assigned(r.categories@),
    {
        let mut result = FilterResult::new();
        let mut i: usize = 0;
        proof {
            assert(entry_views(entries@.take(0)) =~= Seq::<EntryV>::empty());
            assert(entry_tris(entries@.take(0)) =~= Seq::<Tri>::empty());
            assert(entry_views(result.entries@) =~= Seq::<EntryV>::empty());
        }
        while i < entries.len()
            invariant
                0 <= i <= entries@.len(),
                forall|k: int| 0 <= k < entries@.len() ==> (#[trigger] entries@[k]).wf(),
                result.wf(),
                entry_views(result.entries@) == entry_views(entries@.take(i as int)),
                result.tri() == sum_tris(entry_tris(entries@.take(i as int))),
                forall|k: int|
                    0 <= k < result.categories@.len() ==> (#[trigger] result.categories@[k]).1.balance_percent == 0,
            decreases entries@.len() - i,
        {
            let ghost cats_before = result.categories@;
            result.add(entries[i].duplicate());
            proof {
                let ghost key = entries@[i as int]@.category;
                lemma_str_key_index_bound(cats_before, key);
                assert forall|k: int|
                    0 <= k < result.categories@.len() implies (#[trigger] result.categories@[k]).1.balance_percent
                    == 0 by {
                    let idx = str_key_index(cats_before, key);
                    if k < cats_before.len() && k != idx {
                        assert(result.categories@[k] == cats_before[k]);
                    }
                }
            }
            proof {
                assert(entries@.take(i as int + 1).drop_last() =~= entries@.take(i as int));
                assert(entries@.take(i as int + 1).last() == entries@[i as int]);
                assert(entry_views(entries@.take(i as int + 1)) =~= entry_views(
                    entries@.take(i as int),
                ).push(entries@[i as int]@));
                assert(entry_tris(entries@.take(i as int + 1)) =~= entry_tris(
                    entries@.take(i as int),
                ).push(tri_of_entry(entries@[i as int]@)));
                lemma_sum_tris_push(
                    entry_tris(entries@.take(i as int)),
                    tri_of_entry(entries@[i as int]@),
                );
            }
            i = i + 1;
        }
        proof {
            assert(entries@.take(entries@.len() as int) =~= entries@);
        }
        let ghost cats_pre = result.categories@;
        result.post_calc();
        proof {
            lemma_abs_sum_nonneg(cats_pre);
            if abs_sum_cats(cats_pre) == 0 {
                assert(result.categories@ == cats_pre);
            } else {
                assert(cats_finalized(cats_pre, result.categories@, abs_sum_cats(cats_pre)));
                lemma_abs_sum_congruent(result.categories@, cats_pre);
            }
        }
        result
    }
}

/// Every category holds its rounded-down share of the total volume, in
/// hundredths of a percent; with no volume at all, every share is zero.
pub open spec fn percents_assigned(cats: Seq<(String, CategorySummary)>) -> bool {
    if abs_sum_cats(cats) == 0 {
        forall|i: int| 0 <= i < cats.len() ==> (#[trigger] cats[i]).1.balance_percent == 0
    } else {
        forall|i: int|
            0 <= i < cats.len() ==> (#[trigger] cats[i]).1.balance_percent as int == abs_i(
                cats[i].1.balance as int,
            ) * 10000 / abs_sum_cats(cats)
    }
}

/// The hierarchy of sums closes at every level: the global sums equal the
/// fold of all entries and the sum over the years; each year's sums equal
/// the sum over its months; each month's sums equal the sum over its
/// days; and the category and epic rollups close against the same totals.
pub proof fn lemma_hierarchy_sums(fr: FilterResult)
    requires
        fr.wf(),
    ensures
        fr.tri() == sum_tris(entry_tris(fr.entries@)),
        sum_tris(year_tris(fr.years@)) == fr.tri(),
        sum_tris(cat_tris(fr.categories@)) == fr.tri(),
        sum_tris(epic_tris(fr.epics@)) == fr.tri(),
        forall|i: int|
            0 <= i < fr.years@.len() ==> sum_tris(month_tris((#[trigger] fr.years@[i]).1.months@))
                == fr.years@[i].1.tri(),
        forall|i: int, j: int|
            0 <= i < fr.years@.len() && 0 <= j < fr.years@[i].1.months@.len() ==> sum_tris(
                day_tris((#[trigger] fr.years@[i].1.months@[j]).1.days@),
            ) == fr.years@[i].1.months@[j].1.tri(),
{
    assert forall|i: int|
        0 <= i < fr.years@.len() implies sum_tris(
        month_tris((#[trigger] fr.years@[i]).1.months@),
    ) == fr.years@[i].1.tri() by {
        assert(fr.years@[i].1.wf());
    }
    assert forall|i: int, j: int|
        0 <= i < fr.years@.len() && 0 <= j < fr.years@[i].1.months@.len() implies sum_tris(
        day_tris((#[trigger] fr.years@[i].1.months@[j]).1.days@),
    ) == fr.years@[i].1.months@[j].1.tri() by {
        assert(fr.years@[i].1.wf());
        assert(fr.years@[i].1.months@[j].1.wf());
    }
}

/// The balance percentages of a finalized category map, summed.
pub open spec fn sum_percents(s: Seq<(String, CategorySummary)>) -> int
    decreases s.len(),
{
    if s.len() == 0 {
        0
    } else {
        sum_percents(s.drop_last()) + s.last().1.balance_percent
    }
}

proof fn lemma_percent_window(s: Seq<(String, CategorySummary)>, total: int)
    requires
        total > 0,
        forall|i: int|
            0 <= i < s.len() ==> (#[trigger] s[i]).1.balance_percent as int == abs_i(
                s[i].1.balance as int,
            ) * 10000 / total,
    ensures
        total * sum_percents(s) <= abs_sum_cats(s) * 10000,
        s.len() > 0 ==> abs_sum_cats(s) * 10000 < total * sum_percents(s) + s.len() * total,
    decreases s.len(),
{
    if s.len() == 0 {
    } else {
        assert forall|i: int|
            0 <= i < s.drop_last().len() implies (#[trigger] s.drop_last()[i]).1.balance_percent
            as int == abs_i(s.drop_last()[i].1.balance as int) * 10000 / total by {
            assert(s.drop_last()[i] == s[i]);
        }
        lemma_percent_window(s.drop_last(), total);
        let x = abs_i(s.last().1.balance as int);
        let p = s.last().1.balance_percent as int;
        assert(s.last() == s[s.len() - 1]);
        assert(p == x * 10000 / total);
        vstd::arithmetic::div_mod::lemma_fundamental_div_mod(x * 10000, total);
        vstd::arithmetic::div_mod::lemma_mod_bound(x * 10000, total);
        assert(total * p <= x * 10000 < total * p + total);
        let ps = sum_percents(s.drop_last());
        let aps = abs_sum_cats(s.drop_last());
        assert(sum_percents(s) == ps + p);
        assert(abs_sum_cats(s) == aps + x);
        assert(total * sum_percents(s) == total * ps + total * p) by (nonlinear_arith)
            requires
                sum_percents(s) == ps + p,
        ;
        assert(abs_sum_cats(s) * 10000 == aps * 10000 + x * 10000) by (nonlinear_arith)
            requires
                abs_sum_cats(s) == aps + x,
        ;
        assert((s.len() as int) * total == (s.len() - 1) * total + total) by (nonlinear_arith)
            requires
                s.len() >= 1,
        ;
        assert(total * sum_percents(s) <= abs_sum_cats(s) * 10000);
        assert(abs_sum_cats(s) * 10000 < total * sum_percents(s) + (s.len() as int) * total);
    }
}

/// After the finalization pass, and with any balance at all, the category
/// percentages close to one hundred percent: their sum, in hundredths of
/// a percent, lies between `10000 - (k - 1)` and `10000` for `k`
/// categories, the slack being only what rounding down gives away.
pub proof fn lemma_percent_closure(s: Seq<(String, CategorySummary)>, total: int)
    requires
        total == abs_sum_cats(s),
        total > 0,
        percents_assigned(s),
    ensures
        s.len() >= 1,
        10000 - (s.len() - 1) <= sum_percents(s) <= 10000,
{
    lemma_percent_window(s, total);
    let p = sum_percents(s);
    assert(p <= 10000) by (nonlinear_arith)
        requires
            total > 0,
            total * p <= total * 10000,
    ;
    assert(10000 < p + s.len()) by (nonlinear_arith)
        requires
            total > 0,
            total * 10000 < total * p + s.len() * total,
    ;
}

/// The sums of a well-formed result are bounded by its entry count.
proof fn filter_sum_bound_prep(f: FilterResult)
    requires
        f.wf(),
    ensures
        tri_bounded(f.tri(), f.entries@.len() as int),
        tri_bounded(f.tri(), usize::MAX as int),
{
    assert forall|k: int|
        0 <= k < entry_tris(f.entries@).len() implies tri_bounded(
        #[trigger] entry_tris(f.entries@)[k],
        1,
    ) by {
        assert(f.entries@[k].wf());
    }
    lemma_sum_tris_bound(entry_tris(f.entries@));
    lemma_len_in_range(&f.entries);
    lemma_widen(f.tri(), f.entries@.len() as int);
}

/// The sums of a well-formed year are bounded by its entry count.
proof fn year_sum_bound_prep(y: YearSummary)
    requires
        y.wf(),
    ensures
        tri_bounded(y.tri(), y.entries@.len() as int),
        tri_bounded(y.tri(), usize::MAX as int),
{
    assert forall|k: int|
        0 <= k < entry_tris(y.entries@).len() implies tri_bounded(
        #[trigger] entry_tris(y.entries@)[k],
        1,
    ) by {
        assert(y.entries@[k].wf());
    }
    lemma_sum_tris_bound(entry_tris(y.entries@));
    lemma_len_in_range(&y.entries);
    lemma_widen(y.tri(), y.entries@.len() as int);
}

/// The sums of a well-formed month are bounded by its entry count.
proof fn sum_bound_prep(m: MonthSummary)
    requires
        m.wf(),
    ensures
        tri_bounded(m.tri(), m.entries@.len() as int),
        tri_bounded(m.tri(), usize::MAX as int),
{
    assert forall|k: int|
        0 <= k < entry_tris(m.entries@).len() implies tri_bounded(
        #[trigger] entry_tris(m.entries@)[k],
        1,
    ) by {
        assert(m.entries@[k].wf());
    }
    lemma_sum_tris_bound(entry_tris(m.entries@));
    lemma_len_in_range(&m.entries);
    lemma_widen(m.tri(), m.entries@.len() as int);
}

/// A vector never holds more elements than a machine word can count.
proof fn lemma_len_in_range<T>(v: &Vec<T>)
    ensures
        v@.len() <= usize::MAX,
{
    broadcast use vstd::std_specs::vec::axiom_spec_len;

    assert(vstd::std_specs::vec::spec_vec_len(v) == v@.len());
}

/// A triple bounded by `n` limits is bounded by any larger count, and in
/// particular by the largest vector length.
proof fn lemma_widen(t: Tri, n: int)
    requires
        tri_bounded(t, n),
        0 <= n <= usize::MAX as int,
    ensures
        tri_bounded(t, usize::MAX as int),
        forall|m: int| n <= m ==> tri_bounded(t, m),
{
    assert forall|m: int| n <= m implies tri_bounded(t, m) by {
        assert(n * (AMOUNT_LIMIT as int) <= m * (AMOUNT_LIMIT as int)) by (nonlinear_arith)
            requires
                n <= m,
        ;
    }
}

/// One more in-range amount never overflows a bounded 128-bit sum.
proof fn lemma_room_for_one(t: Tri)
    requires
        tri_bounded(t, usize::MAX as int),
    ensures
        i128::MIN < t.r + AMOUNT_LIMIT < i128::MAX,
        i128::MIN < t.r - AMOUNT_LIMIT < i128::MAX,
        i128::MIN < t.e + AMOUNT_LIMIT < i128::MAX,
        i128::MIN < t.e - AMOUNT_LIMIT < i128::MAX,
        i128::MIN < t.b + AMOUNT_LIMIT < i128::MAX,
        i128::MIN < t.b - AMOUNT_LIMIT < i128::MAX,
{
    assert((usize::MAX as int) * (AMOUNT_LIMIT as int) + AMOUNT_LIMIT < i128::MAX) by (nonlinear_arith);
}

} // verus!
