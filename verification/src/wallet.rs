//! The ledger: the directory layout under a base path, the add and filter
//! operations over the three file kinds, and the in-memory predicate the
//! filter applies. Opening, reading and writing the files themselves is
//! the caller's side; the decisions between those steps live here.

use vstd::prelude::*;
use crate::date::{date_eq, rym_spec, Date};
use crate::decimal::dec_digits;
use crate::entry::Entry;
use crate::epic::Epic;
use crate::store::{days_folded, EpicsFile, IndexFile, MonthFile};
use crate::summary::{entry_tris, entry_views, sum_tris, tri_of_entry, FilterResult};

verus! {

/// The outcome of adding an entry: refused because the id is already
/// registered, or added into a month file of this name.
pub struct AddedResult {
    pub month_file_name: String,
}

impl AddedResult {
    pub fn new() -> (r: AddedResult)
        ensures
            r.month_file_name@ == Seq::<char>::empty(),
    {
        AddedResult { month_file_name: String::new() }
    }
}

pub enum AddResult {
    ExistsInIndex,
    Added(AddedResult),
}

impl AddResult {
    /// The display form of the outcome: `Yes` when something was added.
    pub fn to_display_string(&self) -> (r: String)
        ensures
            self matches AddResult::Added(_) ==> r@ == "Yes"@,
            self is ExistsInIndex ==> r@ == "No"@,
    {
        match self {
            AddResult::Added(_) => String::from_str("Yes"),
            AddResult::ExistsInIndex => String::from_str("No"),
        }
    }
}

/// The filters a listing applies; every present condition must hold.
#[derive(Debug)]
pub struct FilterOptions {
    pub date: Option<Date>,
    pub filter_revenue: Option<bool>,
    pub filter_expense: Option<bool>,
    pub category: Option<String>,
    pub epic: Option<String>,
}

impl FilterOptions {
    pub fn new() -> (o: FilterOptions)
        ensures
            (o.date is None),
            (o.filter_revenue is None),
            (o.filter_expense is None),
            (o.category is None),
            (o.epic is None),
    {
        FilterOptions {
            date: None,
            filter_revenue: None,
            filter_expense: None,
            category: None,
            epic: None,
        }
    }
}

/// The date condition, at the granularity the filter date gives: with a
/// day present the resolved dates must be equal; with a month present the
/// resolved year and month must agree; with only a year present the year
/// must agree; a date with no part present matches nothing.
pub open spec fn date_matches(od: Date, ed: Date) -> bool {
    if od.used_d {
        date_eq(od, ed)
    } else if od.used_m {
        od.year == ed.year && od.month == ed.month
    } else if od.used_y {
        od.year == ed.year
    } else {
        false
    }
}

/// The whole in-memory predicate, all present conditions conjoined.
pub open spec fn matches_filter(o: FilterOptions, e: Entry) -> bool {
    &&& (match o.date {
        Some(od) => date_matches(od, e.date),
        None => true,
    })
    &&& (match o.filter_revenue {
        Some(fr) => !fr || e.revenue > 0,
        None => true,
    })
    &&& (match o.filter_expense {
        Some(fx) => !fx || e.expense < 0,
        None => true,
    })
    &&& (match o.category {
        Some(c) => e.category@ == c@,
        None => true,
    })
    &&& (match o.epic {
        Some(x) => e.epic@ == x@,
        None => true,
    })
}

/// Decides the in-memory predicate for one candidate entry.
pub fn entry_matches(options: &FilterOptions, e: &Entry) -> (r: bool)
    ensures
        r == matches_filter(*options, *e),
{
    if let Some(od) = &options.date {
        let ed = e.date;
        if od.has_day() {
            if !od.eq(&ed) {
                return false;
            }
        } else if od.has_month() {
            if !(od.year() == ed.year && od.month() == ed.month) {
                return false;
            }
        } else if od.has_year() {
            if od.year() != ed.year {
                return false;
            }
        } else {
            return false;
        }
    }
    if let Some(fr) = options.filter_revenue {
        if fr && !e.has_revenue() {
            return false;
        }
    }
    if let Some(fx) = options.filter_expense {
        if fx && !e.has_expense() {
            return false;
        }
    }
    if let Some(c) = &options.category {
        if !e.category.eq(c) {
            return false;
        }
    }
    if let Some(x) = &options.epic {
        if !e.epic.eq(x) {
            return false;
        }
    }
    true
}

/// The subsequence of `s` that survives the filter, in order.
pub open spec fn filtered(o: FilterOptions, s: Seq<Entry>) -> Seq<Entry>
    decreases s.len(),
{
    if s.len() == 0 {
        Seq::empty()
    } else {
        let pre = filtered(o, s.drop_last());
        if matches_filter(o, s.last()) {
            pre.push(s.last())
        } else {
            pre
        }
    }
}

/// Applies the filter to a loaded entry list and folds the survivors into
/// a finalized aggregation.
pub fn filter_entries(options: &FilterOptions, entries: Vec<Entry>) -> (r: FilterResult)
    requires
        forall|k: int| 0 <= k < entries@.len() ==> (#[trigger] entries@[k]).wf(),
    ensures
        r.wf(),
        entry_views(r.entries@) == entry_views(filtered(*options, entries@)),
        r.tri() == sum_tris(entry_tris(filtered(*options, entries@))),
        crate::summary::percents_assigned(r.categories@),
{
    let mut picked: Vec<Entry> = Vec::new();
    let mut i: usize = 0;
    proof {
        assert(filtered(*options, entries@.take(0)) =~= Seq::<Entry>::empty());
    }
    while i < entries.len()
        invariant
            0 <= i <= entries@.len(),
            forall|k: int| 0 <= k < entries@.len() ==> (#[trigger] entries@[k]).wf(),
            entry_views(picked@) == entry_views(filtered(*options, entries@.take(i as int))),
            forall|k: int| 0 <= k < picked@.len() ==> (#[trigger] picked@[k]).wf(),
        decreases entries@.len() - i,
    {
        proof {
            assert(entries@.take(i as int + 1).drop_last() =~= entries@.take(i as int));
            assert(entries@.take(i as int + 1).last() == entries@[i as int]);
        }
        if entry_matches(options, &entries[i]) {
            picked.push(entries[i].duplicate());
            proof {
                let ghost pre = filtered(*options, entries@.take(i as int));
                assert(matches_filter(*options, entries@[i as int]));
                assert(filtered(*options, entries@.take(i as int + 1)) == pre.push(
                    entries@[i as int],
                ));
                assert(entry_views(picked@) =~= entry_views(pre).push(entries@[i as int]@));
                assert(entry_views(pre.push(entries@[i as int])) =~= entry_views(pre).push(
                    entries@[i as int]@,
                ));
            }
        } else {
            proof {
                assert(entry_views(picked@) =~= entry_views(
                    filtered(*options, entries@.take(i as int + 1)),
                ));
            }
        }
        i = i + 1;
    }
    proof {
        assert(entries@.take(entries@.len() as int) =~= entries@);
        let ghost fs = filtered(*options, entries@);
        assert(entry_views(picked@) == entry_views(fs));
        assert(picked@.len() == fs.len());
        assert forall|k: int| 0 <= k < picked@.len() implies tri_of_entry(
            (#[trigger] picked@[k])@,
        ) == tri_of_entry(fs[k]@) by {
            assert(entry_views(picked@)[k] == entry_views(fs)[k]);
        }
        assert(entry_tris(picked@) =~= entry_tris(fs));
    }
    FilterResult::from_entries(picked)
}

/// The name of the month file a date belongs to.
pub fn month_file_name(d: &Date) -> (r: String)
    requires
        d.wf(),
    ensures
        r@ == "month_"@ + rym_spec(*d) + ".yml"@,
{
    let mut s = String::from_str("month_");
    let m = d.rym();
    s.append(m.as_str());
    s.append(".yml");
    proof {
        assert(s@ =~= "month_"@ + rym_spec(*d) + ".yml"@);
    }
    s
}

/// The month-file glob fragment a filter date narrows the search to: an
/// exact year and month when both are present, the year and a wildcard
/// month when only the year is present, and everything otherwise.
pub open spec fn month_glob_spec(date: Option<Date>) -> Seq<char> {
    match date {
        Some(d) => if d.used_y && d.used_m {
            rym_spec(d)
        } else if d.used_y {
            dec_digits(d.year as nat) + seq!['_', '*']
        } else {
            seq!['*']
        },
        None => seq!['*'],
    }
}

/// Builds the glob fragment for the month files a filter must read.
pub fn month_glob_fragment(date: &Option<Date>) -> (r: String)
    requires
        date matches Some(d) ==> d.wf(),
    ensures
        r@ == month_glob_spec(*date),
{
    proof {
        reveal_strlit("*");
        reveal_strlit("_*");
    }
    match date {
        Some(d) => {
            if d.has_year() && d.has_month() {
                d.rym()
            } else if d.has_year() {
                let mut s = crate::decimal::u64_text(d.year() as u64);
                s.append("_*");
                proof {
                    assert(s@ =~= month_glob_spec(*date));
                }
                s
            } else {
                let s = String::from_str("*");
                proof {
                    assert(s@ =~= month_glob_spec(*date));
                }
                s
            }
        },
        None => {
            let s = String::from_str("*");
            proof {
                assert(s@ =~= month_glob_spec(*date));
            }
            s
        },
    }
}

/// The fixed directory layout of a ledger under its base path.
#[derive(Debug)]
pub struct Wallet {
    pub path: String,
    pub data_dir: String,
    pub html_dir: String,
    pub tmp_dir: String,
    pub index_file: String,
    pub epics_file: String,
}

impl Wallet {
    /// Lays the directory and file paths out under `path`. Creating the
    /// directories themselves is the caller's side.
    pub fn new(path: String) -> (w: Wallet)
        ensures
            w.path@ == path@,
            w.data_dir@ == path@ + "/data"@,
            w.html_dir@ == path@ + "/html"@,
            w.tmp_dir@ == path@ + "/tmp"@,
            w.index_file@ == path@ + "/data"@ + "/index.yml"@,
            w.epics_file@ == path@ + "/data"@ + "/epics.yml"@,
    {
        let mut data_dir = path.clone();
        data_dir.append("/data");
        let mut html_dir = path.clone();
        html_dir.append("/html");
        let mut tmp_dir = path.clone();
        tmp_dir.append("/tmp");
        let mut index_file = data_dir.clone();
        index_file.append("/index.yml");
        let mut epics_file = data_dir.clone();
        epics_file.append("/epics.yml");
        Wallet { path, data_dir, html_dir, tmp_dir, index_file, epics_file }
    }

    pub fn set_html_path(&mut self, path: String)
        ensures
            final(self).html_dir == path,
            final(self).path == old(self).path,
            final(self).data_dir == old(self).data_dir,
            final(self).tmp_dir == old(self).tmp_dir,
            final(self).index_file == old(self).index_file,
            final(self).epics_file == old(self).epics_file,
    {
        self.html_dir = path;
    }

    /// The full glob pattern for the month files a filter must read.
    pub fn month_glob(&self, date: &Option<Date>) -> (r: String)
        requires
            date matches Some(d) ==> d.wf(),
        ensures
            r@ == self.data_dir@ + "/month_"@ + month_glob_spec(*date) + ".yml"@,
    {
        let mut s = self.data_dir.clone();
        s.append("/month_");
        let frag = month_glob_fragment(date);
        s.append(frag.as_str());
        s.append(".yml");
        proof {
            assert(s@ =~= self.data_dir@ + "/month_"@ + month_glob_spec(*date) + ".yml"@);
        }
        s
    }
}

/// Adds one entry across the three opened files, as one ledger operation.
///
/// If the id is already registered and `force` is not set, the add is
/// refused and nothing changes. Otherwise the id is registered if new,
/// the entry's epic handle is given a default registry stub if unknown,
/// and the entry is appended to its month file's day bucket.
pub fn ledger_add(
    index: &mut IndexFile,
    epics: &mut EpicsFile,
    month: &mut MonthFile,
    entry: Entry,
    force: bool,
) -> (r: AddResult)
    requires
        entry.wf(),
        old(month).wf(),
    ensures
        old(index).ids_view().contains(entry@.id) && !force ==> {
            &&& r is ExistsInIndex
            &&& *final(index) == *old(index)
            &&& *final(epics) == *old(epics)
            &&& *final(month) == *old(month)
        },
        !(old(index).ids_view().contains(entry@.id) && !force) ==> {
            &&& (r matches AddResult::Added(ar) && ar.month_file_name@ == "month_"@ + rym_spec(
                entry.date,
            ) + ".yml"@)
            &&& (if old(index).ids_view().contains(entry@.id) {
                *final(index) == *old(index)
            } else {
                &&& final(index).ids_view() == old(index).ids_view().push(entry@.id)
                &&& final(index).changed
            })
            &&& (if old(epics).handles().contains(entry@.epic) {
                *final(epics) == *old(epics)
            } else {
                &&& final(epics).epics@.len() == old(epics).epics@.len() + 1
                &&& (forall|k: int|
                    0 <= k < old(epics).epics@.len() ==> final(epics).epics@[k] == old(
                        epics,
                    ).epics@[k])
                &&& final(epics).epics@.last()@.handle == entry@.epic
                &&& final(epics).epics@.last()@.title == "Default"@
                &&& final(epics).epics@.last()@.bgcolor == "#ffffff"@
                &&& final(epics).changed
            })
            &&& final(month).wf()
            &&& final(month).changed
            &&& days_folded(old(month).days@, final(month).days@, entry)
            &&& final(month).version == old(month).version
            &&& final(month).created_at == old(month).created_at
            &&& final(month).updated_at == old(month).updated_at
        },
{
    let id = entry.id();
    if index.contains(&id) {
        if !force {
            return AddResult::ExistsInIndex;
        }
    } else {
        index.add(id);
    }
    let handle = entry.epic();
    if !epics.contains(&handle) {
        let mut epic = Epic::new();
        epic.set_handle(entry.epic());
        epics.add(epic);
    }
    let name = month_file_name(&entry.date);
    month.add(entry);
    AddResult::Added(AddedResult { month_file_name: name })
}

/// Registers an epic unless its handle is already taken; says whether it
/// was registered.
pub fn ledger_add_epic(epics: &mut EpicsFile, epic: Epic) -> (r: bool)
    ensures
        r == !old(epics).handles().contains(epic@.handle),
        !r ==> *final(epics) == *old(epics),
        r ==> final(epics).epics@ == old(epics).epics@.push(epic) && final(epics).changed,
{
    let handle = epic.handle();
    if epics.contains(&handle) {
        false
    } else {
        epics.add(epic);
        true
    }
}

/// A register that has just taken an id holds it; together with the add
/// contract this is why adding the same entry twice without force is
/// refused the second time and leaves every file unchanged, so no
/// duplicate record can reach a day bucket.
pub proof fn lemma_registered_id_refuses(prior: Seq<Seq<char>>, ids: Seq<Seq<char>>, id: Seq<char>)
    requires
        ids == prior.push(id),
    ensures
        ids.contains(id),
{
    assert(ids[prior.len() as int] == id);
}

} // verus!
