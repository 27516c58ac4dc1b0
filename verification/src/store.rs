//! The flat-file store: three kinds of structured file with one lifecycle.
//! A handle is opened from a decoded document or synthesized as a fresh
//! skeleton, is mutated in memory while a dirty flag tracks changes, and
//! on close hands back the document to write only if something changed.
//! Reading and writing the surrounding text is the caller's concern.

use vstd::prelude::*;
use crate::entry::Entry;
use crate::epic::Epic;
use crate::node::{int_entry, is_str, map_get, node_get, str_entry, Node};
use crate::record::{
    entry_decodes, entry_from_record, entry_record_matches, entry_to_record, epic_decodes,
    epic_from_record, epic_record_matches, epic_to_record,
};

verus! {

/// Relies on chrono's `Utc::now` and `DateTime::format`: the current time
/// in an RFC 3339 style. The clock decides the text, so nothing is
/// promised of it.
#[verifier::external_body]
pub(crate) fn now_stamp() -> (r: String) {
    chrono::Utc::now().format("%FT%T%:z").to_string()
}

/// The string items of a node list, in order; items of other shapes are
/// passed over.
pub open spec fn strs_of(items: Seq<Node>) -> Seq<Seq<char>>
    decreases items.len(),
{
    if items.len() == 0 {
        Seq::empty()
    } else {
        match items[0] {
            Node::Str(s) => seq![s@] + strs_of(items.skip(1)),
            _ => strs_of(items.skip(1)),
        }
    }
}

/// The id list a decoded index document holds.
pub open spec fn index_ids_of(n: Node) -> Seq<Seq<char>> {
    match map_get(n, "index"@) {
        Some(Node::Arr(items)) => strs_of(items@),
        _ => Seq::empty(),
    }
}

/// The global id register: one flat list of entry ids, used to refuse
/// duplicate adds.
pub struct IndexFile {
    pub ids: Vec<String>,
    pub changed: bool,
}

impl IndexFile {
    /// The ids as mathematical strings.
    pub open spec fn ids_view(self) -> Seq<Seq<char>> {
        self.ids@.map_values(|s: String| s@)
    }

    /// The skeleton of a new index file; it is born dirty so that closing
    /// writes it out.
    pub fn skeleton() -> (f: IndexFile)
        ensures
            f.ids_view() == Seq::<Seq<char>>::empty(),
            f.changed,
    {
        let f = IndexFile { ids: Vec::new(), changed: true };
        proof {
            assert(f.ids_view() =~= Seq::<Seq<char>>::empty());
        }
        f
    }

    /// Decodes an index document; string items under `index` count, and a
    /// document of any other shape reads as empty.
    pub fn from_node(n: &Node) -> (f: IndexFile)
        ensures
            f.ids_view() == index_ids_of(*n),
            !f.changed,
    {
        let mut ids: Vec<String> = Vec::new();
        let key = String::from_str("index");
        if let Some(nd) = node_get(n, &key) {
            if let Node::Arr(items) = nd {
                let mut i: usize = 0;
                proof {
                    assert(items@.skip(0) =~= items@);
                }
                while i < items.len()
                    invariant
                        0 <= i <= items@.len(),
                        strs_of(items@) =~= ids@.map_values(|s: String| s@) + strs_of(
                            items@.skip(i as int),
                        ),
                    decreases items@.len() - i,
                {
                    proof {
                        assert(items@.skip(i as int)[0] == items@[i as int]);
                        assert(items@.skip(i as int).skip(1) =~= items@.skip(i as int + 1));
                    }
                    let ghost prev = ids@;
                    if let Node::Str(s) = &items[i] {
                        ids.push(s.clone());
                        proof {
                            assert(ids@.map_values(|s: String| s@) =~= prev.map_values(
                                |s: String| s@,
                            ) + seq![items@[i as int]->Str_0@]);
                        }
                    }
                    i = i + 1;
                }
                proof {
                    assert(strs_of(items@.skip(items@.len() as int)) =~= Seq::<Seq<char>>::empty());
                }
                let f = IndexFile { ids, changed: false };
                proof {
                    assert(f.ids_view() =~= index_ids_of(*n));
                }
                return f;
            }
        }
        let f = IndexFile { ids, changed: false };
        proof {
            assert(f.ids_view() =~= index_ids_of(*n));
        }
        f
    }

    /// Whether `id` is registered.
    pub fn contains(&self, id: &String) -> (r: bool)
        ensures
            r == self.ids_view().contains(id@),
    {
        let mut i: usize = 0;
        while i < self.ids.len()
            invariant
                0 <= i <= self.ids@.len(),
                forall|k: int| 0 <= k < i ==> self.ids_view()[k] != id@,
            decreases self.ids@.len() - i,
        {
            if self.ids[i].eq(id) {
                proof {
                    assert(self.ids_view()[i as int] == id@);
                }
                return true;
            }
            i = i + 1;
        }
        proof {
            assert(!self.ids_view().contains(id@)) by {
                if self.ids_view().contains(id@) {
                    let k = choose|k: int|
                        0 <= k < self.ids_view().len() && self.ids_view()[k] == id@;
                }
            }
        }
        false
    }

    /// Registers `id` and marks the handle dirty. The caller is expected to
    /// have checked `contains` first; the register itself does not filter.
    pub fn add(&mut self, id: String)
        ensures
            final(self).ids_view() == old(self).ids_view().push(id@),
            final(self).changed,
    {
        self.ids.push(id);
        self.changed = true;
        proof {
            assert(final(self).ids_view() =~= old(self).ids_view().push(
                final(self).ids@[final(self).ids@.len() - 1]@,
            ));
        }
    }

    /// The document shape an index file writes back.
    pub open spec fn node_matches(n: Node, ids: Seq<Seq<char>>) -> bool {
        match n {
            Node::Dict(v) => {
                &&& v@.len() == 1
                &&& v@[0].0@ == "index"@
                &&& (match v@[0].1 {
                    Node::Arr(items) => items@.len() == ids.len() && (forall|i: int|
                        0 <= i < ids.len() ==> is_str(items@[i], ids[i])),
                    _ => false,
                })
            },
            _ => false,
        }
    }

    /// Encodes the register for writing.
    pub fn to_node(&self) -> (n: Node)
        ensures
            IndexFile::node_matches(n, self.ids_view()),
    {
        let mut items: Vec<Node> = Vec::new();
        let mut i: usize = 0;
        while i < self.ids.len()
            invariant
                0 <= i <= self.ids@.len(),
                items@.len() == i,
                forall|k: int| 0 <= k < i ==> is_str(items@[k], self.ids_view()[k]),
            decreases self.ids@.len() - i,
        {
            items.push(Node::Str(self.ids[i].clone()));
            i = i + 1;
        }
        let mut v: Vec<(String, Node)> = Vec::new();
        v.push((String::from_str("index"), Node::Arr(items)));
        Node::Dict(v)
    }

    /// Ends the handle's life: hands back the document to write if anything
    /// changed, and nothing otherwise.
    pub fn close(&mut self) -> (w: Option<Node>)
        ensures
            final(self).ids_view() == old(self).ids_view(),
            !final(self).changed,
            !old(self).changed ==> w is None,
            old(self).changed ==> (match w {
                Some(n) => IndexFile::node_matches(n, old(self).ids_view()),
                None => false,
            }),
    {
        if !self.changed {
            return None;
        }
        self.changed = false;
        Some(self.to_node())
    }
}

/// The records of a decoded epics document, leniently decoded.
pub open spec fn epics_arr_of(n: Node) -> Option<Seq<Node>> {
    match map_get(n, "epics"@) {
        Some(Node::Arr(items)) => Some(items@),
        _ => None,
    }
}

/// The tag registry: epic records keyed by their handle.
pub struct EpicsFile {
    pub epics: Vec<Epic>,
    pub changed: bool,
}

impl EpicsFile {
    pub open spec fn handles(self) -> Seq<Seq<char>> {
        self.epics@.map_values(|e: Epic| e.handle@)
    }

    /// The skeleton of a new epics file; born dirty.
    pub fn skeleton() -> (f: EpicsFile)
        ensures
            f.epics@.len() == 0,
            f.changed,
    {
        EpicsFile { epics: Vec::new(), changed: true }
    }

    /// Decodes an epics document: each item under `epics` becomes one
    /// leniently decoded epic; a document of any other shape reads as
    /// empty.
    pub fn from_node(n: &Node) -> (f: EpicsFile)
        ensures
            !f.changed,
            (match epics_arr_of(*n) {
                Some(items) => f.epics@.len() == items.len() && (forall|i: int|
                    0 <= i < items.len() ==> epic_decodes(items[i], f.epics@[i]@)),
                None => f.epics@.len() == 0,
            }),
    {
        let mut epics: Vec<Epic> = Vec::new();
        let key = String::from_str("epics");
        if let Some(nd) = node_get(n, &key) {
            if let Node::Arr(items) = nd {
                let mut i: usize = 0;
                while i < items.len()
                    invariant
                        0 <= i <= items@.len(),
                        epics@.len() == i,
                        forall|k: int| 0 <= k < i ==> epic_decodes(items@[k], epics@[k]@),
                    decreases items@.len() - i,
                {
                    epics.push(epic_from_record(&items[i]));
                    i = i + 1;
                }
                return EpicsFile { epics, changed: false };
            }
        }
        EpicsFile { epics, changed: false }
    }

    /// Whether an epic with this handle is registered.
    pub fn contains(&self, handle: &String) -> (r: bool)
        ensures
            r == self.handles().contains(handle@),
    {
        let mut i: usize = 0;
        while i < self.epics.len()
            invariant
                0 <= i <= self.epics@.len(),
                forall|k: int| 0 <= k < i ==> self.handles()[k] != handle@,
            decreases self.epics@.len() - i,
        {
            if self.epics[i].handle.eq(handle) {
                proof {
                    assert(self.handles()[i as int] == handle@);
                }
                return true;
            }
            i = i + 1;
        }
        proof {
            assert(!self.handles().contains(handle@)) by {
                if self.handles().contains(handle@) {
                    let k = choose|k: int|
                        0 <= k < self.handles().len() && self.handles()[k] == handle@;
                }
            }
        }
        false
    }

    /// Registers an epic and marks the handle dirty.
    pub fn add(&mut self, e: Epic)
        ensures
            final(self).epics@ == old(self).epics@.push(e),
            final(self).changed,
    {
        self.epics.push(e);
        self.changed = true;
    }

    /// The document shape an epics file writes back.
    pub open spec fn node_matches(n: Node, epics: Seq<Epic>) -> bool {
        match n {
            Node::Dict(v) => {
                &&& v@.len() == 1
                &&& v@[0].0@ == "epics"@
                &&& (match v@[0].1 {
                    Node::Arr(items) => items@.len() == epics.len() && (forall|i: int|
                        0 <= i < epics.len() ==> epic_record_matches(items@[i], epics[i]@)),
                    _ => false,
                })
            },
            _ => false,
        }
    }

    /// Encodes the registry for writing.
    pub fn to_node(&self) -> (n: Node)
        ensures
            EpicsFile::node_matches(n, self.epics@),
    {
        let mut items: Vec<Node> = Vec::new();
        let mut i: usize = 0;
        while i < self.epics.len()
            invariant
                0 <= i <= self.epics@.len(),
                items@.len() == i,
                forall|k: int| 0 <= k < i ==> epic_record_matches(items@[k], self.epics@[k]@),
            decreases self.epics@.len() - i,
        {
            items.push(epic_to_record(&self.epics[i]));
            i = i + 1;
        }
        let mut v: Vec<(String, Node)> = Vec::new();
        v.push((String::from_str("epics"), Node::Arr(items)));
        Node::Dict(v)
    }

    /// Ends the handle's life: the document to write if anything changed.
    pub fn close(&mut self) -> (w: Option<Node>)
        ensures
            final(self).epics@ == old(self).epics@,
            !final(self).changed,
            !old(self).changed ==> w is None,
            old(self).changed ==> (match w {
                Some(n) => EpicsFile::node_matches(n, old(self).epics@),
                None => false,
            }),
    {
        if !self.changed {
            return None;
        }
        self.changed = false;
        Some(self.to_node())
    }
}

/// The pairs of a days dictionary whose values are lists; others are
/// passed over.
pub open spec fn arr_pairs(dv: Seq<(String, Node)>) -> Seq<(Seq<char>, Seq<Node>)>
    decreases dv.len(),
{
    if dv.len() == 0 {
        Seq::empty()
    } else {
        match dv[0].1 {
            Node::Arr(items) => seq![(dv[0].0@, items@)] + arr_pairs(dv.skip(1)),
            _ => arr_pairs(dv.skip(1)),
        }
    }
}

/// The day buckets a decoded month document holds.
pub open spec fn days_pairs_of(n: Node) -> Seq<(Seq<char>, Seq<Node>)> {
    match map_get(n, "days"@) {
        Some(Node::Dict(dv)) => arr_pairs(dv@),
        _ => Seq::empty(),
    }
}

/// The version a decoded month document carries; absent or ill-shaped
/// metadata reads as the current version.
pub open spec fn version_of(n: Node) -> int {
    match map_get(n, "meta"@) {
        Some(m) => match int_entry(m, "version"@) {
            Some(v) => v,
            None => 3,
        },
        None => 3,
    }
}

pub open spec fn meta_str_of(n: Node, key: Seq<char>) -> Seq<char> {
    match map_get(n, "meta"@) {
        Some(m) => match str_entry(m, key) {
            Some(s) => s,
            None => Seq::empty(),
        },
        None => Seq::empty(),
    }
}

/// The first bucket with this day key, or the bucket count if there is
/// none.
pub open spec fn day_index(days: Seq<(String, Vec<Entry>)>, key: Seq<char>) -> int
    decreases days.len(),
{
    if days.len() == 0 {
        0
    } else if days[0].0@ == key {
        0
    } else {
        1 + day_index(days.skip(1), key)
    }
}

/// All entries of all buckets, flattened in bucket order.
pub open spec fn flat_days(days: Seq<(String, Vec<Entry>)>) -> Seq<Entry>
    decreases days.len(),
{
    if days.len() == 0 {
        Seq::empty()
    } else {
        days[0].1@ + flat_days(days.skip(1))
    }
}

/// How adding an entry reshapes the day buckets: the bucket under the
/// entry's full day key grows by the entry, a fresh bucket appears at the
/// end when that key is new, and every other bucket stands untouched.
pub open spec fn days_folded(
    old_days: Seq<(String, Vec<Entry>)>,
    new_days: Seq<(String, Vec<Entry>)>,
    e: Entry,
) -> bool {
    let key = crate::date::ymd_sep_spec(e.date, seq!['-']);
    let di = day_index(old_days, key);
    if di < old_days.len() {
        &&& new_days.len() == old_days.len()
        &&& (forall|k: int| 0 <= k < old_days.len() && k != di ==> new_days[k] == old_days[k])
        &&& new_days[di].0 == old_days[di].0
        &&& new_days[di].1@ == old_days[di].1@.push(e)
    } else {
        &&& new_days.len() == old_days.len() + 1
        &&& (forall|k: int| 0 <= k < old_days.len() ==> new_days[k] == old_days[k])
        &&& new_days[di].0@ == key
        &&& new_days[di].1@ == seq![e]
    }
}

/// One calendar month of entries, grouped under their day key, with a
/// version tag and timestamps.
pub struct MonthFile {
    pub version: i64,
    pub created_at: String,
    pub updated_at: String,
    pub days: Vec<(String, Vec<Entry>)>,
    pub changed: bool,
}

/// The first `i` day buckets of `days`, encoded into `dv` pair for pair.
pub open spec fn dv_prefix_ok(dv: Seq<(String, Node)>, days: Seq<(String, Vec<Entry>)>, i: int) -> bool {
    forall|k: int|
        0 <= k < i ==> (#[trigger] dv[k]).0@ == days[k].0@ && bucket_matches(dv[k].1, days[k].1@)
}

/// Whether `nd` is the list of the records of the entries of `b`.
pub open spec fn bucket_matches(nd: Node, b: Seq<Entry>) -> bool {
    match nd {
        Node::Arr(items) => items@.len() == b.len() && (forall|j: int|
            0 <= j < b.len() ==> entry_record_matches(items@[j], b[j]@)),
        _ => false,
    }
}

/// The document shape a month file writes back: metadata first, then the
/// day buckets in order.
pub open spec fn month_node_matches(n: Node, mf: MonthFile) -> bool {
    match n {
        Node::Dict(v) => {
            &&& v@.len() == 2
            &&& v@[0].0@ == "meta"@
            &&& (match v@[0].1 {
                Node::Dict(m) => {
                    &&& m@.len() == 3
                    &&& m@[0].0@ == "version"@
                    &&& m@[0].1 == Node::Int(mf.version)
                    &&& m@[1].0@ == "created_at"@
                    &&& is_str(m@[1].1, mf.created_at@)
                    &&& m@[2].0@ == "updated_at"@
                    &&& is_str(m@[2].1, mf.updated_at@)
                },
                _ => false,
            })
            &&& v@[1].0@ == "days"@
            &&& (match v@[1].1 {
                Node::Dict(dv) => dv@.len() == mf.days@.len() && dv_prefix_ok(
                    dv@,
                    mf.days@,
                    mf.days@.len() as int,
                ),
                _ => false,
            })
        },
        _ => false,
    }
}

impl MonthFile {
    /// All entries in all buckets are well formed.
    pub open spec fn wf(self) -> bool {
        forall|i: int, j: int|
            0 <= i < self.days@.len() && 0 <= j < self.days@[i].1@.len()
                ==> (#[trigger] self.days@[i].1@[j]).wf()
    }

    /// The skeleton of a new month file: current version, both timestamps
    /// set to now, no days; born dirty.
    pub fn skeleton() -> (f: MonthFile)
        ensures
            f.version == 3,
            f.days@.len() == 0,
            f.changed,
            f.wf(),
    {
        let now = now_stamp();
        let now2 = now.clone();
        MonthFile { version: 3, created_at: now, updated_at: now2, days: Vec::new(), changed: true }
    }

    /// Decodes a month document: metadata leniently, then every day whose
    /// value is a list, each of its items decoded as an entry record.
    pub fn from_node(n: &Node) -> (f: MonthFile)
        ensures
            !f.changed,
            f.wf(),
            f.version as int == version_of(*n),
            f.created_at@ == meta_str_of(*n, "created_at"@),
            f.updated_at@ == meta_str_of(*n, "updated_at"@),
            f.days@.len() == days_pairs_of(*n).len(),
            forall|i: int|
                0 <= i < f.days@.len() ==> (#[trigger] f.days@[i]).0@ == days_pairs_of(*n)[i].0
                    && f.days@[i].1@.len() == days_pairs_of(*n)[i].1.len() && (forall|j: int|
                    0 <= j < f.days@[i].1@.len() ==> entry_decodes(
                        days_pairs_of(*n)[i].1[j],
                        (#[trigger] f.days@[i].1@[j])@,
                    )),
    {
        let mut version: i64 = 3;
        let mut created_at = String::new();
        let mut updated_at = String::new();
        let key = String::from_str("meta");
        if let Some(m) = node_get(n, &key) {
            let k2 = String::from_str("version");
            if let Some(vn) = node_get(m, &k2) {
                if let Node::Int(v) = vn {
                    version = *v;
                }
            }
            let k2 = String::from_str("created_at");
            if let Some(vn) = node_get(m, &k2) {
                if let Node::Str(s) = vn {
                    created_at = s.clone();
                }
            }
            let k2 = String::from_str("updated_at");
            if let Some(vn) = node_get(m, &k2) {
                if let Node::Str(s) = vn {
                    updated_at = s.clone();
                }
            }
        }
        let mut days: Vec<(String, Vec<Entry>)> = Vec::new();
        let key = String::from_str("days");
        if let Some(dn) = node_get(n, &key) {
            if let Node::Dict(dv) = dn {
                let mut i: usize = 0;
                let ghost mut done: Seq<(Seq<char>, Seq<Node>)> = Seq::empty();
                proof {
                    assert(dv@.skip(0) =~= dv@);
                    assert(arr_pairs(dv@) =~= done + arr_pairs(dv@.skip(0)));
                }
                while i < dv.len()
                    invariant
                        0 <= i <= dv@.len(),
                        arr_pairs(dv@) =~= done + arr_pairs(dv@.skip(i as int)),
                        days@.len() == done.len(),
                        forall|k: int|
                            0 <= k < days@.len() ==> (#[trigger] days@[k]).0@ == done[k].0
                                && days@[k].1@.len() == done[k].1.len() && (forall|j: int|
                                0 <= j < days@[k].1@.len() ==> entry_decodes(
                                    done[k].1[j],
                                    (#[trigger] days@[k].1@[j])@,
                                ) && days@[k].1@[j].wf()),
                    decreases dv@.len() - i,
                {
                    proof {
                        assert(dv@.skip(i as int)[0] == dv@[i as int]);
                        assert(dv@.skip(i as int).skip(1) =~= dv@.skip(i as int + 1));
                    }
                    let ghost prev_done = done;
                    let ghost prev_days = days@;
                    if let Node::Arr(items) = &dv[i].1 {
                        let bucket = decode_bucket(items);
                        let day_key = dv[i].0.clone();
                        days.push((day_key, bucket));
                        proof {
                            done = done + seq![(dv@[i as int].0@, dv@[i as int].1->Arr_0@)];
                            assert forall|k: int|
                                0 <= k < days@.len() implies (#[trigger] days@[k]).0@ == done[k].0
                                    && days@[k].1@.len() == done[k].1.len() && (forall|j: int|
                                    0 <= j < days@[k].1@.len() ==> entry_decodes(
                                        done[k].1[j],
                                        (#[trigger] days@[k].1@[j])@,
                                    ) && days@[k].1@[j].wf()) by {
                                if k < prev_days.len() {
                                    assert(days@[k] == prev_days[k]);
                                    assert(done[k] == prev_done[k]);
                                }
                            }
                        }
                    }
                    i = i + 1;
                }
                proof {
                    assert(arr_pairs(dv@.skip(dv@.len() as int)) =~= Seq::<(
                        Seq<char>,
                        Seq<Node>,
                    )>::empty());
                    assert(arr_pairs(dv@) =~= done);
                }
                return MonthFile { version, created_at, updated_at, days, changed: false };
            }
        }
        MonthFile { version, created_at, updated_at, days, changed: false }
    }

    /// Whether `key` has a bucket, and where.
    fn find_day(&self, key: &String) -> (r: usize)
        ensures
            r == day_index(self.days@, key@),
            r <= self.days@.len(),
            r < self.days@.len() ==> self.days@[r as int].0@ == key@,
    {
        let mut i: usize = 0;
        proof {
            assert(self.days@.skip(0) =~= self.days@);
        }
        while i < self.days.len()
            invariant
                0 <= i <= self.days@.len(),
                day_index(self.days@, key@) == i + day_index(self.days@.skip(i as int), key@),
                forall|k: int| 0 <= k < i ==> self.days@[k].0@ != key@,
            decreases self.days@.len() - i,
        {
            proof {
                assert(self.days@.skip(i as int)[0] == self.days@[i as int]);
            }
            if self.days[i].0.eq(key) {
                return i;
            }
            proof {
                assert(self.days@.skip(i as int).skip(1) =~= self.days@.skip(i as int + 1));
            }
            i = i + 1;
        }
        proof {
            lemma_day_index_bound(self.days@, key@);
        }
        i
    }

    /// Appends an entry to the bucket of its full day key, creating the
    /// bucket if the key is new, and marks the handle dirty.
    pub fn add(&mut self, e: Entry)
        requires
            e.wf(),
            old(self).wf(),
        ensures
            final(self).wf(),
            final(self).changed,
            final(self).version == old(self).version,
            final(self).created_at == old(self).created_at,
            final(self).updated_at == old(self).updated_at,
            days_folded(old(self).days@, final(self).days@, e),
    {
        let key = e.date.ymd();
        let i = self.find_day(&key);
        if i < self.days.len() {
            let ghost before = self.days@;
            let (k, mut v) = self.days.remove(i);
            v.push(e);
            self.days.insert(i, (k, v));
            proof {
                assert(self.days@ =~= before.update(i as int, self.days@[i as int]));
                assert(self.days@[i as int].1@ == before[i as int].1@.push(e));
            }
        } else {
            let mut v: Vec<Entry> = Vec::new();
            v.push(e);
            self.days.push((key, v));
        }
        self.changed = true;
    }

    /// All entries across all day buckets, flattened; bucket order first,
    /// then insertion order within a bucket. No global chronological order
    /// is promised.
    pub fn get(&self) -> (r: Vec<Entry>)
        ensures
            r@.map_values(|e: Entry| e@) == flat_days(self.days@).map_values(|e: Entry| e@),
            r@.len() == flat_days(self.days@).len(),
            self.wf() ==> forall|k: int| 0 <= k < r@.len() ==> (#[trigger] r@[k]).wf(),
    {
        let mut out: Vec<Entry> = Vec::new();
        let mut i: usize = 0;
        proof {
            assert(self.days@.skip(0) =~= self.days@);
            assert(out@.map_values(|e: Entry| e@) =~= Seq::<crate::entry::EntryV>::empty());
        }
        while i < self.days.len()
            invariant
                0 <= i <= self.days@.len(),
                flat_days(self.days@).map_values(|e: Entry| e@) =~= out@.map_values(
                    |e: Entry| e@,
                ) + flat_days(self.days@.skip(i as int)).map_values(|e: Entry| e@),
                out@.len() + flat_days(self.days@.skip(i as int)).len() == flat_days(
                    self.days@,
                ).len(),
                self.wf() ==> forall|k: int| 0 <= k < out@.len() ==> (#[trigger] out@[k]).wf(),
            decreases self.days@.len() - i,
        {
            proof {
                assert(self.days@.skip(i as int)[0] == self.days@[i as int]);
                assert(self.days@.skip(i as int).skip(1) =~= self.days@.skip(i as int + 1));
            }
            let bucket = &self.days[i].1;
            let mut j: usize = 0;
            while j < bucket.len()
                invariant
                    0 <= j <= bucket@.len(),
                    bucket == &self.days@[i as int].1,
                    0 <= i < self.days@.len(),
                    flat_days(self.days@).map_values(|e: Entry| e@) =~= out@.map_values(
                        |e: Entry| e@,
                    ) + bucket@.skip(j as int).map_values(|e: Entry| e@) + flat_days(
                        self.days@.skip(i as int + 1),
                    ).map_values(|e: Entry| e@),
                    out@.len() + (bucket@.len() - j) + flat_days(self.days@.skip(i as int + 1)).len()
                        == flat_days(self.days@).len(),
                    self.wf() ==> forall|k: int| 0 <= k < out@.len() ==> (#[trigger] out@[k]).wf(),
                decreases bucket@.len() - j,
            {
                proof {
                    assert(bucket@.skip(j as int)[0] == bucket@[j as int]);
                    assert(bucket@.skip(j as int).skip(1) =~= bucket@.skip(j as int + 1));
                }
                out.push(bucket[j].duplicate());
                j = j + 1;
            }
            i = i + 1;
        }
        proof {
            assert(flat_days(self.days@.skip(self.days@.len() as int)) =~= Seq::<Entry>::empty());
        }
        out
    }

    /// Encodes the month for writing.
    pub fn to_node(&self) -> (n: Node)
        requires
            self.wf(),
        ensures
            month_node_matches(n, *self),
    {
        let mut dv: Vec<(String, Node)> = Vec::new();
        let mut i: usize = 0;
        while i < self.days.len()
            invariant
                0 <= i <= self.days@.len(),
                self.wf(),
                dv@.len() == i,
                dv_prefix_ok(dv@, self.days@, i as int),
            decreases self.days@.len() - i,
        {
            let bucket = &self.days[i].1;
            let mut items: Vec<Node> = Vec::new();
            let mut j: usize = 0;
            while j < bucket.len()
                invariant
                    0 <= j <= bucket@.len(),
                    bucket@ == self.days@[i as int].1@,
                    0 <= i < self.days@.len(),
                    self.wf(),
                    dv@.len() == i,
                    dv_prefix_ok(dv@, self.days@, i as int),
                    items@.len() == j,
                    forall|k: int|
                        0 <= k < j ==> entry_record_matches(
                            #[trigger] items@[k],
                            self.days@[i as int].1@[k]@,
                        ),
                decreases bucket@.len() - j,
            {
                items.push(entry_to_record(&bucket[j]));
                j = j + 1;
            }
            let day_key = self.days[i].0.clone();
            let nd = Node::Arr(items);
            proof {
                assert(bucket_matches(nd, self.days@[i as int].1@));
            }
            let ghost prev = dv@;
            dv.push((day_key, nd));
            proof {
                assert forall|k: int|
                    0 <= k < i + 1 implies (#[trigger] dv@[k]).0@ == self.days@[k].0@
                        && bucket_matches(dv@[k].1, self.days@[k].1@) by {
                    if k < i {
                        assert(dv@[k] == prev[k]);
                        assert(dv_prefix_ok(prev, self.days@, i as int));
                        assert((prev[k]).0@ == self.days@[k].0@ && bucket_matches(
                            prev[k].1,
                            self.days@[k].1@,
                        ));
                    } else {
                        assert(dv@[k].0@ == self.days@[k].0@);
                        assert(bucket_matches(dv@[k].1, self.days@[k].1@));
                    }
                }
                assert(dv_prefix_ok(dv@, self.days@, i + 1));
            }
            i = i + 1;
        }
        let mut meta: Vec<(String, Node)> = Vec::new();
        meta.push((String::from_str("version"), Node::Int(self.version)));
        meta.push((String::from_str("created_at"), Node::Str(self.created_at.clone())));
        meta.push((String::from_str("updated_at"), Node::Str(self.updated_at.clone())));
        let mut v: Vec<(String, Node)> = Vec::new();
        v.push((String::from_str("meta"), Node::Dict(meta)));
        v.push((String::from_str("days"), Node::Dict(dv)));
        Node::Dict(v)
    }

    /// Ends the handle's life. If nothing changed, nothing is written;
    /// otherwise the version is brought up to at least 3, the update
    /// timestamp is refreshed, and the document to write is handed back.
    pub fn close(&mut self) -> (w: Option<Node>)
        requires
            old(self).wf(),
        ensures
            final(self).wf(),
            !final(self).changed,
            final(self).days@ == old(self).days@,
            !old(self).changed ==> w is None && *final(self) == *old(self),
            old(self).changed ==> ({
                &&& final(self).version == (if old(self).version < 3 {
                    3int
                } else {
                    old(self).version as int
                })
                &&& final(self).created_at == old(self).created_at
                &&& (match w {
                    Some(n) => month_node_matches(n, *final(self)),
                    None => false,
                })
            }),
    {
        if !self.changed {
            return None;
        }
        if self.version < 3 {
            self.version = 3;
        }
        self.updated_at = now_stamp();
        self.changed = false;
        Some(self.to_node())
    }
}

/// Decodes every item of a bucket as an entry record.
fn decode_bucket(items: &Vec<Node>) -> (v: Vec<Entry>)
    ensures
        v@.len() == items@.len(),
        forall|j: int|
            0 <= j < items@.len() ==> entry_decodes(items@[j], (#[trigger] v@[j])@) && v@[j].wf(),
{
    let mut v: Vec<Entry> = Vec::new();
    let mut j: usize = 0;
    while j < items.len()
        invariant
            0 <= j <= items@.len(),
            v@.len() == j,
            forall|k: int|
                0 <= k < j ==> entry_decodes(items@[k], (#[trigger] v@[k])@) && v@[k].wf(),
        decreases items@.len() - j,
    {
        v.push(entry_from_record(&items[j]));
        j = j + 1;
    }
    v
}

proof fn lemma_day_index_bound(days: Seq<(String, Vec<Entry>)>, key: Seq<char>)
    ensures
        0 <= day_index(days, key) <= days.len(),
    decreases days.len(),
{
    if days.len() > 0 && days[0].0@ != key {
        lemma_day_index_bound(days.skip(1), key);
    }
}

} // verus!
