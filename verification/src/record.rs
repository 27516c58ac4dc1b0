//! Encoding entries and epics as structured records, and decoding them
//! leniently: a field that is missing or of the wrong shape silently keeps
//! its default, as does an amount outside the ledger's range or on the
//! wrong side of zero, and an unparsable date.

use vstd::prelude::*;
use crate::date::{parse_date_spec, ymd_sep_spec, Date};
use crate::decimal::{cents_text, parse_cents, parse_cents_spec, AMOUNT_LIMIT};
use crate::entry::{Entry, EntryV};
use crate::epic::{Epic, EpicV};
use crate::node::{is_real, is_str, str_entry, real_entry, node_get, Node};

verus! {

pub open spec fn empty_date() -> Date {
    Date { year: 1970, month: 1, day: 1, used_y: false, used_m: false, used_d: false }
}

/// The record an entry encodes to: nine named fields in fixed order, with
/// the date rendered from its present parts and each amount rendered with
/// two fraction digits.
pub open spec fn entry_record_matches(n: Node, e: EntryV) -> bool {
    match n {
        Node::Dict(v) => {
            &&& v@.len() == 9
            &&& v@[0].0@ == "id"@ && is_str(v@[0].1, e.id)
            &&& v@[1].0@ == "title"@ && is_str(v@[1].1, e.title)
            &&& v@[2].0@ == "date"@ && is_str(v@[2].1, ymd_sep_spec(e.date, seq!['-']))
            &&& v@[3].0@ == "revenue"@ && is_real(v@[3].1, cents_text(e.revenue))
            &&& v@[4].0@ == "expense"@ && is_real(v@[4].1, cents_text(e.expense))
            &&& v@[5].0@ == "balance"@ && is_real(v@[5].1, cents_text(e.balance))
            &&& v@[6].0@ == "category"@ && is_str(v@[6].1, e.category)
            &&& v@[7].0@ == "comment"@ && is_str(v@[7].1, e.comment)
            &&& v@[8].0@ == "epic"@ && is_str(v@[8].1, e.epic)
        },
        _ => false,
    }
}

/// Encodes an entry into its record.
pub fn entry_to_record(e: &Entry) -> (n: Node)
    requires
        e.wf(),
    ensures
        entry_record_matches(n, e@),
{
    let mut v: Vec<(String, Node)> = Vec::new();
    v.push((String::from_str("id"), Node::Str(e.id())));
    v.push((String::from_str("title"), Node::Str(e.title())));
    v.push((String::from_str("date"), Node::Str(e.date.ymd())));
    v.push((String::from_str("revenue"), Node::Real(e.revenue().to_text())));
    v.push((String::from_str("expense"), Node::Real(e.expense().to_text())));
    v.push((String::from_str("balance"), Node::Real(e.balance().to_text())));
    v.push((String::from_str("category"), Node::Str(e.category())));
    v.push((String::from_str("comment"), Node::Str(e.comment())));
    v.push((String::from_str("epic"), Node::Str(e.epic())));
    Node::Dict(v)
}

/// The string a record holds under `key`, or a default.
pub open spec fn dec_str_or(n: Node, key: Seq<char>, dflt: Seq<char>) -> Seq<char> {
    match str_entry(n, key) {
        Some(s) => s,
        None => dflt,
    }
}

/// The date a record holds, when its text parses to a valid date; the
/// empty date otherwise.
pub open spec fn dec_date(n: Node) -> Date {
    match str_entry(n, "date"@) {
        Some(ds) => match parse_date_spec(ds) {
            Some(d) => if d.wf() {
                d
            } else {
                empty_date()
            },
            None => empty_date(),
        },
        None => empty_date(),
    }
}

/// The amount a record holds under `key`, accepted only inside
/// `[lo, hi]`; zero otherwise.
pub open spec fn dec_amount(n: Node, key: Seq<char>, lo: int, hi: int) -> int {
    match real_entry(n, key) {
        Some(rs) => match parse_cents_spec(rs) {
            Some(v) => if lo <= v <= hi {
                v
            } else {
                0
            },
            None => 0,
        },
        None => 0,
    }
}

/// What the lenient decode of an entry record yields: each field as stored
/// when present and well-shaped, its default otherwise. The id of a record
/// without one is fresh and random, so only its length is stated.
pub open spec fn entry_decodes(n: Node, e: EntryV) -> bool {
    &&& (match str_entry(n, "id"@) {
        Some(s) => e.id == s,
        None => e.id.len() == 36,
    })
    &&& e.title == dec_str_or(n, "title"@, Seq::<char>::empty())
    &&& e.date == dec_date(n)
    &&& e.revenue == dec_amount(n, "revenue"@, 0, AMOUNT_LIMIT as int)
    &&& e.expense == dec_amount(n, "expense"@, -(AMOUNT_LIMIT as int), 0)
    &&& e.balance == dec_amount(n, "balance"@, -(AMOUNT_LIMIT as int), AMOUNT_LIMIT as int)
    &&& e.category == dec_str_or(n, "category"@, "default"@)
    &&& e.comment == dec_str_or(n, "comment"@, Seq::<char>::empty())
    &&& e.epic == dec_str_or(n, "epic"@, "default"@)
}

/// Decodes an entry record leniently. The balance is read as stored, not
/// re-derived; a record without one yields balance zero.
#[verifier::rlimit(60)]
pub fn entry_from_record(n: &Node) -> (e: Entry)
    ensures
        e.wf(),
        entry_decodes(*n, e@),
{
    let mut e = Entry::new();
    let key = String::from_str("id");
    if let Some(nd) = node_get(n, &key) {
        if let Node::Str(s) = nd {
            e.id = s.clone();
        }
    }
    let key = String::from_str("title");
    if let Some(nd) = node_get(n, &key) {
        if let Node::Str(s) = nd {
            e.title = s.clone();
        }
    }
    let key = String::from_str("date");
    if let Some(nd) = node_get(n, &key) {
        if let Node::Str(s) = nd {
            if let Ok(d) = Date::from_str(s.as_str()) {
                e.date = d;
            }
        }
    }
    let key = String::from_str("revenue");
    if let Some(nd) = node_get(n, &key) {
        if let Node::Real(s) = nd {
            if let Some(v) = parse_cents(s.as_str()) {
                if v >= 0 {
                    e.revenue = v;
                }
            }
        }
    }
    let key = String::from_str("expense");
    if let Some(nd) = node_get(n, &key) {
        if let Node::Real(s) = nd {
            if let Some(v) = parse_cents(s.as_str()) {
                if v <= 0 {
                    e.expense = v;
                }
            }
        }
    }
    let key = String::from_str("balance");
    if let Some(nd) = node_get(n, &key) {
        if let Node::Real(s) = nd {
            if let Some(v) = parse_cents(s.as_str()) {
                e.balance = v;
            }
        }
    }
    let key = String::from_str("category");
    if let Some(nd) = node_get(n, &key) {
        if let Node::Str(s) = nd {
            e.category = s.clone();
        }
    }
    let key = String::from_str("comment");
    if let Some(nd) = node_get(n, &key) {
        if let Node::Str(s) = nd {
            e.comment = s.clone();
        }
    }
    let key = String::from_str("epic");
    if let Some(nd) = node_get(n, &key) {
        if let Node::Str(s) = nd {
            e.epic = s.clone();
        }
    }
    e
}

/// The record an epic encodes to: four named fields in fixed order.
pub open spec fn epic_record_matches(n: Node, e: EpicV) -> bool {
    match n {
        Node::Dict(v) => {
            &&& v@.len() == 4
            &&& v@[0].0@ == "id"@ && is_str(v@[0].1, e.id)
            &&& v@[1].0@ == "handle"@ && is_str(v@[1].1, e.handle)
            &&& v@[2].0@ == "title"@ && is_str(v@[2].1, e.title)
            &&& v@[3].0@ == "bg_color"@ && is_str(v@[3].1, e.bgcolor)
        },
        _ => false,
    }
}

/// Encodes an epic into its record.
pub fn epic_to_record(e: &Epic) -> (n: Node)
    ensures
        epic_record_matches(n, e@),
{
    let mut v: Vec<(String, Node)> = Vec::new();
    v.push((String::from_str("id"), Node::Str(e.id())));
    v.push((String::from_str("handle"), Node::Str(e.handle())));
    v.push((String::from_str("title"), Node::Str(e.title())));
    v.push((String::from_str("bg_color"), Node::Str(e.bgcolor())));
    Node::Dict(v)
}

/// What the lenient decode of an epic record yields.
pub open spec fn epic_decodes(n: Node, e: EpicV) -> bool {
    &&& (match str_entry(n, "id"@) {
        Some(s) => e.id == s,
        None => e.id.len() == 36,
    })
    &&& e.handle == dec_str_or(n, "handle"@, "default"@)
    &&& e.title == dec_str_or(n, "title"@, "Default"@)
    &&& e.bgcolor == dec_str_or(n, "bg_color"@, "#ffffff"@)
}

/// Decodes an epic record leniently.
pub fn epic_from_record(n: &Node) -> (e: Epic)
    ensures
        epic_decodes(*n, e@),
{
    let mut e = Epic::new();
    let key = String::from_str("id");
    if let Some(nd) = node_get(n, &key) {
        if let Node::Str(s) = nd {
            e.id = s.clone();
        }
    }
    let key = String::from_str("handle");
    if let Some(nd) = node_get(n, &key) {
        if let Node::Str(s) = nd {
            e.handle = s.clone();
        }
    }
    let key = String::from_str("title");
    if let Some(nd) = node_get(n, &key) {
        if let Node::Str(s) = nd {
            e.title = s.clone();
        }
    }
    let key = String::from_str("bg_color");
    if let Some(nd) = node_get(n, &key) {
        if let Node::Str(s) = nd {
            e.bgcolor = s.clone();
        }
    }
    e
}

} // verus!
