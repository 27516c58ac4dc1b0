//! The structured-document tree the flat files are made of: string, integer
//! and raw-decimal scalars, arrays, and string-keyed maps in insertion
//! order. The store encodes its records into this shape and decodes them
//! from it; reading and writing the textual form is the caller's side.

use vstd::prelude::*;

verus! {

/// One node of a structured document.
#[derive(Debug)]
pub enum Node {
    Str(String),
    Int(i64),
    /// A decimal scalar kept in its raw textual form.
    Real(String),
    Arr(Vec<Node>),
    Dict(Vec<(String, Node)>),
    Null,
}

/// The value under `key` in a pair list; the first match counts.
pub open spec fn lookup(fields: Seq<(String, Node)>, key: Seq<char>) -> Option<Node>
    decreases fields.len(),
{
    if fields.len() == 0 {
        None::<Node>
    } else if fields[0].0@ == key {
        Some(fields[0].1)
    } else {
        lookup(fields.skip(1), key)
    }
}

/// The value under `key` when `n` is a map.
pub open spec fn map_get(n: Node, key: Seq<char>) -> Option<Node> {
    match n {
        Node::Dict(v) => lookup(v@, key),
        _ => None,
    }
}

/// The string under `key`, when present and of string shape.
pub open spec fn str_entry(n: Node, key: Seq<char>) -> Option<Seq<char>> {
    match map_get(n, key) {
        Some(Node::Str(s)) => Some(s@),
        _ => None,
    }
}

/// The raw decimal text under `key`, when present and of decimal shape.
pub open spec fn real_entry(n: Node, key: Seq<char>) -> Option<Seq<char>> {
    match map_get(n, key) {
        Some(Node::Real(s)) => Some(s@),
        _ => None,
    }
}

/// The integer under `key`, when present and of integer shape.
pub open spec fn int_entry(n: Node, key: Seq<char>) -> Option<int> {
    match map_get(n, key) {
        Some(Node::Int(i)) => Some(i as int),
        _ => None,
    }
}

/// Whether `n` is the string `s`.
pub open spec fn is_str(n: Node, s: Seq<char>) -> bool {
    match n {
        Node::Str(t) => t@ == s,
        _ => false,
    }
}

/// Whether `n` is the raw decimal `s`.
pub open spec fn is_real(n: Node, s: Seq<char>) -> bool {
    match n {
        Node::Real(t) => t@ == s,
        _ => false,
    }
}

/// Finds `key` in a pair list.
pub fn pairs_get<'a>(fields: &'a Vec<(String, Node)>, key: &String) -> (r: Option<&'a Node>)
    ensures
        (match r {
            Some(nd) => lookup(fields@, key@) == Some(*nd),
            None => lookup(fields@, key@) is None,
        }),
{
    let mut i: usize = 0;
    proof {
        assert(fields@.skip(0) =~= fields@);
    }
    while i < fields.len()
        invariant
            0 <= i <= fields@.len(),
            lookup(fields@, key@) == lookup(fields@.skip(i as int), key@),
        decreases fields@.len() - i,
    {
        proof {
            assert(fields@.skip(i as int)[0] == fields@[i as int]);
        }
        if fields[i].0.eq(key) {
            return Some(&fields[i].1);
        }
        proof {
            assert(fields@.skip(i as int).skip(1) =~= fields@.skip(i as int + 1));
        }
        i = i + 1;
    }
    None
}

/// The value under `key` when `n` is a map.
pub fn node_get<'a>(n: &'a Node, key: &String) -> (r: Option<&'a Node>)
    ensures
        (match r {
            Some(nd) => map_get(*n, key@) == Some(*nd),
            None => map_get(*n, key@) is None,
        }),
{
    match n {
        Node::Dict(v) => pairs_get(v, key),
        _ => None,
    }
}

} // verus!
