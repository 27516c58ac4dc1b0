//! Small extensions on foreign types: decimal-comma normalization and
//! amount parsing on strings, and yes/no rendering on booleans.

use vstd::prelude::*;
use crate::decimal::{parse_cents, parse_cents_spec};

verus! {

/// What comma-to-point replacement yields: the same characters, with
/// every comma a point.
pub open spec fn decommaed(s: Seq<char>) -> Seq<char> {
    Seq::new(s.len(), |i: int| if s[i] == ',' { '.' } else { s[i] })
}

pub trait StringExt: View<V = Seq<char>> {
    /// In some locales a decimal amount is written with a comma; this
    /// turns every comma into a point.
    fn replace_comma(&self) -> (r: String)
        ensures
            r@ == decommaed(self@),
    ;

    /// Reads the string as a decimal amount in cents; `None` when it is
    /// not one.
    fn to_num(&self) -> (r: Option<i64>)
        ensures
            (r matches Some(c) ==> parse_cents_spec(self@) == Some(c as int)),
            (r is None ==> parse_cents_spec(self@) is None),
    ;
}

impl StringExt for String {
    fn replace_comma(&self) -> (r: String) {
        let n = self.as_str().unicode_len();
        let mut out = String::new();
        let mut i: usize = 0;
        proof {
            reveal_strlit(".");
            reveal_strlit(",");
        }
        while i < n
            invariant
                0 <= i <= n,
                n == self@.len(),
                out@ =~= decommaed(self@).take(i as int),
            decreases n - i,
        {
            let c = self.as_str().get_char(i);
            if c == ',' {
                out.append(".");
            } else {
                let piece = self.as_str().substring_char(i, i + 1);
                out.append(piece);
            }
            proof {
                reveal_strlit(".");
                assert(out@ =~= decommaed(self@).take(i as int + 1));
            }
            i = i + 1;
        }
        proof {
            assert(decommaed(self@).take(n as int) =~= decommaed(self@));
        }
        out
    }

    fn to_num(&self) -> (r: Option<i64>) {
        parse_cents(self.as_str())
    }
}

pub trait BoolExt: Sized {
    /// The truth value the answer reports.
    spec fn spec_value(self) -> bool;

    /// A human yes/no answer.
    fn yn(self) -> (r: String)
        ensures
            r@ == (if self.spec_value() {
                "YES"@
            } else {
                "No"@
            }),
    ;
}

impl BoolExt for bool {
    open spec fn spec_value(self) -> bool {
        self
    }

    fn yn(self) -> (r: String) {
        if self {
            String::from_str("YES")
        } else {
            String::from_str("No")
        }
    }
}

} // verus!
