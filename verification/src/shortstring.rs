//! Strings cut down to a display width: anything longer than the limit is
//! truncated with a trailing ellipsis.

use vstd::prelude::*;

verus! {

/// The display form: the text itself when it fits or when the limit is
/// too small even for an ellipsis, else its first characters and `...`.
pub open spec fn short_text(s: Seq<char>, max_len: int) -> Seq<char> {
    if s.len() > max_len && max_len >= 3 {
        s.take(max_len - 3) + seq!['.', '.', '.']
    } else {
        s
    }
}

/// A string together with the width it may take up when displayed.
pub struct ShortString {
    pub s: String,
    pub max_len: usize,
}

impl ShortString {
    pub fn new() -> (r: ShortString)
        ensures
            r.s@ == Seq::<char>::empty(),
            r.max_len == 0,
    {
        ShortString { s: String::new(), max_len: 0 }
    }

    pub fn from(s: String, max_len: usize) -> (r: ShortString)
        ensures
            r.s@ == s@,
            r.max_len == max_len,
    {
        ShortString { s, max_len }
    }

    /// Renders the string, truncated to the width; lengths count
    /// characters.
    pub fn to_display_string(&self) -> (r: String)
        ensures
            r@ == short_text(self.s@, self.max_len as int),
    {
        let n = self.s.as_str().unicode_len();
        if n > self.max_len && self.max_len >= 3 {
            let head = self.s.as_str().substring_char(0, self.max_len - 3);
            let mut out = String::from_str(head);
            out.append("...");
            proof {
                reveal_strlit("...");
                assert(out@ =~= short_text(self.s@, self.max_len as int));
            }
            out
        } else {
            self.s.clone()
        }
    }
}

pub trait ToShortString: View<V = Seq<char>> + Sized {
    /// Pairs the string with a display width.
    fn to_short_string(self, max_len: usize) -> (r: ShortString)
        ensures
            r.s@ == self@,
            r.max_len == max_len,
    ;
}

impl ToShortString for String {
    fn to_short_string(self, max_len: usize) -> (r: ShortString) {
        ShortString::from(self, max_len)
    }
}

} // verus!
