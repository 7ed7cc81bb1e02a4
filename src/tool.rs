//! Small helpers on names and lists of paths.
use vstd::prelude::*;

use vstd::string::{StrSliceExecFns, StringExecFns};

use crate::scan_result::views;
use crate::utils::{numbered, numbered_list};

pub use crate::utils::{format_num, todays_day};

verus! {

/// Whether every character of `os_str` is valid UTF-8. A `&str` always
/// holds valid UTF-8, so the answer is always yes.
pub fn is_utf8(os_str: &str) -> (r: bool)
    ensures
        r,
{
    true
}

/// The paths numbered from 1, with a line of `======` between entries.
pub fn string_interface(values: &Vec<String>) -> (r: String)
    ensures
        r@ == numbered(views(values@), seq!['\n', '=', '=', '=', '=', '=', '=', '\n']),
{
    let sep = "\n======\n";
    proof {
        reveal_strlit("\n======\n");
    }
    assert(sep@ =~= seq!['\n', '=', '=', '=', '=', '=', '=', '\n']);
    numbered_list(values.as_slice(), sep)
}

/// Whether `s` holds a dot.
pub open spec fn has_dot(s: Seq<char>) -> bool {
    exists|i: int| 0 <= i < s.len() && s[i] == '.'
}

/// `i` is the position of the last dot of `s`.
pub open spec fn last_dot_at(s: Seq<char>, i: int) -> bool {
    &&& 0 <= i < s.len()
    &&& s[i] == '.'
    &&& forall|j: int| i < j < s.len() ==> s[j] != '.'
}

/// Splits a file or directory name at its last dot into the stem and the
/// extension; a name without a dot is all stem.
pub fn parse_object(object: &str) -> (r: (String, Option<String>))
    ensures
        !has_dot(object@) ==> r.0@ == object@ && r.1 is None,
        has_dot(object@) ==> exists|i: int|
            #![trigger last_dot_at(object@, i)]
            last_dot_at(object@, i) && r.0@ == object@.subrange(0, i) && (r.1 matches Some(e)
                && e@ == object@.subrange(
                i + 1,
                object@.len() as int,
            )),
{
    let len = object.unicode_len();
    let mut last: Option<usize> = None;
    let mut i: usize = 0;
    while i < len
        invariant
            len == object@.len(),
            i <= len,
            match last {
                Some(k) => last_dot_at(object@.take(i as int), k as int),
                None => forall|j: int| 0 <= j < i ==> object@[j] != '.',
            },
        decreases len - i,
    {
        if object.get_char(i) == '.' {
            last = Some(i);
        }
        i = i + 1;
    }
    assert(object@.take(len as int) =~= object@);
    match last {
        None => (String::from_str(object), None),
        Some(k) => {
            assert(last_dot_at(object@, k as int));
            let stem = String::from_str(object.substring_char(0, k));
            let ext = String::from_str(object.substring_char(k + 1, len));
            (stem, Some(ext))
        },
    }
}

} // verus!
