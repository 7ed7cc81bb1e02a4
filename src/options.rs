//! Choosing one of a list of texts by its number or by the text itself.
use vstd::prelude::*;

use vstd::string::StringExecFns;

use crate::names::{parse_usize, parsed_usize};
use crate::scan_result::views;
use crate::utils::{numbered, pretty_interface};

verus! {

/// A list of texts offered for a choice.
pub struct Options<'o> {
    options: &'o [String],
}

/// Whether one of `options` is the text `choice`.
pub open spec fn offers(options: Seq<String>, choice: Seq<char>) -> bool {
    exists|i: int| 0 <= i < options.len() && #[trigger] options[i]@ == choice
}

impl<'o> Options<'o> {
    /// The texts offered, in order.
    pub closed spec fn items(&self) -> Seq<String> {
        self.options@
    }

    /// Offers `values`, in their order.
    pub fn new(values: &'o [String]) -> (r: Self)
        ensures
            r.items() == values@,
    {
        Self { options: values }
    }

    /// The text chosen by `choice`: a number picks the option at that
    /// position, counting from 1 (nothing when out of range); any other text
    /// picks the option equal to it, if there is one.
    pub fn evaluate(&self, choice: &str) -> (r: Option<String>)
        ensures
            match parsed_usize(choice@) {
                Some(n) => r == if 1 <= n <= self.items().len() {
                    Some(self.items()[n - 1])
                } else {
                    None::<String>
                },
                None => (r is Some <==> offers(self.items(), choice@)) && (r matches Some(s)
                    ==> s@ == choice@),
            },
    {
        match parse_usize(choice) {
            Some(index) => {
                if index == 0 || index > self.options.len() {
                    return None;
                }
                Some(self.options[index - 1].clone())
            },
            None => {
                let target = String::from_str(choice);
                let mut i: usize = 0;
                while i < self.options.len()
                    invariant
                        i <= self.options@.len(),
                        target@ == choice@,
                        parsed_usize(choice@) is None,
                        forall|j: int| 0 <= j < i ==> #[trigger] self.options@[j]@ != choice@,
                    decreases self.options@.len() - i,
                {
                    if self.options[i] == target {
                        assert(self.options@[i as int]@ == choice@);
                        return Some(self.options[i].clone());
                    }
                    i = i + 1;
                }
                None
            },
        }
    }

    /// The options numbered from 1, one per line: `1.) first`.
    pub fn display(&self) -> (r: String)
        ensures
            r@ == numbered(views(self.items()), seq!['\n']),
    {
        pretty_interface(self.options)
    }
}

} // verus!
