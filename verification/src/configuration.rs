//! The run configuration: the corpus, an optional initial query, and how
//! many result rows are shown.

use vstd::prelude::*;
use vstd::string::*;

verus! {

/// What one interactive run works with.
pub struct Configuration {
    pub choices: Vec<String>,
    pub visible_limit: usize,
    pub initial_search: String,
}

impl Configuration {
    /// Fills the gaps: without a limit every choice may be shown, without an
    /// initial query the search starts empty.
    pub fn from_inputs(
        choices: &Vec<String>,
        initial_search: Option<String>,
        visible_limit: Option<usize>,
    ) -> (c: Configuration)
        ensures
            c.choices@ == choices@,
            c.visible_limit == match visible_limit {
                Some(l) => l as int,
                None => choices@.len() as int,
            },
            c.initial_search@ == match initial_search {
                Some(s) => s@,
                None => Seq::<char>::empty(),
            },
    {
        let limit = match visible_limit {
            Some(l) => l,
            None => choices.len(),
        };
        let search = match initial_search {
            Some(s) => s,
            None => String::new(),
        };
        Configuration {
            choices: crate::clone_strings(choices),
            initial_search: search,
            visible_limit: limit,
        }
    }
}

} // verus!
