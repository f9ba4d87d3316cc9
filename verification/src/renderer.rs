//! Turning a session into display cells: a header line and one cell per
//! visible row.

use vstd::prelude::*;
use vstd::string::*;
use crate::digits::{dec_chars, usize_to_string};
use crate::search::{top_frame, wf, Search};
use crate::text::{text_wf, Text};

verus! {

/// The header line: `{match count} > {query}`.
pub open spec fn header_of(s: Search) -> Seq<char> {
    dec_chars(top_frame(s).len() as int) + " > "@ + s.query@
}

/// The cell shown on `row`: the match there, highlighted under the cursor,
/// or blank past the end of the result.
pub open spec fn row_of(s: Search, row: int) -> Text {
    if row < s.result@.len() {
        if row == s.current {
            Text::Highlight(s.result@[row].original)
        } else {
            Text::Colored(s.result@[row])
        }
    } else {
        Text::Blank
    }
}

/// Renders sessions into display cells.
pub struct Renderer;

impl Renderer {
    /// The cells of one frame: the header, then one cell per visible row.
    pub fn render(&self, search: &Search) -> (r: Vec<Text>)
        requires
            wf(*search),
        ensures
            r@.len() == 1 + search.visible_limit,
            r@[0] matches Text::Normal(h) && h@ == header_of(*search),
            forall|p: int| 1 <= p < r@.len() ==> r@[p] == row_of(*search, p - 1),
            forall|p: int| 0 <= p < r@.len() ==> text_wf(#[trigger] r@[p]),
    {
        let mut result: Vec<Text> = Vec::new();
        result.push(Text::Normal(self.header(search)));
        let mut position: usize = 0;
        while position < search.visible_limit
            invariant
                wf(*search),
                position <= search.visible_limit,
                result@.len() == 1 + position,
                result@[0] matches Text::Normal(h) && h@ == header_of(*search),
                forall|p: int| 1 <= p < result@.len() ==> result@[p] == row_of(*search, p - 1),
                forall|p: int| 0 <= p < result@.len() ==> text_wf(#[trigger] result@[p]),
            decreases search.visible_limit - position,
        {
            let element = if position < search.result.len() {
                if position == search.current {
                    Text::Highlight(search.result[position].original.clone())
                } else {
                    Text::Colored(search.result[position].duplicate())
                }
            } else {
                Text::Blank
            };
            result.push(element);
            position = position + 1;
        }
        result
    }

    /// The header line for `search`.
    pub fn header(&self, search: &Search) -> (r: String)
        requires
            wf(*search),
        ensures
            r@ == header_of(*search),
    {
        let mut r = usize_to_string(search.num_matches());
        r.append(" > ");
        r.append(search.query.as_str());
        r
    }
}

} // verus!
