//! The search session: the current query, a stack of candidate pools (one
//! frame per typed character, for incremental narrowing and exact backspace
//! undo), the ranked result, and a cyclic selection cursor.

use vstd::prelude::*;
use vstd::string::*;
use crate::score::{
    score_chars, score_model, lower_seq, lower_chars_of, match_wf, empty_match, Match,
};
use crate::sorted_result_set::{
    SortedResultSet, set_wf, sorted_desc, insert_bounded, insert_desc,
    lemma_insert_desc_sorted,
};

verus! {

/// The identity frame: every corpus index, in corpus order.
pub open spec fn idx_seq(n: nat) -> Seq<usize> {
    Seq::new(n, |i: int| i as usize)
}

/// The indices of `frame` whose choices match `q`, in frame order.
pub open spec fn matching(choices: Seq<String>, frame: Seq<usize>, q: Seq<char>) -> Seq<usize>
    decreases frame.len(),
{
    if frame.len() == 0 {
        Seq::empty()
    } else {
        let prev = matching(choices, frame.drop_last(), q);
        if score_model(choices[frame.last() as int], q) is Some {
            prev.push(frame.last())
        } else {
            prev
        }
    }
}

/// The ranked result of scoring `frame` against `q`: each match is ranked
/// into a list capped at `k` entries, best grade first, earlier choices
/// first among equal grades.
pub open spec fn ranked(choices: Seq<String>, frame: Seq<usize>, q: Seq<char>, k: nat) -> Seq<Match>
    decreases frame.len(),
{
    if frame.len() == 0 {
        Seq::empty()
    } else {
        let prev = ranked(choices, frame.drop_last(), q, k);
        match score_model(choices[frame.last() as int], q) {
            None => prev,
            Some(m) => insert_bounded(prev, m, k),
        }
    }
}

/// The result `blank` seeds before any filtering: the first `k` choices in
/// corpus order, each a trivial match of the empty query.
pub open spec fn seeded(choices: Seq<String>, k: nat) -> Seq<Match> {
    Seq::new(if k <= choices.len() { k } else { choices.len() }, |i: int| empty_match(choices[i]))
}

/// The stack of candidate pools: one frame of corpus indices per query
/// length, the full corpus always at the bottom.
pub struct ChoiceStack {
    pub content: Vec<Vec<usize>>,
}

/// The frames of the stack, bottom first, as sequences of corpus indices.
pub open spec fn frames(cs: ChoiceStack) -> Seq<Seq<usize>> {
    Seq::new(cs.content@.len(), |i: int| cs.content@[i]@)
}

impl ChoiceStack {
    /// A stack whose single base frame holds every index of `input`.
    pub fn new(input: &Vec<String>) -> (r: ChoiceStack)
        ensures
            frames(r) == seq![idx_seq(input@.len())],
    {
        let n = input.len();
        let mut base: Vec<usize> = Vec::new();
        let mut i: usize = 0;
        while i < n
            invariant
                i <= n,
                base@.len() == i,
                forall|j: int| 0 <= j < i ==> base@[j] == j,
            decreases n - i,
        {
            base.push(i);
            i = i + 1;
        }
        let r = ChoiceStack { content: vec![base] };
        proof {
            assert(base@ =~= idx_seq(input@.len()));
            assert(frames(r) =~= seq![idx_seq(input@.len())]);
        }
        r
    }

    /// Pushes a new top frame.
    pub fn push(&mut self, frame: Vec<usize>)
        ensures
            frames(*final(self)) == frames(*old(self)).push(frame@),
    {
        self.content.push(frame);
        proof {
            assert(frames(*self) =~= frames(*old(self)).push(frame@));
        }
    }

    /// Pops the top frame, but never the base frame.
    pub fn pop(&mut self)
        requires
            frames(*old(self)).len() >= 1,
        ensures
            frames(*final(self)) == if frames(*old(self)).len() > 1 {
                frames(*old(self)).drop_last()
            } else {
                frames(*old(self))
            },
    {
        if self.content.len() > 1 {
            self.content.pop();
            proof {
                assert(frames(*self) =~= frames(*old(self)).drop_last());
            }
        }
    }

    /// The top frame.
    pub fn peek(&self) -> (r: &Vec<usize>)
        requires
            frames(*self).len() >= 1,
        ensures
            r@ == frames(*self).last(),
    {
        let n = self.content.len();
        &self.content[n - 1]
    }

    /// The size of the top frame.
    pub fn last_size(&self) -> (r: usize)
        requires
            frames(*self).len() >= 1,
        ensures
            r == frames(*self).last().len(),
    {
        self.peek().len()
    }
}

/// One interactive search: the corpus, the query typed so far, the stack of
/// candidate pools, the ranked result, the cursor and the terminal flag.
pub struct Search {
    pub query: String,
    pub current: usize,
    pub result: Vec<Match>,
    pub choice_stack: ChoiceStack,
    pub visible_limit: usize,
    pub done: bool,
    pub choices: Vec<String>,
}

/// The text under the cursor, or nothing when the result is empty (or the
/// cursor is past it).
pub open spec fn selection_of(s: Search) -> Option<String> {
    if (s.current as int) < s.result@.len() {
        Some(s.result@[s.current as int].original)
    } else {
        None
    }
}

/// The top candidate pool.
pub open spec fn top_frame(s: Search) -> Seq<usize> {
    frames(s.choice_stack).last()
}

/// How many rows the cursor can reach: the smaller of the visible limit and
/// the current pool size.
pub open spec fn actual_limit_of(s: Search) -> int {
    if s.visible_limit <= top_frame(s).len() {
        s.visible_limit as int
    } else {
        top_frame(s).len() as int
    }
}

/// Structural soundness of a session: at least the base frame, frame entries
/// index the corpus, the result is bounded, sorted, well formed, and the
/// cursor is in range.
pub open spec fn wf(s: Search) -> bool {
    &&& frames(s.choice_stack).len() >= 1
    &&& forall|i: int, j: int|
        0 <= i < frames(s.choice_stack).len() && 0 <= j < frames(s.choice_stack)[i].len()
            ==> (#[trigger] frames(s.choice_stack)[i][j]) < s.choices@.len()
    &&& s.result@.len() <= s.visible_limit
    &&& sorted_desc(s.result@)
    &&& forall|i: int| 0 <= i < s.result@.len() ==> match_wf(#[trigger] s.result@[i])
    &&& (s.current == 0 || (s.current as int) < actual_limit_of(s))
}

/// The displayed result is exactly the ranking of the top pool against the
/// current query. `blank` establishes this only when no initial query is
/// stored unapplied; every filtering transition re-establishes it.
pub open spec fn coherent(s: Search) -> bool {
    s.result@ == ranked(s.choices@, top_frame(s), lower_seq(s.query@), s.visible_limit as nat)
}

/// The shape `blank` gives a fresh session: the base pool holds the whole
/// corpus, the first `k` choices are shown in corpus order as trivial
/// matches, the stored query is the initial one, and nothing is done yet.
pub open spec fn blank_shape(s: Search, choices: Seq<String>, initial: Option<String>, k: usize) -> bool {
    &&& wf(s)
    &&& s.choices@ == choices
    &&& s.visible_limit == k
    &&& s.done == false
    &&& s.current == 0
    &&& frames(s.choice_stack) == seq![idx_seq(choices.len())]
    &&& s.query@ == match initial {
        Some(q) => q@,
        None => Seq::<char>::empty(),
    }
    &&& s.result@ == seeded(choices, k as nat)
}

/// What `append_to_search` does: the query grows by `input`, the matching
/// subset of the old top pool becomes the new top frame, and the result is
/// the ranking of the old top pool against the new query.
pub open spec fn append_rel(s: Search, input: Seq<char>, r: Search) -> bool {
    &&& r.choices@ == s.choices@
    &&& r.visible_limit == s.visible_limit
    &&& r.done == s.done
    &&& r.current == 0
    &&& r.query@ == s.query@ + input
    &&& frames(r.choice_stack) == frames(s.choice_stack).push(
        matching(s.choices@, top_frame(s), lower_seq(s.query@ + input)),
    )
    &&& r.result@ == ranked(s.choices@, top_frame(s), lower_seq(s.query@ + input), s.visible_limit as nat)
}

/// What `backspace` does: the query loses its last character, the top frame
/// is popped (never the base), and the result is the ranking of the exposed
/// pool against the shortened query.
pub open spec fn backspace_rel(s: Search, r: Search) -> bool {
    let q2 = if s.query@.len() > 0 {
        s.query@.drop_last()
    } else {
        s.query@
    };
    let fr2 = if frames(s.choice_stack).len() > 1 {
        frames(s.choice_stack).drop_last()
    } else {
        frames(s.choice_stack)
    };
    &&& r.choices@ == s.choices@
    &&& r.visible_limit == s.visible_limit
    &&& r.done == s.done
    &&& r.current == 0
    &&& r.query@ == q2
    &&& frames(r.choice_stack) == fr2
    &&& r.result@ == ranked(s.choices@, fr2.last(), lower_seq(q2), s.visible_limit as nat)
}

/// Where the cursor lands after one `down`.
pub open spec fn down_cursor(cur: int, al: int) -> int {
    if cur + 1 >= al {
        0
    } else {
        cur + 1
    }
}

/// Where the cursor lands after one `up`.
pub open spec fn up_cursor(cur: int, al: int) -> int {
    if al == 0 {
        0
    } else if cur == 0 {
        al - 1
    } else {
        cur - 1
    }
}

/// What `down` does: only the cursor moves, cyclically.
pub open spec fn down_rel(s: Search, r: Search) -> bool {
    &&& r.choices@ == s.choices@
    &&& r.visible_limit == s.visible_limit
    &&& r.done == s.done
    &&& r.query@ == s.query@
    &&& frames(r.choice_stack) == frames(s.choice_stack)
    &&& r.result@ == s.result@
    &&& r.current as int == down_cursor(s.current as int, actual_limit_of(s))
}

/// What `up` does: only the cursor moves, cyclically.
pub open spec fn up_rel(s: Search, r: Search) -> bool {
    &&& r.choices@ == s.choices@
    &&& r.visible_limit == s.visible_limit
    &&& r.done == s.done
    &&& r.query@ == s.query@
    &&& frames(r.choice_stack) == frames(s.choice_stack)
    &&& r.result@ == s.result@
    &&& r.current as int == up_cursor(s.current as int, actual_limit_of(s))
}

/// Scores every choice of `frame` against the decomposed query `lq`:
/// returns the ranked top `limit` matches and the indices of all matching
/// choices, in frame order.
fn rank_frame(choices: &Vec<String>, frame: &Vec<usize>, lq: &Vec<char>, limit: usize) -> (r: (
    Vec<Match>,
    Vec<usize>,
))
    requires
        forall|j: int| 0 <= j < frame@.len() ==> (#[trigger] frame@[j]) < choices@.len(),
    ensures
        r.0@ == ranked(choices@, frame@, lq@, limit as nat),
        r.1@ == matching(choices@, frame@, lq@),
        sorted_desc(r.0@),
        r.0@.len() <= limit,
        forall|i: int| 0 <= i < r.0@.len() ==> match_wf(#[trigger] r.0@[i]),
        forall|j: int| 0 <= j < r.1@.len() ==> (#[trigger] r.1@[j]) < choices@.len(),
{
    let qn = lq.len();
    let ghost qlen: nat = if lq@.len() == 0 {
        1
    } else {
        lq@.len()
    };
    proof {
        assert(qn == lq@.len());
    }
    let mut heap = SortedResultSet::new(limit);
    let mut filtered: Vec<usize> = Vec::new();
    let n = frame.len();
    let mut i: usize = 0;
    while i < n
        invariant
            n == frame@.len(),
            qn == lq@.len(),
            qlen == if lq@.len() == 0 {
                1nat
            } else {
                lq@.len()
            },
            i <= n,
            forall|j: int| 0 <= j < frame@.len() ==> (#[trigger] frame@[j]) < choices@.len(),
            set_wf(heap),
            heap.size == limit,
            heap.results@ == ranked(choices@, frame@.take(i as int), lq@, limit as nat),
            forall|p: int|
                0 <= p < heap.results@.len() ==> (#[trigger] heap.results@[p]).quality.query_len
                    == qlen,
            filtered@ == matching(choices@, frame@.take(i as int), lq@),
            forall|j: int| 0 <= j < filtered@.len() ==> (#[trigger] filtered@[j]) < choices@.len(),
        decreases n - i,
    {
        let idx = frame[i];
        proof {
            assert(frame@.take(i + 1).drop_last() =~= frame@.take(i as int));
            assert(frame@.take(i + 1).last() == frame@[i as int]);
        }
        match score_chars(&choices[idx], lq) {
            Some(m) => {
                proof {
                    assert(m.quality.query_len == qlen);
                }
                heap.push(m);
                filtered.push(idx);
            },
            None => {},
        }
        i = i + 1;
    }
    proof {
        assert(frame@.take(n as int) =~= frame@);
    }
    (heap.sorted_vec(), filtered)
}

/// Scoring the matching subset gives the same ranking as scoring the whole
/// pool: the dropped choices contributed nothing.
proof fn lemma_ranked_matching(choices: Seq<String>, frame: Seq<usize>, q: Seq<char>, k: nat)
    ensures
        ranked(choices, matching(choices, frame, q), q, k) == ranked(choices, frame, q, k),
    decreases frame.len(),
{
    if frame.len() == 0 {
    } else {
        lemma_ranked_matching(choices, frame.drop_last(), q, k);
        if score_model(choices[frame.last() as int], q) is Some {
            let prevm = matching(choices, frame.drop_last(), q);
            assert(prevm.push(frame.last()).drop_last() =~= prevm);
            assert(prevm.push(frame.last()).last() == frame.last());
        }
    }
}

impl Search {
    /// Assembles a session from its parts.
    fn new(
        query: String,
        choice_stack: ChoiceStack,
        result: Vec<Match>,
        index: usize,
        visible_limit: usize,
        done: bool,
        choices: Vec<String>,
    ) -> (s: Search)
        ensures
            s == (Search {
                query,
                current: index,
                result,
                choice_stack,
                visible_limit,
                done,
                choices,
            }),
    {
        Search { query, current: index, result, choice_stack, visible_limit, done, choices }
    }

    /// A fresh session: the base pool holds the whole corpus, the first
    /// `visible_limit` choices are shown in corpus order as trivial matches,
    /// and the cursor rests on the first row. An initial query is stored but
    /// not yet applied as a filter.
    pub fn blank(choices: &Vec<String>, initial_search: Option<String>, visible_limit: usize) -> (s:
        Search)
        ensures
            wf(s),
            blank_shape(s, choices@, initial_search, visible_limit),
    {
        let query = match initial_search {
            Some(q) => q,
            None => String::new(),
        };
        let choice_stack = ChoiceStack::new(choices);
        let n = choices.len();
        let count = if visible_limit <= n {
            visible_limit
        } else {
            n
        };
        let mut result: Vec<Match> = Vec::new();
        let mut i: usize = 0;
        while i < count
            invariant
                count <= choices@.len(),
                i <= count,
                result@.len() == i,
                forall|j: int| 0 <= j < i ==> result@[j] == empty_match(choices@[j]),
            decreases count - i,
        {
            result.push(Match::with_empty_range(&choices[i]));
            i = i + 1;
        }
        let s = Search::new(query, choice_stack, result, 0, visible_limit, false, crate::clone_strings(
            choices,
        ));
        proof {
            assert(s.result@ =~= seeded(choices@, visible_limit as nat));
        }
        s
    }

    /// Whether `done` has been called.
    pub fn is_done(&self) -> (r: bool)
        ensures
            r == self.done,
    {
        self.done
    }

    /// Marks the session finished; nothing else changes, and nothing leaves
    /// this state.
    pub fn done(self) -> (r: Search)
        ensures
            r == (Search { done: true, ..self }),
            wf(self) ==> wf(r),
    {
        Search { done: true, ..self }
    }

    /// The text of the choice under the cursor, or nothing when the result
    /// is empty (or the cursor is past it).
    pub fn selection(&self) -> (r: Option<String>)
        ensures
            r == selection_of(*self),
    {
        if self.current < self.result.len() {
            Some(self.result[self.current].original.clone())
        } else {
            None
        }
    }

    /// All matches of `query` among `choices`, in corpus order. The query is
    /// lower-cased before scoring, so matching is case-insensitive.
    pub fn iter_matches(query: &str, choices: &Vec<String>) -> (r: Vec<Match>)
        ensures
            r@ == all_matches(choices@, lower_seq(query@), choices@.len() as int),
    {
        let lq = lower_chars_of(query);
        let mut r: Vec<Match> = Vec::new();
        let mut i: usize = 0;
        while i < choices.len()
            invariant
                i <= choices@.len(),
                lq@ == lower_seq(query@),
                r@ == all_matches(choices@, lq@, i as int),
            decreases choices@.len() - i,
        {
            match score_chars(&choices[i], &lq) {
                Some(m) => {
                    r.push(m);
                },
                None => {},
            }
            i = i + 1;
        }
        r
    }

    /// Moves the cursor one row down, wrapping to the top.
    pub fn down(self) -> (r: Search)
        requires
            wf(self),
        ensures
            wf(r),
            down_rel(self, r),
    {
        let next_index = self.next_index();
        self.new_for_index(next_index)
    }

    /// Moves the cursor one row up, wrapping to the bottom.
    pub fn up(self) -> (r: Search)
        requires
            wf(self),
        ensures
            wf(r),
            up_rel(self, r),
    {
        let prev_index = self.prev_index();
        self.new_for_index(prev_index)
    }

    /// Appends `input` to the query, filters the current pool down to the
    /// choices that still match, pushes them as the new top frame, and
    /// re-ranks them. The cursor returns to the first row.
    pub fn append_to_search(self, input: &str) -> (r: Search)
        requires
            wf(self),
        ensures
            wf(r),
            append_rel(self, input@, r),
            coherent(r),
    {
        let mut new_query = self.query.clone();
        new_query.append(input);
        let lq = lower_chars_of(new_query.as_str());
        let (result, filtered) = {
            let top = self.choice_stack.peek();
            rank_frame(&self.choices, top, &lq, self.visible_limit)
        };
        let Search { query: _, current: _, result: _, mut choice_stack, visible_limit, done, choices } =
            self;
        choice_stack.push(filtered);
        let r = Search::new(new_query, choice_stack, result, 0, visible_limit, done, choices);
        proof {
            lemma_ranked_matching(r.choices@, top_frame(self), lq@, visible_limit as nat);
            assert(top_frame(r) == matching(r.choices@, top_frame(self), lq@));
        }
        r
    }

    /// Removes the last query character, pops the top pool (exposing the
    /// pool that belonged to the shorter query), and re-ranks it. The cursor
    /// returns to the first row. With an empty query this only re-ranks the
    /// base pool.
    pub fn backspace(self) -> (r: Search)
        requires
            wf(self),
        ensures
            wf(r),
            backspace_rel(self, r),
            coherent(r),
    {
        let n = self.query.as_str().unicode_len();
        let new_query = if n > 0 {
            String::from_str(self.query.as_str().substring_char(0, n - 1))
        } else {
            self.query.clone()
        };
        proof {
            if n > 0 {
                assert(self.query@.subrange(0, n - 1) =~= self.query@.drop_last());
            }
        }
        let lq = lower_chars_of(new_query.as_str());
        let Search { query: _, current: _, result: _, mut choice_stack, visible_limit, done, choices } =
            self;
        choice_stack.pop();
        let result = {
            let top = choice_stack.peek();
            rank_frame(&choices, top, &lq, visible_limit).0
        };
        let r = Search::new(new_query, choice_stack, result, 0, visible_limit, done, choices);
        r
    }

    /// The cursor row that one `down` selects.
    fn next_index(&self) -> (r: usize)
        requires
            wf(*self),
        ensures
            r as int == down_cursor(self.current as int, actual_limit_of(*self)),
    {
        let next_index = self.current + 1;
        if next_index >= self.actual_limit() {
            0
        } else {
            next_index
        }
    }

    /// The cursor row that one `up` selects.
    fn prev_index(&self) -> (r: usize)
        requires
            wf(*self),
        ensures
            r as int == up_cursor(self.current as int, actual_limit_of(*self)),
    {
        let limit = self.actual_limit();
        if limit == 0 {
            0
        } else if self.current == 0 {
            limit - 1
        } else {
            self.current - 1
        }
    }

    /// The same session with the cursor on `index`.
    fn new_for_index(self, index: usize) -> (r: Search)
        ensures
            r == (Search { current: index, ..self }),
    {
        Search { current: index, ..self }
    }

    /// How many rows the cursor can reach.
    fn actual_limit(&self) -> (r: usize)
        requires
            wf(*self),
        ensures
            r as int == actual_limit_of(*self),
    {
        let n = self.num_matches();
        if self.visible_limit <= n {
            self.visible_limit
        } else {
            n
        }
    }

    /// The true number of matching choices (the current pool size), which
    /// may exceed the number of displayed rows.
    pub fn num_matches(&self) -> (r: usize)
        requires
            wf(*self),
        ensures
            r == top_frame(*self).len(),
    {
        self.choice_stack.last_size()
    }
}

// ---------------------------------------------------------------------------
// Laws of the session.
// ---------------------------------------------------------------------------

/// Top-K bound, at the level of the ranking function: a ranked result never
/// exceeds `k` entries and is ordered by descending grade.
pub proof fn lemma_ranked_top_k_bound(choices: Seq<String>, frame: Seq<usize>, q: Seq<char>, k: nat)
    ensures
        ranked(choices, frame, q, k).len() <= k,
        sorted_desc(ranked(choices, frame, q, k)),
    decreases frame.len(),
{
    if frame.len() == 0 {
    } else {
        lemma_ranked_top_k_bound(choices, frame.drop_last(), q, k);
        let prev = ranked(choices, frame.drop_last(), q, k);
        match score_model(choices[frame.last() as int], q) {
            None => {},
            Some(m) => {
                lemma_insert_desc_sorted(prev, m);
                let t = insert_desc(prev, m);
                if t.len() > k {
                    let u = t.take(k as int);
                    assert forall|i: int| 0 <= i < u.len() - 1 implies
                        crate::score::quality_ge(#[trigger] u[i].quality, u[i + 1].quality) by {
                        assert(u[i] == t[i] && u[i + 1] == t[i + 1]);
                    }
                }
            },
        }
    }
}

/// Top-K bound, at the level of the session: the displayed result never
/// exceeds `visible_limit` rows and is ordered by descending grade.
pub proof fn lemma_top_k_bound(s: Search)
    requires
        wf(s),
    ensures
        s.result@.len() <= s.visible_limit,
        sorted_desc(s.result@),
{
}

/// Every entry of a ranked result is the score of some choice in the
/// scored pool: ranking invents nothing.
pub proof fn lemma_ranked_membership(choices: Seq<String>, frame: Seq<usize>, q: Seq<char>, k: nat)
    ensures
        forall|i: int|
            0 <= i < ranked(choices, frame, q, k).len() ==> exists|j: int|
                0 <= j < frame.len() && score_model(choices[frame[j] as int], q) == Some(
                    #[trigger] ranked(choices, frame, q, k)[i],
                ),
    decreases frame.len(),
{
    if frame.len() == 0 {
    } else {
        lemma_ranked_membership(choices, frame.drop_last(), q, k);
        let prev = ranked(choices, frame.drop_last(), q, k);
        let cur = ranked(choices, frame, q, k);
        match score_model(choices[frame.last() as int], q) {
            None => {
                assert forall|i: int| 0 <= i < cur.len() implies exists|j: int|
                    0 <= j < frame.len() && score_model(choices[frame[j] as int], q) == Some(
                        #[trigger] cur[i],
                    ) by {
                    let j0 = choose|j: int|
                        0 <= j < frame.drop_last().len() && score_model(
                            choices[frame.drop_last()[j] as int],
                            q,
                        ) == Some(cur[i]);
                    assert(frame[j0] == frame.drop_last()[j0]);
                }
            },
            Some(m) => {
                crate::sorted_result_set::lemma_insert_desc_membership(prev, m);
                let t = insert_desc(prev, m);
                assert forall|i: int| 0 <= i < cur.len() implies exists|j: int|
                    0 <= j < frame.len() && score_model(choices[frame[j] as int], q) == Some(
                        #[trigger] cur[i],
                    ) by {
                    assert(cur[i] == t[i]);
                    if t[i] == m {
                        assert(score_model(choices[frame[frame.len() - 1] as int], q) == Some(
                            cur[i],
                        ));
                    } else {
                        let p = choose|p: int| 0 <= p < prev.len() && t[i] == prev[p];
                        let j0 = choose|j: int|
                            0 <= j < frame.drop_last().len() && score_model(
                                choices[frame.drop_last()[j] as int],
                                q,
                            ) == Some(prev[p]);
                        assert(frame[j0] == frame.drop_last()[j0]);
                    }
                }
            },
        }
    }
}

/// Undo exactness: appending a character and then backspacing restores the
/// query, the pool stack (hence the match count) and the ranked result; only
/// the cursor is reset to the first row.
///
/// The premise `coherent(s)` holds of every session whose last filtering
/// step was `append_to_search` or `backspace` (their contracts state it),
/// and of a blank session without an initial query
/// ([`lemma_blank_coherent`]). A blank session with a stored, unapplied
/// initial query shows the unfiltered corpus, so backspacing after an
/// append there re-ranks against the stored query instead.
pub proof fn lemma_undo_exactness(s: Search, x: char, t: Search, u: Search)
    requires
        wf(s),
        coherent(s),
        append_rel(s, seq![x], t),
        backspace_rel(t, u),
    ensures
        u.query@ == s.query@,
        frames(u.choice_stack) == frames(s.choice_stack),
        top_frame(u).len() == top_frame(s).len(),
        u.result@ == s.result@,
        u.current == 0,
        u.choices@ == s.choices@,
        u.visible_limit == s.visible_limit,
        u.done == s.done,
{
    assert((s.query@ + seq![x]).drop_last() =~= s.query@);
    assert(frames(t.choice_stack).drop_last() =~= frames(s.choice_stack));
}

/// Cyclic navigation, at the level of the cursor: starting inside the
/// reachable rows, `down` applied once per reachable row returns the cursor
/// to its starting row.
pub proof fn lemma_cyclic_down(cur: int, al: int)
    requires
        0 <= al,
        cur == 0 || 0 <= cur < al,
    ensures
        down_n(cur, al, al as nat) == cur,
{
    if al == 0 {
    } else {
        lemma_down_n_adds(cur, al, al as nat);
    }
}

/// The cursor after `n` consecutive `down` steps.
pub open spec fn down_n(cur: int, al: int, n: nat) -> int
    decreases n,
{
    if n == 0 {
        cur
    } else {
        down_n(down_cursor(cur, al), al, (n - 1) as nat)
    }
}

/// Repeated `down` adds to the cursor, modulo the reachable rows.
proof fn lemma_down_n_adds(cur: int, al: int, k: nat)
    requires
        0 <= cur < al,
        k <= al,
    ensures
        down_n(cur, al, k) == if cur + k < al {
            cur + k
        } else {
            cur + k - al
        },
    decreases k,
{
    if k == 0 {
    } else {
        if cur + 1 < al {
            lemma_down_n_adds(cur + 1, al, (k - 1) as nat);
        } else {
            lemma_down_n_adds(0, al, (k - 1) as nat);
        }
    }
}

/// Cyclic navigation, at the level of the session: a chain of sessions each
/// one `down` from the last, as many steps as there are reachable rows,
/// ends with the cursor where it began.
pub proof fn lemma_cyclic_navigation(chain: Seq<Search>)
    requires
        chain.len() >= 1,
        wf(chain[0]),
        chain.len() == actual_limit_of(chain[0]) + 1,
        forall|i: int| 0 <= i < chain.len() - 1 ==> down_rel(#[trigger] chain[i], chain[i + 1]),
    ensures
        chain.last().current == chain[0].current,
{
    let al = actual_limit_of(chain[0]);
    assert forall|i: int| 0 <= i < chain.len() implies actual_limit_of(#[trigger] chain[i]) == al
        && chain[i].current as int == down_n(chain[0].current as int, al, i as nat) by {
        lemma_chain_down(chain, i);
    }
    lemma_cyclic_down(chain[0].current as int, al);
    assert(chain.last().current as int == down_n(chain[0].current as int, al, al as nat));
}

/// Along a chain of `down` steps the reachable-row count never changes and
/// the cursor follows `down_n`.
proof fn lemma_chain_down(chain: Seq<Search>, i: int)
    requires
        chain.len() >= 1,
        0 <= i < chain.len(),
        forall|j: int| 0 <= j < chain.len() - 1 ==> down_rel(#[trigger] chain[j], chain[j + 1]),
    ensures
        actual_limit_of(chain[i]) == actual_limit_of(chain[0]),
        chain[i].current as int == down_n(
            chain[0].current as int,
            actual_limit_of(chain[0]),
            i as nat,
        ),
    decreases i,
{
    if i == 0 {
    } else {
        lemma_chain_down(chain, i - 1);
        assert(down_rel(chain[i - 1], chain[i]));
        lemma_down_n_snoc(chain[0].current as int, actual_limit_of(chain[0]), (i - 1) as nat);
    }
}

/// Unrolling `down_n` from the far end.
proof fn lemma_down_n_snoc(cur: int, al: int, k: nat)
    ensures
        down_n(cur, al, k + 1) == down_cursor(down_n(cur, al, k), al),
    decreases k,
{
    if k == 0 {
        assert(down_n(cur, al, 1) == down_n(down_cursor(cur, al), al, 0));
    } else {
        lemma_down_n_snoc(down_cursor(cur, al), al, (k - 1) as nat);
        assert(down_n(cur, al, k + 1) == down_n(down_cursor(cur, al), al, k));
        assert(down_n(cur, al, k) == down_n(down_cursor(cur, al), al, (k - 1) as nat));
    }
}

/// With an empty query every choice matches trivially and with one grade, so
/// ranking keeps corpus order: the seeded result of `blank` is already the
/// ranking of the base pool.
pub proof fn lemma_blank_coherent(s: Search)
    requires
        s.query@.len() == 0,
        frames(s.choice_stack) == seq![idx_seq(s.choices@.len())],
        s.result@ == seeded(s.choices@, s.visible_limit as nat),
    ensures
        coherent(s),
{
    broadcast use vstd::std_specs::vec::axiom_spec_len;

    assert(s.choices.len() == s.choices@.len());
    assert(lower_seq(s.query@) =~= Seq::<char>::empty());
    lemma_ranked_empty_prefix(s.choices@, s.choices@.len() as int, s.visible_limit as nat);
    assert(top_frame(s) == idx_seq(s.choices@.len()));
    assert(idx_seq(s.choices@.len()).take(s.choices@.len() as int) =~= idx_seq(s.choices@.len()));
    assert(s.result@ =~= ranked(
        s.choices@,
        idx_seq(s.choices@.len()),
        Seq::<char>::empty(),
        s.visible_limit as nat,
    ));
}

/// Inserting a match that no held entry grades below lands at the end.
proof fn lemma_insert_desc_at_end(s: Seq<Match>, m: Match)
    requires
        forall|i: int| 0 <= i < s.len() ==> crate::score::quality_ge(#[trigger] s[i].quality, m.quality),
    ensures
        insert_desc(s, m) == s.push(m),
    decreases s.len(),
{
    if s.len() > 0 {
        lemma_insert_desc_at_end(s.drop_first(), m);
        assert(seq![s[0]] + s.drop_first().push(m) =~= s.push(m));
    } else {
        assert(insert_desc(s, m) =~= s.push(m));
    }
}

/// Ranking a prefix of the corpus against the empty query shows the first
/// `k` of those choices in corpus order.
proof fn lemma_ranked_empty_prefix(choices: Seq<String>, upto: int, k: nat)
    requires
        0 <= upto <= choices.len(),
        choices.len() <= usize::MAX,
    ensures
        ranked(choices, idx_seq(choices.len()).take(upto), Seq::<char>::empty(), k) == seeded(
            choices,
            k,
        ).take(if upto <= k { upto } else { k as int }),
    decreases upto,
{
    let frame = idx_seq(choices.len()).take(upto);
    let q = Seq::<char>::empty();
    if upto == 0 {
        assert(ranked(choices, frame, q, k) =~= seeded(choices, k).take(0));
    } else {
        lemma_ranked_empty_prefix(choices, upto - 1, k);
        assert(frame.drop_last() =~= idx_seq(choices.len()).take(upto - 1));
        assert(frame.last() == upto - 1);
        let prev = ranked(choices, frame.drop_last(), q, k);
        let m = empty_match(choices[upto - 1]);
        assert(score_model(choices[upto - 1], q) == Some(m));
        assert forall|i: int| 0 <= i < prev.len() implies crate::score::quality_ge(
            #[trigger] prev[i].quality,
            m.quality,
        ) by {
            assert(prev[i] == seeded(choices, k)[i]);
        }
        lemma_insert_desc_at_end(prev, m);
        if prev.len() + 1 > k {
            assert(prev.push(m).take(k as int) =~= prev);
            assert(ranked(choices, frame, q, k) =~= seeded(choices, k).take(
                if upto <= k {
                    upto
                } else {
                    k as int
                },
            ));
        } else {
            assert(prev.push(m) =~= seeded(choices, k).take(
                if upto <= k {
                    upto
                } else {
                    k as int
                },
            ));
        }
    }
}

/// The matches of the first `upto` choices against `q`, in corpus order.
pub open spec fn all_matches(choices: Seq<String>, q: Seq<char>, upto: int) -> Seq<Match>
    decreases upto,
{
    if upto <= 0 {
        Seq::empty()
    } else {
        let prev = all_matches(choices, q, upto - 1);
        match score_model(choices[upto - 1], q) {
            None => prev,
            Some(m) => prev.push(m),
        }
    }
}

} // verus!
