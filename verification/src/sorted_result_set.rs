//! The bounded top-K selector: holds at most `size` matches, best first,
//! evicting the lowest grade when full. Kept as a sorted vector whose exact
//! contents are pinned down by [`insert_bounded`]; ties in grade keep the
//! earlier entry first, so ranking is deterministic.

use vstd::prelude::*;
use crate::score::{quality_ge, match_wf, Match};

verus! {

/// `s` is ordered by descending grade.
pub open spec fn sorted_desc(s: Seq<Match>) -> bool {
    forall|i: int| 0 <= i < s.len() - 1 ==> quality_ge(#[trigger] s[i].quality, s[i + 1].quality)
}

/// All grades in `s` stem from queries of the same length as `m`'s, so they
/// compare exactly by window and choice length.
pub open spec fn same_query_len(s: Seq<Match>, m: Match) -> bool {
    forall|i: int| 0 <= i < s.len() ==> (#[trigger] s[i].quality).query_len == m.quality.query_len
}

/// Where a new match lands in a descending list: after every entry that
/// grades at least as high (so an equal grade keeps the earlier entry
/// first), before the rest.
pub open spec fn insert_desc(s: Seq<Match>, m: Match) -> Seq<Match>
    decreases s.len(),
{
    if s.len() > 0 && quality_ge(s[0].quality, m.quality) {
        seq![s[0]] + insert_desc(s.drop_first(), m)
    } else {
        seq![m] + s
    }
}

/// Insertion into a list capped at `k` entries: the lowest grade falls off.
pub open spec fn insert_bounded(s: Seq<Match>, m: Match, k: nat) -> Seq<Match> {
    let t = insert_desc(s, m);
    if t.len() > k {
        t.take(k as int)
    } else {
        t
    }
}

/// A selector that retains the `size` best matches seen so far.
pub struct SortedResultSet {
    pub results: Vec<Match>,
    pub size: usize,
}

/// The held matches are well formed, ordered by descending grade, within
/// capacity, and graded against one query.
pub open spec fn set_wf(s: SortedResultSet) -> bool {
    &&& sorted_desc(s.results@)
    &&& s.results@.len() <= s.size
    &&& forall|i: int| 0 <= i < s.results@.len() ==> match_wf(#[trigger] s.results@[i])
    &&& forall|i: int, j: int|
        0 <= i < s.results@.len() && 0 <= j < s.results@.len() ==> (#[trigger] s.results@[i]).quality.query_len
            == (#[trigger] s.results@[j]).quality.query_len
}

impl SortedResultSet {
    /// An empty selector with capacity `size`.
    pub fn new(size: usize) -> (r: SortedResultSet)
        ensures
            set_wf(r),
            r.results@ == Seq::<Match>::empty(),
            r.size == size,
    {
        SortedResultSet { results: Vec::new(), size }
    }

    /// Offers one match: it is ranked into place, and the lowest grade is
    /// dropped if the selector would exceed its capacity.
    pub fn push(&mut self, m: Match)
        requires
            set_wf(*old(self)),
            match_wf(m),
            same_query_len(old(self).results@, m),
        ensures
            set_wf(*final(self)),
            final(self).size == old(self).size,
            final(self).results@ == insert_bounded(old(self).results@, m, old(self).size as nat),
            same_query_len(final(self).results@, m),
    {
        let ghost s0 = self.results@;
        let mut i: usize = 0;
        while i < self.results.len()
            invariant
                set_wf(*self),
                self.results@ == s0,
                i <= s0.len(),
                match_wf(m),
                same_query_len(s0, m),
                forall|j: int| 0 <= j < i ==> quality_ge(#[trigger] s0[j].quality, m.quality),
            ensures
                i <= s0.len(),
                forall|j: int| 0 <= j < i ==> quality_ge(#[trigger] s0[j].quality, m.quality),
                i < s0.len() ==> !quality_ge(s0[i as int].quality, m.quality),
            decreases s0.len() - i,
        {
            if !self.results[i].quality.ge(&m.quality) {
                break;
            }
            i = i + 1;
        }
        proof {
            lemma_insert_desc_at(s0, m, i as int);
        }
        let ghost full = s0.subrange(0, i as int) + seq![m] + s0.subrange(i as int, s0.len() as int);
        self.results.insert(i, m);
        proof {
            assert(self.results@ =~= full);
        }
        if self.results.len() > self.size {
            self.results.pop();
            proof {
                assert(self.results@ =~= full.take(self.size as int));
                assert(self.results@ =~= insert_bounded(s0, m, self.size as nat));
            }
        }
        proof {
            let t = self.results@;
            assert forall|p: int| 0 <= p < t.len() - 1 implies quality_ge(
                #[trigger] t[p].quality,
                t[p + 1].quality,
            ) by {
                assert(t[p] == full[p] && t[p + 1] == full[p + 1]);
                if p + 1 < i {
                    assert(full[p] == s0[p] && full[p + 1] == s0[p + 1]);
                    assert(quality_ge(s0[p].quality, s0[p + 1].quality));
                } else if p + 1 == i {
                    assert(full[p] == s0[p] && full[p + 1] == m);
                } else if p == i {
                    assert(full[p] == m && full[p + 1] == s0[p]);
                } else {
                    assert(full[p] == s0[p - 1] && full[p + 1] == s0[p]);
                    assert(quality_ge(s0[p - 1].quality, s0[p].quality));
                }
            }
            assert forall|p: int| 0 <= p < t.len() implies match_wf(#[trigger] t[p]) by {
                assert(t[p] == full[p]);
            }
            assert forall|p: int| 0 <= p < t.len() implies (#[trigger] t[p]).quality.query_len
                == m.quality.query_len by {
                assert(t[p] == full[p]);
            }
        }
    }

    /// The retained matches, best grade first.
    pub fn sorted_vec(self) -> (r: Vec<Match>)
        ensures
            r@ == self.results@,
    {
        self.results
    }
}

/// Scanning to the first entry that grades below `m` finds exactly the spot
/// where [`insert_desc`] places it.
proof fn lemma_insert_desc_at(s: Seq<Match>, m: Match, i: int)
    requires
        0 <= i <= s.len(),
        forall|j: int| 0 <= j < i ==> quality_ge(#[trigger] s[j].quality, m.quality),
        i < s.len() ==> !quality_ge(s[i].quality, m.quality),
    ensures
        insert_desc(s, m) == s.subrange(0, i) + seq![m] + s.subrange(i, s.len() as int),
    decreases i,
{
    if i == 0 {
        assert(insert_desc(s, m) =~= s.subrange(0, 0) + seq![m] + s.subrange(0, s.len() as int));
    } else {
        assert(quality_ge(s[0].quality, m.quality));
        let tail = s.drop_first();
        lemma_insert_desc_at(tail, m, i - 1);
        assert(seq![s[0]] + (tail.subrange(0, i - 1) + seq![m] + tail.subrange(
            i - 1,
            tail.len() as int,
        )) =~= s.subrange(0, i) + seq![m] + s.subrange(i, s.len() as int));
    }
}

/// Inserting into a descending list keeps it descending.
pub proof fn lemma_insert_desc_sorted(s: Seq<Match>, m: Match)
    requires
        sorted_desc(s),
    ensures
        sorted_desc(insert_desc(s, m)),
        insert_desc(s, m).len() == s.len() + 1,
    decreases s.len(),
{
    if s.len() > 0 && quality_ge(s[0].quality, m.quality) {
        assert(sorted_desc(s.drop_first()));
        lemma_insert_desc_sorted(s.drop_first(), m);
        let t = seq![s[0]] + insert_desc(s.drop_first(), m);
        let u = insert_desc(s.drop_first(), m);
        assert forall|i: int| 0 <= i < t.len() - 1 implies quality_ge(
            #[trigger] t[i].quality,
            t[i + 1].quality,
        ) by {
            if i == 0 {
                if s.len() > 1 && quality_ge(s.drop_first()[0].quality, m.quality) {
                    assert(t[1] == s.drop_first()[0]);
                    assert(quality_ge(s[0].quality, s[1].quality));
                } else {
                    assert(t[1] == m);
                }
            } else {
                assert(t[i] == u[i - 1] && t[i + 1] == u[i]);
            }
        }
    } else {
    }
}

/// Every entry of the inserted list is the new match or one of the old ones.
pub proof fn lemma_insert_desc_membership(s: Seq<Match>, m: Match)
    ensures
        forall|i: int|
            0 <= i < insert_desc(s, m).len() ==> (#[trigger] insert_desc(s, m)[i] == m
                || exists|j: int| 0 <= j < s.len() && insert_desc(s, m)[i] == s[j]),
    decreases s.len(),
{
    let t = insert_desc(s, m);
    if s.len() > 0 && quality_ge(s[0].quality, m.quality) {
        lemma_insert_desc_membership(s.drop_first(), m);
        let u = insert_desc(s.drop_first(), m);
        assert forall|i: int|
            0 <= i < t.len() implies (#[trigger] t[i] == m || exists|j: int|
            0 <= j < s.len() && t[i] == s[j]) by {
            if i == 0 {
                assert(t[0] == s[0]);
            } else {
                assert(t[i] == u[i - 1]);
                if u[i - 1] == m {
                } else {
                    let j0 = choose|j: int| 0 <= j < s.drop_first().len() && u[i - 1] == s.drop_first()[j];
                    assert(t[i] == s[j0 + 1]);
                }
            }
        }
    } else {
    }
}

} // verus!
