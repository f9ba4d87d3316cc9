//! The scorer: matches a query against a choice as an ordered character
//! subsequence (case-insensitive on the choice side) and grades the tightest
//! matching window.
//!
//! Matching works on characters throughout; for ASCII text the character
//! offsets coincide with the byte offsets of the displayed line.

use vstd::prelude::*;

verus! {

/// ASCII lower-casing of one character; everything else is unchanged.
pub open spec fn lower_char(c: char) -> char {
    match c {
        'A' => 'a',
        'B' => 'b',
        'C' => 'c',
        'D' => 'd',
        'E' => 'e',
        'F' => 'f',
        'G' => 'g',
        'H' => 'h',
        'I' => 'i',
        'J' => 'j',
        'K' => 'k',
        'L' => 'l',
        'M' => 'm',
        'N' => 'n',
        'O' => 'o',
        'P' => 'p',
        'Q' => 'q',
        'R' => 'r',
        'S' => 's',
        'T' => 't',
        'U' => 'u',
        'V' => 'v',
        'W' => 'w',
        'X' => 'x',
        'Y' => 'y',
        'Z' => 'z',
        _ => c,
    }
}

/// ASCII lower-casing of a whole character sequence.
pub open spec fn lower_seq(s: Seq<char>) -> Seq<char> {
    s.map_values(|c: char| lower_char(c))
}

/// `q` occurs in `c` as an ordered (not necessarily contiguous) subsequence.
pub open spec fn is_subseq(q: Seq<char>, c: Seq<char>) -> bool
    decreases q.len() + c.len(),
{
    if q.len() == 0 {
        true
    } else if c.len() == 0 {
        false
    } else if q[0] == c[0] {
        is_subseq(q.drop_first(), c.drop_first())
    } else {
        is_subseq(q, c.drop_first())
    }
}

/// Index of the first occurrence of `ch` in `c` at or after `off`.
pub open spec fn find_from(c: Seq<char>, ch: char, off: int) -> Option<int>
    decreases c.len() - off,
{
    if off >= c.len() {
        None
    } else if c[off] == ch {
        Some(off)
    } else {
        find_from(c, ch, off + 1)
    }
}

/// The end position of the greedy scan that matches `q[qi..]` strictly after
/// `pos`, taking the earliest occurrence of each query character in turn.
/// `pos` is the position where `q[qi - 1]` was matched.
pub open spec fn greedy_end(c: Seq<char>, q: Seq<char>, qi: int, pos: int) -> Option<int>
    decreases q.len() - qi,
{
    if qi >= q.len() {
        Some(pos)
    } else {
        match find_from(c, q[qi], pos + 1) {
            None => None,
            Some(n) => greedy_end(c, q, qi + 1, n),
        }
    }
}

/// The matching window that begins at `s`, as `(start, length)`: it exists
/// when `c[s]` equals the first query character and the remaining query
/// characters occur in order after it.
pub open spec fn window_at(c: Seq<char>, q: Seq<char>, s: int) -> Option<(int, int)> {
    if c[s] == q[0] {
        match greedy_end(c, q, 1, s) {
            None => None,
            Some(e) => Some((s, e - s + 1)),
        }
    } else {
        None
    }
}

/// Of two candidate windows, the shorter; the earlier (`a`) wins ties, and a
/// missing window loses to any present one.
pub open spec fn pick(a: Option<(int, int)>, r: Option<(int, int)>) -> Option<(int, int)> {
    match a {
        None => r,
        Some(x) => match r {
            None => a,
            Some(y) => if y.1 < x.1 {
                r
            } else {
                a
            },
        },
    }
}

/// The best matching window whose start lies at or after `s`: smallest
/// length, earliest start among equals.
pub open spec fn best_from(c: Seq<char>, q: Seq<char>, s: int) -> Option<(int, int)>
    decreases c.len() - s,
{
    if s >= c.len() {
        None
    } else {
        pick(window_at(c, q, s), best_from(c, q, s + 1))
    }
}

/// The grade of a match: `(query_len / window_len) / choice_len`, kept as the
/// three integer components so that grades compare exactly. Higher is better;
/// an empty query matches with the maximal grade `1`.
#[derive(Clone, Copy, Debug, PartialEq)]
pub struct Quality {
    pub query_len: usize,
    pub window_len: usize,
    pub choice_len: usize,
}

/// Grades denote positive rationals.
pub open spec fn quality_wf(q: Quality) -> bool {
    q.query_len >= 1 && q.window_len >= 1 && q.choice_len >= 1
}

/// `a` grades at least as high as `b`:
/// `a.query_len / (a.window_len * a.choice_len) >= b.query_len / (b.window_len * b.choice_len)`,
/// cross-multiplied so that only integers are compared.
pub open spec fn quality_ge(a: Quality, b: Quality) -> bool {
    a.query_len * (b.window_len * b.choice_len) >= b.query_len * (a.window_len * a.choice_len)
}

/// One scored choice: the grade, the matched window `[start, end)` in
/// character offsets, and the original text of the choice.
#[derive(Clone, Debug, PartialEq)]
pub struct Match {
    pub quality: Quality,
    pub start: usize,
    pub end: usize,
    pub original: String,
}

/// The window indexes the original text and the grade is a positive rational.
pub open spec fn match_wf(m: Match) -> bool {
    m.start <= m.end <= m.original@.len() && quality_wf(m.quality)
}

impl Quality {
    /// Compares two grades of the same ranking pass exactly. Both stem from
    /// one query, so the query components agree and cancel.
    pub(crate) fn ge(&self, other: &Quality) -> (r: bool)
        requires
            self.query_len == other.query_len,
            quality_wf(*self),
            quality_wf(*other),
        ensures
            r == quality_ge(*self, *other),
    {
        proof {
            lemma_mul_fits_u128(other.window_len as int, other.choice_len as int);
            lemma_mul_fits_u128(self.window_len as int, self.choice_len as int);
        }
        let lhs: u128 = (other.window_len as u128) * (other.choice_len as u128);
        let rhs: u128 = (self.window_len as u128) * (self.choice_len as u128);
        proof {
            lemma_cancel_common_factor(
                self.query_len as int,
                other.window_len as int * other.choice_len as int,
                self.window_len as int * self.choice_len as int,
            );
        }
        lhs >= rhs
    }
}

/// The product of two word-sized values fits in a `u128`.
proof fn lemma_mul_fits_u128(x: int, y: int)
    requires
        0 <= x <= u64::MAX,
        0 <= y <= u64::MAX,
    ensures
        x * y <= u128::MAX,
{
    assert(x * y <= u64::MAX * u64::MAX) by (nonlinear_arith)
        requires
            0 <= x <= u64::MAX,
            0 <= y <= u64::MAX,
    ;
}

/// For `q >= 1`: `q * x >= q * y` exactly when `x >= y`.
proof fn lemma_cancel_common_factor(q: int, x: int, y: int)
    requires
        q >= 1,
    ensures
        (q * x >= q * y) == (x >= y),
{
    assert((q * x >= q * y) == (x >= y)) by (nonlinear_arith)
        requires
            q >= 1,
    ;
}

impl Match {
    /// Builds a match from its parts.
    pub fn new(quality: Quality, start: usize, end: usize, original: String) -> (m: Match)
        ensures
            m == (Match { quality, start, end, original }),
    {
        Match { quality, start, end, original }
    }

    /// The trivial match of an empty query: maximal grade, empty window.
    pub fn with_empty_range(original: &String) -> (m: Match)
        ensures
            m == empty_match(*original),
    {
        Match {
            quality: Quality { query_len: 1, window_len: 1, choice_len: 1 },
            start: 0,
            end: 0,
            original: original.clone(),
        }
    }

    /// An equal match, built afresh.
    pub fn duplicate(&self) -> (r: Match)
        ensures
            r == *self,
    {
        Match {
            quality: self.quality,
            start: self.start,
            end: self.end,
            original: self.original.clone(),
        }
    }

    /// Splits the original text at the matched window: the part before it,
    /// the window itself, and the part after it.
    pub fn parts(&self) -> (r: (String, String, String))
        requires
            match_wf(*self),
        ensures
            r.0@ == self.original@.subrange(0, self.start as int),
            r.1@ == self.original@.subrange(self.start as int, self.end as int),
            r.2@ == self.original@.subrange(self.end as int, self.original@.len() as int),
    {
        let n = self.original.as_str().unicode_len();
        let before = self.original.as_str().substring_char(0, self.start);
        let middle = self.original.as_str().substring_char(self.start, self.end);
        let after = self.original.as_str().substring_char(self.end, n);
        (String::from_str(before), String::from_str(middle), String::from_str(after))
    }
}

/// The match every choice earns against an empty query.
pub open spec fn empty_match(original: String) -> Match {
    Match {
        quality: Quality { query_len: 1, window_len: 1, choice_len: 1 },
        start: 0,
        end: 0,
        original,
    }
}

/// What `score` returns: the trivial match for an empty query; otherwise the
/// best window of the lower-cased choice, graded by query length, window
/// length and choice length, or nothing when no window exists.
pub open spec fn score_model(choice: String, q: Seq<char>) -> Option<Match> {
    if q.len() == 0 {
        Some(empty_match(choice))
    } else {
        match best_from(lower_seq(choice@), q, 0) {
            None => None,
            Some(w) => Some(
                Match {
                    quality: Quality {
                        query_len: q.len() as usize,
                        window_len: w.1 as usize,
                        choice_len: choice@.len() as usize,
                    },
                    start: w.0 as usize,
                    end: (w.0 + w.1) as usize,
                    original: choice,
                },
            ),
        }
    }
}

/// Executable counterpart of [`lower_char`].
pub fn lower_char_exec(c: char) -> (r: char)
    ensures
        r == lower_char(c),
{
    match c {
        'A' => 'a',
        'B' => 'b',
        'C' => 'c',
        'D' => 'd',
        'E' => 'e',
        'F' => 'f',
        'G' => 'g',
        'H' => 'h',
        'I' => 'i',
        'J' => 'j',
        'K' => 'k',
        'L' => 'l',
        'M' => 'm',
        'N' => 'n',
        'O' => 'o',
        'P' => 'p',
        'Q' => 'q',
        'R' => 'r',
        'S' => 's',
        'T' => 't',
        'U' => 'u',
        'V' => 'v',
        'W' => 'w',
        'X' => 'x',
        'Y' => 'y',
        'Z' => 'z',
        _ => c,
    }
}

/// The characters of a string slice, as a vector.
pub fn chars_of(s: &str) -> (r: Vec<char>)
    ensures
        r@ == s@,
{
    let n = s.unicode_len();
    let mut r: Vec<char> = Vec::new();
    let mut i: usize = 0;
    while i < n
        invariant
            n == s@.len(),
            i <= n,
            r@ == s@.take(i as int),
        decreases n - i,
    {
        r.push(s.get_char(i));
        i = i + 1;
        proof {
            assert(r@ =~= s@.take(i as int));
        }
    }
    proof {
        assert(r@ =~= s@);
    }
    r
}

/// The lower-cased characters of a string slice, as a vector.
pub fn lower_chars_of(s: &str) -> (r: Vec<char>)
    ensures
        r@ == lower_seq(s@),
{
    let cs = chars_of(s);
    let mut r: Vec<char> = Vec::new();
    let mut i: usize = 0;
    while i < cs.len()
        invariant
            cs@ == s@,
            i <= cs@.len(),
            r@.len() == i,
            forall|j: int| 0 <= j < i ==> r@[j] == lower_char(cs@[j]),
        decreases cs@.len() - i,
    {
        r.push(lower_char_exec(cs[i]));
        i = i + 1;
    }
    proof {
        assert(r@ =~= lower_seq(s@));
    }
    r
}

/// The first occurrence of `ch` in `c` at or after `offset`.
fn find_first_after(c: &Vec<char>, ch: char, offset: usize) -> (r: Option<usize>)
    ensures
        match r {
            Some(n) => find_from(c@, ch, offset as int) == Some(n as int),
            None => find_from(c@, ch, offset as int) is None,
        },
{
    let mut i: usize = offset;
    while i < c.len()
        invariant
            offset <= i,
            find_from(c@, ch, offset as int) == find_from(c@, ch, i as int),
        decreases c@.len() - i,
    {
        if c[i] == ch {
            return Some(i);
        }
        i = i + 1;
    }
    None
}

/// The length of the greedy matching window that begins at `beginning`,
/// where `c[beginning]` equals the first query character.
fn match_length_from(c: &Vec<char>, q: &Vec<char>, beginning: usize) -> (r: Option<usize>)
    requires
        q@.len() >= 1,
        beginning < c@.len(),
    ensures
        match r {
            Some(l) => greedy_end(c@, q@, 1, beginning as int) == Some(beginning + l - 1)
                && 1 <= l <= c@.len() - beginning,
            None => greedy_end(c@, q@, 1, beginning as int) is None,
        },
{
    let clen = c.len();
    let mut match_index: usize = beginning;
    let mut qi: usize = 1;
    while qi < q.len()
        invariant
            clen == c@.len(),
            1 <= qi <= q@.len(),
            beginning <= match_index < c@.len(),
            greedy_end(c@, q@, 1, beginning as int) == greedy_end(c@, q@, qi as int, match_index as int),
        decreases q@.len() - qi,
    {
        match find_first_after(c, q[qi], match_index + 1) {
            Some(n) => {
                proof {
                    lemma_find_from(c@, q@[qi as int], match_index + 1);
                }
                match_index = n;
            },
            None => {
                return None;
            },
        }
        qi = qi + 1;
    }
    Some(match_index - beginning + 1)
}

/// The best matching window of `q` in `c`: smallest length, earliest start
/// among equals, scanning candidate starts left to right.
fn compute_match_length(c: &Vec<char>, q: &Vec<char>) -> (r: Option<(usize, usize)>)
    requires
        q@.len() >= 1,
    ensures
        match r {
            Some(p) => best_from(c@, q@, 0) == Some((p.0 as int, p.1 as int)),
            None => best_from(c@, q@, 0) is None,
        },
{
    let mut best: Option<(usize, usize)> = None;
    let mut s: usize = 0;
    while s < c.len()
        invariant
            q@.len() >= 1,
            s <= c@.len(),
            match best {
                None => best_from(c@, q@, 0) == best_from(c@, q@, s as int),
                Some(b) => best_from(c@, q@, 0) == pick(
                    Some((b.0 as int, b.1 as int)),
                    best_from(c@, q@, s as int),
                ),
            },
        decreases c@.len() - s,
    {
        let ghost prev_best = best;
        let mut w: Option<(usize, usize)> = None;
        if c[s] == q[0] {
            match match_length_from(c, q, s) {
                Some(l) => {
                    w = Some((s, l));
                },
                None => {
                },
            }
        }
        proof {
            assert(window_at(c@, q@, s as int) == match w {
                Some(p) => Some((p.0 as int, p.1 as int)),
                None => None::<(int, int)>,
            });
        }
        match w {
            Some(p) => {
                match best {
                    None => {
                        best = Some(p);
                    },
                    Some(b) => {
                        if p.1 < b.1 {
                            best = Some(p);
                        }
                    },
                }
            },
            None => {
            },
        }
        proof {
            let cs = c@;
            let qs = q@;
            let si = s as int;
            let wopt = match w {
                Some(p) => Some((p.0 as int, p.1 as int)),
                None => None::<(int, int)>,
            };
            let prev = match prev_best {
                Some(b) => Some((b.0 as int, b.1 as int)),
                None => None::<(int, int)>,
            };
            assert(best_from(cs, qs, si) == pick(wopt, best_from(cs, qs, si + 1)));
            lemma_pick_assoc(prev, wopt, best_from(cs, qs, si + 1));
        }
        s = s + 1;
    }
    best
}

/// `pick` chooses the leftmost strictly-shortest window, so grouping does
/// not matter.
proof fn lemma_pick_assoc(a: Option<(int, int)>, b: Option<(int, int)>, c: Option<(int, int)>)
    ensures
        pick(a, pick(b, c)) == pick(pick(a, b), c),
{
}

/// Scores `choice` against `query`. An empty query matches everything with
/// the maximal grade and an empty window. A non-empty query matches when its
/// characters occur in order in the lower-cased choice; the tightest window
/// wins, earliest first among equals, and the grade divides the query length
/// by window length and choice length.
pub fn score(choice: &String, query: &String) -> (r: Option<Match>)
    ensures
        r == score_model(*choice, query@),
        r matches Some(m) ==> match_wf(m),
{
    let qv = chars_of(query.as_str());
    score_chars(choice, &qv)
}

/// Scores `choice` against an already decomposed query.
pub fn score_chars(choice: &String, query: &Vec<char>) -> (r: Option<Match>)
    ensures
        r == score_model(*choice, query@),
        r matches Some(m) ==> match_wf(m),
{
    if query.len() == 0 {
        return Some(Match::with_empty_range(choice));
    }
    let lc = lower_chars_of(choice.as_str());
    match compute_match_length(&lc, query) {
        Some(p) => {
            proof {
                lemma_best_from_bounds(lc@, query@, 0);
            }
            let quality = Quality {
                query_len: query.len(),
                window_len: p.1,
                choice_len: choice.as_str().unicode_len(),
            };
            Some(Match {
                quality,
                start: p.0,
                end: p.0 + p.1,
                original: choice.clone(),
            })
        },
        None => None,
    }
}

// ---------------------------------------------------------------------------
// Facts about the matching functions.
// ---------------------------------------------------------------------------

/// What a successful or failed `find_from` says about the characters of `c`.
proof fn lemma_find_from(c: Seq<char>, ch: char, off: int)
    requires
        0 <= off,
    ensures
        match find_from(c, ch, off) {
            Some(n) => off <= n < c.len() && c[n] == ch && (forall|j: int|
                off <= j < n ==> c[j] != ch),
            None => forall|j: int| off <= j < c.len() ==> c[j] != ch,
        },
    decreases c.len() - off,
{
    if off >= c.len() {
    } else if c[off] == ch {
    } else {
        lemma_find_from(c, ch, off + 1);
    }
}

/// A successful greedy scan ends inside `c`, and covers at least one
/// position per remaining query character.
proof fn lemma_greedy_bounds(c: Seq<char>, q: Seq<char>, qi: int, pos: int)
    requires
        1 <= qi <= q.len(),
        0 <= pos < c.len(),
        greedy_end(c, q, qi, pos) is Some,
    ensures
        pos <= greedy_end(c, q, qi, pos)->Some_0 < c.len(),
        greedy_end(c, q, qi, pos)->Some_0 - pos >= q.len() - qi,
    decreases q.len() - qi,
{
    if qi >= q.len() {
    } else {
        let n = find_from(c, q[qi], pos + 1)->Some_0;
        lemma_find_from(c, q[qi], pos + 1);
        lemma_greedy_bounds(c, q, qi + 1, n);
    }
}

/// Dropping the first query character preserves a subsequence match.
proof fn lemma_subseq_drop_q_head(q: Seq<char>, c: Seq<char>)
    requires
        q.len() > 0,
        is_subseq(q, c),
    ensures
        is_subseq(q.drop_first(), c),
    decreases q.len() + c.len(),
{
    if c.len() == 0 {
    } else if q[0] == c[0] {
        lemma_subseq_cons_c(q.drop_first(), c);
    } else {
        lemma_subseq_drop_q_head(q, c.drop_first());
        lemma_subseq_cons_c(q.drop_first(), c);
    }
}

/// A subsequence of the tail of `c` is a subsequence of `c`.
proof fn lemma_subseq_cons_c(q: Seq<char>, c: Seq<char>)
    requires
        c.len() > 0,
        is_subseq(q, c.drop_first()),
    ensures
        is_subseq(q, c),
    decreases q.len() + c.len(),
{
    if q.len() == 0 {
    } else if q[0] == c[0] {
        lemma_subseq_drop_q_head(q, c.drop_first());
    } else {
    }
}

/// A subsequence of a suffix of `c` is a subsequence of `c`.
proof fn lemma_subseq_from_suffix(q: Seq<char>, c: Seq<char>, j: int)
    requires
        0 <= j <= c.len(),
        is_subseq(q, c.subrange(j, c.len() as int)),
    ensures
        is_subseq(q, c),
    decreases j,
{
    if j == 0 {
        assert(c.subrange(0, c.len() as int) =~= c);
    } else {
        let longer = c.subrange(j - 1, c.len() as int);
        assert(longer.drop_first() =~= c.subrange(j, c.len() as int));
        lemma_subseq_cons_c(q, longer);
        lemma_subseq_from_suffix(q, c, j - 1);
    }
}

/// A subsequence of `a` is a subsequence of `a + b`.
proof fn lemma_subseq_extend_right(q: Seq<char>, a: Seq<char>, b: Seq<char>)
    requires
        is_subseq(q, a),
    ensures
        is_subseq(q, a + b),
    decreases q.len() + a.len(),
{
    if q.len() == 0 {
    } else if a.len() == 0 {
    } else if q[0] == a[0] {
        lemma_subseq_extend_right(q.drop_first(), a.drop_first(), b);
        assert((a + b).drop_first() =~= a.drop_first() + b);
    } else {
        lemma_subseq_extend_right(q, a.drop_first(), b);
        assert((a + b).drop_first() =~= a.drop_first() + b);
    }
}

/// If `q`'s first character stands at `i` in `c` and the rest of `q` is a
/// subsequence of what follows, then `q` is a subsequence of `c`.
proof fn lemma_subseq_intro(q: Seq<char>, c: Seq<char>, i: int)
    requires
        q.len() > 0,
        0 <= i < c.len(),
        c[i] == q[0],
        is_subseq(q.drop_first(), c.subrange(i + 1, c.len() as int)),
    ensures
        is_subseq(q, c),
{
    let suffix = c.subrange(i, c.len() as int);
    assert(suffix.drop_first() =~= c.subrange(i + 1, c.len() as int));
    assert(is_subseq(q, suffix));
    lemma_subseq_from_suffix(q, c, i);
}

/// A successful greedy scan for `q[qi..]` after `pos` witnesses those
/// characters as a subsequence of the scanned window.
proof fn lemma_greedy_window_subseq(c: Seq<char>, q: Seq<char>, qi: int, pos: int)
    requires
        1 <= qi <= q.len(),
        0 <= pos < c.len(),
        greedy_end(c, q, qi, pos) is Some,
    ensures
        is_subseq(
            q.subrange(qi, q.len() as int),
            c.subrange(pos + 1, greedy_end(c, q, qi, pos)->Some_0 + 1),
        ),
    decreases q.len() - qi,
{
    let e = greedy_end(c, q, qi, pos)->Some_0;
    lemma_greedy_bounds(c, q, qi, pos);
    if qi >= q.len() {
    } else {
        let n = find_from(c, q[qi], pos + 1)->Some_0;
        lemma_find_from(c, q[qi], pos + 1);
        lemma_greedy_bounds(c, q, qi + 1, n);
        lemma_greedy_window_subseq(c, q, qi + 1, n);
        let qsub = q.subrange(qi, q.len() as int);
        let window = c.subrange(pos + 1, e + 1);
        assert(window[n - pos - 1] == c[n]);
        assert(qsub.drop_first() =~= q.subrange(qi + 1, q.len() as int));
        assert(window.subrange(n - pos, window.len() as int) =~= c.subrange(n + 1, e + 1));
        lemma_subseq_intro(qsub, window, n - pos - 1);
    }
}

/// The best window is the window of some candidate start.
proof fn lemma_best_from_is_window(c: Seq<char>, q: Seq<char>, s: int)
    requires
        0 <= s,
        best_from(c, q, s) is Some,
    ensures
        exists|s0: int|
            s <= s0 < c.len() && window_at(c, q, s0) == best_from(c, q, s),
    decreases c.len() - s,
{
    if s >= c.len() {
    } else {
        let a = window_at(c, q, s);
        let r = best_from(c, q, s + 1);
        if best_from(c, q, s) == a && a is Some {
            assert(s <= s < c.len() && window_at(c, q, s) == best_from(c, q, s));
        } else {
            lemma_best_from_is_window(c, q, s + 1);
        }
    }
}

/// A candidate window contains the whole query as a subsequence.
proof fn lemma_window_subseq(c: Seq<char>, q: Seq<char>, s0: int)
    requires
        q.len() >= 1,
        0 <= s0 < c.len(),
        window_at(c, q, s0) is Some,
    ensures
        ({
            let w = window_at(c, q, s0)->Some_0;
            is_subseq(q, c.subrange(w.0, w.0 + w.1))
        }),
{
    let e = greedy_end(c, q, 1, s0)->Some_0;
    lemma_greedy_bounds(c, q, 1, s0);
    lemma_greedy_window_subseq(c, q, 1, s0);
    let window = c.subrange(s0, e + 1);
    assert(window[0] == c[s0] == q[0]);
    assert(q.drop_first() =~= q.subrange(1, q.len() as int));
    assert(window.subrange(1, window.len() as int) =~= c.subrange(s0 + 1, e + 1));
    lemma_subseq_intro(q, window, 0);
}

/// A non-empty subsequence's first character occurs, with the rest matching
/// after it.
proof fn lemma_subseq_head_occurs(q: Seq<char>, c: Seq<char>)
    requires
        q.len() > 0,
        is_subseq(q, c),
    ensures
        exists|i: int|
            0 <= i < c.len() && c[i] == q[0] && is_subseq(
                q.drop_first(),
                c.subrange(i + 1, c.len() as int),
            ),
    decreases c.len(),
{
    if c.len() == 0 {
    } else if q[0] == c[0] {
        assert(c.subrange(1, c.len() as int) =~= c.drop_first());
        assert(0 <= 0 < c.len() && c[0] == q[0] && is_subseq(
            q.drop_first(),
            c.subrange(1, c.len() as int),
        ));
    } else {
        lemma_subseq_head_occurs(q, c.drop_first());
        let i0 = choose|i: int|
            0 <= i < c.drop_first().len() && c.drop_first()[i] == q[0] && is_subseq(
                q.drop_first(),
                c.drop_first().subrange(i + 1, c.drop_first().len() as int),
            );
        assert(c.drop_first().subrange(i0 + 1, c.drop_first().len() as int) =~= c.subrange(
            i0 + 2,
            c.len() as int,
        ));
        assert(0 <= i0 + 1 < c.len() && c[i0 + 1] == q[0] && is_subseq(
            q.drop_first(),
            c.subrange(i0 + 2, c.len() as int),
        ));
    }
}

/// When the remaining query characters occur in order after `pos`, the
/// greedy scan succeeds.
proof fn lemma_greedy_succeeds(c: Seq<char>, q: Seq<char>, qi: int, pos: int)
    requires
        1 <= qi <= q.len(),
        0 <= pos + 1 <= c.len(),
        is_subseq(q.subrange(qi, q.len() as int), c.subrange(pos + 1, c.len() as int)),
    ensures
        greedy_end(c, q, qi, pos) is Some,
    decreases q.len() - qi,
{
    if qi >= q.len() {
    } else {
        let qsub = q.subrange(qi, q.len() as int);
        let csub = c.subrange(pos + 1, c.len() as int);
        lemma_subseq_head_occurs(qsub, csub);
        let i0 = choose|i: int|
            0 <= i < csub.len() && csub[i] == qsub[0] && is_subseq(
                qsub.drop_first(),
                csub.subrange(i + 1, csub.len() as int),
            );
        lemma_find_from(c, q[qi], pos + 1);
        assert(c[pos + 1 + i0] == q[qi]);
        assert(find_from(c, q[qi], pos + 1) is Some);
        let n = find_from(c, q[qi], pos + 1)->Some_0;
        assert(n <= pos + 1 + i0);
        assert(csub.subrange(i0 + 1, csub.len() as int) =~= c.subrange(
            pos + 2 + i0,
            c.len() as int,
        ));
        assert(qsub.drop_first() =~= q.subrange(qi + 1, q.len() as int));
        let cn = c.subrange(n + 1, c.len() as int);
        assert(cn.subrange(pos + 1 + i0 - n, cn.len() as int) =~= c.subrange(
            pos + 2 + i0,
            c.len() as int,
        ));
        lemma_subseq_from_suffix(
            q.subrange(qi + 1, q.len() as int),
            cn,
            pos + 1 + i0 - n,
        );
        lemma_greedy_succeeds(c, q, qi + 1, n);
    }
}

/// Any candidate window at or after `s0` makes the best-window search
/// succeed.
proof fn lemma_window_makes_best(c: Seq<char>, q: Seq<char>, s0: int, i: int)
    requires
        0 <= s0 <= i < c.len(),
        window_at(c, q, i) is Some,
    ensures
        best_from(c, q, s0) is Some,
    decreases i - s0,
{
    if s0 == i {
    } else {
        lemma_window_makes_best(c, q, s0 + 1, i);
    }
}

/// A non-empty query scores `Some` exactly when its characters occur in
/// order in the lower-cased choice; an empty query always scores `Some`.
pub proof fn lemma_score_iff_subseq(choice: String, q: Seq<char>)
    ensures
        score_model(choice, q) is Some <==> (q.len() == 0 || is_subseq(
            q,
            lower_seq(choice@),
        )),
{
    let c = lower_seq(choice@);
    if q.len() == 0 {
    } else {
        if score_model(choice, q) is Some {
            lemma_best_from_is_window(c, q, 0);
            let s0 = choose|s0: int| 0 <= s0 < c.len() && window_at(c, q, s0) == best_from(c, q, 0);
            lemma_window_subseq(c, q, s0);
            let e = greedy_end(c, q, 1, s0)->Some_0;
            lemma_greedy_bounds(c, q, 1, s0);
            let window = c.subrange(s0, e + 1);
            lemma_subseq_extend_right(q, window, c.subrange(e + 1, c.len() as int));
            assert(window + c.subrange(e + 1, c.len() as int) =~= c.subrange(s0, c.len() as int));
            lemma_subseq_from_suffix(q, c, s0);
        }
        if is_subseq(q, c) {
            lemma_subseq_head_occurs(q, c);
            let i0 = choose|i: int|
                0 <= i < c.len() && c[i] == q[0] && is_subseq(
                    q.drop_first(),
                    c.subrange(i + 1, c.len() as int),
                );
            assert(q.drop_first() =~= q.subrange(1, q.len() as int));
            lemma_greedy_succeeds(c, q, 1, i0);
            lemma_window_makes_best(c, q, 0, i0);
        }
    }
}

/// Monotonicity: if a choice still matches after the query grows by one
/// character, it matched the shorter query too.
pub proof fn lemma_score_monotonic(choice: String, q: Seq<char>, x: char)
    ensures
        score_model(choice, q.push(x)) is Some ==> score_model(choice, q) is Some,
{
    if q.len() == 0 {
    } else if score_model(choice, q.push(x)) is Some {
        let c = lower_seq(choice@);
        lemma_score_iff_subseq(choice, q.push(x));
        lemma_subseq_drop_q_last(q, x, c);
        lemma_score_iff_subseq(choice, q);
    }
}

/// Dropping the last query character preserves a subsequence match.
proof fn lemma_subseq_drop_q_last(q: Seq<char>, x: char, c: Seq<char>)
    requires
        is_subseq(q.push(x), c),
    ensures
        is_subseq(q, c),
    decreases c.len(),
{
    if q.len() == 0 {
    } else if c.len() == 0 {
    } else if q[0] == c[0] {
        assert(q.push(x).drop_first() =~= q.drop_first().push(x));
        lemma_subseq_drop_q_last(q.drop_first(), x, c.drop_first());
    } else {
        lemma_subseq_drop_q_last(q, x, c.drop_first());
    }
}

/// Range validity: a non-empty query's match window is at least as long as
/// the query, lies inside the choice, and contains the query as a
/// subsequence of the lower-cased text.
pub proof fn lemma_score_range_valid(choice: String, q: Seq<char>)
    requires
        q.len() > 0,
        choice@.len() <= usize::MAX,
        score_model(choice, q) is Some,
    ensures
        ({
            let m = score_model(choice, q)->Some_0;
            &&& m.end - m.start >= q.len()
            &&& m.end <= choice@.len()
            &&& is_subseq(q, lower_seq(choice@).subrange(m.start as int, m.end as int))
        }),
{
    let c = lower_seq(choice@);
    lemma_best_from_bounds(c, q, 0);
    lemma_best_from_is_window(c, q, 0);
    let s0 = choose|s0: int| 0 <= s0 < c.len() && window_at(c, q, s0) == best_from(c, q, 0);
    lemma_window_subseq(c, q, s0);
}

/// A best window lies inside `c` and is at least as long as the query.
proof fn lemma_best_from_bounds(c: Seq<char>, q: Seq<char>, s: int)
    requires
        q.len() >= 1,
        0 <= s,
        best_from(c, q, s) is Some,
    ensures
        ({
            let w = best_from(c, q, s)->Some_0;
            s <= w.0 && q.len() <= w.1 && w.0 + w.1 <= c.len()
        }),
    decreases c.len() - s,
{
    if s >= c.len() {
    } else {
        let w = window_at(c, q, s);
        if w is Some && c[s] == q[0] {
            if q.len() > 1 {
                lemma_greedy_bounds(c, q, 1, s);
            }
        }
        if best_from(c, q, s + 1) is Some {
            lemma_best_from_bounds(c, q, s + 1);
        }
    }
}

} // verus!
