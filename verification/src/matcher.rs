//! Finding the rows that two fingerprint sequences share.

use vstd::prelude::*;

verus! {

/// A non-negative fraction, kept exactly as numerator over denominator.
#[derive(Clone, Copy, Debug)]
pub struct Ratio {
    numer: u64,
    denom: u64,
}

impl Ratio {
    /// The numerator.
    pub closed spec fn num(self) -> nat {
        self.numer as nat
    }

    /// The denominator.
    pub closed spec fn den(self) -> nat {
        self.denom as nat
    }

    /// The denominator is not zero.
    pub open spec fn wf(self) -> bool {
        self.den() > 0
    }

    /// Holds of every ratio: the denominator is not zero.
    #[verifier::type_invariant]
    spec fn nonzero_denominator(self) -> bool {
        self.denom > 0
    }

    /// The fraction `numer / denom`; `None` when `denom` is zero.
    pub fn new(numer: u64, denom: u64) -> (r: Option<Ratio>)
        ensures
            r is Some <==> denom > 0,
            r is Some ==> r->0.num() == numer && r->0.den() == denom && r->0.wf(),
    {
        if denom == 0 {
            None
        } else {
            Some(Ratio { numer, denom })
        }
    }

    /// The numerator.
    pub fn numer(&self) -> (n: u64)
        ensures
            n == self.num(),
    {
        self.numer
    }

    /// The denominator, which is never zero.
    pub fn denom(&self) -> (d: u64)
        ensures
            d == self.den(),
            d > 0,
            self.wf(),
    {
        proof {
            use_type_invariant(self);
        }
        self.denom
    }
}

/// A stretch of `length` positions that starts at `start1` in the first
/// sequence and at `start2` in the second, on which the two agree.
#[derive(Clone, Copy, Debug, PartialEq, Eq, Structural)]
pub struct OverlapRun {
    pub start1: usize,
    pub start2: usize,
    pub length: usize,
}

/// The shortest run that counts as an overlap: the given fraction of the
/// shorter sequence, rounded down, and at least one.
pub open spec fn min_run_length(len1: nat, len2: nat, ratio: Ratio) -> nat {
    let scaled = (shorter_length(len1, len2) * ratio.num()) / ratio.den();
    if scaled < 1 {
        1
    } else {
        scaled
    }
}

/// The smaller of two lengths.
pub open spec fn shorter_length(len1: nat, len2: nat) -> nat {
    if len1 <= len2 {
        len1
    } else {
        len2
    }
}

/// Length of the longest stretch on which the two sequences agree and that
/// ends just before position `i` of the first and `j` of the second.
pub open spec fn run_ending_at(s1: Seq<u64>, s2: Seq<u64>, i: int, j: int) -> nat
    decreases i,
{
    if 0 < i <= s1.len() && 0 < j <= s2.len() && s1[i - 1] == s2[j - 1] {
        1 + run_ending_at(s1, s2, i - 1, j - 1)
    } else {
        0
    }
}

/// `(a, b)` names an end position inside both sequences.
pub open spec fn end_cell(s1: Seq<u64>, s2: Seq<u64>, a: int, b: int) -> bool {
    1 <= a <= s1.len() && 1 <= b <= s2.len()
}

/// `(a, b)` is met before `(i, j)` when rows are walked top down and each row
/// left to right.
pub open spec fn scanned_before(a: int, b: int, i: int, j: int) -> bool {
    a < i || (a == i && b < j)
}

/// No common run has `limit` positions or more.
pub open spec fn all_runs_shorter(s1: Seq<u64>, s2: Seq<u64>, limit: int) -> bool {
    forall|a: int, b: int|
        end_cell(s1, s2, a, b) ==> #[trigger] run_ending_at(s1, s2, a, b) < limit
}

/// The run that ends at `(i, j)` is a longest common run, and every run that
/// ends at an earlier position is strictly shorter.
pub open spec fn is_first_longest(s1: Seq<u64>, s2: Seq<u64>, i: int, j: int) -> bool {
    &&& end_cell(s1, s2, i, j)
    &&& run_ending_at(s1, s2, i, j) >= 1
    &&& forall|a: int, b: int|
        end_cell(s1, s2, a, b) ==> #[trigger] run_ending_at(s1, s2, a, b) <= run_ending_at(
            s1,
            s2,
            i,
            j,
        )
    &&& forall|a: int, b: int|
        end_cell(s1, s2, a, b) && scanned_before(a, b, i, j) ==> #[trigger] run_ending_at(
            s1,
            s2,
            a,
            b,
        ) < run_ending_at(s1, s2, i, j)
}

/// The two sequences agree on `length` positions from `start1` and `start2`.
pub open spec fn runs_agree(
    s1: Seq<u64>,
    s2: Seq<u64>,
    start1: int,
    start2: int,
    length: int,
) -> bool {
    &&& 0 <= start1
    &&& 0 <= start2
    &&& 0 <= length
    &&& start1 + length <= s1.len()
    &&& start2 + length <= s2.len()
    &&& forall|k: int| 0 <= k < length ==> #[trigger] s1[start1 + k] == s2[start2 + k]
}

/// A run that ends at `(i, j)` fits before both positions, and the sequences
/// agree on it.
pub proof fn lemma_run_ending_agrees(s1: Seq<u64>, s2: Seq<u64>, i: int, j: int)
    requires
        0 <= i <= s1.len(),
        0 <= j <= s2.len(),
    ensures
        run_ending_at(s1, s2, i, j) <= i,
        run_ending_at(s1, s2, i, j) <= j,
        runs_agree(
            s1,
            s2,
            i - run_ending_at(s1, s2, i, j),
            j - run_ending_at(s1, s2, i, j),
            run_ending_at(s1, s2, i, j) as int,
        ),
    decreases i,
{
    let len = run_ending_at(s1, s2, i, j) as int;
    if 0 < i && 0 < j && s1[i - 1] == s2[j - 1] {
        lemma_run_ending_agrees(s1, s2, i - 1, j - 1);
        let prev = run_ending_at(s1, s2, i - 1, j - 1) as int;
        assert(len == prev + 1);
        assert forall|k: int| 0 <= k < len implies #[trigger] s1[(i - len) + k] == s2[(j - len)
            + k] by {
            if k < prev {
                assert(s1[(i - 1 - prev) + k] == s2[(j - 1 - prev) + k]);
            }
        }
    }
}

/// At most one position is the end of the first longest run.
pub proof fn lemma_first_longest_unique(
    s1: Seq<u64>,
    s2: Seq<u64>,
    i: int,
    j: int,
    a: int,
    b: int,
)
    requires
        is_first_longest(s1, s2, i, j),
        is_first_longest(s1, s2, a, b),
    ensures
        i == a,
        j == b,
{
    let x = run_ending_at(s1, s2, i, j);
    let y = run_ending_at(s1, s2, a, b);
    assert(x <= y && y <= x);
    if scanned_before(a, b, i, j) {
        assert(y < x);
    }
    if scanned_before(i, j, a, b) {
        assert(x < y);
    }
}

/// Computes the shortest run that counts; `None` when it is longer than any
/// sequence can be.
pub fn accepted_run_length(len1: usize, len2: usize, ratio: Ratio) -> (r: Option<usize>)
    ensures
        r is Some <==> min_run_length(len1 as nat, len2 as nat, ratio) <= usize::MAX,
        r is Some ==> r->0 == min_run_length(len1 as nat, len2 as nat, ratio),
{
    proof {
        use_type_invariant(&ratio);
    }
    let shorter: usize = if len1 <= len2 { len1 } else { len2 };
    assert(0 <= (shorter as int) * (ratio.numer as int) <= 0xffff_ffff_ffff_ffff
        * 0xffff_ffff_ffff_ffff) by (nonlinear_arith)
        requires
            0 <= shorter <= 0xffff_ffff_ffff_ffff,
            0 <= ratio.numer <= 0xffff_ffff_ffff_ffff,
    ;
    let scaled: u128 = (shorter as u128) * (ratio.numer as u128) / (ratio.denom as u128);
    if scaled < 1 {
        Some(1)
    } else if scaled > usize::MAX as u128 {
        None
    } else {
        Some(scaled as usize)
    }
}

/// `r` is the first longest common run where that run has at least
/// `min_length` positions, and `None` where no common run has.
pub open spec fn is_longest_run(
    s1: Seq<u64>,
    s2: Seq<u64>,
    min_length: int,
    r: Option<OverlapRun>,
) -> bool {
    match r {
        Some(run) => {
            &&& run.length >= min_length
            &&& run.length == run_ending_at(
                s1,
                s2,
                run.start1 + run.length,
                run.start2 + run.length,
            )
            &&& is_first_longest(s1, s2, run.start1 + run.length, run.start2 + run.length)
            &&& runs_agree(s1, s2, run.start1 as int, run.start2 as int, run.length as int)
        },
        None => all_runs_shorter(s1, s2, min_length),
    }
}

/// Finds the longest run that the two sequences share, if it has at least
/// `min_length` positions. Among several longest runs the one whose end is
/// met first wins, rows of the first sequence walked in order and, for each,
/// the second sequence walked in order.
pub fn longest_common_run(seq1: &[u64], seq2: &[u64], min_length: usize) -> (r: Option<OverlapRun>)
    requires
        min_length >= 1,
    ensures
        is_longest_run(seq1@, seq2@, min_length as int, r),
{
    let m: usize = seq1.len();
    let n: usize = seq2.len();
    let ghost s1 = seq1@;
    let ghost s2 = seq2@;
    // row[j] is the run that ends at (i, j + 1) for the row i last completed.
    let mut row: Vec<usize> = Vec::new();
    let mut fill: usize = 0;
    while fill < n
        invariant
            fill <= n,
            row@.len() == fill,
            forall|b: int| 0 <= b < fill ==> #[trigger] row@[b] == 0,
        decreases n - fill,
    {
        row.push(0);
        fill = fill + 1;
    }
    let mut best_len: usize = 0;
    let mut best_i: usize = 0;
    let mut best_j: usize = 0;
    let mut i: usize = 0;
    while i < m
        invariant
            m == s1.len(),
            n == s2.len(),
            s1 == seq1@,
            s2 == seq2@,
            i <= m,
            row@.len() == n,
            forall|b: int| 0 <= b < n ==> #[trigger] row@[b] == run_ending_at(s1, s2, i as int, b + 1),
            forall|a: int, b: int|
                end_cell(s1, s2, a, b) && a <= i ==> #[trigger] run_ending_at(s1, s2, a, b)
                    <= best_len,
            best_len == 0 || (end_cell(s1, s2, best_i as int, best_j as int) && best_i <= i
                && run_ending_at(s1, s2, best_i as int, best_j as int) == best_len),
            best_len > 0 ==> forall|a: int, b: int|
                end_cell(s1, s2, a, b) && scanned_before(a, b, best_i as int, best_j as int)
                    ==> #[trigger] run_ending_at(s1, s2, a, b) < best_len,
        decreases m - i,
    {
        let mut diag: usize = 0;
        let mut j: usize = 0;
        while j < n
            invariant
                m == s1.len(),
                n == s2.len(),
                s1 == seq1@,
                s2 == seq2@,
                i < m,
                j <= n,
                row@.len() == n,
                diag == run_ending_at(s1, s2, i as int, j as int),
                forall|b: int|
                    0 <= b < j ==> #[trigger] row@[b] == run_ending_at(s1, s2, i + 1, b + 1),
                forall|b: int|
                    j <= b < n ==> #[trigger] row@[b] == run_ending_at(s1, s2, i as int, b + 1),
                forall|a: int, b: int|
                    end_cell(s1, s2, a, b) && (a <= i || (a == i + 1 && b <= j))
                        ==> #[trigger] run_ending_at(s1, s2, a, b) <= best_len,
                best_len == 0 || (end_cell(s1, s2, best_i as int, best_j as int) && best_i <= i
                    + 1 && run_ending_at(s1, s2, best_i as int, best_j as int) == best_len),
                best_len > 0 ==> forall|a: int, b: int|
                    end_cell(s1, s2, a, b) && scanned_before(a, b, best_i as int, best_j as int)
                        ==> #[trigger] run_ending_at(s1, s2, a, b) < best_len,
            decreases n - j,
        {
            let above: usize = row[j];
            let mut cur: usize = 0;
            if seq1[i] == seq2[j] {
                proof {
                    lemma_run_ending_agrees(s1, s2, i as int, j as int);
                }
                cur = diag + 1;
                if cur > best_len {
                    best_len = cur;
                    best_i = i + 1;
                    best_j = j + 1;
                }
            }
            assert(cur == run_ending_at(s1, s2, i + 1, j + 1));
            row.set(j, cur);
            diag = above;
            j = j + 1;
        }
        i = i + 1;
    }
    if best_len < min_length {
        None
    } else {
        proof {
            lemma_run_ending_agrees(s1, s2, best_i as int, best_j as int);
        }
        Some(OverlapRun { start1: best_i - best_len, start2: best_j - best_len, length: best_len })
    }
}

/// Finds the longest run that the two sequences share. A run counts when it
/// covers at least `min_ratio` of the shorter sequence, and at least one
/// position. Among several longest runs the one whose end is met first wins.
pub fn find_longest_run(seq1: &[u64], seq2: &[u64], min_ratio: Ratio) -> (r: Option<OverlapRun>)
    ensures
        is_longest_run(
            seq1@,
            seq2@,
            min_run_length(seq1@.len(), seq2@.len(), min_ratio) as int,
            r,
        ),
{
    match accepted_run_length(seq1.len(), seq2.len(), min_ratio) {
        Some(min_length) => longest_common_run(seq1, seq2, min_length),
        None => {
            proof {
                lemma_all_runs_bounded(seq1@, seq2@);
            }
            None
        },
    }
}

/// The triple that stands for the outcome of a search: the run's start in
/// each sequence and its length, or `(-1, -1, 0)` for no run.
pub open spec fn run_triple(r: Option<OverlapRun>) -> (i32, i32, usize) {
    match r {
        Some(run) => (run.start1 as i32, run.start2 as i32, run.length),
        None => (-1i32, -1i32, 0usize),
    }
}

/// The outcome of a search that a triple stands for.
pub open spec fn triple_run(t: (i32, i32, usize)) -> Option<OverlapRun> {
    if t.2 == 0 {
        None
    } else {
        Some(OverlapRun { start1: t.0 as usize, start2: t.1 as usize, length: t.2 })
    }
}

/// Finds the longest run that the two sequences share, as `find_longest_run`
/// does. Returns the run's start in each sequence and its length, or
/// `(-1, -1, 0)` when no run counts.
pub fn find_longest_common_substring(seq1: &[u64], seq2: &[u64], min_ratio: Ratio) -> (r: (
    i32,
    i32,
    usize,
))
    requires
        seq1@.len() <= i32::MAX,
        seq2@.len() <= i32::MAX,
    ensures
        is_longest_run(
            seq1@,
            seq2@,
            min_run_length(seq1@.len(), seq2@.len(), min_ratio) as int,
            triple_run(r),
        ),
        r == run_triple(triple_run(r)),
{
    match find_longest_run(seq1, seq2, min_ratio) {
        Some(run) => (run.start1 as i32, run.start2 as i32, run.length),
        None => (-1, -1, 0),
    }
}

/// No common run is longer than either sequence.
pub proof fn lemma_all_runs_bounded(s1: Seq<u64>, s2: Seq<u64>)
    ensures
        forall|a: int, b: int|
            end_cell(s1, s2, a, b) ==> #[trigger] run_ending_at(s1, s2, a, b) <= s1.len()
                && run_ending_at(s1, s2, a, b) <= s2.len(),
{
    assert forall|a: int, b: int| end_cell(s1, s2, a, b) implies #[trigger] run_ending_at(
        s1,
        s2,
        a,
        b,
    ) <= s1.len() && run_ending_at(s1, s2, a, b) <= s2.len() by {
        lemma_run_ending_agrees(s1, s2, a, b);
    }
}

/// Length of the stretch on which the two sequences agree from position `i`
/// of the first and `j` of the second onwards.
pub open spec fn run_starting_at(s1: Seq<u64>, s2: Seq<u64>, i: int, j: int) -> nat
    decreases s1.len() - i,
{
    if 0 <= i < s1.len() && 0 <= j < s2.len() && s1[i] == s2[j] {
        1 + run_starting_at(s1, s2, i + 1, j + 1)
    } else {
        0
    }
}

/// The part of the first sequence that the candidate `[start, start + length)`
/// shares with the run `used` is more than half of the candidate.
pub open spec fn overlaps_significantly(used: OverlapRun, start: int, length: int) -> bool {
    let lo = if used.start1 as int > start { used.start1 as int } else { start };
    let hi = if used.start1 + used.length < start + length {
        used.start1 + used.length
    } else {
        start + length
    };
    hi > lo && hi - lo > length / 2
}

/// Some run already chosen overlaps the candidate significantly.
pub open spec fn blocked(chosen: Seq<OverlapRun>, start: int, length: int) -> bool {
    exists|k: int|
        0 <= k < chosen.len() && overlaps_significantly(#[trigger] chosen[k], start, length)
}

/// The run that starts at `(a, b)` is long enough, and no chosen run blocks it.
pub open spec fn eligible(
    s1: Seq<u64>,
    s2: Seq<u64>,
    min_length: int,
    chosen: Seq<OverlapRun>,
    a: int,
    b: int,
) -> bool {
    &&& 0 <= a < s1.len()
    &&& 0 <= b < s2.len()
    &&& run_starting_at(s1, s2, a, b) >= min_length
    &&& !blocked(chosen, a, run_starting_at(s1, s2, a, b) as int)
}

/// Ranking of candidate runs: longer first; among equal lengths the one that
/// starts earlier in the first sequence, then earlier in the second.
pub open spec fn ranks_before(len1: int, a1: int, b1: int, len2: int, a2: int, b2: int) -> bool {
    len1 > len2 || (len1 == len2 && (a1 < a2 || (a1 == a2 && b1 < b2)))
}

/// `run` is the full stretch of agreement from its start.
pub open spec fn is_full_run(s1: Seq<u64>, s2: Seq<u64>, run: OverlapRun) -> bool {
    run.length == run_starting_at(s1, s2, run.start1 as int, run.start2 as int)
}

/// `run` is eligible and ranks before every other eligible run.
pub open spec fn is_best_eligible(
    s1: Seq<u64>,
    s2: Seq<u64>,
    min_length: int,
    chosen: Seq<OverlapRun>,
    run: OverlapRun,
) -> bool {
    &&& is_full_run(s1, s2, run)
    &&& eligible(s1, s2, min_length, chosen, run.start1 as int, run.start2 as int)
    &&& forall|a: int, b: int| #[trigger]
        eligible(s1, s2, min_length, chosen, a, b) ==> (a == run.start1 && b == run.start2)
            || ranks_before(
            run.length as int,
            run.start1 as int,
            run.start2 as int,
            run_starting_at(s1, s2, a, b) as int,
            a,
            b,
        )
}

/// No run is eligible any more.
pub open spec fn none_eligible(
    s1: Seq<u64>,
    s2: Seq<u64>,
    min_length: int,
    chosen: Seq<OverlapRun>,
) -> bool {
    forall|a: int, b: int| !#[trigger] eligible(s1, s2, min_length, chosen, a, b)
}

/// `picked` is what greedy selection gives: each run is the best that the
/// runs before it leave eligible, and the list stops at `top_k` runs or when
/// nothing is eligible.
pub open spec fn is_top_selection(
    s1: Seq<u64>,
    s2: Seq<u64>,
    min_length: int,
    top_k: int,
    picked: Seq<OverlapRun>,
) -> bool {
    &&& picked.len() <= top_k
    &&& forall|t: int|
        0 <= t < picked.len() ==> is_best_eligible(
            s1,
            s2,
            min_length,
            picked.take(t),
            #[trigger] picked[t],
        )
    &&& picked.len() < top_k ==> none_eligible(s1, s2, min_length, picked)
}

/// A run from `(i, j)` fits in both sequences, and the sequences agree on it.
pub proof fn lemma_run_starting_agrees(s1: Seq<u64>, s2: Seq<u64>, i: int, j: int)
    requires
        0 <= i <= s1.len(),
        0 <= j <= s2.len(),
    ensures
        i + run_starting_at(s1, s2, i, j) <= s1.len(),
        j + run_starting_at(s1, s2, i, j) <= s2.len(),
        runs_agree(s1, s2, i, j, run_starting_at(s1, s2, i, j) as int),
    decreases s1.len() - i,
{
    let len = run_starting_at(s1, s2, i, j) as int;
    if i < s1.len() && j < s2.len() && s1[i] == s2[j] {
        lemma_run_starting_agrees(s1, s2, i + 1, j + 1);
        assert forall|k: int| 0 <= k < len implies #[trigger] s1[i + k] == s2[j + k] by {
            if k > 0 {
                assert(s1[(i + 1) + (k - 1)] == s2[(j + 1) + (k - 1)]);
            }
        }
    }
}

/// Tells whether a chosen run blocks the candidate `[start, start + length)`.
fn is_blocked(chosen: &Vec<OverlapRun>, start: usize, length: usize) -> (r: bool)
    requires
        start + length <= usize::MAX,
        forall|k: int|
            0 <= k < chosen@.len() ==> (#[trigger] chosen@[k]).start1 + chosen@[k].length
                <= usize::MAX,
    ensures
        r == blocked(chosen@, start as int, length as int),
{
    let end: usize = start + length;
    let mut k: usize = 0;
    while k < chosen.len()
        invariant
            k <= chosen@.len(),
            end == start + length,
            forall|q: int|
                0 <= q < chosen@.len() ==> (#[trigger] chosen@[q]).start1 + chosen@[q].length
                    <= usize::MAX,
            forall|q: int|
                0 <= q < k ==> !overlaps_significantly(
                    #[trigger] chosen@[q],
                    start as int,
                    length as int,
                ),
        decreases chosen@.len() - k,
    {
        let used: OverlapRun = chosen[k];
        let used_end: usize = used.start1 + used.length;
        let lo: usize = if used.start1 > start { used.start1 } else { start };
        let hi: usize = if used_end < end { used_end } else { end };
        if hi > lo && hi - lo > length / 2 {
            assert(overlaps_significantly(chosen@[k as int], start as int, length as int));
            return true;
        }
        k = k + 1;
    }
    false
}

/// Finds the eligible run that ranks first, if there is one.
fn best_eligible_run(seq1: &[u64], seq2: &[u64], min_length: usize, chosen: &Vec<OverlapRun>) -> (r:
    Option<OverlapRun>)
    requires
        min_length >= 1,
        forall|k: int|
            0 <= k < chosen@.len() ==> (#[trigger] chosen@[k]).start1 + chosen@[k].length
                <= usize::MAX,
    ensures
        match r {
            Some(run) => is_best_eligible(seq1@, seq2@, min_length as int, chosen@, run),
            None => none_eligible(seq1@, seq2@, min_length as int, chosen@),
        },
{
    let m: usize = seq1.len();
    let n: usize = seq2.len();
    let ghost s1 = seq1@;
    let ghost s2 = seq2@;
    let ghost ch = chosen@;
    let ghost ml = min_length as int;
    // row[j] is the run that starts at (i, j) for the row i last completed.
    let mut row: Vec<usize> = Vec::new();
    let mut fill: usize = 0;
    while fill < n
        invariant
            fill <= n,
            row@.len() == fill,
            forall|b: int| 0 <= b < fill ==> #[trigger] row@[b] == 0,
        decreases n - fill,
    {
        row.push(0);
        fill = fill + 1;
    }
    let mut best: Option<OverlapRun> = None;
    let mut i: usize = m;
    while i > 0
        invariant
            m == s1.len(),
            n == s2.len(),
            s1 == seq1@,
            s2 == seq2@,
            ch == chosen@,
            ml == min_length,
            min_length >= 1,
            i <= m,
            row@.len() == n,
            forall|k: int|
                0 <= k < chosen@.len() ==> (#[trigger] chosen@[k]).start1 + chosen@[k].length
                    <= usize::MAX,
            forall|b: int| 0 <= b < n ==> #[trigger] row@[b] == run_starting_at(s1, s2, i as int, b),
            match best {
                Some(run) => {
                    &&& is_full_run(s1, s2, run)
                    &&& eligible(s1, s2, ml, ch, run.start1 as int, run.start2 as int)
                    &&& forall|a: int, b: int| #[trigger]
                        eligible(s1, s2, ml, ch, a, b) && a >= i ==> (a == run.start1 && b
                            == run.start2) || ranks_before(
                            run.length as int,
                            run.start1 as int,
                            run.start2 as int,
                            run_starting_at(s1, s2, a, b) as int,
                            a,
                            b,
                        )
                },
                None => forall|a: int, b: int| a >= i ==> !#[trigger] eligible(s1, s2, ml, ch, a, b),
            },
        decreases i,
    {
        i = i - 1;
        let mut j: usize = 0;
        while j < n
            invariant
                m == s1.len(),
                n == s2.len(),
                s1 == seq1@,
                s2 == seq2@,
                ch == chosen@,
                ml == min_length,
                min_length >= 1,
                i < m,
                j <= n,
                row@.len() == n,
                forall|k: int|
                    0 <= k < chosen@.len() ==> (#[trigger] chosen@[k]).start1 + chosen@[k].length
                        <= usize::MAX,
                forall|b: int|
                    0 <= b < j ==> #[trigger] row@[b] == run_starting_at(s1, s2, i as int, b),
                forall|b: int|
                    j <= b < n ==> #[trigger] row@[b] == run_starting_at(s1, s2, i + 1, b),
                match best {
                    Some(run) => {
                        &&& is_full_run(s1, s2, run)
                        &&& eligible(s1, s2, ml, ch, run.start1 as int, run.start2 as int)
                        &&& forall|a: int, b: int| #[trigger]
                            eligible(s1, s2, ml, ch, a, b) && (a > i || (a == i && b < j)) ==> (a
                                == run.start1 && b == run.start2) || ranks_before(
                                run.length as int,
                                run.start1 as int,
                                run.start2 as int,
                                run_starting_at(s1, s2, a, b) as int,
                                a,
                                b,
                            )
                    },
                    None => forall|a: int, b: int|
                        (a > i || (a == i && b < j)) ==> !#[trigger] eligible(s1, s2, ml, ch, a, b),
                },
            decreases n - j,
        {
            let mut cur: usize = 0;
            if seq1[i] == seq2[j] {
                let next: usize = if j + 1 < n { row[j + 1] } else { 0 };
                proof {
                    lemma_run_starting_agrees(s1, s2, i + 1, j + 1);
                }
                cur = next + 1;
            }
            assert(cur == run_starting_at(s1, s2, i as int, j as int));
            proof {
                lemma_run_starting_agrees(s1, s2, i as int, j as int);
            }
            row.set(j, cur);
            if cur >= min_length {
                let better: bool = match best {
                    Some(run) => cur > run.length || (cur == run.length && (i < run.start1 || (i
                        == run.start1 && j < run.start2))),
                    None => true,
                };
                if better && !is_blocked(chosen, i, cur) {
                    best = Some(OverlapRun { start1: i, start2: j, length: cur });
                }
            }
            j = j + 1;
        }
    }
    best
}

/// Picks up to `top_k` runs of at least `min_length` positions that the two
/// sequences share: the longest first, and each further one the longest that
/// does not overlap a picked one significantly. Runs of one length are taken
/// by their start in the first sequence, then in the second.
pub fn top_common_runs(seq1: &[u64], seq2: &[u64], min_length: usize, top_k: usize) -> (picked: Vec<
    OverlapRun,
>)
    requires
        min_length >= 1,
    ensures
        is_top_selection(seq1@, seq2@, min_length as int, top_k as int, picked@),
        forall|t: int|
            0 <= t < picked@.len() ==> runs_agree(
                seq1@,
                seq2@,
                (#[trigger] picked@[t]).start1 as int,
                picked@[t].start2 as int,
                picked@[t].length as int,
            ),
{
    let mut picked: Vec<OverlapRun> = Vec::new();
    let mut done: bool = false;
    let m: usize = seq1.len();
    while picked.len() < top_k && !done
        invariant
            picked@.len() <= top_k,
            seq1@.len() == m,
            min_length >= 1,
            forall|t: int|
                0 <= t < picked@.len() ==> is_best_eligible(
                    seq1@,
                    seq2@,
                    min_length as int,
                    picked@.take(t),
                    #[trigger] picked@[t],
                ),
            forall|t: int|
                0 <= t < picked@.len() ==> runs_agree(
                    seq1@,
                    seq2@,
                    (#[trigger] picked@[t]).start1 as int,
                    picked@[t].start2 as int,
                    picked@[t].length as int,
                ),
            done ==> none_eligible(seq1@, seq2@, min_length as int, picked@),
        decreases (if done { 0int } else { 1int }) + top_k - picked@.len(),
    {
        match best_eligible_run(seq1, seq2, min_length, &picked) {
            Some(run) => {
                let ghost before = picked@;
                proof {
                    lemma_run_starting_agrees(seq1@, seq2@, run.start1 as int, run.start2 as int);
                }
                picked.push(run);
                proof {
                    assert(picked@.take(before.len() as int) =~= before);
                    assert forall|t: int| 0 <= t < picked@.len() implies is_best_eligible(
                        seq1@,
                        seq2@,
                        min_length as int,
                        picked@.take(t),
                        #[trigger] picked@[t],
                    ) by {
                        if t < before.len() {
                            assert(picked@.take(t) =~= before.take(t));
                            assert(picked@[t] == before[t]);
                        }
                    }
                }
            },
            None => {
                done = true;
            },
        }
    }
    picked
}

/// No run is eligible under a threshold beyond the length of a sequence.
pub proof fn lemma_nothing_beyond_reach(s1: Seq<u64>, s2: Seq<u64>, min_length: int, top_k: int)
    requires
        min_length > s1.len() || min_length > s2.len(),
        0 <= top_k,
    ensures
        is_top_selection(s1, s2, min_length, top_k, Seq::<OverlapRun>::empty()),
{
    assert forall|a: int, b: int| !#[trigger] eligible(
        s1,
        s2,
        min_length,
        Seq::<OverlapRun>::empty(),
        a,
        b,
    ) by {
        if 0 <= a < s1.len() && 0 <= b < s2.len() {
            lemma_run_starting_agrees(s1, s2, a, b);
        }
    }
}

/// Picks up to `top_k` shared runs as `top_common_runs` does, a run counting
/// when it covers at least `min_ratio` of the shorter sequence and at least
/// one position.
pub fn find_top_runs(seq1: &[u64], seq2: &[u64], min_ratio: Ratio, top_k: usize) -> (picked: Vec<
    OverlapRun,
>)
    ensures
        is_top_selection(
            seq1@,
            seq2@,
            min_run_length(seq1@.len(), seq2@.len(), min_ratio) as int,
            top_k as int,
            picked@,
        ),
        forall|t: int|
            0 <= t < picked@.len() ==> runs_agree(
                seq1@,
                seq2@,
                (#[trigger] picked@[t]).start1 as int,
                picked@[t].start2 as int,
                picked@[t].length as int,
            ),
{
    match accepted_run_length(seq1.len(), seq2.len(), min_ratio) {
        Some(min_length) => top_common_runs(seq1, seq2, min_length, top_k),
        None => {
            proof {
                lemma_nothing_beyond_reach(
                    seq1@,
                    seq2@,
                    min_run_length(seq1@.len(), seq2@.len(), min_ratio) as int,
                    top_k as int,
                );
            }
            Vec::new()
        },
    }
}

/// Picks up to `top_k` shared runs as `find_top_runs` does. Each run is given
/// as its start in each sequence and its length.
pub fn find_top_common_substrings(seq1: &[u64], seq2: &[u64], min_ratio: Ratio, top_k: usize) -> (r:
    Vec<(i32, i32, usize)>)
    requires
        seq1@.len() <= i32::MAX,
        seq2@.len() <= i32::MAX,
    ensures
        is_top_selection(
            seq1@,
            seq2@,
            min_run_length(seq1@.len(), seq2@.len(), min_ratio) as int,
            top_k as int,
            runs_of(r@),
        ),
        forall|t: int| 0 <= t < r@.len() ==> (#[trigger] r@[t]).0 >= 0 && r@[t].1 >= 0,
{
    let picked: Vec<OverlapRun> = find_top_runs(seq1, seq2, min_ratio, top_k);
    let mut out: Vec<(i32, i32, usize)> = Vec::new();
    let mut t: usize = 0;
    while t < picked.len()
        invariant
            t <= picked@.len(),
            out@.len() == t,
            seq1@.len() <= i32::MAX,
            seq2@.len() <= i32::MAX,
            forall|q: int|
                0 <= q < picked@.len() ==> runs_agree(
                    seq1@,
                    seq2@,
                    (#[trigger] picked@[q]).start1 as int,
                    picked@[q].start2 as int,
                    picked@[q].length as int,
                ),
            forall|q: int|
                0 <= q < t ==> (#[trigger] out@[q]).0 == picked@[q].start1 && out@[q].1
                    == picked@[q].start2 && out@[q].2 == picked@[q].length,
        decreases picked@.len() - t,
    {
        let run: OverlapRun = picked[t];
        out.push((run.start1 as i32, run.start2 as i32, run.length));
        t = t + 1;
    }
    proof {
        assert(runs_of(out@) =~= picked@);
    }
    out
}

/// The runs that a list of `(start, start, length)` triples stands for.
pub open spec fn runs_of(triples: Seq<(i32, i32, usize)>) -> Seq<OverlapRun> {
    Seq::new(
        triples.len(),
        |t: int|
            OverlapRun {
                start1: triples[t].0 as usize,
                start2: triples[t].1 as usize,
                length: triples[t].2,
            },
    )
}

/// Two greedy selections from the same sequences agree on every prefix.
proof fn lemma_selections_agree(
    s1: Seq<u64>,
    s2: Seq<u64>,
    min_length: int,
    top_k: int,
    p: Seq<OverlapRun>,
    q: Seq<OverlapRun>,
    t: int,
)
    requires
        is_top_selection(s1, s2, min_length, top_k, p),
        is_top_selection(s1, s2, min_length, top_k, q),
        0 <= t <= p.len(),
        t <= q.len(),
    ensures
        p.take(t) == q.take(t),
    decreases t,
{
    if t == 0 {
        assert(p.take(0) =~= q.take(0));
    } else {
        lemma_selections_agree(s1, s2, min_length, top_k, p, q, t - 1);
        let chosen = p.take(t - 1);
        let x = p[t - 1];
        let y = q[t - 1];
        assert(is_best_eligible(s1, s2, min_length, chosen, x));
        assert(is_best_eligible(s1, s2, min_length, chosen, y));
        assert(eligible(s1, s2, min_length, chosen, x.start1 as int, x.start2 as int));
        assert(eligible(s1, s2, min_length, chosen, y.start1 as int, y.start2 as int));
        assert(x == y);
        assert(p.take(t) =~= p.take(t - 1).push(x));
        assert(q.take(t) =~= q.take(t - 1).push(y));
    }
}

/// Greedy selection has one outcome.
pub proof fn lemma_top_selection_unique(
    s1: Seq<u64>,
    s2: Seq<u64>,
    min_length: int,
    top_k: int,
    p: Seq<OverlapRun>,
    q: Seq<OverlapRun>,
)
    requires
        is_top_selection(s1, s2, min_length, top_k, p),
        is_top_selection(s1, s2, min_length, top_k, q),
    ensures
        p == q,
{
    let n = if p.len() <= q.len() { p.len() as int } else { q.len() as int };
    lemma_selections_agree(s1, s2, min_length, top_k, p, q, n);
    if p.len() < q.len() {
        assert(p.take(n) =~= p);
        let y = q[n];
        assert(is_best_eligible(s1, s2, min_length, q.take(n), y));
        assert(eligible(s1, s2, min_length, p, y.start1 as int, y.start2 as int));
        assert(false);
    }
    if q.len() < p.len() {
        assert(q.take(n) =~= q);
        let x = p[n];
        assert(is_best_eligible(s1, s2, min_length, p.take(n), x));
        assert(eligible(s1, s2, min_length, q, x.start1 as int, x.start2 as int));
        assert(false);
    }
    assert(p.take(n) =~= p);
    assert(q.take(n) =~= q);
}

/// The outcome of greedy selection.
pub open spec fn top_selection(s1: Seq<u64>, s2: Seq<u64>, min_length: int, top_k: int) -> Seq<
    OverlapRun,
> {
    choose|picked: Seq<OverlapRun>| is_top_selection(s1, s2, min_length, top_k, picked)
}

/// A list that meets the rules of greedy selection is its outcome.
pub proof fn lemma_top_selection_is(
    s1: Seq<u64>,
    s2: Seq<u64>,
    min_length: int,
    top_k: int,
    picked: Seq<OverlapRun>,
)
    requires
        is_top_selection(s1, s2, min_length, top_k, picked),
    ensures
        top_selection(s1, s2, min_length, top_k) == picked,
{
    lemma_top_selection_unique(
        s1,
        s2,
        min_length,
        top_k,
        picked,
        top_selection(s1, s2, min_length, top_k),
    );
}

/// A shared stretch that is too short is not reported. When no common run is
/// longer than `longest`, and `longest` is less than the fraction `ratio` of
/// the shorter sequence, the search finds nothing. The one exception is left
/// out: a `longest` that equals that fraction rounded down still counts.
pub proof fn lemma_short_overlap_rejected(
    s1: Seq<u64>,
    s2: Seq<u64>,
    ratio: Ratio,
    longest: int,
    r: Option<OverlapRun>,
)
    requires
        ratio.wf(),
        0 <= longest,
        forall|a: int, b: int|
            end_cell(s1, s2, a, b) ==> #[trigger] run_ending_at(s1, s2, a, b) <= longest,
        longest * ratio.den() < shorter_length(s1.len(), s2.len()) * ratio.num(),
        longest != (shorter_length(s1.len(), s2.len()) * ratio.num()) / ratio.den(),
        is_longest_run(s1, s2, min_run_length(s1.len(), s2.len(), ratio) as int, r),
    ensures
        r is None,
        run_triple(r) == (-1i32, -1i32, 0usize),
{
    let x = (shorter_length(s1.len(), s2.len()) * ratio.num()) as int;
    let d = ratio.den() as int;
    vstd::arithmetic::div_mod::lemma_fundamental_div_mod(x, d);
    assert(longest < x / d + 1) by (nonlinear_arith)
        requires
            longest * d < x,
            x == d * (x / d) + x % d,
            0 <= x % d < d,
            d > 0,
    ;
}

} // verus!
