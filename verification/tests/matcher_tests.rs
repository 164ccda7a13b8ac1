use longstitch::matcher::{
    accepted_run_length, find_longest_common_substring, find_longest_run,
    find_top_common_substrings, find_top_runs, longest_common_run, top_common_runs, OverlapRun,
    Ratio,
};

fn ratio(numer: u64, denom: u64) -> Ratio {
    Ratio::new(numer, denom).unwrap()
}

#[test]
fn ratio_rejects_zero_denominator() {
    assert!(Ratio::new(1, 0).is_none());
    let r = Ratio::new(3, 7).unwrap();
    assert_eq!(r.numer(), 3);
    assert_eq!(r.denom(), 7);
}

#[test]
fn threshold_is_floor_of_fraction_and_at_least_one() {
    assert_eq!(accepted_run_length(5, 4, ratio(1, 10)), Some(1));
    assert_eq!(accepted_run_length(100, 50, ratio(1, 10)), Some(5));
    assert_eq!(accepted_run_length(5, 9, ratio(1, 2)), Some(2));
    assert_eq!(accepted_run_length(0, 0, ratio(1, 2)), Some(1));
    assert_eq!(accepted_run_length(10, 10, ratio(0, 1)), Some(1));
    assert_eq!(accepted_run_length(10, 10, ratio(u64::MAX, 1)), None);
}

#[test]
fn longest_run_of_overlapping_tails() {
    let seq1 = [1u64, 2, 3, 4, 5];
    let seq2 = [4u64, 5, 6, 7];
    assert_eq!(find_longest_common_substring(&seq1, &seq2, ratio(1, 10)), (3, 0, 2));
    assert_eq!(
        find_longest_run(&seq1, &seq2, ratio(1, 10)),
        Some(OverlapRun { start1: 3, start2: 0, length: 2 })
    );
}

#[test]
fn short_run_is_rejected() {
    // The only shared run has one position; a fifth of the shorter sequence is two.
    let seq1 = [1u64, 2, 3, 4, 5, 6, 7, 8, 9, 10];
    let seq2 = [20u64, 21, 22, 5, 23, 24, 25, 26, 27, 28];
    assert_eq!(find_longest_common_substring(&seq1, &seq2, ratio(1, 5)), (-1, -1, 0));
    assert_eq!(find_longest_run(&seq1, &seq2, ratio(1, 5)), None);
    // With a smaller fraction the same run counts.
    assert_eq!(find_longest_common_substring(&seq1, &seq2, ratio(1, 10)), (4, 3, 1));
}

#[test]
fn run_equal_to_rounded_threshold_counts() {
    // Two of five is less than one half, yet the threshold rounds down to two.
    let seq1 = [1u64, 2, 3, 4, 5];
    let seq2 = [9u64, 1, 2, 8, 7];
    assert_eq!(find_longest_common_substring(&seq1, &seq2, ratio(1, 2)), (0, 1, 2));
}

#[test]
fn nothing_in_common_gives_sentinel() {
    let seq1 = [1u64, 2, 3];
    let seq2 = [4u64, 5, 6];
    assert_eq!(find_longest_common_substring(&seq1, &seq2, ratio(1, 10)), (-1, -1, 0));
    assert_eq!(find_longest_common_substring(&[], &seq2, ratio(1, 10)), (-1, -1, 0));
    assert_eq!(find_longest_common_substring(&seq1, &[], ratio(1, 10)), (-1, -1, 0));
}

#[test]
fn ties_keep_the_run_met_first() {
    // Two runs of length two: the one that ends first in the first sequence wins.
    let seq1 = [1u64, 2, 9, 1, 2];
    let seq2 = [1u64, 2];
    assert_eq!(find_longest_common_substring(&seq1, &seq2, ratio(1, 10)), (0, 0, 2));
    // Within one row of the first sequence the earlier end in the second wins.
    let seq3 = [7u64];
    let seq4 = [7u64, 0, 7];
    assert_eq!(find_longest_common_substring(&seq3, &seq4, ratio(1, 10)), (0, 0, 1));
}

#[test]
fn longest_run_with_explicit_threshold() {
    let seq1 = [1u64, 2, 3, 4, 5, 6];
    let seq2 = [0u64, 3, 4, 5, 0];
    assert_eq!(
        longest_common_run(&seq1, &seq2, 3),
        Some(OverlapRun { start1: 2, start2: 1, length: 3 })
    );
    assert_eq!(longest_common_run(&seq1, &seq2, 4), None);
}

#[test]
fn identical_sequences_match_fully() {
    let seq = [5u64, 6, 7, 8];
    assert_eq!(find_longest_common_substring(&seq, &seq, ratio(1, 1)), (0, 0, 4));
}

#[test]
fn top_runs_are_ranked_and_diverse() {
    // Shared runs: [1,2,3] at (0,4) and [7,8] at (4,0).
    let seq1 = [1u64, 2, 3, 0, 7, 8];
    let seq2 = [7u64, 8, 9, 9, 1, 2, 3];
    let picked = find_top_runs(&seq1, &seq2, ratio(1, 10), 5);
    assert_eq!(
        picked,
        vec![
            OverlapRun { start1: 0, start2: 4, length: 3 },
            OverlapRun { start1: 4, start2: 0, length: 2 },
            // The tail [3] of the first run overlaps it by one position, which
            // is more than half of its own length of one: it is left out, as
            // are [2,3] and [8].
        ]
    );
    let triples = find_top_common_substrings(&seq1, &seq2, ratio(1, 10), 5);
    assert_eq!(triples, vec![(0, 4, 3), (4, 0, 2)]);
}

#[test]
fn top_runs_respect_the_limit() {
    let seq1 = [1u64, 2, 3, 0, 7, 8];
    let seq2 = [7u64, 8, 9, 9, 1, 2, 3];
    assert_eq!(find_top_common_substrings(&seq1, &seq2, ratio(1, 10), 1), vec![(0, 4, 3)]);
    assert_eq!(find_top_common_substrings(&seq1, &seq2, ratio(1, 10), 0), vec![]);
}

#[test]
fn top_runs_respect_the_threshold() {
    let seq1 = [1u64, 2, 3, 0, 7, 8];
    let seq2 = [7u64, 8, 9, 9, 1, 2, 3];
    // Half of six is three: only the run of three counts.
    assert_eq!(find_top_common_substrings(&seq1, &seq2, ratio(1, 2), 5), vec![(0, 4, 3)]);
    assert_eq!(top_common_runs(&seq1, &seq2, 4, 5), vec![]);
    assert_eq!(find_top_common_substrings(&seq1, &[], ratio(1, 2), 5), vec![]);
}

#[test]
fn top_runs_of_equal_length_go_by_start() {
    // Three runs of one position each, none overlapping another.
    let seq1 = [4u64, 5, 6];
    let seq2 = [6u64, 0, 4, 0, 5];
    assert_eq!(
        find_top_common_substrings(&seq1, &seq2, ratio(1, 10), 5),
        vec![(0, 2, 1), (1, 4, 1), (2, 0, 1)]
    );
}

#[test]
fn top_runs_allow_overlap_up_to_half() {
    // [1,2,3,4] at (0,0); [3,4,5,6]... the second sequence repeats 3,4 later
    // followed by new values, giving a run of four at (2,5) that overlaps the
    // first by two positions, exactly half of its length: it is kept.
    let seq1 = [1u64, 2, 3, 4, 5, 6];
    let seq2 = [1u64, 2, 3, 4, 0, 3, 4, 5, 6];
    assert_eq!(
        find_top_common_substrings(&seq1, &seq2, ratio(1, 2), 2),
        vec![(0, 0, 4), (2, 5, 4)]
    );
}
