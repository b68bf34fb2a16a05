//! The IRV core on hand-built ballots.
use verified_rcv::irv::total_count;
use verified_rcv::{irv_spec, Ballot, DecryptedSet, RoundCount, TallyResult};

fn addr(s: &str) -> String {
    s.to_string()
}

fn ballot(ranks: &[&str]) -> Ballot {
    let mut v: Vec<String> = Vec::with_capacity(ranks.len());
    for r in ranks {
        v.push(addr(r));
    }
    Ballot { ranking: v }
}

fn entry(voter: &str, ranks: &[&str]) -> (String, Ballot) {
    (addr(voter), ballot(ranks))
}

fn count_for(rc: &Vec<RoundCount>, c: &str) -> Option<u32> {
    for e in rc {
        if e.candidate == addr(c) {
            return Some(e.count);
        }
    }
    None
}

// -----------------------------------------------------------------
// Test 1: single-round majority win.
// 5 voters, 3 candidates. A gets 3 first-place; 3 > 5/2 = 2 → wins
// in 1 round.
// -----------------------------------------------------------------
#[test]
fn single_round_majority() {
    let candidates: Vec<String> = vec![addr("A"), addr("B"), addr("C")];
    let valid: Vec<(String, Ballot)> = vec![
        entry("v1", &["A", "B", "C"]),
        entry("v2", &["A", "C", "B"]),
        entry("v3", &["A", "B", "C"]),
        entry("v4", &["B", "A", "C"]),
        entry("v5", &["C", "A", "B"]),
    ];

    let r = irv_spec(&valid, &candidates);

    assert_eq!(r.winners, vec![addr("A")]);
    assert_eq!(r.per_round_counts.len(), 1);
    assert_eq!(r.eliminated_by_round.len(), 0);
    assert_eq!(r.ballots_tallied, 5);
    assert_eq!(r.per_round_counts.len(), r.eliminated_by_round.len() + 1);

    let rc0 = &r.per_round_counts[0];
    assert_eq!(count_for(rc0, "A"), Some(3));
    assert_eq!(count_for(rc0, "B"), Some(1));
    assert_eq!(count_for(rc0, "C"), Some(1));
}

// -----------------------------------------------------------------
// Test 2: two-round elimination.
// 5 voters, 3 candidates. Round 1: A=2, B=2, C=1; no majority.
// Eliminate C; C's ballot redistributes to A → A=3, B=2 → A wins.
// -----------------------------------------------------------------
#[test]
fn two_round_elimination() {
    let candidates: Vec<String> = vec![addr("A"), addr("B"), addr("C")];
    let valid: Vec<(String, Ballot)> = vec![
        entry("v1", &["A", "B", "C"]),
        entry("v2", &["A", "C", "B"]),
        entry("v3", &["B", "A", "C"]),
        entry("v4", &["B", "C", "A"]),
        entry("v5", &["C", "A", "B"]),
    ];

    let r = irv_spec(&valid, &candidates);

    assert_eq!(r.ballots_tallied, 5);
    assert_eq!(r.per_round_counts.len(), 2);
    assert_eq!(r.eliminated_by_round.len(), 1);
    assert_eq!(r.eliminated_by_round[0], vec![addr("C")]);

    let rc0 = &r.per_round_counts[0];
    assert_eq!(count_for(rc0, "A"), Some(2));
    assert_eq!(count_for(rc0, "B"), Some(2));
    assert_eq!(count_for(rc0, "C"), Some(1));

    let rc1 = &r.per_round_counts[1];
    assert_eq!(count_for(rc1, "A"), Some(3));
    assert_eq!(count_for(rc1, "B"), Some(2));
    assert_eq!(count_for(rc1, "C"), None);

    assert_eq!(r.winners, vec![addr("A")]);
    assert_eq!(r.per_round_counts.len(), r.eliminated_by_round.len() + 1);
}

// -----------------------------------------------------------------
// Test 3: all-abstain. 0 valid ballots, 3 candidates → 3 co-winners,
// 1 round of zero counts, 0 eliminations.
// -----------------------------------------------------------------
#[test]
fn all_abstain() {
    let candidates: Vec<String> = vec![addr("A"), addr("B"), addr("C")];
    let valid: Vec<(String, Ballot)> = Vec::new();

    let r = irv_spec(&valid, &candidates);

    assert_eq!(r.winners, candidates);
    assert_eq!(r.ballots_tallied, 0);
    assert_eq!(r.per_round_counts.len(), 1);
    assert_eq!(r.eliminated_by_round.len(), 0);

    let rc0 = &r.per_round_counts[0];
    assert_eq!(rc0.len(), 3);
    for e in rc0 {
        assert_eq!(e.count, 0u32);
    }

    assert_eq!(r.per_round_counts.len(), r.eliminated_by_round.len() + 1);
}

// -----------------------------------------------------------------
// Test 4: terminal tie. 3 voters with distinct first-choices, 3
// candidates → all tied at 1, losers == remaining → terminal tie
// → all candidates co-win, no eliminations recorded.
// -----------------------------------------------------------------
#[test]
fn terminal_tie() {
    let candidates: Vec<String> = vec![addr("A"), addr("B"), addr("C")];
    let valid: Vec<(String, Ballot)> = vec![
        entry("v1", &["A", "B", "C"]),
        entry("v2", &["B", "C", "A"]),
        entry("v3", &["C", "A", "B"]),
    ];

    let r = irv_spec(&valid, &candidates);

    assert_eq!(r.winners.len(), 3);
    assert_eq!(r.winners, candidates);
    assert_eq!(r.ballots_tallied, 3);
    assert_eq!(r.per_round_counts.len(), 1);
    assert_eq!(r.eliminated_by_round.len(), 0);

    let rc0 = &r.per_round_counts[0];
    assert_eq!(count_for(rc0, "A"), Some(1));
    assert_eq!(count_for(rc0, "B"), Some(1));
    assert_eq!(count_for(rc0, "C"), Some(1));

    assert_eq!(r.per_round_counts.len(), r.eliminated_by_round.len() + 1);
}

// -----------------------------------------------------------------
// Test 5: single candidate. 1 candidate → sole winner in 1 round.
// -----------------------------------------------------------------
#[test]
fn single_candidate() {
    let candidates: Vec<String> = vec![addr("A")];
    let valid: Vec<(String, Ballot)> = vec![
        entry("v1", &["A"]),
        entry("v2", &["A"]),
    ];

    let r = irv_spec(&valid, &candidates);

    assert_eq!(r.winners, vec![addr("A")]);
    assert_eq!(r.ballots_tallied, 2);
    assert_eq!(r.per_round_counts.len(), 1);
    assert_eq!(r.eliminated_by_round.len(), 0);
    assert_eq!(r.per_round_counts.len(), r.eliminated_by_round.len() + 1);
}

// -----------------------------------------------------------------
// Test 6: batch elimination. 6 voters, 4 candidates → Round 1:
// A=2, B=2, C=1, D=1. min=1, losers={C,D}, batch of 2.
// Round 2: C's ballot (C>A>B>D) → A; D's ballot (D>B>A>C) → B.
// Final: A=3, B=3, total=6, threshold = 6/2 = 3; 3 > 3 is false →
// no majority. min=3, losers={A,B}, losers.len() == remaining.len()
// = 2 → terminal tie → A, B co-win.
// -----------------------------------------------------------------
#[test]
fn batch_elimination() {
    let candidates: Vec<String> =
        vec![addr("A"), addr("B"), addr("C"), addr("D")];
    let valid: Vec<(String, Ballot)> = vec![
        entry("v1", &["A", "B", "C", "D"]),
        entry("v2", &["A", "B", "C", "D"]),
        entry("v3", &["B", "A", "C", "D"]),
        entry("v4", &["B", "A", "C", "D"]),
        entry("v5", &["C", "A", "B", "D"]),
        entry("v6", &["D", "B", "A", "C"]),
    ];

    let r = irv_spec(&valid, &candidates);

    assert_eq!(r.ballots_tallied, 6);

    let rc0 = &r.per_round_counts[0];
    assert_eq!(count_for(rc0, "A"), Some(2));
    assert_eq!(count_for(rc0, "B"), Some(2));
    assert_eq!(count_for(rc0, "C"), Some(1));
    assert_eq!(count_for(rc0, "D"), Some(1));

    assert_eq!(r.eliminated_by_round.len(), 1);
    assert_eq!(r.eliminated_by_round[0].len(), 2);
    assert!(r.eliminated_by_round[0].contains(&addr("C")));
    assert!(r.eliminated_by_round[0].contains(&addr("D")));

    assert_eq!(r.per_round_counts.len(), 2);
    let rc1 = &r.per_round_counts[1];
    assert_eq!(count_for(rc1, "A"), Some(3));
    assert_eq!(count_for(rc1, "B"), Some(3));
    assert_eq!(count_for(rc1, "C"), None);
    assert_eq!(count_for(rc1, "D"), None);

    assert_eq!(r.winners.len(), 2);
    assert!(r.winners.contains(&addr("A")));
    assert!(r.winners.contains(&addr("B")));

    assert_eq!(r.per_round_counts.len(), r.eliminated_by_round.len() + 1);
}

// -----------------------------------------------------------------
// Test 7: multi-round trace — confirm the round/elimination length relation
// and winner-shape invariants hold for a non-trivial 5-candidate
// election.
// -----------------------------------------------------------------
#[test]
fn a6_length_relation_holds_for_multiround_trace() {
    let candidates: Vec<String> =
        vec![addr("A"), addr("B"), addr("C"), addr("D"), addr("E")];
    let valid: Vec<(String, Ballot)> = vec![
        entry("v1", &["A", "B", "C", "D", "E"]),
        entry("v2", &["A", "B", "C", "D", "E"]),
        entry("v3", &["B", "A", "C", "D", "E"]),
        entry("v4", &["B", "A", "C", "D", "E"]),
        entry("v5", &["C", "A", "B", "D", "E"]),
        entry("v6", &["D", "C", "A", "B", "E"]),
        entry("v7", &["E", "C", "A", "B", "D"]),
    ];

    let r = irv_spec(&valid, &candidates);

    // One more round of counts than rounds of eliminations.
    assert_eq!(r.per_round_counts.len(), r.eliminated_by_round.len() + 1);
    // ballots_tallied = |valid|.
    assert_eq!(r.ballots_tallied, 7);
    // Winners non-empty, all members of candidates.
    assert!(r.winners.len() >= 1);
    for w in &r.winners {
        assert!(candidates.contains(w));
    }
    // Termination: at most |candidates| rounds.
    assert!(r.per_round_counts.len() <= candidates.len());
}

// -----------------------------------------------------------------
// Test 8: per-round counts sum to ballots_tallied for
// full-permutation ballots (no exhaustion path taken).
// -----------------------------------------------------------------
#[test]
fn round_counts_sum_to_ballots_tallied() {
    let candidates: Vec<String> = vec![addr("A"), addr("B"), addr("C")];
    let valid: Vec<(String, Ballot)> = vec![
        entry("v1", &["A", "B", "C"]),
        entry("v2", &["A", "C", "B"]),
        entry("v3", &["B", "A", "C"]),
        entry("v4", &["B", "C", "A"]),
        entry("v5", &["C", "A", "B"]),
    ];

    let r = irv_spec(&valid, &candidates);

    for rc in &r.per_round_counts {
        let s: u32 = total_count(rc);
        assert_eq!(s, r.ballots_tallied);
    }
}

// -----------------------------------------------------------------
// Test 9: no eliminated candidate reappears in a
// later per_round_counts row.
// -----------------------------------------------------------------
#[test]
fn no_reappearance() {
    let candidates: Vec<String> =
        vec![addr("A"), addr("B"), addr("C"), addr("D")];
    let valid: Vec<(String, Ballot)> = vec![
        entry("v1", &["A", "B", "C", "D"]),
        entry("v2", &["A", "B", "C", "D"]),
        entry("v3", &["B", "A", "C", "D"]),
        entry("v4", &["B", "A", "C", "D"]),
        entry("v5", &["C", "A", "B", "D"]),
        entry("v6", &["D", "B", "A", "C"]),
    ];

    let r = irv_spec(&valid, &candidates);

    let n_elim = r.eliminated_by_round.len();
    let mut i: usize = 0;
    while i < n_elim {
        let eliminated_round_i: &Vec<String> = &r.eliminated_by_round[i];
        let mut j: usize = i + 1;
        while j < r.per_round_counts.len() {
            let rc_j: &Vec<RoundCount> = &r.per_round_counts[j];
            for c in eliminated_round_i {
                for e in rc_j {
                    assert!(
                        e.candidate != *c,
                        "candidate {} eliminated at round {} reappeared at round {}",
                        c,
                        i,
                        j
                    );
                }
            }
            j += 1;
        }
        i += 1;
    }
}

// -----------------------------------------------------------------
// Test 10: composition-layer field threading. Since
// decrypt_and_validate is unimplemented!(), we construct a
// DecryptedSet directly and assemble the TallyResult by hand;
// this exercises the field-threading shape that `tally_spec`
// implements without depending on the Stage 1 stub.
// -----------------------------------------------------------------
#[test]
fn tally_spec_composition_shape() {
    let candidates: Vec<String> = vec![addr("A"), addr("B"), addr("C")];
    let d = DecryptedSet {
        valid: vec![
            entry("v1", &["A", "B", "C"]),
            entry("v2", &["A", "B", "C"]),
            entry("v3", &["A", "B", "C"]),
        ],
        dropped: vec![addr("v4")],
        non_voters: vec![addr("v5")],
    };
    let r = irv_spec(&d.valid, &candidates);
    let t = TallyResult {
        winners: r.winners.clone(),
        per_round_counts: r.per_round_counts.clone(),
        eliminated_by_round: r.eliminated_by_round.clone(),
        ballots_tallied: r.ballots_tallied,
        ballots_dropped: d.dropped.len() as u32,
        dropped_voters: d.dropped.clone(),
        non_voters: d.non_voters.clone(),
    };

    assert_eq!(t.winners, vec![addr("A")]);
    assert_eq!(t.ballots_tallied, 3);
    assert_eq!(t.ballots_dropped, 1);
    assert_eq!(t.dropped_voters, vec![addr("v4")]);
    assert_eq!(t.non_voters, vec![addr("v5")]);
    assert_eq!(t.per_round_counts.len(), t.eliminated_by_round.len() + 1);
}

