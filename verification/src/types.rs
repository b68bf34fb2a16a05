//! Value types shared by the tally core, the runtime and the contract.
//!
//! Candidate and voter addresses are plain `String`s; their mathematical
//! model is the character sequence `Seq<char>` that vstd gives `String`.
use vstd::prelude::*;

verus! {

/// A ranked ballot: candidate addresses in preference order.
#[derive(Clone, Debug, PartialEq, Eq)]
pub struct Ballot {
    pub ranking: Vec<String>,
}

/// `(voter, encrypted ballot bytes)` as it arrives from the chain.
#[derive(Clone, Debug, PartialEq, Eq)]
pub struct RawEntry {
    pub voter: String,
    pub ciphertext: Vec<u8>,
}

/// First-preference count of one candidate in one round.
#[derive(Clone, Debug, PartialEq, Eq)]
pub struct RoundCount {
    pub candidate: String,
    pub count: u32,
}

/// Output of the IRV core (Stage 2).
#[derive(Clone, Debug, PartialEq, Eq)]
pub struct IRVResult {
    pub winners: Vec<String>,
    pub per_round_counts: Vec<Vec<RoundCount>>,
    pub eliminated_by_round: Vec<Vec<String>>,
    pub ballots_tallied: u32,
}

/// Output of the full tally: the IRV result plus Stage 1's voter bookkeeping.
#[derive(Clone, Debug, PartialEq, Eq)]
pub struct TallyResult {
    pub winners: Vec<String>,
    pub per_round_counts: Vec<Vec<RoundCount>>,
    pub eliminated_by_round: Vec<Vec<String>>,
    pub ballots_tallied: u32,
    pub ballots_dropped: u32,
    pub dropped_voters: Vec<String>,
    pub non_voters: Vec<String>,
}

/// Output of Stage 1: valid ballots, voters whose ballot was dropped, and
/// candidates that did not vote.
#[derive(Clone, Debug, PartialEq, Eq)]
pub struct DecryptedSet {
    pub valid: Vec<(String, Ballot)>,
    pub dropped: Vec<String>,
    pub non_voters: Vec<String>,
}

/// Model of a name: its characters.
pub type Name = Seq<char>;

/// Model of one round's counts: `(candidate, count)` pairs.
pub type CountRow = Seq<(Seq<char>, u32)>;

/// Model of the valid ballots: `(voter, ranking)` pairs.
pub type Entries = Seq<(Seq<char>, Seq<Seq<char>>)>;

impl DeepView for Ballot {
    type V = Seq<Seq<char>>;

    open spec fn deep_view(&self) -> Seq<Seq<char>> {
        self.ranking.deep_view()
    }
}

impl DeepView for RoundCount {
    type V = (Seq<char>, u32);

    open spec fn deep_view(&self) -> (Seq<char>, u32) {
        (self.candidate@, self.count)
    }
}

impl DeepView for RawEntry {
    type V = (Seq<char>, Seq<u8>);

    open spec fn deep_view(&self) -> (Seq<char>, Seq<u8>) {
        (self.voter@, self.ciphertext@)
    }
}

/// Model of an [`IRVResult`].
pub struct IRVView {
    pub winners: Seq<Name>,
    pub per_round_counts: Seq<CountRow>,
    pub eliminated_by_round: Seq<Seq<Name>>,
    pub ballots_tallied: u32,
}

/// Model of a [`TallyResult`].
pub struct TallyView {
    pub winners: Seq<Name>,
    pub per_round_counts: Seq<CountRow>,
    pub eliminated_by_round: Seq<Seq<Name>>,
    pub ballots_tallied: u32,
    pub ballots_dropped: u32,
    pub dropped_voters: Seq<Name>,
    pub non_voters: Seq<Name>,
}

/// Model of a [`DecryptedSet`].
pub struct DecryptedView {
    pub valid: Entries,
    pub dropped: Seq<Name>,
    pub non_voters: Seq<Name>,
}

impl View for IRVResult {
    type V = IRVView;

    open spec fn view(&self) -> IRVView {
        IRVView {
            winners: self.winners.deep_view(),
            per_round_counts: self.per_round_counts.deep_view(),
            eliminated_by_round: self.eliminated_by_round.deep_view(),
            ballots_tallied: self.ballots_tallied,
        }
    }
}

impl View for TallyResult {
    type V = TallyView;

    open spec fn view(&self) -> TallyView {
        TallyView {
            winners: self.winners.deep_view(),
            per_round_counts: self.per_round_counts.deep_view(),
            eliminated_by_round: self.eliminated_by_round.deep_view(),
            ballots_tallied: self.ballots_tallied,
            ballots_dropped: self.ballots_dropped,
            dropped_voters: self.dropped_voters.deep_view(),
            non_voters: self.non_voters.deep_view(),
        }
    }
}

impl View for DecryptedSet {
    type V = DecryptedView;

    open spec fn view(&self) -> DecryptedView {
        DecryptedView {
            valid: self.valid.deep_view(),
            dropped: self.dropped.deep_view(),
            non_voters: self.non_voters.deep_view(),
        }
    }
}

/// A copy of a list of strings with the same contents.
pub fn copy_names(v: &Vec<String>) -> (r: Vec<String>)
    ensures
        r.deep_view() == v.deep_view(),
{
    let mut out: Vec<String> = Vec::new();
    let mut i: usize = 0;
    while i < v.len()
        invariant
            i <= v.len(),
            out.deep_view() =~= v.deep_view().take(i as int),
        decreases v.len() - i,
    {
        let s = v[i].clone();
        proof {
            assert(s@ == v.deep_view()[i as int]);
        }
        out.push(s);
        proof {
            assert(out.deep_view() =~= v.deep_view().take(i as int).push(s@));
            assert(v.deep_view().take(i as int + 1) =~= v.deep_view().take(i as int).push(s@));
        }
        i += 1;
    }
    assert(v.deep_view().take(v.len() as int) =~= v.deep_view());
    out
}

} // verus!
