//! The contract's stored state and its model.
//!
//! Timestamps are nanoseconds since the Unix epoch, as the chain's block
//! time counts them; addresses are their bech32 strings.
use vstd::prelude::*;
use crate::types::{Name, TallyResult, TallyView};

verus! {

/// Instantiation-time configuration.
#[derive(Clone, Debug, PartialEq, Eq)]
pub struct Config {
    pub admin: String,
    pub voting_duration_seconds: u64,
    pub registry_update_delay_seconds: u64,
}

/// The enclave image identity a quote must match.
#[derive(Clone, Debug, PartialEq, Eq)]
pub struct EnclaveImageRegistry {
    pub vkey_name: String,
    pub mrtd: Vec<u8>,
    pub rtmr1: Vec<u8>,
    pub rtmr2: Vec<u8>,
    pub rtmr0: Option<Vec<u8>>,
    pub rtmr3: Option<Vec<u8>>,
    pub accepted_tcb_statuses: Vec<u8>,
}

/// A proposed registry, applicable from `apply_after` on.
#[derive(Clone, Debug, PartialEq, Eq)]
pub struct PendingRegistry {
    pub registry: EnclaveImageRegistry,
    pub apply_after: u64,
}

/// The phase of an election, derived from the clock and the tally slot.
#[derive(Clone, Copy, Debug, PartialEq, Eq, Structural)]
pub enum Phase {
    Created,
    Voting,
    Tallying,
    Resolved,
}

/// One election.
#[derive(Clone, Debug, PartialEq, Eq)]
pub struct Election {
    pub id: u64,
    pub title: String,
    pub candidates: Vec<String>,
    pub candidate_names: Vec<String>,
    pub start_at: u64,
    pub end_at: u64,
    pub ballot_count: u32,
    pub enclave_pubkey: Vec<u8>,
}

/// Everything the contract stores.
///
/// `ballots` holds one `(voter, ciphertext)` entry per voter;
/// `historical_tallies` and `historical_elections` one entry per archived
/// election id.
#[derive(Clone, Debug)]
pub struct ContractState {
    pub config: Config,
    pub registry: EnclaveImageRegistry,
    pub election_counter: u64,
    pub election: Option<Election>,
    pub pending_registry: Option<PendingRegistry>,
    pub tally_result: Option<TallyResult>,
    pub ballots: Vec<(String, Vec<u8>)>,
    pub historical_tallies: Vec<(u64, TallyResult)>,
    pub historical_elections: Vec<(u64, Election)>,
}

/// The block a call executes in.
#[derive(Clone, Debug)]
pub struct BlockEnv {
    pub time: u64,
    pub chain_id: String,
    pub contract_address: String,
}

// ---------------------------------------------------------------------------
// Models
// ---------------------------------------------------------------------------

pub struct ConfigView {
    pub admin: Name,
    pub voting_duration_seconds: u64,
    pub registry_update_delay_seconds: u64,
}

pub struct RegistryView {
    pub vkey_name: Seq<char>,
    pub mrtd: Seq<u8>,
    pub rtmr1: Seq<u8>,
    pub rtmr2: Seq<u8>,
    pub rtmr0: Option<Seq<u8>>,
    pub rtmr3: Option<Seq<u8>>,
    pub accepted_tcb_statuses: Seq<u8>,
}

pub struct PendingView {
    pub registry: RegistryView,
    pub apply_after: u64,
}

pub struct ElectionView {
    pub id: u64,
    pub title: Seq<char>,
    pub candidates: Seq<Name>,
    pub candidate_names: Seq<Seq<char>>,
    pub start_at: u64,
    pub end_at: u64,
    pub ballot_count: u32,
    pub enclave_pubkey: Seq<u8>,
}

pub struct StateView {
    pub config: ConfigView,
    pub registry: RegistryView,
    pub election_counter: u64,
    pub election: Option<ElectionView>,
    pub pending_registry: Option<PendingView>,
    pub tally_result: Option<TallyView>,
    pub ballots: Seq<(Name, Seq<u8>)>,
    pub historical_tallies: Seq<(u64, TallyView)>,
    pub historical_elections: Seq<(u64, ElectionView)>,
}

pub struct EnvView {
    pub time: u64,
    pub chain_id: Seq<char>,
    pub contract_address: Seq<char>,
}

pub open spec fn opt_bytes(o: Option<Vec<u8>>) -> Option<Seq<u8>> {
    match o {
        Some(v) => Some(v@),
        None => None,
    }
}

impl View for Config {
    type V = ConfigView;

    open spec fn view(&self) -> ConfigView {
        ConfigView {
            admin: self.admin@,
            voting_duration_seconds: self.voting_duration_seconds,
            registry_update_delay_seconds: self.registry_update_delay_seconds,
        }
    }
}

impl View for EnclaveImageRegistry {
    type V = RegistryView;

    open spec fn view(&self) -> RegistryView {
        RegistryView {
            vkey_name: self.vkey_name@,
            mrtd: self.mrtd@,
            rtmr1: self.rtmr1@,
            rtmr2: self.rtmr2@,
            rtmr0: opt_bytes(self.rtmr0),
            rtmr3: opt_bytes(self.rtmr3),
            accepted_tcb_statuses: self.accepted_tcb_statuses@,
        }
    }
}

impl View for PendingRegistry {
    type V = PendingView;

    open spec fn view(&self) -> PendingView {
        PendingView { registry: self.registry@, apply_after: self.apply_after }
    }
}

impl View for Election {
    type V = ElectionView;

    open spec fn view(&self) -> ElectionView {
        ElectionView {
            id: self.id,
            title: self.title@,
            candidates: self.candidates.deep_view(),
            candidate_names: self.candidate_names.deep_view(),
            start_at: self.start_at,
            end_at: self.end_at,
            ballot_count: self.ballot_count,
            enclave_pubkey: self.enclave_pubkey@,
        }
    }
}

pub open spec fn opt_election(o: Option<Election>) -> Option<ElectionView> {
    match o {
        Some(e) => Some(e@),
        None => None,
    }
}

pub open spec fn opt_pending(o: Option<PendingRegistry>) -> Option<PendingView> {
    match o {
        Some(p) => Some(p@),
        None => None,
    }
}

pub open spec fn opt_tally(o: Option<TallyResult>) -> Option<TallyView> {
    match o {
        Some(t) => Some(t@),
        None => None,
    }
}

impl View for ContractState {
    type V = StateView;

    open spec fn view(&self) -> StateView {
        StateView {
            config: self.config@,
            registry: self.registry@,
            election_counter: self.election_counter,
            election: opt_election(self.election),
            pending_registry: opt_pending(self.pending_registry),
            tally_result: opt_tally(self.tally_result),
            ballots: self.ballots.deep_view(),
            historical_tallies: Seq::new(
                self.historical_tallies@.len(),
                |i: int| (self.historical_tallies@[i].0, self.historical_tallies@[i].1@),
            ),
            historical_elections: Seq::new(
                self.historical_elections@.len(),
                |i: int| (self.historical_elections@[i].0, self.historical_elections@[i].1@),
            ),
        }
    }
}

impl View for BlockEnv {
    type V = EnvView;

    open spec fn view(&self) -> EnvView {
        EnvView { time: self.time, chain_id: self.chain_id@, contract_address: self.contract_address@ }
    }
}

/// The phase at time `now`: resolved once a tally is stored, else created
/// before `start_at`, voting before `end_at`, tallying after.
pub open spec fn phase_at(now: u64, start_at: u64, end_at: u64, has_tally: bool) -> Phase {
    if has_tally {
        Phase::Resolved
    } else if now < start_at {
        Phase::Created
    } else if now < end_at {
        Phase::Voting
    } else {
        Phase::Tallying
    }
}

/// The phase of an election at `now`.
pub fn derive_phase(now: u64, election: &Election, has_tally: bool) -> (p: Phase)
    ensures
        p == phase_at(now, election.start_at, election.end_at, has_tally),
{
    if has_tally {
        Phase::Resolved
    } else if now < election.start_at {
        Phase::Created
    } else if now < election.end_at {
        Phase::Voting
    } else {
        Phase::Tallying
    }
}

} // verus!
