//! The dstack guest agent's pure parts: the simulator's key and mock
//! quotes, and checking a derived key's length.
use vstd::prelude::*;
use crate::codec::append_bytes;
use crate::contract::checks::{decimal, message_with_number};
use crate::digest::{sha256, sha256_spec};

verus! {

/// Why the dstack agent could not serve a request.
#[derive(Debug, Clone)]
pub enum DstackError {
    Request(String),
    Malformed(String),
    SimulatorConfig(String),
}

/// The enclave image identity the agent reports.
#[derive(Debug, Clone, Default)]
pub struct ImageIdentity {
    pub compose_hash: Vec<u8>,
    pub rtmr: Vec<u8>,
}

/// A development stand-in for the agent: one fixed key, mock quotes.
#[derive(Debug, Clone)]
pub struct SimulatorDstackClient {
    pub fixed_privkey: [u8; 32],
}

/// The 16-byte prefix of a simulator quote: `DSTACK_MOCK_QV01`.
pub const SIMULATOR_QUOTE_MAGIC: [u8; 16] = [
    68u8, 83, 84, 65, 67, 75, 95, 77, 79, 67, 75, 95, 81, 86, 48, 49,
];

/// A simulator quote: the magic, the ReportData, then its SHA-256.
pub open spec fn mock_quote_bytes(report_data: Seq<u8>) -> Seq<u8> {
    SIMULATOR_QUOTE_MAGIC@ + report_data + sha256_spec(report_data)
}

/// The ReportData a simulator quote carries, if it is one.
pub open spec fn mock_user_data(quote: Seq<u8>) -> Option<Seq<u8>> {
    if quote.len() < 80 || quote.subrange(0, 16) != SIMULATOR_QUOTE_MAGIC@ {
        None
    } else {
        Some(quote.subrange(16, 80))
    }
}

/// A simulator quote over `report_data`.
pub fn mock_quote(report_data: &[u8; 64]) -> (q: Vec<u8>)
    ensures
        q@ == mock_quote_bytes(report_data@),
{
    let mut out: Vec<u8> = Vec::with_capacity(112);
    append_bytes(&mut out, SIMULATOR_QUOTE_MAGIC.as_slice());
    append_bytes(&mut out, report_data.as_slice());
    let h = sha256(report_data.as_slice());
    append_bytes(&mut out, h.as_slice());
    assert(out@ =~= mock_quote_bytes(report_data@));
    out
}

/// The ReportData of a simulator quote; `None` for anything else.
pub fn parse_mock_quote_user_data(quote: &[u8]) -> (r: Option<[u8; 64]>)
    ensures
        match mock_user_data(quote@) {
            Some(rd) => r matches Some(a) && a@ == rd,
            None => r is None,
        },
{
    if quote.len() < 80 {
        return None;
    }
    let mut i: usize = 0;
    while i < 16
        invariant
            quote@.len() >= 80,
            i <= 16,
            forall|j: int| 0 <= j < i ==> quote@[j] == SIMULATOR_QUOTE_MAGIC@[j],
        decreases 16 - i,
    {
        if quote[i] != SIMULATOR_QUOTE_MAGIC[i] {
            assert(quote@.subrange(0, 16)[i as int] != SIMULATOR_QUOTE_MAGIC@[i as int]);
            return None;
        }
        i += 1;
    }
    assert(quote@.subrange(0, 16) =~= SIMULATOR_QUOTE_MAGIC@);
    let mut out = [0u8; 64];
    let mut k: usize = 0;
    while k < 64
        invariant
            quote@.len() >= 80,
            k <= 64,
            out@.len() == 64,
            forall|j: int| 0 <= j < k ==> out@[j] == quote@[16 + j],
        decreases 64 - k,
    {
        out[k] = quote[16 + k];
        k += 1;
    }
    assert(out@ =~= quote@.subrange(16, 80));
    Some(out)
}

/// A simulator quote gives back the ReportData it was made over.
pub proof fn law_mock_quote_round_trip(report_data: Seq<u8>)
    requires
        report_data.len() == 64,
    ensures
        mock_user_data(mock_quote_bytes(report_data)) == Some(report_data),
{
    let q = mock_quote_bytes(report_data);
    assert(q.subrange(0, 16) =~= SIMULATOR_QUOTE_MAGIC@);
    assert(q.subrange(16, 80) =~= report_data);
}

/// The path the KMS derives an election's key from:
/// `verified-rcv-v1:{contract_addr}:{election_id}`.
pub fn kms_key_path(contract_addr: &str, election_id: u64) -> (p: String)
    ensures
        p@ == "verified-rcv-v1:"@ + contract_addr@ + ":"@ + decimal(election_id as nat),
{
    let mut prefix = String::from_str("verified-rcv-v1:");
    prefix.append(contract_addr);
    prefix.append(":");
    let p = message_with_number(prefix.as_str(), election_id, "");
    proof {
        reveal_strlit("");
        assert(p@ =~= "verified-rcv-v1:"@ + contract_addr@ + ":"@ + decimal(election_id as nat));
    }
    p
}

/// A derived key of exactly 32 bytes, or nothing.
pub fn key_from_bytes(bytes: &[u8]) -> (r: Option<[u8; 32]>)
    ensures
        match r {
            Some(k) => bytes@.len() == 32 && k@ == bytes@,
            None => bytes@.len() != 32,
        },
{
    if bytes.len() != 32 {
        return None;
    }
    let mut out = [0u8; 32];
    let mut i: usize = 0;
    while i < 32
        invariant
            bytes@.len() == 32,
            i <= 32,
            out@.len() == 32,
            forall|j: int| 0 <= j < i ==> out@[j] == bytes@[j],
        decreases 32 - i,
    {
        out[i] = bytes[i];
        i += 1;
    }
    assert(out@ =~= bytes@);
    Some(out)
}

impl SimulatorDstackClient {
    /// A simulator that derives `privkey` for every election.
    pub fn with_privkey(privkey: [u8; 32]) -> (c: Self)
        ensures
            c.fixed_privkey == privkey,
    {
        SimulatorDstackClient { fixed_privkey: privkey }
    }

    /// The key for an election: always the fixed one.
    pub fn derive_privkey(&self, contract_addr: &str, election_id: u64) -> (r: Result<[u8; 32], DstackError>)
        ensures
            r == Ok::<[u8; 32], DstackError>(self.fixed_privkey),
    {
        Ok(self.fixed_privkey)
    }

    /// A mock quote over `report_data`.
    pub fn get_quote(&self, report_data: &[u8; 64]) -> (r: Result<Vec<u8>, DstackError>)
        ensures
            r matches Ok(q) && q@ == mock_quote_bytes(report_data@),
    {
        Ok(mock_quote(report_data))
    }

    /// The simulator has no image identity: both fields empty.
    pub fn get_image_identity(&self) -> (r: Result<ImageIdentity, DstackError>)
        ensures
            r matches Ok(id) && id.compose_hash@.len() == 0 && id.rtmr@.len() == 0,
    {
        Ok(ImageIdentity { compose_hash: Vec::new(), rtmr: Vec::new() })
    }
}

} // verus!
