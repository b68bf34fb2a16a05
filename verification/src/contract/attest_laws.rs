//! What the quote checks accept: a quote over the registered image that
//! carries the commit (or the registration binding) under the right tag,
//! with a verified proof, is accepted; and anything accepted carries
//! exactly that.
use vstd::prelude::*;
use crate::binding::{registration_preimage, tagged, DST_PUBKEY, DST_TALLY};
use crate::contract::error::{ErrorView, GnarkVerdict};
use crate::contract::layout::{fr_u64, is_synthetic, law_synthetic_round_trip, read_field};
use crate::contract::quote::{dst_ok, publish_quote_error, registration_quote_error, report_bytes};
use crate::contract::state::RegistryView;
use crate::digest::sha256_spec;

verus! {

/// The image registered for the election: the given registers, where the
/// registry binds RTMR0 and RTMR3 those too, and an accepted TcbStatus.
pub open spec fn matches_registry(
    reg: RegistryView,
    mrtd: Seq<u8>,
    rtmr0: Seq<u8>,
    rtmr1: Seq<u8>,
    rtmr2: Seq<u8>,
    rtmr3: Seq<u8>,
    tcb_status: u8,
) -> bool {
    &&& reg.mrtd == mrtd
    &&& reg.rtmr1 == rtmr1
    &&& reg.rtmr2 == rtmr2
    &&& (reg.rtmr0 matches Some(x) ==> x == rtmr0)
    &&& (reg.rtmr3 matches Some(x) ==> x == rtmr3)
    &&& tcb_status <= 6
    &&& reg.accepted_tcb_statuses.contains(tcb_status)
}

proof fn lemma_tagged(lower: Seq<u8>, tag: Seq<u8>)
    requires
        lower.len() == 32,
        tag.len() <= 32,
    ensures
        tagged(lower, tag).len() == 64,
        tagged(lower, tag).subrange(0, 32) == lower,
        dst_ok(tagged(lower, tag), tag),
{
    let t = tagged(lower, tag);
    assert(t.subrange(0, 32) =~= lower);
    assert(t.subrange(32, 64) =~= tag + Seq::new((32 - tag.len()) as nat, |i: int| 0u8));
}

/// A publish quote over the registered image whose ReportData is the commit
/// under the tally tag, with a verified proof, is accepted.
pub proof fn law_attested_publish_accepted(
    pi: Seq<u8>,
    reg: RegistryView,
    commit: Seq<u8>,
    mrtd: Seq<u8>,
    rtmr0: Seq<u8>,
    rtmr1: Seq<u8>,
    rtmr2: Seq<u8>,
    rtmr3: Seq<u8>,
    tcb_status: u8,
    timestamp: u64,
)
    requires
        commit.len() == 32,
        mrtd.len() == 48,
        rtmr0.len() == 48,
        rtmr1.len() == 48,
        rtmr2.len() == 48,
        rtmr3.len() == 48,
        matches_registry(reg, mrtd, rtmr0, rtmr1, rtmr2, rtmr3, tcb_status),
        is_synthetic(pi, mrtd, rtmr0, rtmr1, rtmr2, rtmr3, tagged(commit, DST_TALLY@), tcb_status, timestamp),
    ensures
        publish_quote_error(pi, reg, commit, GnarkVerdict::Verified) is None,
{
    lemma_tagged(commit, DST_TALLY@);
    law_synthetic_round_trip(pi, mrtd, rtmr0, rtmr1, rtmr2, rtmr3, tagged(commit, DST_TALLY@), tcb_status, timestamp);
}

/// A publish quote is accepted only with a verified proof, registers equal
/// to the registered ones, and a ReportData whose lower half is the commit
/// and whose upper half is the tally tag.
pub proof fn law_publish_accepted_binds_commit(pi: Seq<u8>, reg: RegistryView, commit: Seq<u8>, v: GnarkVerdict)
    requires
        publish_quote_error(pi, reg, commit, v) is None,
    ensures
        v == GnarkVerdict::Verified,
        pi.len() == 9792,
        read_field(pi, 0, 48) == Ok::<Seq<u8>, ErrorView>(reg.mrtd),
        read_field(pi, 96, 48) == Ok::<Seq<u8>, ErrorView>(reg.rtmr1),
        read_field(pi, 144, 48) == Ok::<Seq<u8>, ErrorView>(reg.rtmr2),
        reg.accepted_tcb_statuses.contains(fr_u64(pi, 304) as u8),
        report_bytes(pi).subrange(0, 32) == commit,
        dst_ok(report_bytes(pi), DST_TALLY@),
{
}

/// A registration quote over the registered image whose ReportData is a
/// digest under the pubkey tag, with a verified proof, is accepted for the
/// key, contract, election and names hash whose registration digest that is.
pub proof fn law_attested_registration_accepted(
    pi: Seq<u8>,
    reg: RegistryView,
    digest: Seq<u8>,
    pubkey: Seq<u8>,
    contract_addr: Seq<char>,
    election_id: u64,
    names_hash: Seq<u8>,
    mrtd: Seq<u8>,
    rtmr0: Seq<u8>,
    rtmr1: Seq<u8>,
    rtmr2: Seq<u8>,
    rtmr3: Seq<u8>,
    tcb_status: u8,
    timestamp: u64,
)
    requires
        digest.len() == 32,
        mrtd.len() == 48,
        rtmr0.len() == 48,
        rtmr1.len() == 48,
        rtmr2.len() == 48,
        rtmr3.len() == 48,
        matches_registry(reg, mrtd, rtmr0, rtmr1, rtmr2, rtmr3, tcb_status),
        is_synthetic(pi, mrtd, rtmr0, rtmr1, rtmr2, rtmr3, tagged(digest, DST_PUBKEY@), tcb_status, timestamp),
    ensures
        digest == sha256_spec(registration_preimage(pubkey, contract_addr, election_id, names_hash))
            ==> registration_quote_error(
            pi,
            reg,
            pubkey,
            contract_addr,
            election_id,
            names_hash,
            GnarkVerdict::Verified,
        ) is None,
{
    lemma_tagged(digest, DST_PUBKEY@);
    law_synthetic_round_trip(pi, mrtd, rtmr0, rtmr1, rtmr2, rtmr3, tagged(digest, DST_PUBKEY@), tcb_status, timestamp);
}

/// A registration quote is accepted only with a verified proof, registers
/// equal to the registered ones, and a ReportData that binds this key,
/// contract, election and names hash under the pubkey tag.
pub proof fn law_registration_accepted_binds_key(
    pi: Seq<u8>,
    reg: RegistryView,
    pubkey: Seq<u8>,
    contract_addr: Seq<char>,
    election_id: u64,
    names_hash: Seq<u8>,
    v: GnarkVerdict,
)
    requires
        registration_quote_error(pi, reg, pubkey, contract_addr, election_id, names_hash, v) is None,
    ensures
        v == GnarkVerdict::Verified,
        pi.len() == 9792,
        read_field(pi, 0, 48) == Ok::<Seq<u8>, ErrorView>(reg.mrtd),
        read_field(pi, 96, 48) == Ok::<Seq<u8>, ErrorView>(reg.rtmr1),
        read_field(pi, 144, 48) == Ok::<Seq<u8>, ErrorView>(reg.rtmr2),
        reg.accepted_tcb_statuses.contains(fr_u64(pi, 304) as u8),
        report_bytes(pi).subrange(0, 32) == sha256_spec(
            registration_preimage(pubkey, contract_addr, election_id, names_hash),
        ),
        dst_ok(report_bytes(pi), DST_PUBKEY@),
{
}

} // verus!
