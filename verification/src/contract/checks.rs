//! Shape checks on what the contract is handed: the enclave public key,
//! the image registry, the candidate display names, and the declaration
//! order of name lists.
use vstd::prelude::*;
use vstd::string::StringExecFns;
use vstd::utf8::encode_utf8;
use crate::contract::error::{ContractError, ErrorView};
use crate::contract::state::{EnclaveImageRegistry, RegistryView};
use crate::seqs::is_subseq;

verus! {

/// Largest byte length of a candidate display name.
pub const CANDIDATE_NAME_MAX_BYTES: usize = 64;

// ---------------------------------------------------------------------------
// Messages
// ---------------------------------------------------------------------------

/// The decimal digits of `n`.
pub open spec fn decimal(n: nat) -> Seq<char>
    decreases n,
{
    if n < 10 {
        seq![(48 + n) as char]
    } else {
        decimal(n / 10).push((48 + n % 10) as char)
    }
}

/// `String::push`.
///
/// Trusted: appends the character `c` to `s`.
#[verifier::external_body]
fn string_push(s: &mut String, c: char)
    ensures
        final(s)@ == old(s)@.push(c),
{
    s.push(c);
}

fn push_decimal(s: &mut String, n: u64)
    ensures
        final(s)@ == old(s)@ + decimal(n as nat),
    decreases n,
{
    if n >= 10 {
        push_decimal(s, n / 10);
    }
    let d = (n % 10) as u8;
    string_push(s, (48u8 + d) as char);
    proof {
        assert(s@ =~= old(s)@ + decimal(n as nat));
    }
}

/// `prefix`, then `n` in decimal, then `suffix`.
pub(crate) fn message_with_number(prefix: &str, n: u64, suffix: &str) -> (s: String)
    ensures
        s@ == prefix@ + decimal(n as nat) + suffix@,
{
    let mut s = String::new();
    s.append(prefix);
    push_decimal(&mut s, n);
    s.append(suffix);
    proof {
        assert(s@ =~= prefix@ + decimal(n as nat) + suffix@);
    }
    s
}

// ---------------------------------------------------------------------------
// Enclave public key
// ---------------------------------------------------------------------------

/// A secp256k1 public key: 33 bytes starting 0x02 or 0x03 (compressed) or
/// 65 bytes starting 0x04 (uncompressed).
pub open spec fn pubkey_shape_ok(pk: Seq<u8>) -> bool {
    ||| pk.len() == 33 && (pk[0] == 2 || pk[0] == 3)
    ||| pk.len() == 65 && pk[0] == 4
}

/// Refuses a key that is not shaped like a secp256k1 public key.
pub fn validate_enclave_pubkey(pk: &[u8]) -> (r: Result<(), ContractError>)
    ensures
        r is Ok <==> pubkey_shape_ok(pk@),
        r matches Err(e) ==> e@ == (ErrorView::InvalidEnclavePubkey { got: pk@.len() as usize }),
{
    let got = pk.len();
    if got != 33 && got != 65 {
        return Err(ContractError::InvalidEnclavePubkey { got });
    }
    let leading_ok = if got == 33 {
        pk[0] == 0x02 || pk[0] == 0x03
    } else {
        pk[0] == 0x04
    };
    if !leading_ok {
        return Err(ContractError::InvalidEnclavePubkey { got });
    }
    Ok(())
}

// ---------------------------------------------------------------------------
// Registry
// ---------------------------------------------------------------------------

/// The first index from `i` on of a TCB status that is 6 or more.
pub open spec fn first_bad_status(acc: Seq<u8>, i: int) -> Option<int>
    decreases acc.len() - i,
{
    if i < 0 || i >= acc.len() {
        None
    } else if acc[i] >= 6 {
        Some(i)
    } else {
        first_bad_status(acc, i + 1)
    }
}

/// Why a registry is refused, if it is: a register that is not 48 bytes,
/// an empty verification-key name, no accepted TCB status, or an accepted
/// status that is 6 (Revoked) or above.
pub open spec fn registry_error(r: RegistryView) -> Option<ErrorView> {
    if r.mrtd.len() != 48 {
        Some(ErrorView::InvalidRegistry("mrtd must be 48 bytes (TDX SHA-384), got "@ + decimal(r.mrtd.len()) + ""@))
    } else if r.rtmr1.len() != 48 {
        Some(ErrorView::InvalidRegistry("rtmr1 must be 48 bytes (TDX SHA-384), got "@ + decimal(r.rtmr1.len()) + ""@))
    } else if r.rtmr2.len() != 48 {
        Some(ErrorView::InvalidRegistry("rtmr2 must be 48 bytes (TDX SHA-384), got "@ + decimal(r.rtmr2.len()) + ""@))
    } else if r.rtmr0 matches Some(s) && s.len() != 48 {
        Some(ErrorView::InvalidRegistry("rtmr0 (if Some) must be 48 bytes, got "@ + decimal(r.rtmr0->0.len()) + ""@))
    } else if r.rtmr3 matches Some(s) && s.len() != 48 {
        Some(ErrorView::InvalidRegistry("rtmr3 (if Some) must be 48 bytes, got "@ + decimal(r.rtmr3->0.len()) + ""@))
    } else if r.vkey_name.len() == 0 {
        Some(ErrorView::InvalidRegistry("vkey_name must be a non-empty xion.zk-registered vkey identifier"@))
    } else if r.accepted_tcb_statuses.len() == 0 {
        Some(ErrorView::InvalidRegistry("accepted_tcb_statuses must include at least one severity"@))
    } else {
        status_error(r.accepted_tcb_statuses)
    }
}

/// Why a list of accepted TCB statuses is refused, if it is: its first
/// status that is 6 (Revoked) or out of range.
pub open spec fn status_error(acc: Seq<u8>) -> Option<ErrorView> {
    match first_bad_status(acc, 0) {
        Some(i) => if acc[i] == 6 {
            Some(ErrorView::InvalidRegistry("accepted_tcb_statuses MUST NOT include 6 (Revoked)"@))
        } else {
            Some(
                ErrorView::InvalidRegistry(
                    "accepted_tcb_statuses contains out-of-range severity "@ + decimal(acc[i] as nat)
                        + " (max 5)"@,
                ),
            )
        },
        None => None,
    }
}

fn length_error(prefix: &str, len: usize) -> (e: ContractError)
    ensures
        e@ == ErrorView::InvalidRegistry(prefix@ + decimal(len as nat) + ""@),
{
    ContractError::InvalidRegistry(message_with_number(prefix, len as u64, ""))
}

/// Refuses a registry whose shape cannot match a TDX quote.
pub fn validate_registry(reg: &EnclaveImageRegistry) -> (r: Result<(), ContractError>)
    ensures
        match registry_error(reg@) {
            None => r is Ok,
            Some(ev) => r matches Err(e) && e@ == ev,
        },
{
    if reg.mrtd.len() != 48 {
        return Err(length_error("mrtd must be 48 bytes (TDX SHA-384), got ", reg.mrtd.len()));
    }
    if reg.rtmr1.len() != 48 {
        return Err(length_error("rtmr1 must be 48 bytes (TDX SHA-384), got ", reg.rtmr1.len()));
    }
    if reg.rtmr2.len() != 48 {
        return Err(length_error("rtmr2 must be 48 bytes (TDX SHA-384), got ", reg.rtmr2.len()));
    }
    if let Some(s) = &reg.rtmr0 {
        if s.len() != 48 {
            return Err(length_error("rtmr0 (if Some) must be 48 bytes, got ", s.len()));
        }
    }
    if let Some(s) = &reg.rtmr3 {
        if s.len() != 48 {
            return Err(length_error("rtmr3 (if Some) must be 48 bytes, got ", s.len()));
        }
    }
    if reg.vkey_name.as_str().is_empty() {
        return Err(
            ContractError::InvalidRegistry(
                "vkey_name must be a non-empty xion.zk-registered vkey identifier".to_owned(),
            ),
        );
    }
    let n = reg.accepted_tcb_statuses.len();
    if n == 0 {
        return Err(
            ContractError::InvalidRegistry(
                "accepted_tcb_statuses must include at least one severity".to_owned(),
            ),
        );
    }
    let mut i: usize = 0;
    while i < n
        invariant
            n == reg.accepted_tcb_statuses@.len(),
            registry_error(reg@) == status_error(reg.accepted_tcb_statuses@),
            i <= n,
            first_bad_status(reg.accepted_tcb_statuses@, 0) == first_bad_status(
                reg.accepted_tcb_statuses@,
                i as int,
            ),
        decreases n - i,
    {
        let s = reg.accepted_tcb_statuses[i];
        if s == 6 {
            return Err(
                ContractError::InvalidRegistry(
                    "accepted_tcb_statuses MUST NOT include 6 (Revoked)".to_owned(),
                ),
            );
        }
        if s > 6 {
            return Err(
                ContractError::InvalidRegistry(
                    message_with_number(
                        "accepted_tcb_statuses contains out-of-range severity ",
                        s as u64,
                        " (max 5)",
                    ),
                ),
            );
        }
        i += 1;
    }
    Ok(())
}

// ---------------------------------------------------------------------------
// Candidate display names
// ---------------------------------------------------------------------------

/// Why the name at index `i` is refused, if it is: empty, longer than 64
/// UTF-8 bytes, or holding a NUL byte.
pub open spec fn name_error_at(names: Seq<Seq<char>>, i: int) -> Option<ErrorView> {
    name_problem(encode_utf8(names[i]), i as usize)
}

/// Why a name with UTF-8 bytes `b` at index `index` is refused, if it is.
pub open spec fn name_problem(b: Seq<u8>, index: usize) -> Option<ErrorView> {
    if b.len() == 0 {
        Some(ErrorView::CandidateNameEmpty { index })
    } else if b.len() > 64 {
        Some(ErrorView::CandidateNameTooLong { index, len: b.len() as usize, max: 64 })
    } else if b.contains(0u8) {
        Some(ErrorView::CandidateNameContainsNul { index })
    } else {
        None
    }
}

/// The error of the first refused name from index `i` on.
pub open spec fn first_name_error_from(names: Seq<Seq<char>>, i: int) -> Option<ErrorView>
    decreases names.len() - i,
{
    if i < 0 || i >= names.len() {
        None
    } else {
        match name_error_at(names, i) {
            Some(e) => Some(e),
            None => first_name_error_from(names, i + 1),
        }
    }
}

/// The first index from `j` on whose name equals the name at `i`.
pub open spec fn first_dup_after(names: Seq<Seq<char>>, i: int, j: int) -> Option<int>
    decreases names.len() - j,
{
    if j < 0 || j >= names.len() {
        None
    } else if names[j] == names[i] {
        Some(j)
    } else {
        first_dup_after(names, i, j + 1)
    }
}

/// The first pair `(i, j)`, `i < j`, of equal names, `i` from `from` on.
pub open spec fn first_dup_pair_from(names: Seq<Seq<char>>, from: int) -> Option<(int, int)>
    decreases names.len() - from,
{
    if from < 0 || from >= names.len() {
        None
    } else {
        match first_dup_after(names, from, from + 1) {
            Some(j) => Some((from, j)),
            None => first_dup_pair_from(names, from + 1),
        }
    }
}

/// Why display names are refused for `n_candidates` candidates, if they
/// are: a count mismatch, the first refused name, or the first duplicate.
pub open spec fn names_error(n_candidates: nat, names: Seq<Seq<char>>) -> Option<ErrorView> {
    if names.len() != n_candidates {
        Some(
            ErrorView::CandidateNamesLengthMismatch {
                expected: n_candidates as usize,
                actual: names.len() as usize,
            },
        )
    } else {
        match first_name_error_from(names, 0) {
            Some(e) => Some(e),
            None => match first_dup_pair_from(names, 0) {
                Some(p) => Some(ErrorView::DuplicateCandidateName { index: p.1 as usize, duplicate_of: p.0 as usize }),
                None => None,
            },
        }
    }
}

fn name_error(name: &str, index: usize) -> (r: Option<ContractError>)
    ensures
        match name_problem(encode_utf8(name@), index) {
            None => r is None,
            Some(ev) => r matches Some(e) && e@ == ev,
        },
{
    let bytes = name.as_bytes();
    let n = bytes.len();
    if n == 0 {
        return Some(ContractError::CandidateNameEmpty { index });
    }
    if n > CANDIDATE_NAME_MAX_BYTES {
        return Some(ContractError::CandidateNameTooLong { index, len: n, max: CANDIDATE_NAME_MAX_BYTES });
    }
    let mut k: usize = 0;
    while k < n
        invariant
            n == bytes@.len(),
            bytes@ == encode_utf8(name@),
            0 < n <= 64,
            k <= n,
            forall|j: int| 0 <= j < k ==> bytes@[j] != 0u8,
        decreases n - k,
    {
        if bytes[k] == 0 {
            assert(bytes@.contains(0u8));
            return Some(ContractError::CandidateNameContainsNul { index });
        }
        k += 1;
    }
    None
}

/// Checks the display names against the candidates: one name per
/// candidate, each 1 to 64 UTF-8 bytes without NUL, all distinct.
pub fn validate_candidate_names(candidates: &[String], candidate_names: &[String]) -> (r: Result<(), ContractError>)
    ensures
        match names_error(candidates@.len(), candidate_names.deep_view()) {
            None => r is Ok,
            Some(ev) => r matches Err(e) && e@ == ev,
        },
{
    let ghost names = candidate_names.deep_view();
    let n = candidate_names.len();
    if n != candidates.len() {
        return Err(
            ContractError::CandidateNamesLengthMismatch { expected: candidates.len(), actual: n },
        );
    }
    let mut i: usize = 0;
    while i < n
        invariant
            n == candidate_names@.len(),
            n == candidates@.len(),
            names == candidate_names.deep_view(),
            i <= n,
            first_name_error_from(names, 0) == first_name_error_from(names, i as int),
        decreases n - i,
    {
        match name_error(candidate_names[i].as_str(), i) {
            Some(e) => {
                return Err(e);
            },
            None => {},
        }
        i += 1;
    }
    let mut a: usize = 0;
    while a < n
        invariant
            n == candidate_names@.len(),
            n == candidates@.len(),
            names == candidate_names.deep_view(),
            first_name_error_from(names, 0) is None,
            a <= n,
            first_dup_pair_from(names, 0) == first_dup_pair_from(names, a as int),
        decreases n - a,
    {
        let mut b: usize = a + 1;
        while b < n
            invariant
                n == candidate_names@.len(),
                n == candidates@.len(),
                names == candidate_names.deep_view(),
                first_name_error_from(names, 0) is None,
                first_dup_pair_from(names, 0) == first_dup_pair_from(names, a as int),
                a < n,
                a + 1 <= b <= n,
                first_dup_after(names, a as int, a + 1) == first_dup_after(names, a as int, b as int),
            decreases n - b,
        {
            if candidate_names[a] == candidate_names[b] {
                assert(names[b as int] == names[a as int]);
                return Err(ContractError::DuplicateCandidateName { index: b, duplicate_of: a });
            }
            b += 1;
        }
        a += 1;
    }
    Ok(())
}

// ---------------------------------------------------------------------------
// Declaration order
// ---------------------------------------------------------------------------

/// Whether `subset` lists elements of `full` in `full`'s order.
pub fn is_in_declaration_order(subset: &[String], full: &[String]) -> (r: bool)
    ensures
        r == is_subseq(subset.deep_view(), full.deep_view()),
{
    let ghost sub = subset.deep_view();
    let ghost fv = full.deep_view();
    let ns = subset.len();
    let nf = full.len();
    let mut i: usize = 0;
    let mut s: usize = 0;
    assert(sub.skip(0) =~= sub);
    assert(fv.skip(0) =~= fv);
    while s < ns
        invariant
            ns == subset@.len(),
            nf == full@.len(),
            sub == subset.deep_view(),
            fv == full.deep_view(),
            s <= ns,
            i <= nf,
            is_subseq(sub, fv) == is_subseq(sub.skip(s as int), fv.skip(i as int)),
        decreases ns - s,
    {
        while i < nf && full[i] != subset[s]
            invariant
                ns == subset@.len(),
                nf == full@.len(),
                sub == subset.deep_view(),
                fv == full.deep_view(),
                s < ns,
                i <= nf,
                is_subseq(sub, fv) == is_subseq(sub.skip(s as int), fv.skip(i as int)),
            decreases nf - i,
        {
            proof {
                assert(fv.skip(i as int).drop_first() =~= fv.skip(i + 1));
                assert(sub.skip(s as int)[0] == sub[s as int]);
                assert(fv.skip(i as int)[0] == fv[i as int]);
            }
            i += 1;
        }
        if i >= nf {
            proof {
                assert(fv.skip(i as int).len() == 0);
                assert(sub.skip(s as int).len() > 0);
            }
            return false;
        }
        proof {
            assert(fv.skip(i as int).drop_first() =~= fv.skip(i + 1));
            assert(sub.skip(s as int).drop_first() =~= sub.skip(s + 1));
            assert(sub.skip(s as int)[0] == sub[s as int]);
            assert(fv.skip(i as int)[0] == fv[i as int]);
        }
        i += 1;
        s += 1;
    }
    proof {
        assert(sub.skip(ns as int).len() == 0);
        assert(sub.skip(0) =~= sub);
        assert(fv.skip(0) =~= fv);
    }
    true
}

} // verus!
