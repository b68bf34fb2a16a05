//! Stage 1 of the tally: decrypting each ballot with the enclave key,
//! decoding it as a Borsh list of candidate addresses, and keeping it only
//! if it ranks every candidate exactly once; then Stage 2 (IRV) over the
//! kept ballots.
use vstd::prelude::*;
use vstd::utf8::{decode_utf8, valid_utf8};
use crate::irv::{irv, irv_spec};
use crate::types::{Ballot, DecryptedSet, DecryptedView, Name, RawEntry, TallyResult, TallyView};

verus! {

// ---------------------------------------------------------------------------
// Borsh `Vec<String>`
// ---------------------------------------------------------------------------

/// The `u32` that the four little-endian bytes at `pos` denote.
pub open spec fn le_u32_at(b: Seq<u8>, pos: int) -> nat {
    b[pos] as nat + 256 * b[pos + 1] as nat + 65536 * b[pos + 2] as nat + 16777216 * b[pos + 3] as nat
}

/// `n` Borsh strings from `pos` on: each a `u32` LE byte length, then that
/// many bytes of valid UTF-8. The strings and the position after them.
pub open spec fn borsh_strings_from(b: Seq<u8>, pos: int, n: nat) -> Option<(Seq<Seq<char>>, int)>
    decreases n,
{
    if n == 0 {
        Some((Seq::empty(), pos))
    } else if pos < 0 || pos + 4 > b.len() {
        None
    } else {
        let l = le_u32_at(b, pos);
        if pos + 4 + l > b.len() {
            None
        } else {
            let bytes = b.subrange(pos + 4, pos + 4 + l);
            if !valid_utf8(bytes) {
                None
            } else {
                match borsh_strings_from(b, pos + 4 + l, (n - 1) as nat) {
                    Some(p) => Some((seq![decode_utf8(bytes)] + p.0, p.1)),
                    None => None,
                }
            }
        }
    }
}

/// A Borsh `Vec<String>` that uses up all of `b`: a `u32` LE count, then
/// that many strings.
pub open spec fn borsh_vec_string(b: Seq<u8>) -> Option<Seq<Seq<char>>> {
    if b.len() < 4 {
        None
    } else {
        match borsh_strings_from(b, 4, le_u32_at(b, 0)) {
            Some(p) => if p.1 == b.len() {
                Some(p.0)
            } else {
                None
            },
            None => None,
        }
    }
}

/// `borsh::from_slice::<Vec<String>>`.
///
/// Trusted: borsh reads a `u32` little-endian count, then that many
/// strings (each a `u32` little-endian byte length and that many bytes,
/// refused unless valid UTF-8), and refuses input with bytes left over;
/// the result is the strings read.
#[verifier::external_body]
pub(crate) fn borsh_decode_strings(bytes: &[u8]) -> (r: Option<Vec<String>>)
    ensures
        match r {
            Some(v) => borsh_vec_string(bytes@) == Some(v.deep_view()),
            None => borsh_vec_string(bytes@) is None,
        },
{
    borsh::from_slice::<Vec<String>>(bytes).ok()
}

/// What ECIES decryption of `ciphertext` under the secret key `secret`
/// gives: the plaintext, or nothing when decryption fails.
pub uninterp spec fn ecies_decrypt_spec(secret: Seq<u8>, ciphertext: Seq<u8>) -> Option<Seq<u8>>;

/// `ecies::decrypt` with the enclave's secret key.
///
/// Trusted: the plaintext (or the failure) is a function of the key and
/// the ciphertext alone, named `ecies_decrypt_spec`. `ecies` reads its key
/// compression settings from a process-wide configuration; neither this
/// library nor its application ever changes it from the default, so that
/// configuration is fixed. Under it the ephemeral public key that starts
/// a ciphertext is uncompressed, 65 bytes, so a shorter ciphertext is
/// refused. The cipher itself is not modelled.
#[verifier::external_body]
pub(crate) fn ecies_decrypt_bytes(privkey: &[u8], ciphertext: &[u8]) -> (r: Option<Vec<u8>>)
    ensures
        opt_bytes_view(r) == ecies_decrypt_spec(privkey@, ciphertext@),
        ciphertext@.len() < 65 ==> r is None,
{
    ecies::decrypt(privkey, ciphertext).ok()
}

// ---------------------------------------------------------------------------
// Model
// ---------------------------------------------------------------------------

/// A byte string or nothing, by its bytes.
pub open spec fn opt_bytes_view(o: Option<Vec<u8>>) -> Option<Seq<u8>> {
    match o {
        Some(v) => Some(v@),
        None => None,
    }
}

/// The first position from `i` on whose address is not a candidate or
/// repeats an earlier one.
pub open spec fn first_bad_rank(r: Seq<Name>, cands: Seq<Name>, i: int) -> Option<int>
    decreases r.len() - i,
{
    if i < 0 || i >= r.len() {
        None
    } else if !cands.contains(r[i]) || r.take(i).contains(r[i]) {
        Some(i)
    } else {
        first_bad_rank(r, cands, i + 1)
    }
}

/// The ranking a decrypted plaintext holds, or why the ballot is dropped.
pub open spec fn decode_ballot(plaintext: Option<Seq<u8>>, cands: Seq<Name>) -> Result<Seq<Name>, Seq<char>> {
    match plaintext {
        None => Err("ecies decrypt failed"@),
        Some(b) => match borsh_vec_string(b) {
            None => Err("borsh decode failed"@),
            Some(r) => if r.len() != cands.len() {
                Err("ranking length != |candidates|"@)
            } else {
                match first_bad_rank(r, cands, 0) {
                    Some(i) => if !cands.contains(r[i]) {
                        Err("ranking has non-candidate address"@)
                    } else {
                        Err("ranking has duplicate"@)
                    },
                    None => Ok(r),
                }
            },
        },
    }
}

/// The voters of the raw entries, in order.
pub open spec fn voters(raw: Seq<(Name, Seq<u8>)>) -> Seq<Name> {
    raw.map_values(|e: (Name, Seq<u8>)| e.0)
}

/// What each raw entry's ciphertext decrypts to under `secret`, in order.
pub open spec fn decryptions(raw: Seq<(Name, Seq<u8>)>, secret: Seq<u8>) -> Seq<Option<Seq<u8>>> {
    raw.map_values(|e: (Name, Seq<u8>)| ecies_decrypt_spec(secret, e.1))
}

/// Candidates that did not vote.
pub open spec fn not_voted(raw: Seq<(Name, Seq<u8>)>) -> spec_fn(Name) -> bool {
    |c: Name| !voters(raw).contains(c)
}

/// Stage 1 given the plaintexts decryption produced, one per raw entry:
/// the kept ballots, the voters whose ballot was dropped, and the
/// candidates without a raw entry.
pub open spec fn classify(
    raw: Seq<(Name, Seq<u8>)>,
    cands: Seq<Name>,
    plaintexts: Seq<Option<Seq<u8>>>,
) -> DecryptedView
    decreases raw.len(),
{
    if raw.len() == 0 {
        DecryptedView { valid: Seq::empty(), dropped: Seq::empty(), non_voters: cands }
    } else {
        let prev = classify(raw.drop_last(), cands, plaintexts.drop_last());
        let e = raw.last();
        match decode_ballot(plaintexts.last(), cands) {
            Ok(r) => DecryptedView { valid: prev.valid.push((e.0, r)), ..prev },
            Err(_) => DecryptedView { dropped: prev.dropped.push(e.0), ..prev },
        }
    }
}

/// The Stage 1 result for `raw`, given its plaintexts.
pub open spec fn stage1(raw: Seq<(Name, Seq<u8>)>, cands: Seq<Name>, plaintexts: Seq<Option<Seq<u8>>>) -> DecryptedView {
    DecryptedView {
        non_voters: cands.filter(not_voted(raw)),
        ..classify(raw, cands, plaintexts)
    }
}

/// The full tally of a Stage 1 result: IRV over the kept ballots, with the
/// dropped voters and non-voters carried along.
pub open spec fn tally_of(d: DecryptedView, cands: Seq<Name>) -> TallyView {
    let r = irv(d.valid, cands);
    TallyView {
        winners: r.winners,
        per_round_counts: r.per_round_counts,
        eliminated_by_round: r.eliminated_by_round,
        ballots_tallied: r.ballots_tallied,
        ballots_dropped: d.dropped.len() as u32,
        dropped_voters: d.dropped,
        non_voters: d.non_voters,
    }
}

// ---------------------------------------------------------------------------
// Computation
// ---------------------------------------------------------------------------

fn contains_str(xs: &[String], a: &String) -> (r: bool)
    ensures
        r == xs.deep_view().contains(a@),
{
    let n = xs.len();
    let mut i: usize = 0;
    while i < n
        invariant
            n == xs@.len(),
            i <= n,
            forall|k: int| 0 <= k < i ==> xs.deep_view()[k] != a@,
        decreases n - i,
    {
        if xs[i] == *a {
            assert(xs.deep_view()[i as int] == a@);
            return true;
        }
        i += 1;
    }
    false
}

/// Keeps a decrypted plaintext as a ballot only if it decodes to a ranking
/// of every candidate exactly once; otherwise says why not.
pub fn decode_plaintext(plaintext: Option<Vec<u8>>, candidates: &[String]) -> (r: Result<Ballot, &'static str>)
    ensures
        match decode_ballot(opt_bytes_view(plaintext), candidates.deep_view()) {
            Ok(ranking) => r matches Ok(b) && b.ranking.deep_view() == ranking,
            Err(why) => r matches Err(s) && s@ == why,
        },
{
    let ghost pv = opt_bytes_view(plaintext);
    let bytes = match plaintext {
        Some(b) => b,
        None => {
            return Err("ecies decrypt failed");
        },
    };
    let ranking = match borsh_decode_strings(bytes.as_slice()) {
        Some(v) => v,
        None => {
            return Err("borsh decode failed");
        },
    };
    if ranking.len() != candidates.len() {
        return Err("ranking length != |candidates|");
    }
    let ghost rv = ranking.deep_view();
    let ghost cv = candidates.deep_view();
    let n = ranking.len();
    let mut i: usize = 0;
    while i < n
        invariant
            n == ranking@.len(),
            rv == ranking.deep_view(),
            cv == candidates.deep_view(),
            n == cv.len(),
            pv == opt_bytes_view(plaintext),
            decode_ballot(pv, cv) == match first_bad_rank(rv, cv, 0) {
                Some(k) => if !cv.contains(rv[k]) {
                    Err::<Seq<Name>, Seq<char>>("ranking has non-candidate address"@)
                } else {
                    Err("ranking has duplicate"@)
                },
                None => Ok(rv),
            },
            i <= n,
            first_bad_rank(rv, cv, 0) == first_bad_rank(rv, cv, i as int),
        decreases n - i,
    {
        if !contains_str(candidates, &ranking[i]) {
            return Err("ranking has non-candidate address");
        }
        let mut j: usize = 0;
        while j < i
            invariant
                n == ranking@.len(),
                rv == ranking.deep_view(),
                cv == candidates.deep_view(),
                pv == opt_bytes_view(plaintext),
                decode_ballot(pv, cv) == match first_bad_rank(rv, cv, 0) {
                    Some(k) => if !cv.contains(rv[k]) {
                        Err::<Seq<Name>, Seq<char>>("ranking has non-candidate address"@)
                    } else {
                        Err("ranking has duplicate"@)
                    },
                    None => Ok(rv),
                },
                first_bad_rank(rv, cv, 0) == first_bad_rank(rv, cv, i as int),
                cv.contains(rv[i as int]),
                i < n,
                j <= i,
                forall|k: int| 0 <= k < j ==> rv[k] != rv[i as int],
            decreases i - j,
        {
            if ranking[j] == ranking[i] {
                proof {
                    assert(rv[j as int] == rv[i as int]);
                    assert(rv.take(i as int)[j as int] == rv[i as int]);
                }
                return Err("ranking has duplicate");
            }
            j += 1;
        }
        proof {
            assert(!rv.take(i as int).contains(rv[i as int])) by {
                if rv.take(i as int).contains(rv[i as int]) {
                    let k = choose|k: int| 0 <= k < rv.take(i as int).len() && rv.take(i as int)[k] == rv[i as int];
                    assert(rv[k] == rv[i as int]);
                }
            }
        }
        i += 1;
    }
    Ok(Ballot { ranking })
}

/// The plaintexts decryption gave, by their bytes.
pub open spec fn plaintexts_view(v: Seq<Option<Vec<u8>>>) -> Seq<Option<Seq<u8>>> {
    v.map_values(|o: Option<Vec<u8>>| opt_bytes_view(o))
}

fn copy_plaintext(p: &Option<Vec<u8>>) -> (r: Option<Vec<u8>>)
    ensures
        opt_bytes_view(r) == opt_bytes_view(*p),
{
    match p {
        Some(b) => {
            let mut c: Vec<u8> = Vec::with_capacity(b.len());
            crate::codec::append_bytes(&mut c, b.as_slice());
            assert(c@ =~= b@);
            Some(c)
        },
        None => None,
    }
}

/// Stage 1 once the ciphertexts are decrypted: the raw entries in order,
/// each with what its ciphertext decrypted to (or nothing when decryption
/// failed); a plaintext that does not decode to a ranking of every
/// candidate exactly once drops its voter. Candidates without a raw entry
/// are the non-voters.
pub fn validate_plaintexts(
    raw_ballots: &Vec<RawEntry>,
    candidates: &[String],
    plaintexts: &Vec<Option<Vec<u8>>>,
) -> (d: DecryptedSet)
    requires
        plaintexts@.len() == raw_ballots@.len(),
    ensures
        d@ == stage1(raw_ballots.deep_view(), candidates.deep_view(), plaintexts_view(plaintexts@)),
{
    let ghost raw = raw_ballots.deep_view();
    let ghost cv = candidates.deep_view();
    let ghost plain = plaintexts_view(plaintexts@);
    let mut valid: Vec<(String, Ballot)> = Vec::new();
    let mut dropped: Vec<String> = Vec::new();
    let n = raw_ballots.len();
    let mut i: usize = 0;
    assert(raw.take(0) =~= Seq::<(Name, Seq<u8>)>::empty());
    assert(plain.take(0) =~= Seq::<Option<Seq<u8>>>::empty());
    while i < n
        invariant
            n == raw_ballots@.len(),
            n == plaintexts@.len(),
            raw == raw_ballots.deep_view(),
            cv == candidates.deep_view(),
            plain == plaintexts_view(plaintexts@),
            i <= n,
            valid.deep_view() == classify(raw.take(i as int), cv, plain.take(i as int)).valid,
            dropped.deep_view() == classify(raw.take(i as int), cv, plain.take(i as int)).dropped,
        decreases n - i,
    {
        let entry = &raw_ballots[i];
        let res = decode_plaintext(copy_plaintext(&plaintexts[i]), candidates);
        proof {
            assert(raw.take(i as int + 1).drop_last() =~= raw.take(i as int));
            assert(raw.take(i as int + 1).last() == raw[i as int]);
            assert(plain.take(i as int + 1).drop_last() =~= plain.take(i as int));
            assert(plain.take(i as int + 1).last() == plain[i as int]);
            assert(plain[i as int] == opt_bytes_view(plaintexts@[i as int]));
            assert(raw[i as int] == (entry.voter@, entry.ciphertext@));
        }
        match res {
            Ok(ballot) => {
                let ghost bv = ballot.ranking.deep_view();
                let pair = (entry.voter.clone(), ballot);
                let ghost before = valid.deep_view();
                valid.push(pair);
                assert(valid.deep_view() =~= before.push((entry.voter@, bv)));
            },
            Err(_why) => {
                let ghost before = dropped.deep_view();
                dropped.push(entry.voter.clone());
                assert(dropped.deep_view() =~= before.push(entry.voter@));
            },
        }
        i += 1;
    }
    assert(plain.take(n as int) =~= plain);
    assert(raw.take(n as int) =~= raw);
    let mut non_voters: Vec<String> = Vec::new();
    let nc = candidates.len();
    let mut c: usize = 0;
    let ghost pred = not_voted(raw);
    assert(cv.take(0) =~= Seq::<Name>::empty());
    proof {
        reveal_with_fuel(Seq::filter, 1);
    }
    while c < nc
        invariant
            nc == candidates@.len(),
            n == raw_ballots@.len(),
            raw == raw_ballots.deep_view(),
            cv == candidates.deep_view(),
            pred == not_voted(raw),
            c <= nc,
            non_voters.deep_view() == cv.take(c as int).filter(pred),
        decreases nc - c,
    {
        proof {
            reveal_with_fuel(Seq::filter, 1);
            assert(cv.take(c as int + 1).drop_last() =~= cv.take(c as int));
            assert(cv.take(c as int + 1).last() == cv[c as int]);
        }
        let mut voted = false;
        let mut k: usize = 0;
        while k < n
            invariant
                n == raw_ballots@.len(),
                raw == raw_ballots.deep_view(),
                cv == candidates.deep_view(),
                c < nc,
                nc == cv.len(),
                k <= n,
                voted == exists|j: int| 0 <= j < k && raw[j].0 == cv[c as int],
            decreases n - k,
        {
            if raw_ballots[k].voter == candidates[c] {
                assert(raw[k as int].0 == cv[c as int]);
                voted = true;
            }
            k += 1;
        }
        proof {
            if voted {
                let j = choose|j: int| 0 <= j < n && raw[j].0 == cv[c as int];
                assert(voters(raw)[j] == cv[c as int]);
            } else {
                if voters(raw).contains(cv[c as int]) {
                    let j = choose|j: int| 0 <= j < voters(raw).len() && voters(raw)[j] == cv[c as int];
                    assert(raw[j].0 == cv[c as int]);
                }
            }
        }
        if !voted {
            let ghost before = non_voters.deep_view();
            non_voters.push(candidates[c].clone());
            assert(non_voters.deep_view() =~= before.push(cv[c as int]));
        }
        c += 1;
    }
    assert(cv.take(nc as int) =~= cv);
    let d = DecryptedSet { valid, dropped, non_voters };
    assert(stage1(raw, cv, plain) == d@);
    d
}


/// Stage 1: decrypts every raw ballot's own ciphertext with the election's
/// key, in order, then keeps or drops each as `validate_plaintexts` does.
pub fn decrypt_and_validate(raw_ballots: &Vec<RawEntry>, candidates: &[String], privkey: &[u8]) -> (d: DecryptedSet)
    ensures
        d@ == stage1(
            raw_ballots.deep_view(),
            candidates.deep_view(),
            decryptions(raw_ballots.deep_view(), privkey@),
        ),
{
    let ghost raw = raw_ballots.deep_view();
    let n = raw_ballots.len();
    let mut plaintexts: Vec<Option<Vec<u8>>> = Vec::with_capacity(n);
    let mut i: usize = 0;
    while i < n
        invariant
            n == raw_ballots@.len(),
            raw == raw_ballots.deep_view(),
            i <= n,
            plaintexts@.len() == i,
            plaintexts_view(plaintexts@) =~= decryptions(raw.take(i as int), privkey@),
        decreases n - i,
    {
        let p = ecies_decrypt_bytes(privkey, raw_ballots[i].ciphertext.as_slice());
        let ghost before = plaintexts@;
        plaintexts.push(p);
        proof {
            assert(raw[i as int].1 == raw_ballots@[i as int].ciphertext@);
            assert(plaintexts@ =~= before.push(p));
            let pv = plaintexts_view(plaintexts@);
            let dv = decryptions(raw.take(i as int + 1), privkey@);
            assert forall|j: int| 0 <= j <= i implies pv[j] == dv[j] by {
                if j < i {
                    assert(pv[j] == plaintexts_view(before)[j]);
                    assert(raw.take(i as int + 1)[j] == raw.take(i as int)[j]);
                } else {
                    assert(raw.take(i as int + 1)[j] == raw[i as int]);
                }
            }
            assert(pv =~= dv);
        }
        i += 1;
    }
    assert(raw.take(n as int) =~= raw);
    validate_plaintexts(raw_ballots, candidates, &plaintexts)
}

/// The full tally of a Stage 1 result: IRV over its kept ballots, with
/// its dropped voters and non-voters carried along.
pub fn tally_from_decrypted(d: DecryptedSet, candidates: &Vec<String>) -> (t: TallyResult)
    requires
        d.valid@.len() <= u32::MAX,
        d.dropped@.len() <= u32::MAX,
        candidates@.len() < usize::MAX,
    ensures
        t@ == tally_of(d@, candidates.deep_view()),
{
    let r = irv_spec(&d.valid, candidates);
    let ballots_dropped: u32 = d.dropped.len() as u32;
    TallyResult {
        winners: r.winners,
        per_round_counts: r.per_round_counts,
        eliminated_by_round: r.eliminated_by_round,
        ballots_tallied: r.ballots_tallied,
        ballots_dropped,
        dropped_voters: d.dropped,
        non_voters: d.non_voters,
    }
}

/// The tally of the raw ballots: Stage 1, then IRV over the kept ballots.
pub fn tally_spec(raw: &Vec<RawEntry>, candidates: &Vec<String>, privkey: &Vec<u8>) -> (t: TallyResult)
    requires
        raw@.len() <= u32::MAX,
        candidates@.len() < usize::MAX,
    ensures
        t@ == tally_of(
            stage1(raw.deep_view(), candidates.deep_view(), decryptions(raw.deep_view(), privkey@)),
            candidates.deep_view(),
        ),
{
    let cs = candidates.as_slice();
    assert(cs.deep_view() =~= candidates.deep_view());
    let d = decrypt_and_validate(raw, cs, privkey.as_slice());
    proof {
        lemma_classify_sizes(raw.deep_view(), cs.deep_view(), decryptions(raw.deep_view(), privkey@));
    }
    tally_from_decrypted(d, candidates)
}

/// Each raw entry is kept or dropped, so neither list outgrows the input.
pub proof fn lemma_classify_sizes(raw: Seq<(Name, Seq<u8>)>, cands: Seq<Name>, plaintexts: Seq<Option<Seq<u8>>>)
    ensures
        classify(raw, cands, plaintexts).valid.len() + classify(raw, cands, plaintexts).dropped.len()
            == raw.len(),
    decreases raw.len(),
{
    if raw.len() > 0 {
        lemma_classify_sizes(raw.drop_last(), cands, plaintexts.drop_last());
    }
}

} // verus!
