//! The ballot plaintext as voters' clients write it: a Borsh `Vec<String>`
//! of candidate addresses in preference order. Encoding, decoding, and the
//! facts that tie the two to the enclave's acceptance of a ballot.
use vstd::prelude::*;
use vstd::utf8::encode_utf8;
use crate::codec::{borsh_str, len32, names_body, u32_le, vec_addr, write_vec_addr};
use crate::decrypt::{
    borsh_decode_strings, borsh_strings_from, borsh_vec_string, decode_ballot, ecies_decrypt_bytes, ecies_decrypt_spec,
    first_bad_rank, le_u32_at,
};
use crate::binding::{names_preimage, DST_NAMES};
use crate::types::Name;

verus! {

/// The plaintext of a ballot ranking `ranking`.
pub fn encode_ranking(ranking: &Vec<String>) -> (b: Vec<u8>)
    ensures
        b@ == vec_addr(ranking.deep_view()),
{
    let mut out: Vec<u8> = Vec::new();
    write_vec_addr(&mut out, ranking);
    assert(out@ =~= vec_addr(ranking.deep_view()));
    out
}

/// The ranking a ballot plaintext holds, if it is a Borsh `Vec<String>`
/// with nothing left over; not checked against any candidates.
pub fn decode_ranking(plaintext: &[u8]) -> (r: Option<Vec<String>>)
    ensures
        match borsh_vec_string(plaintext@) {
            Some(v) => r matches Some(x) && x.deep_view() == v,
            None => r is None,
        },
{
    borsh_decode_strings(plaintext)
}

/// Why a ciphertext yields no ranking.
#[derive(Debug, Clone, Copy, PartialEq, Eq, Structural)]
pub enum OpenRankingError {
    /// ECIES decryption under the key failed.
    Undecryptable,
    /// The plaintext is not a Borsh `Vec<String>`.
    NotARanking,
}

/// The ranking a ciphertext holds under the secret key `privkey`: its
/// ECIES plaintext read as a Borsh `Vec<String>`.
pub fn decrypt_ranking(privkey: &[u8], ciphertext: &[u8]) -> (r: Result<Vec<String>, OpenRankingError>)
    ensures
        match ecies_decrypt_spec(privkey@, ciphertext@) {
            None => r == Err::<Vec<String>, OpenRankingError>(OpenRankingError::Undecryptable),
            Some(p) => match borsh_vec_string(p) {
                Some(v) => r matches Ok(x) && x.deep_view() == v,
                None => r == Err::<Vec<String>, OpenRankingError>(OpenRankingError::NotARanking),
            },
        },
{
    match ecies_decrypt_bytes(privkey, ciphertext) {
        None => Err(OpenRankingError::Undecryptable),
        Some(p) => match decode_ranking(p.as_slice()) {
            Some(v) => Ok(v),
            None => Err(OpenRankingError::NotARanking),
        },
    }
}

// ---------------------------------------------------------------------------
// Round trip
// ---------------------------------------------------------------------------

/// Every string's UTF-8 encoding fits a `u32` length.
pub open spec fn lengths_fit(r: Seq<Name>) -> bool {
    forall|i: int| 0 <= i < r.len() ==> (#[trigger] encode_utf8(r[i])).len() <= u32::MAX
}

proof fn lemma_u32_le_read(x: u32)
    ensures
        u32_le(x).len() == 4,
        le_u32_at(u32_le(x), 0) == x,
{
    let v = x as nat;
    let b = u32_le(x);
    reveal_with_fuel(crate::codec::le_bytes, 5);
    let q1 = v / 256;
    let q2 = q1 / 256;
    let q3 = q2 / 256;
    assert(b[0] == (v % 256) as u8);
    assert(b[1] == (q1 % 256) as u8);
    assert(b[2] == (q2 % 256) as u8);
    assert(b[3] == (q3 % 256) as u8);
    assert(q3 < 256);
    assert(v == v % 256 + 256 * q1);
    assert(q1 == q1 % 256 + 256 * q2);
    assert(q2 == q2 % 256 + 256 * q3);
}

proof fn lemma_names_body_front(r: Seq<Name>)
    requires
        r.len() > 0,
    ensures
        names_body(r) == borsh_str(r[0]) + names_body(r.drop_first()),
    decreases r.len(),
{
    if r.len() == 1 {
        assert(r.drop_last() =~= Seq::<Name>::empty());
        assert(r.drop_first() =~= Seq::<Name>::empty());
        assert(names_body(r) =~= borsh_str(r[0]) + names_body(r.drop_first()));
    } else {
        lemma_names_body_front(r.drop_last());
        assert(r.drop_last().drop_first() =~= r.drop_first().drop_last());
        assert(r.drop_first().last() == r.last());
        assert(r.drop_last()[0] == r[0]);
        assert(names_body(r) =~= borsh_str(r[0]) + names_body(r.drop_first()));
    }
}

proof fn lemma_strings_from(b: Seq<u8>, pos: int, r: Seq<Name>)
    requires
        0 <= pos,
        lengths_fit(r),
        pos + names_body(r).len() <= b.len(),
        b.subrange(pos, pos + names_body(r).len()) == names_body(r),
    ensures
        borsh_strings_from(b, pos, r.len()) == Some((r, pos + names_body(r).len())),
    decreases r.len(),
{
    if r.len() > 0 {
        lemma_names_body_front(r);
        let e = encode_utf8(r[0]);
        assert(e.len() <= u32::MAX);
        let x = len32(e.len());
        assert(x == e.len());
        let rest = r.drop_first();
        let nb = names_body(r);
        let head = borsh_str(r[0]);
        assert(head == u32_le(x) + e);
        lemma_u32_le_read(x);
        assert(head.len() == 4 + e.len());
        assert forall|i: int| 0 <= i < 4 implies b[pos + i] == u32_le(x)[i] by {
            assert(b.subrange(pos, pos + nb.len())[i] == nb[i]);
        }
        assert(le_u32_at(b, pos) == le_u32_at(u32_le(x), 0));
        assert(b.subrange(pos + 4, pos + 4 + e.len()) =~= e) by {
            assert forall|i: int| 0 <= i < e.len() implies b.subrange(pos + 4, pos + 4 + e.len())[i] == e[i] by {
                assert(b.subrange(pos, pos + nb.len())[4 + i] == nb[4 + i]);
            }
        }
        vstd::utf8::encode_utf8_valid_utf8(r[0]);
        vstd::utf8::encode_utf8_decode_utf8(r[0]);
        let pos2 = pos + 4 + e.len();
        assert(lengths_fit(rest)) by {
            assert forall|i: int| 0 <= i < rest.len() implies (#[trigger] encode_utf8(rest[i])).len() <= u32::MAX by {
                assert(rest[i] == r[i + 1]);
            }
        }
        assert(b.subrange(pos2, pos2 + names_body(rest).len()) =~= names_body(rest)) by {
            assert forall|i: int| 0 <= i < names_body(rest).len() implies b.subrange(
                pos2,
                pos2 + names_body(rest).len(),
            )[i] == names_body(rest)[i] by {
                assert(b.subrange(pos, pos + nb.len())[head.len() + i] == nb[head.len() + i]);
            }
        }
        lemma_strings_from(b, pos2, rest);
        assert(seq![r[0]] + rest =~= r);
    }
}

/// The enclave reads back what a voter's client writes: the Borsh plaintext
/// of a ranking decodes to that ranking.
pub proof fn law_ranking_round_trip(r: Seq<Name>)
    requires
        r.len() <= u32::MAX,
        lengths_fit(r),
    ensures
        borsh_vec_string(vec_addr(r)) == Some(r),
{
    let b = vec_addr(r);
    let x = len32(r.len());
    lemma_u32_le_read(x);
    assert(b.subrange(4, 4 + names_body(r).len() as int) =~= names_body(r));
    assert forall|i: int| 0 <= i < 4 implies b[i] == u32_le(x)[i] by {}
    assert(le_u32_at(b, 0) == le_u32_at(u32_le(x), 0));
    lemma_strings_from(b, 4, r);
}

proof fn lemma_first_bad_none_from(r: Seq<Name>, cands: Seq<Name>, i: int)
    requires
        0 <= i,
        r.no_duplicates(),
        forall|j: int| 0 <= j < r.len() ==> cands.contains(#[trigger] r[j]),
    ensures
        first_bad_rank(r, cands, i) is None,
    decreases r.len() - i,
{
    if i < r.len() {
        assert(cands.contains(r[i]));
        if r.take(i).contains(r[i]) {
            let k = choose|k: int| 0 <= k < r.take(i).len() && r.take(i)[k] == r[i];
            assert(r[k] == r[i]);
        }
        lemma_first_bad_none_from(r, cands, i + 1);
    }
}

/// A ballot that ranks every candidate exactly once, written as a voter's
/// client writes it, is kept by the enclave with that ranking.
pub proof fn law_full_ranking_accepted(r: Seq<Name>, cands: Seq<Name>)
    requires
        r.len() == cands.len(),
        r.len() <= u32::MAX,
        lengths_fit(r),
        r.no_duplicates(),
        forall|j: int| 0 <= j < r.len() ==> cands.contains(#[trigger] r[j]),
    ensures
        decode_ballot(Some(vec_addr(r)), cands) == Ok::<Seq<Name>, Seq<char>>(r),
{
    law_ranking_round_trip(r);
    lemma_first_bad_none_from(r, cands, 0);
}

/// The names-hash preimage determines the names, in order: two lists of
/// names with the same preimage are the same list.
pub proof fn law_names_preimage_injective(n1: Seq<Name>, n2: Seq<Name>)
    requires
        n1.len() <= u32::MAX,
        n2.len() <= u32::MAX,
        lengths_fit(n1),
        lengths_fit(n2),
        names_preimage(n1) == names_preimage(n2),
    ensures
        n1 == n2,
{
    let k = DST_NAMES@.len() as int;
    assert(names_preimage(n1).subrange(k, names_preimage(n1).len() as int) =~= vec_addr(n1));
    assert(names_preimage(n2).subrange(k, names_preimage(n2).len() as int) =~= vec_addr(n2));
    law_ranking_round_trip(n1);
    law_ranking_round_trip(n2);
}

} // verus!
