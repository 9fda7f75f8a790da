//! Trusted boundary to the Reed-Solomon codec over GF(2^16).
//!
//! The code itself lives in the `reed-solomon-erasure` crate; this module
//! names its outputs and states, over those names, what the crate's
//! source and documentation show: parity filling, erasure recovery of any
//! codeword from at least `data_shards` of its shards, and the exact
//! failure condition when fewer are present.

use vstd::prelude::*;

verus! {

/// The parity shards that the codec computes for the given data shards:
/// a function of the data and the parity count alone (the codec is
/// deterministic).
pub uninterp spec fn rs_parity(data: Seq<Seq<u8>>, parity_count: int) -> Seq<Seq<u8>>;

/// The full shard set that the codec's reconstruction computes from a
/// partial one: again a function of its inputs alone.
pub uninterp spec fn rs_filled(shards: Seq<Option<Seq<u8>>>, data_count: int, parity_count: int)
    -> Seq<Seq<u8>>;

/// The codeword over `data`: the data shards followed by their
/// `parity_count` parity shards.
pub open spec fn rs_codeword(data: Seq<Seq<u8>>, parity_count: int) -> Seq<Seq<u8>> {
    data + Seq::new(parity_count as nat, |k: int| rs_parity(data, parity_count)[k])
}

/// How many shards of a partial set are present.
pub open spec fn count_present(shards: Seq<Option<Seq<u8>>>) -> int
    decreases shards.len(),
{
    if shards.len() == 0 {
        0
    } else {
        (if shards[0] is Some {
            1int
        } else {
            0int
        }) + count_present(shards.drop_first())
    }
}

/// A partial shard set agrees with full shard set `w` wherever it is
/// present.
pub open spec fn agrees_with(shards: Seq<Option<Seq<u8>>>, w: Seq<Seq<u8>>) -> bool {
    forall|i: int| 0 <= i < shards.len() && shards[i] is Some ==> shards[i]->0 == w[i]
}

/// The view of a partial shard vector.
pub open spec fn slots_view(v: Seq<Option<Vec<u8>>>) -> Seq<Option<Seq<u8>>> {
    v.map_values(|o: Option<Vec<u8>>| match o {
        Option::Some(x) => Some(x@),
        Option::None => None,
    })
}

/// Relies on `reed_solomon_erasure::galois_16::ReedSolomon`, `new` and
/// `encode`: under the stated shard counts and uniform even nonzero
/// lengths `new` accepts the counts and `encode` succeeds, leaves the
/// data shards alone, keeps every shard's length, and overwrites the
/// parity slots with the parity of the data shards.
#[verifier::external_body]
pub fn rs_encode(data_count: usize, parity_count: usize, shards: &mut Vec<Vec<u8>>)
    requires
        data_count >= 1,
        parity_count >= 1,
        data_count + parity_count <= crate::MAX_VALIDATORS,
        old(shards)@.len() == data_count + parity_count,
        forall|i: int| 0 <= i < old(shards)@.len() ==> (#[trigger] old(shards)@[i]@.len()
            == old(shards)@[0]@.len()),
        old(shards)@[0]@.len() >= 2,
        old(shards)@[0]@.len() % 2 == 0,
    ensures
        final(shards)@.len() == old(shards)@.len(),
        forall|i: int| 0 <= i < data_count ==> #[trigger] final(shards)@[i]@ == old(shards)@[i]@,
        forall|i: int| data_count <= i < final(shards)@.len() ==> #[trigger] final(shards)@[i]@
            == rs_parity(Seq::new(data_count as nat, |j: int| old(shards)@[j]@),
            parity_count as int)[i - data_count],
        forall|i: int| 0 <= i < final(shards)@.len() ==> #[trigger] final(shards)@[i]@.len()
            == old(shards)@[i]@.len(),
{
    let rs = reed_solomon_erasure::galois_16::ReedSolomon::new(data_count, parity_count)
        .expect("shard counts checked by the caller");
    let mut words: Vec<Vec<[u8; 2]>> = shards.iter()
        .map(|v| v.chunks(2).map(|c| [c[0], c[1]]).collect())
        .collect();
    rs.encode(&mut words).expect("shard lengths checked by the caller");
    *shards = words.into_iter().map(|v| v.into_iter().flatten().collect()).collect();
}

/// Relies on `reed_solomon_erasure::galois_16::ReedSolomon`, `new` and
/// `reconstruct`: with at least `data_count` of the uniform-length shards
/// present it fills every absent slot and leaves present ones alone, and
/// the filled set is a function of the inputs; with fewer present it
/// fails and touches nothing. When the present shards all lie on a
/// codeword, the filled set is that codeword: the code is
/// maximum-distance-separable, which is the crate's stated purpose
/// ("any k shards can reconstruct the data").
#[verifier::external_body]
pub fn rs_reconstruct(data_count: usize, parity_count: usize, shards: &mut Vec<Option<Vec<u8>>>)
    -> (r: Result<(), crate::Error>)
    requires
        data_count >= 1,
        parity_count >= 1,
        data_count + parity_count <= crate::MAX_VALIDATORS,
        old(shards)@.len() == data_count + parity_count,
        forall|i: int, j: int| 0 <= i < old(shards)@.len() && 0 <= j < old(shards)@.len()
            && old(shards)@[i] is Some && old(shards)@[j] is Some
            ==> (#[trigger] old(shards)@[i])->0@.len() == (#[trigger] old(shards)@[j])->0@.len(),
        forall|i: int| 0 <= i < old(shards)@.len() && old(shards)@[i] is Some
            ==> (#[trigger] old(shards)@[i])->0@.len() >= 2
                && (old(shards)@[i])->0@.len() % 2 == 0,
    ensures
        r is Ok <==> count_present(slots_view(old(shards)@)) >= data_count,
        (r is Err ==> r == Err::<(), crate::Error>(crate::Error::NotEnoughChunks)
            && final(shards)@ == old(shards)@),
        r is Ok ==> {
            let filled = rs_filled(slots_view(old(shards)@), data_count as int,
                parity_count as int);
            &&& final(shards)@.len() == old(shards)@.len()
            &&& final(shards)@.len() == filled.len()
            &&& forall|i: int| 0 <= i < final(shards)@.len() ==> ((#[trigger] final(
                shards)@[i]) matches Some(v) && v@ == filled[i])
            &&& forall|i: int| 0 <= i < final(shards)@.len() && old(shards)@[i] is Some
                ==> (#[trigger] final(shards)@[i]) == old(shards)@[i]
            &&& forall|data: Seq<Seq<u8>>| data.len() == data_count && agrees_with(
                slots_view(old(shards)@), rs_codeword(data, parity_count as int))
                ==> filled == rs_codeword(data, parity_count as int)
        },
{
    let rs = reed_solomon_erasure::galois_16::ReedSolomon::new(data_count, parity_count)
        .expect("shard counts checked by the caller");
    let mut words: Vec<Option<Vec<[u8; 2]>>> = shards.iter()
        .map(|o| o.as_ref().map(|v| v.chunks(2).map(|c| [c[0], c[1]]).collect()))
        .collect();
    if let Err(e) = rs.reconstruct(&mut words) {
        return Err(match e {
            reed_solomon_erasure::Error::InvalidShardFlags => crate::Error::WrongValidatorCount,
            reed_solomon_erasure::Error::TooManyShards => crate::Error::TooManyChunks,
            _ => crate::Error::NotEnoughChunks,
        });
    }
    *shards = words.into_iter().map(|o| o.map(|v| v.into_iter().flatten().collect())).collect();
    Ok(())
}

/// Writing a chunk into a slot raises the present count exactly when the
/// slot was empty.
pub proof fn lemma_count_present_update(s: Seq<Option<Seq<u8>>>, i: int, v: Seq<u8>)
    requires
        0 <= i < s.len(),
    ensures
        count_present(s.update(i, Some(v))) == count_present(s) + if s[i] is Some {
            0int
        } else {
            1int
        },
    decreases s.len(),
{
    if i == 0 {
        assert(s.update(0, Some(v)).drop_first() =~= s.drop_first());
    } else {
        assert(s.update(i, Some(v)).drop_first() =~= s.drop_first().update(i - 1, Some(v)));
        lemma_count_present_update(s.drop_first(), i - 1, v);
    }
}

/// The present count lies between zero and the slot count, and reaches
/// the slot count only when every slot is filled.
pub proof fn lemma_count_present_bounds(s: Seq<Option<Seq<u8>>>)
    ensures
        0 <= count_present(s) <= s.len(),
        count_present(s) == s.len() ==> forall|i: int| 0 <= i < s.len() ==> s[i] is Some,
    decreases s.len(),
{
    if s.len() > 0 {
        lemma_count_present_bounds(s.drop_first());
        if count_present(s) == s.len() {
            assert forall|i: int| 0 <= i < s.len() implies s[i] is Some by {
                if i > 0 {
                    assert(s.drop_first()[i - 1] == s[i]);
                }
            }
        }
    }
}

/// A slot set with nothing present has a present count of zero.
pub proof fn lemma_count_present_none(s: Seq<Option<Seq<u8>>>)
    requires
        forall|i: int| 0 <= i < s.len() ==> !(#[trigger] s[i] is Some),
    ensures
        count_present(s) == 0,
    decreases s.len(),
{
    if s.len() > 0 {
        assert forall|i: int| 0 <= i < s.drop_first().len() implies !(#[trigger] s.drop_first()[
            i] is Some) by {
            assert(s.drop_first()[i] == s[i + 1]);
        }
        lemma_count_present_none(s.drop_first());
    }
}

} // verus!
