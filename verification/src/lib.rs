//! Erasure coding for per-block availability data.
//!
//! The data for each block is split and Reed-Solomon encoded into `n`
//! chunks, one per validator, so that any `f + 1` of them suffice to
//! reconstruct it, where `f = (n - 1) / 3` is the number of tolerated
//! faulty validators. A Merkle trie over the chunk hashes commits to the
//! whole set, and each chunk can be checked against the root on its own.

use vstd::prelude::*;

pub mod framing;
pub mod merkle;
pub mod params;
pub mod payload;
pub mod reed_solomon;

pub use params::{CodeParams, code_params};
pub use payload::{BlockData, Extrinsic};
pub use merkle::{Branches, branches, branch_hash};

use framing::{MAX_PAYLOAD, shard_total_len_of, spec_data_shards, spec_unframe, spec_prefix_value};
use params::{data_shards_of, parity_shards_of};
use payload::{payload_encoding, payload_decoding, payload_sizes_ok, encode_payload,
    decode_payload};
use reed_solomon::{
    rs_parity, rs_codeword, rs_encode, rs_filled, rs_reconstruct, slots_view, count_present,
    agrees_with, lemma_count_present_update, lemma_count_present_bounds, lemma_count_present_none,
};

verus! {

/// The field order of GF(2^16): no more validators than this can be served.
pub const MAX_VALIDATORS: usize = 65536;

/// Errors in erasure coding.
#[derive(Debug, Clone, PartialEq, Eq, Structural)]
pub enum Error {
    /// Returned when there are too many validators.
    TooManyValidators,
    /// Cannot encode something for no validators.
    EmptyValidators,
    /// Cannot reconstruct: wrong number of validators.
    WrongValidatorCount,
    /// Not enough chunks present.
    NotEnoughChunks,
    /// Too many chunks present.
    TooManyChunks,
    /// Chunks not of uniform length or the chunks are empty.
    NonUniformChunks,
    /// An uneven byte-length of a shard is not valid for GF(2^16) encoding.
    UnevenLength,
    /// Chunk index out of bounds.
    ChunkIndexOutOfBounds(usize, usize),
    /// Bad payload in reconstructed bytes.
    BadPayload,
    /// Invalid branch proof.
    InvalidBranchProof,
    /// Branch out of bounds.
    BranchOutOfBounds,
}

/// The element views of a vector of byte vectors.
pub open spec fn seqs_view(v: Seq<Vec<u8>>) -> Seq<Seq<u8>> {
    v.map_values(|x: Vec<u8>| x@)
}

/// The `n` chunks cut and encoded for a payload: the framed data shards
/// of the encoded payload, followed by their Reed-Solomon parity.
pub open spec fn chunks_spec(n: int, block: Seq<u8>, messages: Seq<Seq<u8>>) -> Seq<Seq<u8>> {
    let p = payload_encoding(block, messages);
    rs_codeword(spec_data_shards(p, data_shards_of(n)), parity_shards_of(n))
}

/// Obtain erasure-coded chunks, one for each validator.
///
/// Works only up to 65536 validators, and `n_validators` must be
/// non-zero. The returned chunk list has length exactly `n_validators`,
/// and all chunks share the same even length.
#[verifier::loop_isolation(false)]
pub fn obtain_chunks(n_validators: usize, block_data: &BlockData, extrinsic: &Extrinsic) -> (r:
    Result<Vec<Vec<u8>>, Error>)
    ensures
        n_validators == 0 ==> r == Err::<Vec<Vec<u8>>, Error>(Error::EmptyValidators),
        n_validators > MAX_VALIDATORS ==> r == Err::<Vec<Vec<u8>>, Error>(
            Error::TooManyValidators),
        1 <= n_validators <= MAX_VALIDATORS ==> {
            let p = payload_encoding(block_data@, extrinsic@);
            &&& (r is Err <==> (!payload_sizes_ok(block_data@, extrinsic@) || p.len() == 0
                || p.len() > MAX_PAYLOAD as int))
            &&& (r is Err ==> r == Err::<Vec<Vec<u8>>, Error>(Error::BadPayload))
            &&& (r matches Ok(c) ==> {
                &&& seqs_view(c@) == chunks_spec(n_validators as int, block_data@, extrinsic@)
                &&& c@.len() == n_validators
                &&& forall|i: int| 0 <= i < c@.len() ==> #[trigger] c@[i]@.len()
                    == shard_total_len_of(p.len() as int, data_shards_of(n_validators as int))
                &&& shard_total_len_of(p.len() as int, data_shards_of(n_validators as int)) % 2
                    == 0
            })
        },
{
    let params = match code_params(n_validators) {
        Ok(p) => p,
        Err(e) => {
            return Err(e);
        },
    };
    // the codec's compact length prefix carries at most u32::MAX, and its
    // encoder panics beyond that: reject such payloads first
    if block_data.0.len() > 0xffff_ffff || extrinsic.outgoing_messages.len() > 0xffff_ffff {
        return Err(Error::BadPayload);
    }
    let n_messages = extrinsic.outgoing_messages.len();
    for mi in 0..n_messages
        invariant
            n_messages == extrinsic.outgoing_messages@.len(),
            forall|i: int| 0 <= i < mi ==> #[trigger] extrinsic@[i].len() <= 0xffff_ffff,
    {
        proof {
            assert(extrinsic@[mi as int] == extrinsic.outgoing_messages@[mi as int]@);
        }
        if extrinsic.outgoing_messages[mi].len() > 0xffff_ffff {
            return Err(Error::BadPayload);
        }
    }
    assert(payload_sizes_ok(block_data@, extrinsic@));
    let encoded = encode_payload(block_data, extrinsic);
    if encoded.len() == 0 || encoded.len() > MAX_PAYLOAD {
        return Err(Error::BadPayload);
    }

    let mut shards = params.make_shards_for(&encoded);
    let ghost nn = n_validators as int;
    let ghost data_part = spec_data_shards(encoded@, params.data_shards as int);
    let ghost want = chunks_spec(nn, block_data@, extrinsic@);
    if params.parity_shards > 0 {
        proof {
            assert(shards@[0]@.len() >= 4);
        }
        let ghost prev = shards@;
        rs_encode(params.data_shards, params.parity_shards, &mut shards);
        proof {
            assert(Seq::new(params.data_shards as nat, |j: int| prev[j]@) =~= data_part);
            assert forall|i: int| 0 <= i < shards@.len() implies #[trigger] seqs_view(shards@)[i]
                == want[i] by {
                assert(seqs_view(shards@)[i] == shards@[i]@);
                if i < params.data_shards {
                    assert(shards@[i]@ == prev[i]@);
                    assert(want[i] == data_part[i]);
                } else {
                    assert(shards@[i]@ == rs_parity(data_part,
                        params.parity_shards as int)[i - params.data_shards]);
                    assert(want[i] == rs_parity(data_part,
                        params.parity_shards as int)[i - params.data_shards]);
                }
            }
            assert(seqs_view(shards@) =~= want);
        }
    } else {
        proof {
            assert forall|i: int| 0 <= i < shards@.len() implies #[trigger] seqs_view(shards@)[i]
                == want[i] by {
                assert(seqs_view(shards@)[i] == shards@[i]@);
                assert(want[i] == data_part[i]);
            }
            assert(seqs_view(shards@).len() == want.len());
            assert(seqs_view(shards@) =~= want);
        }
    }
    assert(seqs_view(shards@) == want);
    Ok(shards)
}

/// The view of the indexed chunk list handed to `reconstruct`.
pub open spec fn items_view(v: Seq<(Vec<u8>, usize)>) -> Seq<(Seq<u8>, usize)> {
    v.map_values(|p: (Vec<u8>, usize)| (p.0@, p.1))
}

/// Place the chunks of `items` into `slots`, checking each item as the
/// reconstruction loop does; `len0` is the length of the first chunk
/// seen, which every chunk must share.
pub open spec fn spec_fill(
    items: Seq<(Seq<u8>, usize)>,
    n: usize,
    len0: int,
    slots: Seq<Option<Seq<u8>>>,
) -> Result<Seq<Option<Seq<u8>>>, Error>
    decreases items.len(),
{
    if items.len() == 0 {
        Ok(slots)
    } else {
        let c = items[0].0;
        let i = items[0].1;
        if i >= n {
            Err(Error::ChunkIndexOutOfBounds(i, n))
        } else if len0 % 2 != 0 {
            Err(Error::UnevenLength)
        } else if c.len() != len0 || len0 == 0 {
            Err(Error::NonUniformChunks)
        } else {
            spec_fill(items.drop_first(), n, len0, slots.update(i as int, Some(c)))
        }
    }
}

/// Gather at most `n` indexed chunks into `n` shard slots, all absent to
/// begin with; chunks past the first `n` are ignored.
pub open spec fn spec_gather(items: Seq<(Seq<u8>, usize)>, n: usize) -> Result<
    Seq<Option<Seq<u8>>>,
    Error,
> {
    let taken = if items.len() <= n {
        items
    } else {
        items.take(n as int)
    };
    let empty = Seq::new(n as nat, |i: int| Option::<Seq<u8>>::None);
    if taken.len() == 0 {
        Ok(empty)
    } else {
        spec_fill(taken, n, taken[0].0.len() as int, empty)
    }
}

/// The full shard set that reconstruction works from: the slots
/// themselves when all are present, else the codec's recovery.
pub open spec fn spec_filled(slots: Seq<Option<Seq<u8>>>, d: int, par: int) -> Seq<Seq<u8>> {
    if count_present(slots) == slots.len() {
        Seq::new(slots.len(), |i: int| slots[i]->0)
    } else {
        rs_filled(slots, d, par)
    }
}

/// What `reconstruct` returns, as a function of its inputs, through the
/// named results of the codec and of the payload decoder.
pub open spec fn spec_reconstruct(n: usize, items: Seq<(Seq<u8>, usize)>) -> Result<
    (Seq<u8>, Seq<Seq<u8>>),
    Error,
> {
    if n > MAX_VALIDATORS {
        Err(Error::TooManyValidators)
    } else if n == 0 {
        Err(Error::EmptyValidators)
    } else {
        match spec_gather(items, n) {
            Err(e) => Err(e),
            Ok(slots) => {
                let d = data_shards_of(n as int);
                if count_present(slots) < d {
                    Err(Error::NotEnoughChunks)
                } else {
                    let filled = spec_filled(slots, d, parity_shards_of(n as int));
                    match spec_unframe(filled.take(d)) {
                        Option::None => Err(Error::BadPayload),
                        Option::Some(stream) => match payload_decoding(stream) {
                            Option::None => Err(Error::BadPayload),
                            Option::Some(p) => Ok(p),
                        },
                    }
                }
            },
        }
    }
}

/// The inputs on which reconstruction is owed the payload back: every
/// supplied chunk is the chunk of its index for that payload, and chunks
/// for at least `data_shards` distinct indices are supplied.
pub open spec fn spec_round_trip_input(
    items: Seq<(Seq<u8>, usize)>,
    n: usize,
    block: Seq<u8>,
    messages: Seq<Seq<u8>>,
) -> bool {
    let g = spec_gather(items, n);
    &&& 1 <= n <= MAX_VALIDATORS
    &&& 1 <= payload_encoding(block, messages).len() <= MAX_PAYLOAD as int
    &&& g is Ok
    &&& agrees_with(g->Ok_0, chunks_spec(n as int, block, messages))
    &&& count_present(g->Ok_0) >= data_shards_of(n as int)
}

fn set_slot(v: &mut Vec<Option<Vec<u8>>>, i: usize, value: Vec<u8>)
    requires
        i < old(v)@.len(),
    ensures
        final(v)@ == old(v)@.update(i as int, Some(value)),
{
    v[i] = Some(value);
}

/// Place up to `n` indexed chunks into `n` shard slots, validating each
/// as it comes, and count the distinct indices covered.
#[verifier::loop_isolation(false)]
#[verifier::rlimit(100)]
fn gather_chunks(n: usize, chunks: &Vec<(Vec<u8>, usize)>) -> (r: Result<
    (Vec<Option<Vec<u8>>>, usize),
    Error,
>)
    requires
        1 <= n <= MAX_VALIDATORS,
    ensures
        (match r {
            Ok(v) => {
                &&& spec_gather(items_view(chunks@), n) == Ok::<_, Error>(slots_view(v.0@))
                &&& v.0@.len() == n
                &&& v.1 as int == count_present(slots_view(v.0@))
                &&& forall|i: int, j: int| 0 <= i < n && 0 <= j < n
                    && (#[trigger] slots_view(v.0@)[i]) is Some
                    && (#[trigger] slots_view(v.0@)[j]) is Some
                    ==> slots_view(v.0@)[i]->0.len() == slots_view(v.0@)[j]->0.len()
                &&& forall|i: int| 0 <= i < n && (#[trigger] slots_view(v.0@)[i]) is Some
                    ==> slots_view(v.0@)[i]->0.len() % 2 == 0 && slots_view(v.0@)[i]->0.len() >= 2
            },
            Err(e) => spec_gather(items_view(chunks@), n) == Err::<Seq<Option<Seq<u8>>>, Error>(
                e),
        }),
{
    let ghost items = items_view(chunks@);
    let ghost nn = n as int;
    let taken_len = if chunks.len() <= n {
        chunks.len()
    } else {
        n
    };
    let ghost tak = if items.len() <= n {
        items
    } else {
        items.take(nn)
    };
    let ghost empty_slots = Seq::new(n as nat, |i: int| Option::<Seq<u8>>::None);

    let mut slots: Vec<Option<Vec<u8>>> = Vec::new();
    while slots.len() < n
        invariant
            slots@.len() <= n,
            slots_view(slots@) =~= empty_slots.take(slots@.len() as int),
        decreases n - slots@.len(),
    {
        slots.push(None);
    }
    proof {
        assert(slots_view(slots@) =~= empty_slots);
        lemma_count_present_none(empty_slots);
        assert(tak.skip(0) =~= tak);
    }

    let len0 = if taken_len > 0 {
        chunks[0].0.len()
    } else {
        0
    };
    let ghost l0 = len0 as int;
    proof {
        if taken_len > 0 {
            assert(tak[0] == items[0]);
            assert(items[0] == (chunks@[0].0@, chunks@[0].1));
        }
    }

    let mut present: usize = 0;
    for t in 0..taken_len
        invariant
            slots@.len() == n,
            present as int == count_present(slots_view(slots@)),
            present <= n,
            forall|i: int| 0 <= i < n && (#[trigger] slots_view(slots@)[i]) is Some
                ==> slots_view(slots@)[i]->0.len() == l0 && l0 % 2 == 0 && l0 > 0,
            spec_fill(tak.skip(t as int), n, l0, slots_view(slots@)) == spec_fill(tak, n, l0,
                empty_slots),
    {
        proof {
            assert(tak[t as int] == items[t as int]);
            assert(items[t as int] == (chunks@[t as int].0@, chunks@[t as int].1));
            assert(tak.skip(t as int)[0] == tak[t as int]);
        }
        let idx = chunks[t].1;
        if idx >= n {
            return Err(Error::ChunkIndexOutOfBounds(idx, n));
        }
        if len0 % 2 != 0 {
            return Err(Error::UnevenLength);
        }
        let clen = chunks[t].0.len();
        if clen != len0 || len0 == 0 {
            return Err(Error::NonUniformChunks);
        }
        let was_present = slots[idx].is_some();
        let chunk_copy = clone_bytes(&chunks[t].0);
        let ghost before = slots_view(slots@);
        set_slot(&mut slots, idx, chunk_copy);
        if !was_present {
            present = present + 1;
        }
        proof {
            assert(slots_view(slots@) =~= before.update(idx as int, Some(chunks@[t as int].0@)));
            lemma_count_present_update(before, idx as int, chunks@[t as int].0@);
            lemma_count_present_bounds(slots_view(slots@));
            assert(tak.skip(t as int).drop_first() =~= tak.skip(t as int + 1));
        }
    }
    proof {
        assert(tak.skip(taken_len as int) =~= Seq::<(Seq<u8>, usize)>::empty());
        assert(spec_fill(tak.skip(taken_len as int), n, l0, slots_view(slots@)) == Ok::<_, Error>(
            slots_view(slots@)));
        assert(spec_gather(items, n) == Ok::<_, Error>(slots_view(slots@)));
    }
    Ok((slots, present))
}

/// Concatenate the useful regions of the first `d` recovered shards,
/// each cut to the length its prefix gives.
#[verifier::loop_isolation(false)]
#[verifier::rlimit(100)]
fn unframe_shards(slots: &Vec<Option<Vec<u8>>>, d: usize, Ghost(target): Ghost<Seq<Seq<u8>>>)
    -> (r: Option<Vec<u8>>)
    requires
        d <= slots@.len(),
        target.len() == d,
        forall|i: int| 0 <= i < d ==> (#[trigger] slots@[i]) is Some && slots@[i]->0@ == target[i],
    ensures
        (match r {
            Some(s) => spec_unframe(target) == Some(s@),
            None => spec_unframe(target) is None,
        }),
{
    let mut stream: Vec<u8> = Vec::new();
    proof {
        assert(target.skip(0) =~= target);
        if spec_unframe(target) is Some {
            let t0 = spec_unframe(target)->0;
            assert(Seq::<u8>::empty() + t0 =~= t0);
        }
    }
    for j in 0..d
        invariant
            (match spec_unframe(target.skip(j as int)) {
                Option::None => spec_unframe(target) is None,
                Option::Some(t) => spec_unframe(target) == Some(stream@ + t),
            }),
    {
        let sh = match &slots[j] {
            Some(s) => s,
            None => {
                proof {
                    assert(false);
                }
                return None;
            },
        };
        proof {
            assert(sh@ == target[j as int]);
            assert(target.skip(j as int)[0] == target[j as int]);
        }
        if sh.len() < 4 {
            return None;
        }
        let l64: u64 = sh[0] as u64 + (sh[1] as u64) * 256 + (sh[2] as u64) * 65536 + (sh[3]
            as u64) * 16777216;
        proof {
            assert(spec_prefix_value(sh@) == l64 as int);
        }
        if l64 > (sh.len() - 4) as u64 {
            return None;
        }
        let l = l64 as usize;
        let ghost stream_before = stream@;
        for k in 0..l
            invariant
                l + 4 <= sh@.len(),
                stream@ == stream_before + sh@.subrange(4, 4 + k as int),
        {
            stream.push(sh[4 + k]);
            assert(stream@ =~= stream_before + sh@.subrange(4, 4 + k as int + 1));
        }
        proof {
            assert(target.skip(j as int).drop_first() =~= target.skip(j as int + 1));
            if spec_unframe(target.skip(j as int + 1)) is Some {
                let t1 = spec_unframe(target.skip(j as int + 1))->0;
                assert(spec_unframe(target.skip(j as int)) == Some(sh@.subrange(4, 4 + l as int)
                    + t1));
                assert(spec_unframe(target) == Some(stream_before + (sh@.subrange(4, 4 + l as int)
                    + t1)));
                assert(stream_before + (sh@.subrange(4, 4 + l as int) + t1) =~= stream@ + t1);
            } else {
                assert(spec_unframe(target.skip(j as int)) is None);
            }
        }
    }
    proof {
        assert(target.skip(d as int) =~= Seq::<Seq<u8>>::empty());
        assert(stream@ + Seq::<u8>::empty() =~= stream@);
        assert(spec_unframe(target) == Some(stream@));
    }
    Some(stream)
}

/// Reconstruct the block data from a set of chunks.
///
/// Provide the chunk data together with the index of each chunk. If
/// chunks for fewer than `data_shards` distinct indices are provided,
/// recovery is not possible.
///
/// Works only up to 65536 validators, and `n_validators` must be
/// non-zero.
#[verifier::loop_isolation(false)]
#[verifier::rlimit(100)]
pub fn reconstruct(n_validators: usize, chunks: &Vec<(Vec<u8>, usize)>) -> (r: Result<
    (BlockData, Extrinsic),
    Error,
>)
    ensures
        ({
            let sr = spec_reconstruct(n_validators, items_view(chunks@));
            match r {
                Ok(v) => sr matches Ok(s) && v.0@ == s.0 && v.1@ == s.1,
                Err(e) => sr == Err::<(Seq<u8>, Seq<Seq<u8>>), Error>(e),
            }
        }),
        (forall|b: Seq<u8>, m: Seq<Seq<u8>>| #[trigger] spec_round_trip_input(items_view(chunks@),
            n_validators, b, m) ==> (r matches Ok(v) && v.0@ == b && v.1@ == m)),
{
    let ghost items = items_view(chunks@);
    let params = match code_params(n_validators) {
        Ok(p) => p,
        Err(e) => {
            return Err(e);
        },
    };
    let n = n_validators;
    let ghost nn = n as int;
    let ghost d = params.data_shards as int;
    let ghost par = params.parity_shards as int;

    let (mut slots, present) = match gather_chunks(n, chunks) {
        Ok(v) => v,
        Err(e) => {
            return Err(e);
        },
    };
    let ghost gathered = slots_view(slots@);

    if present < params.data_shards {
        return Err(Error::NotEnoughChunks);
    }

    let ghost filled = spec_filled(gathered, d, par);
    if params.parity_shards > 0 {
        let ghost prevv = slots@;
        proof {
            assert forall|i: int| 0 <= i < prevv.len() && prevv[i] is Some implies prevv[i]->0@.len()
                == slots_view(prevv)[i]->0.len() && slots_view(prevv)[i]->0.len() % 2 == 0
                && slots_view(prevv)[i]->0.len() >= 2 by {
                assert(slots_view(prevv)[i] is Some);
            }
        }
        match rs_reconstruct(params.data_shards, params.parity_shards, &mut slots) {
            Ok(()) => {},
            Err(e) => {
                proof {
                    assert(false);
                }
                return Err(e);
            },
        }
        proof {
            assert(slots_view(prevv) =~= gathered);
            lemma_count_present_bounds(gathered);
            assert forall|i: int| 0 <= i < slots@.len() implies ((#[trigger] slots_view(
                slots@)[i]) matches Some(v) && v == filled[i]) by {
                assert(slots@[i] is Some && slots@[i]->0@ == rs_filled(gathered, d, par)[i]);
                if count_present(gathered) == gathered.len() {
                    assert(gathered[i] is Some);
                    assert(prevv[i] is Some);
                    assert(slots@[i] == prevv[i]);
                    assert(slots_view(prevv)[i] == Some(prevv[i]->0@));
                    assert(filled[i] == gathered[i]->0);
                } else {
                    assert(filled == rs_filled(gathered, d, par));
                }
            }
            assert(filled.len() == nn);
            assert forall|data: Seq<Seq<u8>>| data.len() == d && #[trigger] agrees_with(gathered,
                rs_codeword(data, par)) implies filled == rs_codeword(data, par) by {
                assert(rs_filled(gathered, d, par) == rs_codeword(data, par));
                if count_present(gathered) == gathered.len() {
                    assert forall|i: int| 0 <= i < filled.len() implies filled[i] == rs_codeword(
                        data, par)[i] by {
                        assert(gathered[i] is Some);
                    }
                    assert(filled.len() == gathered.len());
                    assert(filled =~= rs_codeword(data, par));
                }
            }
        }
    } else {
        proof {
            lemma_count_present_bounds(gathered);
            assert(count_present(gathered) == gathered.len());
            assert forall|i: int| 0 <= i < slots@.len() implies ((#[trigger] slots_view(
                slots@)[i]) matches Some(v) && v == filled[i]) by {
                assert(gathered[i] is Some);
            }
            assert(filled.len() == nn);
            assert forall|data: Seq<Seq<u8>>| data.len() == d && #[trigger] agrees_with(gathered,
                rs_codeword(data, par)) implies filled == rs_codeword(data, par) by {
                assert forall|i: int| 0 <= i < filled.len() implies filled[i] == rs_codeword(data,
                    par)[i] by {
                    assert(gathered[i] is Some);
                }
                assert(filled =~= rs_codeword(data, par));
            }
        }
    }

    let ghost dseq = filled.take(d);
    proof {
        assert forall|i: int| 0 <= i < params.data_shards implies (#[trigger] slots@[i]) is Some
            && slots@[i]->0@ == dseq[i] by {
            assert(slots_view(slots@)[i] matches Some(v) && v == filled[i]);
        }
        // whenever the supplied chunks all lie on the codeword of a payload,
        // the recovered data shards unframe to exactly that payload
        assert forall|b: Seq<u8>, m: Seq<Seq<u8>>| #[trigger] spec_round_trip_input(items, n, b,
            m) implies spec_unframe(dseq) == Some(payload_encoding(b, m)) by {
            let p = payload_encoding(b, m);
            let data = spec_data_shards(p, d);
            assert(data.len() == d);
            assert(spec_gather(items, n) == Ok::<_, Error>(gathered));
            assert(agrees_with(gathered, rs_codeword(data, par)));
            assert(filled == rs_codeword(data, par));
            assert(dseq =~= data);
            framing::lemma_unframe_data_shards(p, d);
        }
    }
    let stream = match unframe_shards(&slots, params.data_shards, Ghost(dseq)) {
        Some(s) => s,
        None => {
            return Err(Error::BadPayload);
        },
    };

    let decoded = decode_payload(&stream);
    match decoded {
        Some(v) => Ok((v.0, v.1)),
        None => Err(Error::BadPayload),
    }
}

/// Erasure threshold: chunks for fewer than `data_shards` distinct
/// indices always fail with `NotEnoughChunks`.
pub proof fn lemma_erasure_threshold(n: usize, items: Seq<(Seq<u8>, usize)>)
    requires
        1 <= n <= MAX_VALIDATORS,
        spec_gather(items, n) is Ok,
        count_present(spec_gather(items, n)->Ok_0) < data_shards_of(n as int),
    ensures
        spec_reconstruct(n, items) == Err::<(Seq<u8>, Seq<Seq<u8>>), Error>(
            Error::NotEnoughChunks),
{
}

/// Odd lengths are rejected: an input whose first chunk has an odd
/// length and an in-range index fails with `UnevenLength`.
pub proof fn lemma_uneven_length_rejected(n: usize, items: Seq<(Seq<u8>, usize)>)
    requires
        1 <= n <= MAX_VALIDATORS,
        items.len() > 0,
        items[0].1 < n,
        items[0].0.len() % 2 == 1,
    ensures
        spec_reconstruct(n, items) == Err::<(Seq<u8>, Seq<Seq<u8>>), Error>(Error::UnevenLength),
{
    let tak = if items.len() <= n {
        items
    } else {
        items.take(n as int)
    };
    assert(tak.len() > 0);
    assert(tak[0] == items[0]);
}

/// Clone a byte vector.
pub(crate) fn clone_bytes(v: &Vec<u8>) -> (r: Vec<u8>)
    ensures
        r@ == v@,
{
    let mut out: Vec<u8> = Vec::new();
    let mut i: usize = 0;
    while i < v.len()
        invariant
            i <= v@.len(),
            out@ =~= v@.take(i as int),
        decreases v@.len() - i,
    {
        out.push(v[i]);
        i = i + 1;
        assert(out@ =~= v@.take(i as int));
    }
    assert(out@ =~= v@);
    out
}

} // verus!
