//! Splitting a payload into fixed-size, length-prefixed data shards, and
//! reading the payload back out of them.
//!
//! Each data shard starts with a 4-byte little-endian count of its useful
//! payload bytes, followed by those bytes and zero padding up to the shard
//! length. The prefix is needed because the Reed-Solomon code works on
//! 16-bit words while the payload is a byte string: without it the useful
//! byte count of the final shard would be ambiguous.

use vstd::prelude::*;
use vstd::arithmetic::div_mod::{
    lemma_fundamental_div_mod, lemma_div_denominator, lemma_div_is_ordered,
    lemma_div_pos_is_pos, lemma_mod_bound,
};
use crate::params::{CodeParams, shard_capacity_of};
use crate::MAX_VALIDATORS;

verus! {

/// Largest payload length the framing serves: the per-shard byte count
/// must fit the 32-bit length prefix, with room for the prefix and the
/// padding byte.
pub const MAX_PAYLOAD: usize = 0xffff_ff00;

/// Little-endian 32-bit encoding of `x`: the length prefix of a data
/// shard, and also the trie key of a chunk index.
pub open spec fn spec_le32(x: u32) -> Seq<u8> {
    seq![
        (x % 256) as u8,
        ((x / 256) % 256) as u8,
        ((x / 65536) % 256) as u8,
        ((x / 16777216) % 256) as u8,
    ]
}

/// The number that the first 4 bytes of `s` denote, read little-endian.
pub open spec fn spec_prefix_value(s: Seq<u8>) -> int
    recommends
        s.len() >= 4,
{
    s[0] + s[1] * 256 + s[2] * 65536 + s[3] * 16777216
}

/// A sequence of `k` zero bytes.
pub open spec fn zeros(k: int) -> Seq<u8> {
    Seq::new(k as nat, |i: int| 0u8)
}

/// Total length of every shard cut for a payload of `base_len` bytes over
/// `d` data shards: capacity plus the 4-byte prefix, rounded up to even.
pub open spec fn shard_total_len_of(base_len: int, d: int) -> int {
    let l = shard_capacity_of(base_len, d) + 4;
    if l % 2 == 0 {
        l
    } else {
        l + 1
    }
}

/// The `j`-th capacity-sized slice of the payload; short or empty at the
/// tail end.
pub open spec fn spec_chunk_slice(p: Seq<u8>, d: int, j: int) -> Seq<u8> {
    let s = shard_capacity_of(p.len() as int, d);
    let lo = if j * s <= p.len() {
        j * s
    } else {
        p.len() as int
    };
    let hi = if j * s + s <= p.len() {
        j * s + s
    } else {
        p.len() as int
    };
    p.subrange(lo, hi)
}

/// The `j`-th framed data shard: length prefix, payload slice, zero
/// padding up to the uniform shard length.
pub open spec fn spec_data_shard(p: Seq<u8>, d: int, j: int) -> Seq<u8> {
    let slice = spec_chunk_slice(p, d, j);
    spec_le32(slice.len() as u32) + slice + zeros(
        shard_total_len_of(p.len() as int, d) - 4 - slice.len(),
    )
}

/// All `d` framed data shards of payload `p`.
pub open spec fn spec_data_shards(p: Seq<u8>, d: int) -> Seq<Seq<u8>> {
    Seq::new(d as nat, |j: int| spec_data_shard(p, d, j))
}

/// Read the payload back out of a sequence of data shards: take each
/// shard's prefix as its useful byte count and concatenate the useful
/// regions. `None` when a shard is shorter than its prefix claims.
pub open spec fn spec_unframe(shards: Seq<Seq<u8>>) -> Option<Seq<u8>>
    decreases shards.len(),
{
    if shards.len() == 0 {
        Some(Seq::empty())
    } else {
        let sh = shards[0];
        if sh.len() < 4 {
            None
        } else {
            let l = spec_prefix_value(sh);
            if l > sh.len() - 4 {
                None
            } else {
                match spec_unframe(shards.drop_first()) {
                    Option::None => None,
                    Option::Some(t) => Some(sh.subrange(4, 4 + l) + t),
                }
            }
        }
    }
}

pub proof fn lemma_le32_value(x: u32)
    ensures
        spec_prefix_value(spec_le32(x)) == x,
{
    let xi = x as int;
    lemma_fundamental_div_mod(xi, 256);
    lemma_fundamental_div_mod(xi / 256, 256);
    lemma_fundamental_div_mod(xi / 65536, 256);
    lemma_div_denominator(xi, 256, 256);
    lemma_div_denominator(xi, 65536, 256);
    lemma_mod_bound(xi, 256);
    lemma_mod_bound(xi / 256, 256);
    lemma_mod_bound(xi / 65536, 256);
    lemma_div_is_ordered(xi, 0xffff_ffff, 16777216);
    lemma_div_pos_is_pos(xi, 256);
    lemma_div_pos_is_pos(xi, 65536);
    lemma_div_pos_is_pos(xi, 16777216);
    assert(xi / 16777216 % 256 == xi / 16777216) by {
        vstd::arithmetic::div_mod::lemma_small_mod((xi / 16777216) as nat, 256);
    }
}

/// The little-endian key encoding is injective: distinct numbers give
/// distinct byte strings.
pub proof fn lemma_le32_injective(a: u32, b: u32)
    requires
        spec_le32(a) == spec_le32(b),
    ensures
        a == b,
{
    lemma_le32_value(a);
    lemma_le32_value(b);
    assert(spec_prefix_value(spec_le32(a)) == spec_prefix_value(spec_le32(b)));
}

/// The ceiling division in the shard capacity covers the whole payload.
pub proof fn lemma_capacity_covers(base: int, d: int)
    requires
        d >= 1,
        base >= 0,
    ensures
        d * shard_capacity_of(base, d) >= base,
        shard_capacity_of(base, d) >= 0,
{
    lemma_fundamental_div_mod(base, d);
    lemma_mod_bound(base, d);
    lemma_div_pos_is_pos(base, d);
    let q = base / d;
    if base % d != 0 {
        assert(d * (q + 1) == d * q + d) by (nonlinear_arith);
    }
}

#[verifier::rlimit(100)]
proof fn lemma_unframe_from(p: Seq<u8>, d: int, j: int)
    requires
        1 <= d,
        0 <= j <= d,
        p.len() <= MAX_PAYLOAD as int,
    ensures
        ({
            let s = shard_capacity_of(p.len() as int, d);
            let lo = if j * s <= p.len() {
                j * s
            } else {
                p.len() as int
            };
            spec_unframe(Seq::new((d - j) as nat, |k: int| spec_data_shard(p, d, j + k)))
                == Some(p.subrange(lo, p.len() as int))
        }),
    decreases d - j,
{
    let plen = p.len() as int;
    let s = shard_capacity_of(plen, d);
    lemma_capacity_covers(plen, d);
    let lo = if j * s <= plen {
        j * s
    } else {
        plen
    };
    if j == d {
        assert(d * s >= plen);
        assert(lo == plen) by {
            if j * s <= plen {
                assert(j * s == d * s);
                assert(j * s >= plen);
            }
        }
        assert(Seq::new(0nat, |k: int| spec_data_shard(p, d, j + k)).len() == 0);
        assert(p.subrange(plen, plen) =~= Seq::<u8>::empty());
    } else {
        let shards = Seq::new((d - j) as nat, |k: int| spec_data_shard(p, d, j + k));
        let sh = shards[0];
        assert(sh == spec_data_shard(p, d, j));
        let slice = spec_chunk_slice(p, d, j);
        let ltot = shard_total_len_of(plen, d);
        assert(slice.len() <= s) by {
            lemma_div_pos_is_pos(plen, d);
        }
        assert(sh.len() == ltot) by {
            assert(spec_le32(slice.len() as u32).len() == 4);
            assert(zeros(ltot - 4 - slice.len()).len() == ltot - 4 - slice.len());
        }
        assert(sh.len() >= 4);
        // the prefix of the framed shard reads back as the slice length
        let lw = slice.len() as u32;
        lemma_le32_value(lw);
        assert(slice.len() as u32 as int == slice.len() as int);
        assert(sh[0] == spec_le32(lw)[0] && sh[1] == spec_le32(lw)[1] && sh[2] == spec_le32(lw)[2]
            && sh[3] == spec_le32(lw)[3]);
        assert(spec_prefix_value(sh) == slice.len());
        assert(sh.subrange(4, 4 + slice.len() as int) =~= slice);
        // the tail of the shard list is the framing from `j + 1`
        let tail = Seq::new((d - j - 1) as nat, |k: int| spec_data_shard(p, d, j + 1 + k));
        assert(shards.drop_first() =~= tail);
        lemma_unframe_from(p, d, j + 1);
        let lo2 = if (j + 1) * s <= plen {
            (j + 1) * s
        } else {
            plen
        };
        assert((j + 1) * s == j * s + s) by (nonlinear_arith);
        // the slice ends exactly where the next shard's region starts
        let hi = if j * s + s <= plen {
            j * s + s
        } else {
            plen
        };
        assert(hi == lo2);
        assert(lo <= hi) by {
            assert(s >= 0);
            if j * s <= plen {
            } else {
            }
        }
        assert(slice == p.subrange(lo, hi));
        assert(p.subrange(lo, hi) + p.subrange(hi, plen) =~= p.subrange(lo, plen));
        assert(spec_unframe(shards) == Some(p.subrange(lo, plen)));
    }
}

/// Framing then unframing gives the payload back.
pub proof fn lemma_unframe_data_shards(p: Seq<u8>, d: int)
    requires
        1 <= d,
        p.len() <= MAX_PAYLOAD as int,
    ensures
        spec_unframe(spec_data_shards(p, d)) == Some(p),
{
    lemma_unframe_from(p, d, 0);
    let s = shard_capacity_of(p.len() as int, d);
    assert(0 * s == 0);
    assert(spec_data_shards(p, d) =~= Seq::new(d as nat, |k: int| spec_data_shard(p, d, 0 + k)));
    assert(p.subrange(0, p.len() as int) =~= p);
}

/// The little-endian 32-bit encoding of `x`, as bytes.
pub fn le32_bytes(x: u32) -> (r: Vec<u8>)
    ensures
        r@ == spec_le32(x),
        r@.len() == 4,
{
    let mut v: Vec<u8> = Vec::new();
    v.push((x % 256) as u8);
    v.push(((x / 256) % 256) as u8);
    v.push(((x / 65536) % 256) as u8);
    v.push(((x / 16777216) % 256) as u8);
    assert(v@ =~= spec_le32(x));
    v
}

/// A vector of `len` zero bytes.
pub fn zero_vec(len: usize) -> (r: Vec<u8>)
    ensures
        r@ == zeros(len as int),
{
    let mut v: Vec<u8> = Vec::new();
    while v.len() < len
        invariant
            v@ =~= zeros(v.len() as int),
            v.len() <= len,
        decreases len - v.len(),
    {
        v.push(0u8);
        assert(v@ =~= zeros(v.len() as int));
    }
    assert(v@ =~= zeros(len as int));
    v
}

/// One framed data shard: the 4-byte length prefix, `len_j` payload
/// bytes from `lo` on, and zero padding up to `l` bytes.
#[verifier::loop_isolation(false)]
fn build_data_shard(payload: &Vec<u8>, lo: usize, len_j: usize, l: usize) -> (r: Vec<u8>)
    requires
        lo + len_j <= payload@.len(),
        4 + len_j <= l,
        len_j <= 0xffff_ffff,
    ensures
        r@ == spec_le32(len_j as u32) + payload@.subrange(lo as int, lo as int + len_j) + zeros(
            l - 4 - len_j),
        r@.len() == l,
{
    let total = payload.len();
    assert(total == payload@.len());
    let mut shard: Vec<u8> = Vec::new();
    let lw = len_j as u32;
    shard.push((lw % 256) as u8);
    shard.push(((lw / 256) % 256) as u8);
    shard.push(((lw / 65536) % 256) as u8);
    shard.push(((lw / 16777216) % 256) as u8);
    assert(shard@ =~= spec_le32(lw));
    for k in 0..len_j
        invariant
            shard@ == spec_le32(lw) + payload@.subrange(lo as int, lo as int + k),
            shard@.len() == 4 + k,
    {
        proof {
            assert(lo + k < payload@.len());
        }
        shard.push(payload[lo + k]);
        assert(shard@ =~= spec_le32(lw) + payload@.subrange(lo as int, lo as int + k + 1));
    }
    while shard.len() < l
        invariant
            shard@ == spec_le32(lw) + payload@.subrange(lo as int, lo as int + len_j) + zeros(
                shard@.len() - 4 - len_j),
            4 + len_j <= shard@.len() <= l,
        decreases l - shard@.len(),
    {
        shard.push(0u8);
        assert(shard@ =~= spec_le32(lw) + payload@.subrange(lo as int, lo as int + len_j) + zeros(
            shard@.len() - 4 - len_j));
    }
    shard
}

impl CodeParams {
    /// Cut the payload into framed data shards and zeroed parity slots,
    /// all of the same even length.
    #[verifier::loop_isolation(false)]
    #[verifier::rlimit(100)]
    pub fn make_shards_for(&self, payload: &Vec<u8>) -> (r: Vec<Vec<u8>>)
        requires
            self.data_shards >= 1,
            self.data_shards + self.parity_shards <= MAX_VALIDATORS,
            payload@.len() <= MAX_PAYLOAD as int,
        ensures
            r@.len() == self.data_shards + self.parity_shards,
            forall|j: int| 0 <= j < self.data_shards ==> #[trigger] r@[j]@ == spec_data_shard(
                payload@, self.data_shards as int, j),
            forall|j: int| self.data_shards <= j < r@.len() ==> #[trigger] r@[j]@ == zeros(
                shard_total_len_of(payload@.len() as int, self.data_shards as int)),
            forall|j: int| 0 <= j < r@.len() ==> #[trigger] r@[j]@.len() == shard_total_len_of(
                payload@.len() as int, self.data_shards as int),
            shard_total_len_of(payload@.len() as int, self.data_shards as int) % 2 == 0,
            shard_total_len_of(payload@.len() as int, self.data_shards as int) >= 4,
    {
        let ghost plen = payload@.len() as int;
        let ghost dd = self.data_shards as int;
        let s = self.shard_len(payload.len());
        proof {
            lemma_capacity_covers(plen, dd);
            lemma_div_pos_is_pos(plen, dd);
            assert(plen / dd <= plen) by (nonlinear_arith)
                requires dd >= 1 && plen >= 0;
        }
        let l_raw = s + 4;
        let l = if l_raw % 2 == 0 {
            l_raw
        } else {
            l_raw + 1
        };
        assert(l == shard_total_len_of(plen, dd));
        let n = self.data_shards + self.parity_shards;
        let mut shards: Vec<Vec<u8>> = Vec::new();
        let mut lo: usize = 0;
        for j in 0..self.data_shards
            invariant
                shards@.len() == j,
                lo == (if j * (s as int) <= plen { j * (s as int) } else { plen }),
                lo <= payload.len(),
                forall|i: int| 0 <= i < j ==> #[trigger] shards@[i]@ == spec_data_shard(payload@,
                    dd, i),
        {
            let ghost jlo = if j * (s as int) <= plen { j * (s as int) } else { plen };
            let ghost jhi = if j * (s as int) + s <= plen { j * (s as int) + s } else { plen };
            let avail = payload.len() - lo;
            let len_j = if s <= avail {
                s
            } else {
                avail
            };
            assert(lo + len_j == jhi);
            let ghost slice = spec_chunk_slice(payload@, dd, j as int);
            assert(slice == payload@.subrange(jlo, jhi));
            assert(slice.len() == len_j);
            let shard = build_data_shard(payload, lo, len_j, l);
            assert(shard@ =~= spec_data_shard(payload@, dd, j as int));
            shards.push(shard);
            lo = lo + len_j;
            proof {
                assert((j + 1) * (s as int) == j * (s as int) + s) by (nonlinear_arith);
                if jlo == plen {
                    assert(j * (s as int) + s >= j * (s as int));
                }
            }
        }
        for j in self.data_shards..n
            invariant
                shards@.len() == j,
                forall|i: int| 0 <= i < self.data_shards ==> #[trigger] shards@[i]@
                    == spec_data_shard(payload@, dd, i),
                forall|i: int| self.data_shards <= i < j ==> #[trigger] shards@[i]@ == zeros(
                    l as int),
        {
            shards.push(zero_vec(l));
        }
        assert forall|j: int| 0 <= j < shards@.len() implies #[trigger] shards@[j]@.len()
            == shard_total_len_of(plen, dd) by {
            if j < self.data_shards {
                assert(shards@[j]@ == spec_data_shard(payload@, dd, j));
                assert(spec_chunk_slice(payload@, dd, j).len() <= s);
            }
        }
        shards
    }
}

} // verus!
