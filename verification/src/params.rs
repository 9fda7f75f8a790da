//! Derivation of the code parameters from the validator count.

use vstd::prelude::*;
use vstd::arithmetic::div_mod::lemma_div_is_ordered;
use crate::Error;
use crate::MAX_VALIDATORS;

verus! {

/// Number of data shards for `n` validators: one more than the number of
/// tolerated faulty validators `f = (n - 1) / 3`.
pub open spec fn data_shards_of(n: int) -> int {
    (n - 1) / 3 + 1
}

/// Number of parity shards for `n` validators: the rest.
pub open spec fn parity_shards_of(n: int) -> int {
    n - data_shards_of(n)
}

/// Parameters of the erasure code: how many shards carry data and how many
/// carry parity.
pub struct CodeParams {
    pub data_shards: usize,
    pub parity_shards: usize,
}

impl CodeParams {
    /// The parameters that `code_params` hands out for some admissible
    /// validator count.
    pub open spec fn valid(self) -> bool {
        &&& self.data_shards == data_shards_of(self.data_shards + self.parity_shards)
        &&& self.parity_shards == parity_shards_of(self.data_shards + self.parity_shards)
        &&& 1 <= self.data_shards + self.parity_shards <= MAX_VALIDATORS
    }

    /// The payload capacity of each data shard for a payload of `base_len`
    /// bytes: the ceiling of `base_len / data_shards`.
    pub fn shard_len(&self, base_len: usize) -> (r: usize)
        requires
            self.data_shards >= 1,
            base_len < usize::MAX,
        ensures
            r == shard_capacity_of(base_len as int, self.data_shards as int),
    {
        (base_len / self.data_shards) + if base_len % self.data_shards == 0 { 0 } else { 1 }
    }
}

/// Per-shard payload capacity: the ceiling of `base_len / d`.
pub open spec fn shard_capacity_of(base_len: int, d: int) -> int {
    base_len / d + if base_len % d == 0 { 0int } else { 1int }
}

/// Derive the code parameters for `n_validators` validators.
///
/// Fails when there are more validators than the field order of GF(2^16)
/// admits, or none at all.
pub fn code_params(n_validators: usize) -> (r: Result<CodeParams, Error>)
    ensures
        n_validators > MAX_VALIDATORS ==> r == Err::<CodeParams, Error>(Error::TooManyValidators),
        n_validators == 0 ==> r == Err::<CodeParams, Error>(Error::EmptyValidators),
        1 <= n_validators <= MAX_VALIDATORS ==> (r matches Ok(p)
            && p.data_shards == data_shards_of(n_validators as int)
            && p.parity_shards == parity_shards_of(n_validators as int)
            && p.data_shards + p.parity_shards == n_validators
            && p.valid()),
{
    if n_validators > MAX_VALIDATORS {
        return Err(Error::TooManyValidators);
    }
    if n_validators == 0 {
        return Err(Error::EmptyValidators);
    }

    let n_faulty = (n_validators - 1) / 3;
    assert(n_faulty + 1 <= n_validators) by {
        lemma_div_is_ordered(n_validators as int - 1, n_validators as int - 1, 3);
        assert((n_validators as int - 1) / 3 <= n_validators as int - 1) by {
            vstd::arithmetic::div_mod::lemma_div_is_ordered_by_denominator(
                n_validators as int - 1, 1, 3);
        }
    }
    let n_good = n_validators - n_faulty;

    Ok(CodeParams { data_shards: n_faulty + 1, parity_shards: n_good - 1 })
}

/// Parameter sanity: for every admissible validator count the data and
/// parity shard counts partition `n`, at least one shard carries data, and
/// at most `ceil(n / 3) + 1` shards do.
pub proof fn lemma_code_params_sane(n: int)
    requires
        1 <= n <= MAX_VALIDATORS,
    ensures
        data_shards_of(n) + parity_shards_of(n) == n,
        data_shards_of(n) >= 1,
        data_shards_of(n) <= (n + 2) / 3 + 1,
{
    lemma_div_is_ordered(n - 1, n + 2, 3);
    assert((n - 1) / 3 >= 0) by {
        vstd::arithmetic::div_mod::lemma_div_pos_is_pos(n - 1, 3);
    }
}

} // verus!
