use vstd::prelude::*;

use crate::errors::NarrativeError;
use crate::record::{NarrativeView, MAX_METADATA_LEN};
use crate::registry::{
    fresh_record, has_key, key_index, lemma_key_index_of_match, lemma_stake_preserves_keys,
    matches_key, register_error, register_success_state, stake_success_state, unique_keys,
    validate_error, with_stake,
};

verus! {

/// Sum of a sequence of stake amounts, as an unbounded integer.
pub open spec fn sum_amounts(amounts: Seq<u64>) -> int
    decreases amounts.len(),
{
    if amounts.len() == 0 {
        0
    } else {
        amounts[0] + sum_amounts(amounts.drop_first())
    }
}

/// The registry contents after staking each amount in turn on the record at
/// the address derived from `(author, metadata_url)`.
pub open spec fn apply_stakes(
    s: Seq<NarrativeView>,
    author: Seq<u8>,
    metadata_url: Seq<u8>,
    amounts: Seq<u64>,
) -> Seq<NarrativeView>
    decreases amounts.len(),
{
    if amounts.len() == 0 {
        s
    } else {
        apply_stakes(
            stake_success_state(s, author, metadata_url, amounts[0]),
            author,
            metadata_url,
            amounts.drop_first(),
        )
    }
}

proof fn lemma_sum_amounts_nonneg(amounts: Seq<u64>)
    ensures
        sum_amounts(amounts) >= 0,
    decreases amounts.len(),
{
    if amounts.len() > 0 {
        lemma_sum_amounts_nonneg(amounts.drop_first());
    }
}

/// Law: registering a pair no record was ever created for — by its
/// authenticated author, with metadata within capacity and the allocation
/// funded — succeeds, and the record it creates carries exactly the inputs,
/// with no stake accumulated yet. Existing records are untouched.
pub proof fn lemma_register_fresh_succeeds(
    s: Seq<NarrativeView>,
    author: Seq<u8>,
    metadata_url: Seq<u8>,
    confidence_score: u16,
    bump: u8,
    author_balance: u64,
    storage_cost: u64,
)
    requires
        !has_key(s, author, metadata_url),
        metadata_url.len() <= MAX_METADATA_LEN,
        author_balance >= storage_cost,
    ensures
        register_error(s, author, true, author_balance, storage_cost, metadata_url) is None,
        ({
            let t = register_success_state(s, author, metadata_url, confidence_score, bump);
            &&& t.len() == s.len() + 1
            &&& t[s.len() as int] == fresh_record(author, metadata_url, confidence_score, bump)
            &&& t[s.len() as int].total_staked == 0
            &&& forall|i: int| 0 <= i < s.len() ==> t[i] == s[i]
        }),
{
}

/// Law: once a pair has been registered, registering it again always fails
/// with `AddressCollision` — whatever score, funding or salt the second call
/// brings — and the record the first call created still stands, unchanged.
pub proof fn lemma_register_twice_collides(
    s: Seq<NarrativeView>,
    author: Seq<u8>,
    metadata_url: Seq<u8>,
    first_score: u16,
    first_bump: u8,
    first_balance: u64,
    first_cost: u64,
    second_score: u16,
    second_balance: u64,
    second_cost: u64,
)
    requires
        register_error(s, author, true, first_balance, first_cost, metadata_url) is None,
    ensures
        ({
            let t = register_success_state(s, author, metadata_url, first_score, first_bump);
            &&& register_error(t, author, true, second_balance, second_cost, metadata_url)
                == Some(NarrativeError::AddressCollision)
            &&& t[s.len() as int] == fresh_record(author, metadata_url, first_score, first_bump)
        }),
{
    let t = register_success_state(s, author, metadata_url, first_score, first_bump);
    assert(matches_key(t[s.len() as int], author, metadata_url));
    assert(has_key(t, author, metadata_url));
}

/// Law: successful stakes are additive, never replay-safe no-ops: staking the
/// amounts `a1..an` on one record in turn grows its `total_staked` by exactly
/// their sum, and leaves every other record — and the record's own identity
/// fields — unchanged.
pub proof fn lemma_stakes_accumulate(
    s: Seq<NarrativeView>,
    author: Seq<u8>,
    metadata_url: Seq<u8>,
    amounts: Seq<u64>,
)
    requires
        unique_keys(s),
        has_key(s, author, metadata_url),
        s[key_index(s, author, metadata_url)].total_staked + sum_amounts(amounts) <= u64::MAX,
    ensures
        ({
            let i: int = key_index(s, author, metadata_url);
            let t = apply_stakes(s, author, metadata_url, amounts);
            &&& t.len() == s.len()
            &&& unique_keys(t)
            &&& has_key(t, author, metadata_url)
            &&& key_index(t, author, metadata_url) == i
            &&& t[i].total_staked == s[i].total_staked + sum_amounts(amounts)
            &&& t[i].author == s[i].author
            &&& t[i].metadata_url == s[i].metadata_url
            &&& t[i].confidence_score == s[i].confidence_score
            &&& t[i].bump == s[i].bump
            &&& forall|j: int| 0 <= j < s.len() && j != i ==> t[j] == s[j]
        }),
    decreases amounts.len(),
{
    let i: int = key_index(s, author, metadata_url);
    assert(0 <= i < s.len() && matches_key(s[i], author, metadata_url));
    if amounts.len() == 0 {
    } else {
        let first: u64 = amounts[0];
        let rest = amounts.drop_first();
        lemma_sum_amounts_nonneg(rest);
        let s1 = stake_success_state(s, author, metadata_url, first);
        lemma_stake_preserves_keys(s, author, metadata_url, first);
        assert(s1[i] == with_stake(s[i], first));
        assert(s1[i].total_staked == s[i].total_staked + first);
        lemma_stakes_accumulate(s1, author, metadata_url, rest);
        let t = apply_stakes(s1, author, metadata_url, rest);
        assert(t == apply_stakes(s, author, metadata_url, amounts));
        assert forall|j: int| 0 <= j < s.len() && j != i implies t[j] == s[j] by {
            assert(s1[j] == s[j]);
        }
    }
}

/// Law: staking an amount of zero on an existing record is accepted for any
/// authenticated caller — a balance of zero covers it, and it cannot
/// overflow — and it leaves the registry exactly as it was. The record must
/// still exist: the demand is not waived for a zero amount.
pub proof fn lemma_zero_stake_noop(
    s: Seq<NarrativeView>,
    author: Seq<u8>,
    metadata_url: Seq<u8>,
    signer_balance: u64,
)
    requires
        unique_keys(s),
        has_key(s, author, metadata_url),
    ensures
        validate_error(s, author, metadata_url, true, signer_balance, 0) is None,
        stake_success_state(s, author, metadata_url, 0) == s,
{
    let i: int = key_index(s, author, metadata_url);
    assert(0 <= i < s.len() && matches_key(s[i], author, metadata_url));
    assert(with_stake(s[i], 0) =~= s[i]);
    assert(stake_success_state(s, author, metadata_url, 0) =~= s);
}

/// Law: a stake aimed at an address that holds no record always fails with
/// `RecordNotFound`, whatever amount or funding the caller brings. The
/// operation's contract adds that, as with every failure, no state changes.
pub proof fn lemma_validate_missing(
    s: Seq<NarrativeView>,
    author: Seq<u8>,
    metadata_url: Seq<u8>,
    signer_balance: u64,
    amount: u64,
)
    requires
        !has_key(s, author, metadata_url),
    ensures
        validate_error(s, author, metadata_url, true, signer_balance, amount) == Some(
            NarrativeError::RecordNotFound,
        ),
{
}

} // verus!
