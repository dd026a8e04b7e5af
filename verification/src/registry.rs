use vstd::prelude::*;

use crate::errors::NarrativeError;
use crate::record::{Narrative, NarrativeView, wf_record, AUTHOR_LEN, MAX_METADATA_LEN};

verus! {

/// Invocation context for [`NarrativeRegistry::register_narrative`]: the
/// claimed author identity together with what the host transaction layer
/// knows about the call — whether the author signed it, what the author can
/// spend, what the storage allocation costs, and the derivation salt found
/// for the record's address.
pub struct RegisterNarrative {
    /// Identity claimed as the record's author ([`AUTHOR_LEN`] bytes).
    pub author: Vec<u8>,
    /// Whether the host verified the author's signature on this call.
    pub author_is_signer: bool,
    /// Value the author has available to fund the record's storage.
    pub author_balance: u64,
    /// Cost of allocating the record's fixed-size storage.
    pub storage_cost: u64,
    /// Derivation salt the host's address search produced for this record.
    pub bump: u8,
}

/// Invocation context for [`NarrativeRegistry::validate_narrative`]: the
/// address of the targeted record — the (author, metadata reference) pair it
/// was derived from — together with what the host knows about the caller.
pub struct ValidateNarrative {
    /// Author component of the targeted record's address.
    pub narrative_author: Vec<u8>,
    /// Metadata-reference component of the targeted record's address.
    pub narrative_metadata_url: Vec<u8>,
    /// Whether the host verified the staker's signature on this call.
    pub signer_is_signer: bool,
    /// Value the staker has available to commit.
    pub signer_balance: u64,
}

/// Does `nv` sit at the address derived from `(author, metadata_url)`?
pub open spec fn matches_key(nv: NarrativeView, author: Seq<u8>, metadata_url: Seq<u8>) -> bool {
    nv.author == author && nv.metadata_url == metadata_url
}

/// Does some record in `s` sit at the address derived from
/// `(author, metadata_url)`?
pub open spec fn has_key(s: Seq<NarrativeView>, author: Seq<u8>, metadata_url: Seq<u8>) -> bool {
    exists|i: int| 0 <= i < s.len() && matches_key(s[i], author, metadata_url)
}

/// Position in `s` of the record at the address derived from
/// `(author, metadata_url)`. Meaningful when `has_key` holds; unique when the
/// keys of `s` are unique.
pub open spec fn key_index(s: Seq<NarrativeView>, author: Seq<u8>, metadata_url: Seq<u8>) -> int {
    choose|i: int| 0 <= i < s.len() && matches_key(s[i], author, metadata_url)
}

/// No two records of `s` share an (author, metadata reference) pair: each
/// derived address holds at most one record.
pub open spec fn unique_keys(s: Seq<NarrativeView>) -> bool {
    forall|i: int, j: int|
        #![trigger s[i], s[j]]
        0 <= i < s.len() && 0 <= j < s.len() && i != j ==> !(
        s[i].author == s[j].author && s[i].metadata_url == s[j].metadata_url)
}

/// The failure `register_narrative` reports on the given inputs, if any.
/// The checks run in this order: the author's authorization, the metadata
/// capacity, the derived address being free, the funding of the allocation.
pub open spec fn register_error(
    s: Seq<NarrativeView>,
    author: Seq<u8>,
    author_is_signer: bool,
    author_balance: u64,
    storage_cost: u64,
    metadata_url: Seq<u8>,
) -> Option<NarrativeError> {
    if !author_is_signer {
        Some(NarrativeError::Unauthorized)
    } else if metadata_url.len() > MAX_METADATA_LEN {
        Some(NarrativeError::OversizedMetadata)
    } else if has_key(s, author, metadata_url) {
        Some(NarrativeError::AddressCollision)
    } else if author_balance < storage_cost {
        Some(NarrativeError::InsufficientFunds)
    } else {
        None
    }
}

/// The record a successful registration creates: the inputs verbatim, with
/// no stake accumulated yet.
pub open spec fn fresh_record(
    author: Seq<u8>,
    metadata_url: Seq<u8>,
    confidence_score: u16,
    bump: u8,
) -> NarrativeView {
    NarrativeView { author, metadata_url, confidence_score, total_staked: 0, bump }
}

/// The registry contents after a successful registration: the new record
/// appended, every existing record untouched.
pub open spec fn register_success_state(
    s: Seq<NarrativeView>,
    author: Seq<u8>,
    metadata_url: Seq<u8>,
    confidence_score: u16,
    bump: u8,
) -> Seq<NarrativeView> {
    s.push(fresh_record(author, metadata_url, confidence_score, bump))
}

/// The failure `validate_narrative` reports on the given inputs, if any.
/// The checks run in this order: the staker's authorization, the record's
/// existence, the staker's funds, the accumulator's range.
pub open spec fn validate_error(
    s: Seq<NarrativeView>,
    author: Seq<u8>,
    metadata_url: Seq<u8>,
    signer_is_signer: bool,
    signer_balance: u64,
    amount: u64,
) -> Option<NarrativeError> {
    if !signer_is_signer {
        Some(NarrativeError::Unauthorized)
    } else if !has_key(s, author, metadata_url) {
        Some(NarrativeError::RecordNotFound)
    } else if signer_balance < amount {
        Some(NarrativeError::InsufficientFunds)
    } else if s[key_index(s, author, metadata_url)].total_staked + amount > u64::MAX {
        Some(NarrativeError::ArithmeticOverflow)
    } else {
        None
    }
}

/// `nv` with `amount` more stake and every other field as it was.
pub open spec fn with_stake(nv: NarrativeView, amount: u64) -> NarrativeView {
    NarrativeView { total_staked: (nv.total_staked + amount) as u64, ..nv }
}

/// The registry contents after a successful stake of `amount` on the record
/// at the address derived from `(author, metadata_url)`.
pub open spec fn stake_success_state(
    s: Seq<NarrativeView>,
    author: Seq<u8>,
    metadata_url: Seq<u8>,
    amount: u64,
) -> Seq<NarrativeView> {
    let i: int = key_index(s, author, metadata_url);
    s.update(i, with_stake(s[i], amount))
}

/// When the keys of `s` are unique, a record matching the key pins
/// `key_index` to its position.
pub proof fn lemma_key_index_of_match(
    s: Seq<NarrativeView>,
    author: Seq<u8>,
    metadata_url: Seq<u8>,
    i: int,
)
    requires
        unique_keys(s),
        0 <= i < s.len(),
        matches_key(s[i], author, metadata_url),
    ensures
        has_key(s, author, metadata_url),
        key_index(s, author, metadata_url) == i,
{
    assert(has_key(s, author, metadata_url));
    let j: int = key_index(s, author, metadata_url);
    assert(0 <= j < s.len() && matches_key(s[j], author, metadata_url));
    if i != j {
        assert(!(s[i].author == s[j].author && s[i].metadata_url == s[j].metadata_url));
        assert(false);
    }
}

/// Staking on the record at `(author, metadata_url)` changes nothing but that
/// record's stake: every key stays where it was, so uniqueness, the key's
/// presence and its position all carry over to the new contents.
pub proof fn lemma_stake_preserves_keys(
    s: Seq<NarrativeView>,
    author: Seq<u8>,
    metadata_url: Seq<u8>,
    amount: u64,
)
    requires
        unique_keys(s),
        has_key(s, author, metadata_url),
    ensures
        ({
            let t = stake_success_state(s, author, metadata_url, amount);
            &&& t.len() == s.len()
            &&& forall|k: int|
                0 <= k < s.len() ==> #[trigger] t[k].author == s[k].author && t[k].metadata_url
                    == s[k].metadata_url
            &&& unique_keys(t)
            &&& has_key(t, author, metadata_url)
            &&& key_index(t, author, metadata_url) == key_index(s, author, metadata_url)
        }),
{
    let i: int = key_index(s, author, metadata_url);
    assert(0 <= i < s.len() && matches_key(s[i], author, metadata_url));
    let t = stake_success_state(s, author, metadata_url, amount);
    assert forall|k: int|
        0 <= k < s.len() implies #[trigger] t[k].author == s[k].author && t[k].metadata_url
        == s[k].metadata_url by {
        if k == i {
            assert(t[k] == with_stake(s[i], amount));
        } else {
            assert(t[k] == s[k]);
        }
    }
    assert(unique_keys(t)) by {
        assert forall|a: int, b: int|
            #![trigger t[a], t[b]]
            0 <= a < t.len() && 0 <= b < t.len() && a != b implies !(t[a].author == t[b].author
            && t[a].metadata_url == t[b].metadata_url) by {
            assert(t[a].author == s[a].author && t[a].metadata_url == s[a].metadata_url);
            assert(t[b].author == s[b].author && t[b].metadata_url == s[b].metadata_url);
            assert(!(s[a].author == s[b].author && s[a].metadata_url == s[b].metadata_url));
        }
    }
    assert(matches_key(t[i], author, metadata_url));
    lemma_key_index_of_match(t, author, metadata_url, i);
}

/// The content-addressed narrative index: at most one record per
/// (author, metadata reference) pair. It stands in for the host ledger's
/// derived-address storage, with the collision handling explicit.
pub struct NarrativeRegistry {
    records: Vec<Narrative>,
}

impl View for NarrativeRegistry {
    type V = Seq<NarrativeView>;

    closed spec fn view(&self) -> Seq<NarrativeView> {
        Seq::new(self.records@.len(), |i: int| self.records@[i]@)
    }
}

impl NarrativeRegistry {
    /// Every stored record is well formed, and no two records share a
    /// derived address.
    pub open spec fn wf(self) -> bool {
        &&& forall|i: int| 0 <= i < self@.len() ==> wf_record(#[trigger] self@[i])
        &&& unique_keys(self@)
    }

    /// An empty registry: no address holds a record yet.
    pub fn new() -> (registry: NarrativeRegistry)
        ensures
            registry@ == Seq::<NarrativeView>::empty(),
            registry.wf(),
    {
        let registry = NarrativeRegistry { records: Vec::new() };
        proof {
            assert(registry@ =~= Seq::<NarrativeView>::empty());
        }
        registry
    }

    /// Position of the record at the address derived from
    /// `(author, metadata_url)`, if that address holds one.
    fn find_index(&self, author: &Vec<u8>, metadata_url: &Vec<u8>) -> (found: Option<usize>)
        ensures
            match found {
                Some(i) => 0 <= i < self@.len() && matches_key(
                    self@[i as int],
                    author@,
                    metadata_url@,
                ),
                None => !has_key(self@, author@, metadata_url@),
            },
    {
        let n: usize = self.records.len();
        let mut i: usize = 0;
        while i < n
            invariant
                n == self.records@.len(),
                self@.len() == n,
                i <= n,
                forall|j: int| 0 <= j < i ==> !matches_key(self@[j], author@, metadata_url@),
            decreases n - i,
        {
            let candidate = &self.records[i];
            let same_author = candidate.author == *author;
            let same_metadata = candidate.metadata_url == *metadata_url;
            proof {
                assert(self@[i as int] == candidate@);
                if same_author {
                    assert(candidate.author@ =~= author@);
                }
                if same_metadata {
                    assert(candidate.metadata_url@ =~= metadata_url@);
                }
            }
            if same_author && same_metadata {
                return Some(i);
            }
            proof {
                if matches_key(self@[i as int], author@, metadata_url@) {
                    assert(candidate.author@ == author@);
                    assert(candidate.metadata_url@ == metadata_url@);
                    assert(false);
                }
            }
            i += 1;
        }
        None
    }

    /// Register a narrative: create the record for
    /// `(ctx.author, metadata_url)` at its derived address, initialized with
    /// the given confidence score, no stake, and the host's derivation salt.
    ///
    /// Exactly one record per pair: if the derived address already holds a
    /// record, the call fails with `AddressCollision`. Every failure leaves
    /// the registry as it was; [`register_error`] says which failure each
    /// input produces, and that success is owed on all the others.
    pub fn register_narrative(
        &mut self,
        ctx: RegisterNarrative,
        metadata_url: Vec<u8>,
        confidence_score: u16,
    ) -> (result: Result<(), NarrativeError>)
        requires
            old(self).wf(),
            ctx.author@.len() == AUTHOR_LEN,
        ensures
            final(self).wf(),
            (match result {
                Ok(()) => {
                    &&& register_error(
                        old(self)@,
                        ctx.author@,
                        ctx.author_is_signer,
                        ctx.author_balance,
                        ctx.storage_cost,
                        metadata_url@,
                    ) is None
                    &&& final(self)@ == register_success_state(
                        old(self)@,
                        ctx.author@,
                        metadata_url@,
                        confidence_score,
                        ctx.bump,
                    )
                },
                Err(e) => {
                    &&& register_error(
                        old(self)@,
                        ctx.author@,
                        ctx.author_is_signer,
                        ctx.author_balance,
                        ctx.storage_cost,
                        metadata_url@,
                    ) == Some(e)
                    &&& final(self)@ == old(self)@
                },
            }),
    {
        if !ctx.author_is_signer {
            return Err(NarrativeError::Unauthorized);
        }
        if metadata_url.len() > MAX_METADATA_LEN {
            return Err(NarrativeError::OversizedMetadata);
        }
        let found = self.find_index(&ctx.author, &metadata_url);
        if let Some(i) = found {
            proof {
                assert(matches_key(self@[i as int], ctx.author@, metadata_url@));
                assert(has_key(self@, ctx.author@, metadata_url@));
            }
            return Err(NarrativeError::AddressCollision);
        }
        if ctx.author_balance < ctx.storage_cost {
            return Err(NarrativeError::InsufficientFunds);
        }
        let record = Narrative {
            author: ctx.author,
            metadata_url,
            confidence_score,
            total_staked: 0,
            bump: ctx.bump,
        };
        self.records.push(record);
        proof {
            let s_old = old(self)@;
            let nv = fresh_record(ctx.author@, metadata_url@, confidence_score, ctx.bump);
            assert(self@ =~= s_old.push(nv)) by {
                assert forall|k: int| 0 <= k < self@.len() implies self@[k] == s_old.push(nv)[k] by {
                    if k < s_old.len() {
                        assert(self.records@[k] == old(self).records@[k]);
                    } else {
                        assert(self.records@[k] == record);
                    }
                }
            }
            assert(self.wf()) by {
                assert forall|k: int| 0 <= k < self@.len() implies wf_record(#[trigger] self@[k]) by {
                    if k < s_old.len() {
                        assert(self@[k] == s_old[k]);
                        assert(wf_record(s_old[k]));
                    } else {
                        assert(self@[k] == nv);
                    }
                }
                assert(unique_keys(self@)) by {
                    assert forall|a: int, b: int|
                        #![trigger self@[a], self@[b]]
                        0 <= a < self@.len() && 0 <= b < self@.len() && a != b implies !(
                    self@[a].author == self@[b].author && self@[a].metadata_url
                        == self@[b].metadata_url) by {
                        if a < s_old.len() && b < s_old.len() {
                            assert(self@[a] == s_old[a] && self@[b] == s_old[b]);
                        } else if a < s_old.len() {
                            assert(self@[b] == nv);
                            assert(!matches_key(s_old[a], ctx.author@, metadata_url@));
                        } else {
                            assert(self@[a] == nv);
                            assert(!matches_key(s_old[b], ctx.author@, metadata_url@));
                        }
                    }
                }
            }
        }
        Ok(())
    }

    /// Validate a narrative: commit `amount` of the caller's value to the
    /// record at the address named by `ctx`, adding it to `total_staked`.
    ///
    /// The operation never creates a record: a missing target fails with
    /// `RecordNotFound`. The accumulator is checked, not wrapped: an amount
    /// that would carry it past the 64-bit range fails with
    /// `ArithmeticOverflow`. Every failure leaves the registry as it was;
    /// [`validate_error`] says which failure each input produces, and that
    /// success is owed on all the others.
    pub fn validate_narrative(&mut self, ctx: ValidateNarrative, amount: u64) -> (result: Result<
        (),
        NarrativeError,
    >)
        requires
            old(self).wf(),
        ensures
            final(self).wf(),
            (match result {
                Ok(()) => {
                    &&& validate_error(
                        old(self)@,
                        ctx.narrative_author@,
                        ctx.narrative_metadata_url@,
                        ctx.signer_is_signer,
                        ctx.signer_balance,
                        amount,
                    ) is None
                    &&& final(self)@ == stake_success_state(
                        old(self)@,
                        ctx.narrative_author@,
                        ctx.narrative_metadata_url@,
                        amount,
                    )
                },
                Err(e) => {
                    &&& validate_error(
                        old(self)@,
                        ctx.narrative_author@,
                        ctx.narrative_metadata_url@,
                        ctx.signer_is_signer,
                        ctx.signer_balance,
                        amount,
                    ) == Some(e)
                    &&& final(self)@ == old(self)@
                },
            }),
    {
        if !ctx.signer_is_signer {
            return Err(NarrativeError::Unauthorized);
        }
        let found = self.find_index(&ctx.narrative_author, &ctx.narrative_metadata_url);
        match found {
            None => Err(NarrativeError::RecordNotFound),
            Some(i) => {
                proof {
                    lemma_key_index_of_match(
                        self@,
                        ctx.narrative_author@,
                        ctx.narrative_metadata_url@,
                        i as int,
                    );
                }
                if ctx.signer_balance < amount {
                    return Err(NarrativeError::InsufficientFunds);
                }
                let current: u64 = self.records[i].total_staked;
                proof {
                    assert(current == old(self)@[i as int].total_staked);
                }
                if amount > u64::MAX - current {
                    return Err(NarrativeError::ArithmeticOverflow);
                }
                let target = &mut self.records[i];
                target.total_staked = current + amount;
                proof {
                    let s_old = old(self)@;
                    let t = stake_success_state(
                        s_old,
                        ctx.narrative_author@,
                        ctx.narrative_metadata_url@,
                        amount,
                    );
                    assert(self@ =~= t) by {
                        assert forall|k: int| 0 <= k < self@.len() implies self@[k] == t[k] by {
                            if k == i as int {
                                assert(self.records@[k] == self.records@[i as int]);
                                assert(self@[k] =~= with_stake(s_old[k], amount));
                            } else {
                                assert(self.records@[k] == old(self).records@[k]);
                            }
                        }
                    }
                    lemma_stake_preserves_keys(
                        s_old,
                        ctx.narrative_author@,
                        ctx.narrative_metadata_url@,
                        amount,
                    );
                    assert(self.wf()) by {
                        assert forall|k: int| 0 <= k < self@.len() implies wf_record(
                            #[trigger] self@[k],
                        ) by {
                            if k == i as int {
                                assert(self@[k] == with_stake(s_old[k], amount));
                                assert(wf_record(s_old[k]));
                            } else {
                                assert(self@[k] == s_old[k]);
                                assert(wf_record(s_old[k]));
                            }
                        }
                    }
                }
                Ok(())
            },
        }
    }

    /// Number of records the registry holds.
    pub fn record_count(&self) -> (count: usize)
        ensures
            count == self@.len(),
    {
        self.records.len()
    }

    /// The record at the address derived from `(author, metadata_url)`, if
    /// that address holds one.
    pub fn get_record(&self, author: &Vec<u8>, metadata_url: &Vec<u8>) -> (found: Option<
        &Narrative,
    >)
        requires
            self.wf(),
        ensures
            match found {
                Some(record) => {
                    &&& has_key(self@, author@, metadata_url@)
                    &&& record@ == self@[key_index(self@, author@, metadata_url@)]
                },
                None => !has_key(self@, author@, metadata_url@),
            },
    {
        match self.find_index(author, metadata_url) {
            None => None,
            Some(i) => {
                proof {
                    lemma_key_index_of_match(self@, author@, metadata_url@, i as int);
                }
                Some(&self.records[i])
            },
        }
    }
}

} // verus!
