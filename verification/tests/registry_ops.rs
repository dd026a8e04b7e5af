use narrative_oracle::errors::NarrativeError;
use narrative_oracle::registry::{NarrativeRegistry, RegisterNarrative, ValidateNarrative};

fn author_a() -> Vec<u8> {
    vec![0xA1; 32]
}

fn author_b() -> Vec<u8> {
    vec![0xB2; 32]
}

fn register_ctx(author: Vec<u8>) -> RegisterNarrative {
    RegisterNarrative {
        author,
        author_is_signer: true,
        author_balance: 1_000,
        storage_cost: 119,
        bump: 255,
    }
}

fn validate_ctx(author: Vec<u8>, metadata_url: Vec<u8>, balance: u64) -> ValidateNarrative {
    ValidateNarrative {
        narrative_author: author,
        narrative_metadata_url: metadata_url,
        signer_is_signer: true,
        signer_balance: balance,
    }
}

fn meta(text: &str) -> Vec<u8> {
    text.as_bytes().to_vec()
}

#[test]
fn register_fresh_succeeds() {
    let mut registry = NarrativeRegistry::new();
    let result = registry.register_narrative(register_ctx(author_a()), meta("ipfs://x"), 7000);
    assert_eq!(result, Ok(()));
    assert_eq!(registry.record_count(), 1);
    let record = registry.get_record(&author_a(), &meta("ipfs://x")).unwrap();
    assert_eq!(record.author, author_a());
    assert_eq!(record.metadata_url, meta("ipfs://x"));
    assert_eq!(record.confidence_score, 7000);
    assert_eq!(record.total_staked, 0);
    assert_eq!(record.bump, 255);
}

#[test]
fn register_twice_collides() {
    let mut registry = NarrativeRegistry::new();
    assert_eq!(
        registry.register_narrative(register_ctx(author_a()), meta("ipfs://x"), 7000),
        Ok(())
    );
    let result = registry.register_narrative(register_ctx(author_a()), meta("ipfs://x"), 42);
    assert_eq!(result, Err(NarrativeError::AddressCollision));
    assert_eq!(registry.record_count(), 1);
    let record = registry.get_record(&author_a(), &meta("ipfs://x")).unwrap();
    assert_eq!(record.confidence_score, 7000);
    assert_eq!(record.total_staked, 0);
}

#[test]
fn stakes_accumulate() {
    let mut registry = NarrativeRegistry::new();
    assert_eq!(
        registry.register_narrative(register_ctx(author_a()), meta("ipfs://x"), 9000),
        Ok(())
    );
    for amount in [1u64, 2, 3, 4] {
        let ctx = validate_ctx(author_a(), meta("ipfs://x"), amount);
        assert_eq!(registry.validate_narrative(ctx, amount), Ok(()));
    }
    let record = registry.get_record(&author_a(), &meta("ipfs://x")).unwrap();
    assert_eq!(record.total_staked, 10);
}

#[test]
fn zero_stake_is_noop_on_existing_record() {
    let mut registry = NarrativeRegistry::new();
    assert_eq!(
        registry.register_narrative(register_ctx(author_a()), meta("ipfs://x"), 100),
        Ok(())
    );
    let ctx = validate_ctx(author_a(), meta("ipfs://x"), 0);
    assert_eq!(registry.validate_narrative(ctx, 0), Ok(()));
    let record = registry.get_record(&author_a(), &meta("ipfs://x")).unwrap();
    assert_eq!(record.total_staked, 0);
    // the record must still exist: a zero stake on a missing address fails
    let ctx = validate_ctx(author_b(), meta("ipfs://x"), 0);
    assert_eq!(
        registry.validate_narrative(ctx, 0),
        Err(NarrativeError::RecordNotFound)
    );
}

#[test]
fn validate_missing_record_fails() {
    let mut registry = NarrativeRegistry::new();
    assert_eq!(
        registry.register_narrative(register_ctx(author_a()), meta("ipfs://x"), 100),
        Ok(())
    );
    let ctx = validate_ctx(author_a(), meta("ipfs://y"), 500);
    assert_eq!(
        registry.validate_narrative(ctx, 500),
        Err(NarrativeError::RecordNotFound)
    );
    // no state change anywhere
    assert_eq!(registry.record_count(), 1);
    let record = registry.get_record(&author_a(), &meta("ipfs://x")).unwrap();
    assert_eq!(record.total_staked, 0);
    assert!(registry.get_record(&author_a(), &meta("ipfs://y")).is_none());
}

#[test]
fn register_then_stake_then_collide_scenario() {
    let mut registry = NarrativeRegistry::new();
    assert_eq!(
        registry.register_narrative(register_ctx(author_a()), meta("ipfs://x"), 7000),
        Ok(())
    );
    let record = registry.get_record(&author_a(), &meta("ipfs://x")).unwrap();
    assert_eq!(record.author, author_a());
    assert_eq!(record.metadata_url, meta("ipfs://x"));
    assert_eq!(record.confidence_score, 7000);
    assert_eq!(record.total_staked, 0);

    let ctx = validate_ctx(author_a(), meta("ipfs://x"), 500);
    assert_eq!(registry.validate_narrative(ctx, 500), Ok(()));
    let record = registry.get_record(&author_a(), &meta("ipfs://x")).unwrap();
    assert_eq!(record.total_staked, 500);

    let ctx = validate_ctx(author_a(), meta("ipfs://x"), 250);
    assert_eq!(registry.validate_narrative(ctx, 250), Ok(()));
    let record = registry.get_record(&author_a(), &meta("ipfs://x")).unwrap();
    assert_eq!(record.total_staked, 750);

    let result = registry.register_narrative(register_ctx(author_a()), meta("ipfs://x"), 1);
    assert_eq!(result, Err(NarrativeError::AddressCollision));
    let record = registry.get_record(&author_a(), &meta("ipfs://x")).unwrap();
    assert_eq!(record.total_staked, 750);
}

#[test]
fn register_unauthorized() {
    let mut registry = NarrativeRegistry::new();
    let ctx = RegisterNarrative {
        author: author_a(),
        author_is_signer: false,
        author_balance: 1_000,
        storage_cost: 119,
        bump: 255,
    };
    // authorization is checked before anything else, oversized input included
    assert_eq!(
        registry.register_narrative(ctx, vec![0u8; 65], 7000),
        Err(NarrativeError::Unauthorized)
    );
    assert_eq!(registry.record_count(), 0);
}

#[test]
fn validate_unauthorized() {
    let mut registry = NarrativeRegistry::new();
    assert_eq!(
        registry.register_narrative(register_ctx(author_a()), meta("ipfs://x"), 100),
        Ok(())
    );
    let ctx = ValidateNarrative {
        narrative_author: author_a(),
        narrative_metadata_url: meta("ipfs://x"),
        signer_is_signer: false,
        signer_balance: 1_000,
    };
    assert_eq!(
        registry.validate_narrative(ctx, 10),
        Err(NarrativeError::Unauthorized)
    );
    let record = registry.get_record(&author_a(), &meta("ipfs://x")).unwrap();
    assert_eq!(record.total_staked, 0);
}

#[test]
fn register_oversized_metadata() {
    let mut registry = NarrativeRegistry::new();
    // 64 bytes is the capacity: one more is rejected before allocation
    assert_eq!(
        registry.register_narrative(register_ctx(author_a()), vec![7u8; 65], 7000),
        Err(NarrativeError::OversizedMetadata)
    );
    assert_eq!(registry.record_count(), 0);
    assert_eq!(
        registry.register_narrative(register_ctx(author_a()), vec![7u8; 64], 7000),
        Ok(())
    );
    assert_eq!(registry.record_count(), 1);
}

#[test]
fn register_insufficient_funds() {
    let mut registry = NarrativeRegistry::new();
    let ctx = RegisterNarrative {
        author: author_a(),
        author_is_signer: true,
        author_balance: 118,
        storage_cost: 119,
        bump: 255,
    };
    assert_eq!(
        registry.register_narrative(ctx, meta("ipfs://x"), 7000),
        Err(NarrativeError::InsufficientFunds)
    );
    assert_eq!(registry.record_count(), 0);
}

#[test]
fn validate_insufficient_funds() {
    let mut registry = NarrativeRegistry::new();
    assert_eq!(
        registry.register_narrative(register_ctx(author_a()), meta("ipfs://x"), 100),
        Ok(())
    );
    let ctx = validate_ctx(author_a(), meta("ipfs://x"), 499);
    assert_eq!(
        registry.validate_narrative(ctx, 500),
        Err(NarrativeError::InsufficientFunds)
    );
    let record = registry.get_record(&author_a(), &meta("ipfs://x")).unwrap();
    assert_eq!(record.total_staked, 0);
}

#[test]
fn stake_overflow_is_rejected() {
    let mut registry = NarrativeRegistry::new();
    assert_eq!(
        registry.register_narrative(register_ctx(author_a()), meta("ipfs://x"), 100),
        Ok(())
    );
    let ctx = validate_ctx(author_a(), meta("ipfs://x"), u64::MAX);
    assert_eq!(registry.validate_narrative(ctx, u64::MAX), Ok(()));
    let record = registry.get_record(&author_a(), &meta("ipfs://x")).unwrap();
    assert_eq!(record.total_staked, u64::MAX);
    // one more unit would wrap the accumulator: refused, nothing changes
    let ctx = validate_ctx(author_a(), meta("ipfs://x"), 1);
    assert_eq!(
        registry.validate_narrative(ctx, 1),
        Err(NarrativeError::ArithmeticOverflow)
    );
    let record = registry.get_record(&author_a(), &meta("ipfs://x")).unwrap();
    assert_eq!(record.total_staked, u64::MAX);
}

#[test]
fn distinct_pairs_coexist() {
    let mut registry = NarrativeRegistry::new();
    assert_eq!(
        registry.register_narrative(register_ctx(author_a()), meta("ipfs://x"), 1),
        Ok(())
    );
    // same author, different metadata
    assert_eq!(
        registry.register_narrative(register_ctx(author_a()), meta("ipfs://y"), 2),
        Ok(())
    );
    // different author, same metadata
    assert_eq!(
        registry.register_narrative(register_ctx(author_b()), meta("ipfs://x"), 3),
        Ok(())
    );
    assert_eq!(registry.record_count(), 3);
    // staking on one record leaves the others alone
    let ctx = validate_ctx(author_a(), meta("ipfs://y"), 900);
    assert_eq!(registry.validate_narrative(ctx, 900), Ok(()));
    assert_eq!(
        registry
            .get_record(&author_a(), &meta("ipfs://x"))
            .unwrap()
            .total_staked,
        0
    );
    assert_eq!(
        registry
            .get_record(&author_a(), &meta("ipfs://y"))
            .unwrap()
            .total_staked,
        900
    );
    assert_eq!(
        registry
            .get_record(&author_b(), &meta("ipfs://x"))
            .unwrap()
            .total_staked,
        0
    );
    assert!(registry.get_record(&author_b(), &meta("ipfs://y")).is_none());
}

#[test]
fn empty_metadata_is_accepted() {
    let mut registry = NarrativeRegistry::new();
    assert_eq!(
        registry.register_narrative(register_ctx(author_a()), Vec::new(), 0),
        Ok(())
    );
    let record = registry.get_record(&author_a(), &Vec::new()).unwrap();
    assert_eq!(record.metadata_url, Vec::<u8>::new());
    assert_eq!(record.confidence_score, 0);
}
