use vstd::prelude::*;

verus! {

/// Length in bytes of an author identity (a 32-byte public key).
pub const AUTHOR_LEN: usize = 32;

/// Fixed capacity, in bytes, reserved for a record's metadata reference.
/// The payload cannot grow after the record is created.
pub const MAX_METADATA_LEN: usize = 64;

/// A published narrative record: an author's claim, the reference to its
/// off-system description, a basis-point confidence score set once at
/// creation, and the stake accumulated by validators since.
pub struct Narrative {
    /// Identity of the creator; immutable after creation.
    pub author: Vec<u8>,
    /// Reference to off-system content describing the narrative;
    /// immutable after creation, at most [`MAX_METADATA_LEN`] bytes.
    pub metadata_url: Vec<u8>,
    /// Basis-point confidence value, set once at creation.
    pub confidence_score: u16,
    /// Value committed by validators; starts at 0 and only ever grows.
    pub total_staked: u64,
    /// Derivation salt that, with the author and the metadata reference,
    /// yields the record's storage address; immutable after creation.
    pub bump: u8,
}

/// The mathematical value of a [`Narrative`]: the same fields, with the byte
/// vectors abstracted to sequences. Contracts speak of these values.
#[verifier::ext_equal]
pub struct NarrativeView {
    pub author: Seq<u8>,
    pub metadata_url: Seq<u8>,
    pub confidence_score: u16,
    pub total_staked: u64,
    pub bump: u8,
}

impl View for Narrative {
    type V = NarrativeView;

    open spec fn view(&self) -> NarrativeView {
        NarrativeView {
            author: self.author@,
            metadata_url: self.metadata_url@,
            confidence_score: self.confidence_score,
            total_staked: self.total_staked,
            bump: self.bump,
        }
    }
}

/// A record is well formed when its author identity has the fixed length and
/// its metadata reference fits the fixed capacity.
pub open spec fn wf_record(nv: NarrativeView) -> bool {
    &&& nv.author.len() == AUTHOR_LEN
    &&& nv.metadata_url.len() <= MAX_METADATA_LEN
}

} // verus!
