//! Errors of packing, extending and recovering payloads.

use crate::arith::ArithError;
use crate::merkle_proof::MerkleTreeError;
use vstd::prelude::*;
use vstd::std_specs::convert::FromSpecImpl;

verus! {

/// Why bytes are no SSZ container, `ssz::DecodeError`.
#[verifier::external_type_specification]
#[verifier::external_body]
pub struct ExDecodeError(ssz::DecodeError);

/// Why a payload cannot be turned into columns, or columns into a payload.
#[derive(Debug)]
pub enum PayloadColumnError {
    Kzg(rust_eth_kzg::Error),
    MerkleTree(MerkleTreeError),
    Arith(ArithError),
    Ssz(ssz::DecodeError),
    /// The encoded payload does not fit within the blobs of one block.
    PayloadTooLarge { blobs: usize, max: usize },
    /// A field element's most significant byte was non-zero.
    NonCanonicalFieldElement { offset: usize },
    /// Bytes past the declared payload length were not zero padding.
    TrailingData,
    /// The declared length prefix exceeds the decoded byte count.
    InvalidLengthPrefix { declared: usize, available: usize },
    /// Fewer distinct columns were supplied than are required.
    InsufficientColumns { supplied: usize, required: usize },
    /// The supplied columns disagree on how many cells (rows) the payload occupies.
    InconsistentColumnLengths,
    /// Something that the types of the parts rule out, with a message.
    Internal(String),
}

/// What a [`PayloadColumnError`] says.
pub enum ErrorView {
    Kzg(rust_eth_kzg::Error),
    MerkleTree(MerkleTreeError),
    Arith(ArithError),
    Ssz(ssz::DecodeError),
    PayloadTooLarge { blobs: usize, max: usize },
    NonCanonicalFieldElement { offset: usize },
    TrailingData,
    InvalidLengthPrefix { declared: usize, available: usize },
    InsufficientColumns { supplied: usize, required: usize },
    InconsistentColumnLengths,
    Internal(Seq<char>),
}

impl View for PayloadColumnError {
    type V = ErrorView;

    open spec fn view(&self) -> ErrorView {
        match *self {
            PayloadColumnError::Kzg(e) => ErrorView::Kzg(e),
            PayloadColumnError::MerkleTree(e) => ErrorView::MerkleTree(e),
            PayloadColumnError::Arith(e) => ErrorView::Arith(e),
            PayloadColumnError::Ssz(e) => ErrorView::Ssz(e),
            PayloadColumnError::PayloadTooLarge { blobs, max } => ErrorView::PayloadTooLarge {
                blobs,
                max,
            },
            PayloadColumnError::NonCanonicalFieldElement { offset } => {
                ErrorView::NonCanonicalFieldElement { offset }
            },
            PayloadColumnError::TrailingData => ErrorView::TrailingData,
            PayloadColumnError::InvalidLengthPrefix { declared, available } => {
                ErrorView::InvalidLengthPrefix { declared, available }
            },
            PayloadColumnError::InsufficientColumns { supplied, required } => {
                ErrorView::InsufficientColumns { supplied, required }
            },
            PayloadColumnError::InconsistentColumnLengths => ErrorView::InconsistentColumnLengths,
            PayloadColumnError::Internal(message) => ErrorView::Internal(message@),
        }
    }
}

impl From<rust_eth_kzg::Error> for PayloadColumnError {
    fn from(e: rust_eth_kzg::Error) -> (result: Self) {
        PayloadColumnError::Kzg(e)
    }
}

impl FromSpecImpl<rust_eth_kzg::Error> for PayloadColumnError {
    open spec fn obeys_from_spec() -> bool {
        true
    }

    open spec fn from_spec(e: rust_eth_kzg::Error) -> Self {
        PayloadColumnError::Kzg(e)
    }
}

impl From<MerkleTreeError> for PayloadColumnError {
    fn from(e: MerkleTreeError) -> (result: Self) {
        PayloadColumnError::MerkleTree(e)
    }
}

impl FromSpecImpl<MerkleTreeError> for PayloadColumnError {
    open spec fn obeys_from_spec() -> bool {
        true
    }

    open spec fn from_spec(e: MerkleTreeError) -> Self {
        PayloadColumnError::MerkleTree(e)
    }
}

impl From<ArithError> for PayloadColumnError {
    fn from(e: ArithError) -> (result: Self) {
        PayloadColumnError::Arith(e)
    }
}

impl FromSpecImpl<ArithError> for PayloadColumnError {
    open spec fn obeys_from_spec() -> bool {
        true
    }

    open spec fn from_spec(e: ArithError) -> Self {
        PayloadColumnError::Arith(e)
    }
}

impl From<ssz::DecodeError> for PayloadColumnError {
    fn from(e: ssz::DecodeError) -> (result: Self) {
        PayloadColumnError::Ssz(e)
    }
}

impl FromSpecImpl<ssz::DecodeError> for PayloadColumnError {
    open spec fn obeys_from_spec() -> bool {
        true
    }

    open spec fn from_spec(e: ssz::DecodeError) -> Self {
        PayloadColumnError::Ssz(e)
    }
}

/// What an error says tells it apart from every error that says something else: nothing of it is
/// left out.
pub proof fn law_errors_say_what_they_are(e: PayloadColumnError)
    ensures
        match e {
            PayloadColumnError::Kzg(x) => e@ == ErrorView::Kzg(x),
            PayloadColumnError::MerkleTree(x) => e@ == ErrorView::MerkleTree(x),
            PayloadColumnError::Arith(x) => e@ == ErrorView::Arith(x),
            PayloadColumnError::Ssz(x) => e@ == ErrorView::Ssz(x),
            PayloadColumnError::PayloadTooLarge { blobs, max } => e@ == (
            ErrorView::PayloadTooLarge { blobs, max }),
            PayloadColumnError::NonCanonicalFieldElement { offset } => e@ == (
            ErrorView::NonCanonicalFieldElement { offset }),
            PayloadColumnError::TrailingData => e@ == ErrorView::TrailingData,
            PayloadColumnError::InvalidLengthPrefix { declared, available } => e@ == (
            ErrorView::InvalidLengthPrefix { declared, available }),
            PayloadColumnError::InsufficientColumns { supplied, required } => e@ == (
            ErrorView::InsufficientColumns { supplied, required }),
            PayloadColumnError::InconsistentColumnLengths => e@
                == ErrorView::InconsistentColumnLengths,
            PayloadColumnError::Internal(message) => e@ == ErrorView::Internal(message@),
        },
{
}

} // verus!
