use vstd::prelude::*;

verus! {

/// The failure kinds reported by the authority and its building blocks.
#[derive(Debug, Clone, PartialEq, Eq)]
pub enum FastPayError {
    // Sequence numbers.
    InvalidSequenceNumber,
    UnexpectedSequenceNumber,
    MissingEarlierConfirmations,
    SequenceOverflow,
    SequenceUnderflow,
    // Values.
    AmountOverflow,
    AmountUnderflow,
    BalanceOverflow,
    BalanceUnderflow,
    InsufficientFunding,
    // Identities.
    IncorrectSigner,
    UnknownSigner,
    InvalidSignature { error: String },
    // Protocol.
    PreviousTransferMustBeConfirmedFirst,
    CertificateRequiresQuorum,
    WrongShard,
    ErrorWhileProcessingTransferOrder,
    // Anonymous coins.
    InvalidCoconutRequest,
    DoubleSpend,
}

} // verus!
