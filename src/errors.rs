//! Why a transition was refused.
use vstd::prelude::*;

verus! {

/// The reasons a transition or a ledger operation is refused; a refused
/// call changes nothing.
#[derive(Clone, Copy, PartialEq, Eq, Structural, Debug)]
pub enum PokerError {
    InvalidGameStage,
    NotYourTurn,
    InvalidAction,
    InvalidBetAmount,
    InsufficientFunds,
    InvalidCommitment,
    SecretMismatch,
    ZeroCommitment,
    GameAlreadyFull,
    CannotJoinOwnGame,
    TimeoutNotReached,
    BettingRoundNotComplete,
    InvalidCommunityCards,
    CannotActAfterFold,
    CannotRaiseAllIn,
    MinimumRaiseNotMet,
    InsufficientBalance,
    InsufficientBalanceToJoin,
    InvalidWithdrawalAmount,
    InvalidDepositAmount,
    CardVerificationFailed,
    InvalidEncryptedCards,
    MissingDecryptionShares,
    AlreadyRevealedHand,
    InvalidEphemeralKey,
}

} // verus!
