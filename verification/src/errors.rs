//! The rejection taxonomy of the engine. Every value is a terminal,
//! synchronous rejection of the single call that produced it; a failing
//! call leaves the game record unchanged (with the one documented
//! exception of a forfeited invalid reveal).

use vstd::prelude::*;

verus! {

#[derive(Clone, Copy, PartialEq, Eq, Structural, Debug)]
pub enum CustomError {
    /// The caller is neither player of the game (or, at game creation,
    /// the named opponent is not waiting in the queue).
    NotAParticipant,
    /// The turn's time budget has run out.
    TurnExpired,
    /// A stall was claimed before the turn's time budget ran out.
    TurnNotYetExpired,
    /// The caller already attacked this turn.
    DuplicateAttack,
    /// The caller already attempted a reveal this turn.
    DuplicateVerification,
    /// The revealed cell is not the cell the opponent attacked.
    WrongRevealTarget,
    /// The Merkle proof does not bind the revealed cell to the caller's
    /// committed root.
    InvalidProof,
    /// The disclosed board is not a legal fleet, or does not re-derive to
    /// the claimant's committed root.
    InvalidFinalBoard,
    /// A win was claimed against a compliant opponent, by a depleted
    /// player, or on a finished game.
    PrematureOrInvalidClaim,
}

} // verus!
