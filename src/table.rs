//! A match of many hands between the same two players, with chip stacks
//! that persist from hand to hand, a dealer that alternates, and per-hand
//! records of revealed cards and submitted proofs.
use vstd::prelude::*;
use crate::game::{PlayerId, same_id};

verus! {

/// Whether a match is still being played.
#[derive(Clone, Copy, PartialEq, Eq, Structural, Debug)]
pub enum GameStatus {
    Active,
    Concluded,
}

/// Stage of the current hand of a match.
#[derive(Clone, Copy, PartialEq, Eq, Structural, Debug)]
pub enum HandStage {
    WaitingForHandCreation,
    WaitingForDealerJoin,
    PreFlopBetting,
    FlopBetting,
    TurnBetting,
    RiverBetting,
    Showdown,
    Complete,
    Dispute,
}

/// Betting rounds of a hand.
#[derive(Clone, Copy, PartialEq, Eq, Structural, Debug)]
pub enum BettingRound {
    PreFlop,
    Flop,
    Turn,
    River,
}

/// What a raised dispute is about.
#[derive(Clone, Copy, PartialEq, Eq, Structural, Debug)]
pub enum DisputedAction {
    NoDispute,
    DeckCreation,
    Reshuffle,
    CardDecryption { card_index: u8 },
    ShowdownReveal { player_index: u8 },
}

/// What a stored proof claims.
#[derive(Clone, Copy, PartialEq, Eq, Structural, Debug)]
pub enum ProofType {
    DeckCreation,
    Reshuffle,
    CardDecryption { card_index: u8 },
    ShowdownReveal { player_index: u8 },
}

/// Serialized proof bytes.
#[derive(Clone, Debug)]
pub struct ZkProof {
    pub proof_data: Vec<u8>,
}

/// A player's long-lived public key (modulus `n` and generator `g`).
#[derive(Clone, Debug)]
pub struct PaillierPublicKey {
    pub n: Vec<u8>,
    pub g: Vec<u8>,
}

/// A card with one player's layer removed.
#[derive(Clone, Debug)]
pub struct PartiallyDecryptedCard {
    pub data: Vec<u8>,
}

/// A proof kept for later dispute.
#[derive(Clone, Debug)]
pub struct StoredProof {
    pub proof_type: ProofType,
    pub submitter_index: u8,
    pub proof: ZkProof,
    pub submitted_at: i64,
}

/// Why a match operation is refused.
#[derive(Clone, Copy, PartialEq, Eq, Structural, Debug)]
pub enum GameError {
    InvalidPlayerIndex,
    InvalidPlayer,
    InsufficientStack,
    InvalidCardPosition,
    MaxProofsReached,
    MaxCardsReached,
}

/// The state of the hand being played in a match.
#[derive(Clone, Debug)]
pub struct HandState {
    pub stage: HandStage,
    /// 0 or 1.
    pub dealer_index: u8,
    /// 0 or 1.
    pub current_turn_index: u8,
    pub action_deadline: i64,
    pub deck_merkle_root: [u8; 32],
    pub doubly_encrypted_deck_merkle_root: [u8; 32],
    pub pot: u64,
    pub bets: [u64; 2],
    pub betting_round: BettingRound,
    pub revealed_cards: [Option<(u8, PartiallyDecryptedCard)>; 9],
    pub community_cards: [Option<u8>; 5],
    pub pocket_cards: [Option<[u8; 2]>; 2],
    pub stored_proofs: [Option<StoredProof>; 20],
    pub dispute_active: bool,
    pub challenger_index: u8,
    pub disputed_action: DisputedAction,
    pub player_folded: [bool; 2],
    pub player_all_in: [bool; 2],
    pub player_revealed_showdown: [bool; 2],
    pub hand_started_at: i64,
    pub last_action_at: i64,
    pub winner: Option<u8>,
    pub winning_hand_rank: Option<u8>,
}

/// A match between `players[0]` and `players[1]`.
#[derive(Clone, Debug)]
pub struct Game {
    pub players: [PlayerId; 2],
    pub paillier_pks: [PaillierPublicKey; 2],
    pub player_stacks: [u64; 2],
    pub current_hand_id: u64,
    pub game_status: GameStatus,
    pub token_vault: PlayerId,
    pub vault_bump: u8,
    pub small_blind: u64,
    pub big_blind: u64,
    pub action_timeout: i64,
    pub invited_opponent: Option<PlayerId>,
    pub hand: HandState,
    pub bump: u8,
    pub last_action_timestamp: i64,
}

/// `now + timeout`, clamped to the range of `i64`.
pub open spec fn deadline(now: i64, timeout: i64) -> i64 {
    if now + timeout > i64::MAX {
        i64::MAX
    } else if now + timeout < i64::MIN {
        i64::MIN
    } else {
        (now + timeout) as i64
    }
}

/// Whether `h` is a hand that has not started: waiting for creation, with
/// the given dealer, the other player to act, and nothing bet or revealed.
pub open spec fn is_fresh_hand(h: HandState, dealer: u8, now: i64, action_deadline: i64) -> bool {
    &&& h.stage == HandStage::WaitingForHandCreation
    &&& h.dealer_index == dealer
    &&& h.current_turn_index == 1 - dealer
    &&& h.action_deadline == action_deadline
    &&& h.pot == 0
    &&& h.bets@ == seq![0u64, 0]
    &&& h.betting_round == BettingRound::PreFlop
    &&& forall|k: int| 0 <= k < 9 ==> #[trigger] h.revealed_cards@[k] is None
    &&& forall|k: int| 0 <= k < 5 ==> #[trigger] h.community_cards@[k] is None
    &&& forall|k: int| 0 <= k < 2 ==> #[trigger] h.pocket_cards@[k] is None
    &&& forall|k: int| 0 <= k < 20 ==> #[trigger] h.stored_proofs@[k] is None
    &&& !h.dispute_active
    &&& h.challenger_index == 0
    &&& h.disputed_action == DisputedAction::NoDispute
    &&& h.player_folded@ == seq![false, false]
    &&& h.player_all_in@ == seq![false, false]
    &&& h.player_revealed_showdown@ == seq![false, false]
    &&& h.hand_started_at == now
    &&& h.last_action_at == now
    &&& h.winner is None
    &&& h.winning_hand_rank is None
}

/// A seat's share of a split pot: half each, the odd chip to the dealer.
pub open spec fn split_share(pot: u64, seat: int, dealer: int) -> u64 {
    if seat == dealer {
        (pot - pot / 2) as u64
    } else {
        (pot / 2) as u64
    }
}

/// The first empty slot of `s` at or after `i`, or `s.len()` if none is.
pub open spec fn first_empty_from<T>(s: Seq<Option<T>>, i: int) -> int
    decreases s.len() - i,
{
    if i >= s.len() {
        s.len() as int
    } else if s[i] is None {
        i
    } else {
        first_empty_from(s, i + 1)
    }
}

proof fn lemma_first_empty<T>(s: Seq<Option<T>>, i: int)
    requires
        0 <= i <= s.len(),
    ensures
        i <= first_empty_from(s, i) <= s.len(),
        first_empty_from(s, i) < s.len() ==> s[first_empty_from(s, i)] is None,
        forall|k: int| i <= k < first_empty_from(s, i) ==> #[trigger] s[k] is Some,
    decreases s.len() - i,
{
    if i < s.len() && s[i] is Some {
        lemma_first_empty(s, i + 1);
    }
}

impl HandState {
    /// A hand that has not started, dealt by `dealer`.
    pub fn fresh(dealer: u8, now: i64, action_deadline: i64) -> (h: HandState)
        requires
            dealer <= 1,
        ensures
            is_fresh_hand(h, dealer, now, action_deadline),
    {
        let h = HandState {
            stage: HandStage::WaitingForHandCreation,
            dealer_index: dealer,
            current_turn_index: 1 - dealer,
            action_deadline,
            deck_merkle_root: [0u8; 32],
            doubly_encrypted_deck_merkle_root: [0u8; 32],
            pot: 0,
            bets: [0, 0],
            betting_round: BettingRound::PreFlop,
            revealed_cards: [None, None, None, None, None, None, None, None, None],
            community_cards: [None, None, None, None, None],
            pocket_cards: [None, None],
            stored_proofs: [None, None, None, None, None, None, None, None, None, None, None, None, None, None, None, None, None, None, None, None],
            dispute_active: false,
            challenger_index: 0,
            disputed_action: DisputedAction::NoDispute,
            player_folded: [false, false],
            player_all_in: [false, false],
            player_revealed_showdown: [false, false],
            hand_started_at: now,
            last_action_at: now,
            winner: None,
            winning_hand_rank: None,
        };
        assert(h.bets@ =~= seq![0u64, 0]);
        assert(h.player_folded@ =~= seq![false, false]);
        assert(h.player_all_in@ =~= seq![false, false]);
        assert(h.player_revealed_showdown@ =~= seq![false, false]);
        h
    }
}

fn clamped_deadline(now: i64, timeout: i64) -> (r: i64)
    ensures
        r == deadline(now, timeout),
{
    let x: i128 = now as i128 + timeout as i128;
    if x > i64::MAX as i128 {
        i64::MAX
    } else if x < i64::MIN as i128 {
        i64::MIN
    } else {
        x as i64
    }
}

impl Default for Game {
    /// A match with no players, no chips and no hand played.
    fn default() -> (g: Game)
        ensures
            g.player_stacks@ == seq![0u64, 0],
            g.current_hand_id == 0,
            g.game_status == GameStatus::Active,
            g.small_blind == 0 && g.big_blind == 0,
            g.action_timeout == 0,
            g.invited_opponent is None,
            is_fresh_hand(g.hand, 0, 0, 0),
    {
        let g = Game {
            players: [[0u8; 32], [0u8; 32]],
            paillier_pks: [
                PaillierPublicKey { n: Vec::new(), g: Vec::new() },
                PaillierPublicKey { n: Vec::new(), g: Vec::new() },
            ],
            player_stacks: [0, 0],
            current_hand_id: 0,
            game_status: GameStatus::Active,
            token_vault: [0u8; 32],
            vault_bump: 0,
            small_blind: 0,
            big_blind: 0,
            action_timeout: 0,
            invited_opponent: None,
            hand: HandState::fresh(0, 0, 0),
            bump: 0,
            last_action_timestamp: 0,
        };
        assert(g.player_stacks@ =~= seq![0u64, 0]);
        g
    }
}

impl Game {
    /// Starts the next hand: player 0 deals the first hand, then the dealer
    /// alternates; the other player acts first.
    pub fn init_new_hand(&mut self, now: i64)
        requires
            old(self).current_hand_id < u64::MAX,
        ensures
            is_fresh_hand(
                final(self).hand,
                if old(self).current_hand_id == 0 {
                    0u8
                } else if old(self).hand.dealer_index == 0 {
                    1u8
                } else {
                    0u8
                },
                now,
                deadline(now, old(self).action_timeout),
            ),
            final(self).current_hand_id == old(self).current_hand_id + 1,
            final(self).players == old(self).players,
            final(self).player_stacks == old(self).player_stacks,
            final(self).action_timeout == old(self).action_timeout,
    {
        let dealer: u8 = if self.current_hand_id == 0 {
            0
        } else if self.hand.dealer_index == 0 {
            1
        } else {
            0
        };
        let d = clamped_deadline(now, self.action_timeout);
        self.hand = HandState::fresh(dealer, now, d);
        self.current_hand_id = self.current_hand_id + 1;
    }

    /// The player in seat `index` (0 or 1).
    pub fn get_player(&self, index: u8) -> (r: Result<PlayerId, GameError>)
        ensures
            index < 2 ==> r == Ok::<PlayerId, GameError>(self.players@[index as int]),
            index >= 2 ==> r == Err::<PlayerId, GameError>(GameError::InvalidPlayerIndex),
    {
        if index < 2 {
            Ok(self.players[index as usize])
        } else {
            Err(GameError::InvalidPlayerIndex)
        }
    }

    /// The seat (0 or 1) of `player`.
    pub fn get_player_index(&self, player: &PlayerId) -> (r: Result<u8, GameError>)
        ensures
            player@ == self.players@[0]@ ==> r == Ok::<u8, GameError>(0),
            player@ != self.players@[0]@ && player@ == self.players@[1]@ ==> r == Ok::<u8, GameError>(1),
            player@ != self.players@[0]@ && player@ != self.players@[1]@ ==> r == Err::<u8, GameError>(
                GameError::InvalidPlayer,
            ),
    {
        if same_id(player, &self.players[0]) {
            Ok(0)
        } else if same_id(player, &self.players[1]) {
            Ok(1)
        } else {
            Err(GameError::InvalidPlayer)
        }
    }

    /// Whether it is `player`'s turn; an error for someone outside the match.
    pub fn is_player_turn(&self, player: &PlayerId) -> (r: Result<bool, GameError>)
        ensures
            player@ == self.players@[0]@ ==> r == Ok::<bool, GameError>(self.hand.current_turn_index == 0),
            player@ != self.players@[0]@ && player@ == self.players@[1]@ ==> r == Ok::<bool, GameError>(
                self.hand.current_turn_index == 1,
            ),
            player@ != self.players@[0]@ && player@ != self.players@[1]@ ==> r == Err::<bool, GameError>(
                GameError::InvalidPlayer,
            ),
    {
        let i = self.get_player_index(player)?;
        Ok(i == self.hand.current_turn_index)
    }

    /// Whether the time allowed since the last action has run out.
    pub fn is_timeout_exceeded(&self, now: i64) -> (r: bool)
        ensures
            r == (now > self.hand.last_action_at + self.action_timeout),
    {
        now as i128 > self.hand.last_action_at as i128 + self.action_timeout as i128
    }

    /// The dealer posts the small blind and the other player the big one.
    pub fn post_blinds(&mut self) -> (r: Result<(), GameError>)
        requires
            old(self).hand.dealer_index <= 1,
        ensures
            ({
                let d = old(self).hand.dealer_index as int;
                let o = 1 - d;
                let ok = old(self).player_stacks@[d] >= old(self).small_blind
                    && old(self).player_stacks@[o] >= old(self).big_blind;
                &&& ok ==> r is Ok
                    && final(self).player_stacks@[d] == old(self).player_stacks@[d] - old(self).small_blind
                    && final(self).player_stacks@[o] == old(self).player_stacks@[o] - old(self).big_blind
                    && final(self).hand.pot == old(self).small_blind.saturating_add(old(self).big_blind)
                    && final(self).hand.bets@[d] == old(self).small_blind
                    && final(self).hand.bets@[o] == old(self).big_blind
                    && final(self).hand.stage == old(self).hand.stage
                    && final(self).hand.dealer_index == old(self).hand.dealer_index
                &&& !ok ==> r == Err::<(), GameError>(GameError::InsufficientStack) && *final(self) == *old(self)
            }),
    {
        let d = self.hand.dealer_index as usize;
        let o = 1 - d;
        if self.player_stacks[d] < self.small_blind {
            return Err(GameError::InsufficientStack);
        }
        if self.player_stacks[o] < self.big_blind {
            return Err(GameError::InsufficientStack);
        }
        self.player_stacks[d] = self.player_stacks[d] - self.small_blind;
        self.player_stacks[o] = self.player_stacks[o] - self.big_blind;
        self.hand.pot = self.small_blind.saturating_add(self.big_blind);
        self.hand.bets[d] = self.small_blind;
        self.hand.bets[o] = self.big_blind;
        Ok(())
    }

    /// Whether the betting round can end: someone folded, both are all-in,
    /// or the bets are level.
    pub fn is_betting_round_complete(&self) -> (r: bool)
        ensures
            r == (self.hand.player_folded@[0] || self.hand.player_folded@[1] || (
            self.hand.player_all_in@[0] && self.hand.player_all_in@[1]) || self.hand.bets@[0]
                == self.hand.bets@[1]),
    {
        if self.hand.player_folded[0] || self.hand.player_folded[1] {
            return true;
        }
        if self.hand.player_all_in[0] && self.hand.player_all_in[1] {
            return true;
        }
        self.hand.bets[0] == self.hand.bets[1]
    }

    /// Clears the bets and moves to the next betting round (the river stays
    /// the river), with the matching stage.
    pub fn advance_betting_round(&mut self)
        ensures
            final(self).hand.bets@ == seq![0u64, 0],
            final(self).hand.betting_round == match old(self).hand.betting_round {
                BettingRound::PreFlop => BettingRound::Flop,
                BettingRound::Flop => BettingRound::Turn,
                _ => BettingRound::River,
            },
            final(self).hand.stage == match final(self).hand.betting_round {
                BettingRound::PreFlop => HandStage::PreFlopBetting,
                BettingRound::Flop => HandStage::FlopBetting,
                BettingRound::Turn => HandStage::TurnBetting,
                BettingRound::River => HandStage::RiverBetting,
            },
            final(self).hand.pot == old(self).hand.pot,
            final(self).player_stacks == old(self).player_stacks,
    {
        self.hand.bets = [0, 0];
        assert(self.hand.bets@ =~= seq![0u64, 0]);
        self.hand.betting_round = match self.hand.betting_round {
            BettingRound::PreFlop => BettingRound::Flop,
            BettingRound::Flop => BettingRound::Turn,
            _ => BettingRound::River,
        };
        self.hand.stage = match self.hand.betting_round {
            BettingRound::PreFlop => HandStage::PreFlopBetting,
            BettingRound::Flop => HandStage::FlopBetting,
            BettingRound::Turn => HandStage::TurnBetting,
            BettingRound::River => HandStage::RiverBetting,
        };
    }

    /// Passes the turn to the other seat.
    pub fn switch_turn(&mut self)
        requires
            old(self).hand.current_turn_index <= 1,
        ensures
            final(self).hand.current_turn_index == 1 - old(self).hand.current_turn_index,
            final(self).hand.pot == old(self).hand.pot,
            final(self).hand.stage == old(self).hand.stage,
    {
        self.hand.current_turn_index = 1 - self.hand.current_turn_index;
    }

    /// Keeps a proof in the first free slot; refused when all are taken.
    pub fn store_proof(
        &mut self,
        proof_type: ProofType,
        submitter_index: u8,
        proof: ZkProof,
        now: i64,
    ) -> (r: Result<(), GameError>)
        ensures
            ({
                let k = first_empty_from(old(self).hand.stored_proofs@, 0);
                &&& k < 20 ==> r is Ok && final(self).hand.stored_proofs@ == old(
                    self,
                ).hand.stored_proofs@.update(
                    k,
                    Some(StoredProof { proof_type, submitter_index, proof, submitted_at: now }),
                )
                &&& k >= 20 ==> r == Err::<(), GameError>(GameError::MaxProofsReached)
                    && final(self).hand.stored_proofs@ == old(self).hand.stored_proofs@
            }),
            final(self).hand.pot == old(self).hand.pot,
            final(self).hand.stage == old(self).hand.stage,
    {
        proof {
            lemma_first_empty(self.hand.stored_proofs@, 0);
        }
        let mut i: usize = 0;
        while i < 20
            invariant
                i <= 20,
                *self == *old(self),
                forall|k: int| 0 <= k < i ==> #[trigger] self.hand.stored_proofs@[k] is Some,
            decreases 20 - i,
        {
            if self.hand.stored_proofs[i].is_none() {
                proof {
                    lemma_first_empty_is(self.hand.stored_proofs@, i as int);
                }
                self.hand.stored_proofs[i] = Some(
                    StoredProof { proof_type, submitter_index, proof, submitted_at: now },
                );
                return Ok(());
            }
            i = i + 1;
        }
        proof {
            lemma_first_empty_is(self.hand.stored_proofs@, 20);
        }
        Err(GameError::MaxProofsReached)
    }

    /// Records a partially decrypted card in the first free slot; refused
    /// when all are taken.
    pub fn reveal_card(&mut self, card_index: u8, partially_decrypted: PartiallyDecryptedCard) -> (r:
        Result<(), GameError>)
        ensures
            ({
                let k = first_empty_from(old(self).hand.revealed_cards@, 0);
                &&& k < 9 ==> r is Ok && final(self).hand.revealed_cards@ == old(
                    self,
                ).hand.revealed_cards@.update(k, Some((card_index, partially_decrypted)))
                &&& k >= 9 ==> r == Err::<(), GameError>(GameError::MaxCardsReached)
                    && final(self).hand.revealed_cards@ == old(self).hand.revealed_cards@
            }),
            final(self).hand.pot == old(self).hand.pot,
            final(self).hand.stage == old(self).hand.stage,
    {
        proof {
            lemma_first_empty(self.hand.revealed_cards@, 0);
        }
        let mut i: usize = 0;
        while i < 9
            invariant
                i <= 9,
                *self == *old(self),
                forall|k: int| 0 <= k < i ==> #[trigger] self.hand.revealed_cards@[k] is Some,
            decreases 9 - i,
        {
            if self.hand.revealed_cards[i].is_none() {
                proof {
                    lemma_first_empty_is(self.hand.revealed_cards@, i as int);
                }
                self.hand.revealed_cards[i] = Some((card_index, partially_decrypted));
                return Ok(());
            }
            i = i + 1;
        }
        proof {
            lemma_first_empty_is(self.hand.revealed_cards@, 9);
        }
        Err(GameError::MaxCardsReached)
    }

    /// Records a community card's plaintext at `position` (0 to 4).
    pub fn finalize_community_card(&mut self, position: usize, card: u8) -> (r: Result<(), GameError>)
        ensures
            position < 5 ==> r is Ok && final(self).hand.community_cards@ == old(
                self,
            ).hand.community_cards@.update(position as int, Some(card)),
            position >= 5 ==> r == Err::<(), GameError>(GameError::InvalidCardPosition)
                && final(self).hand.community_cards == old(self).hand.community_cards,
            final(self).hand.pot == old(self).hand.pot,
    {
        if position >= 5 {
            return Err(GameError::InvalidCardPosition);
        }
        self.hand.community_cards[position] = Some(card);
        Ok(())
    }

    /// Records a player's pocket cards at showdown.
    pub fn reveal_pocket_cards(&mut self, player_index: u8, cards: [u8; 2]) -> (r: Result<(), GameError>)
        ensures
            player_index < 2 ==> r is Ok && final(self).hand.pocket_cards@ == old(
                self,
            ).hand.pocket_cards@.update(player_index as int, Some(cards))
                && final(self).hand.player_revealed_showdown@ == old(
                self,
            ).hand.player_revealed_showdown@.update(player_index as int, true),
            player_index >= 2 ==> r == Err::<(), GameError>(GameError::InvalidPlayerIndex)
                && final(self).hand.pocket_cards == old(self).hand.pocket_cards
                && final(self).hand.player_revealed_showdown == old(self).hand.player_revealed_showdown,
    {
        if player_index >= 2 {
            return Err(GameError::InvalidPlayerIndex);
        }
        self.hand.pocket_cards[player_index as usize] = Some(cards);
        self.hand.player_revealed_showdown[player_index as usize] = true;
        Ok(())
    }

    /// Moves the whole pot onto the winner's stack.
    pub fn award_pot(&mut self, winner_index: u8) -> (r: Result<(), GameError>)
        ensures
            winner_index < 2 ==> r is Ok && final(self).player_stacks@ == old(self).player_stacks@.update(
                winner_index as int,
                old(self).player_stacks@[winner_index as int].saturating_add(old(self).hand.pot),
            ) && final(self).hand.pot == 0,
            winner_index >= 2 ==> r == Err::<(), GameError>(GameError::InvalidPlayerIndex)
                && final(self).player_stacks == old(self).player_stacks
                && final(self).hand.pot == old(self).hand.pot,
    {
        if winner_index >= 2 {
            return Err(GameError::InvalidPlayerIndex);
        }
        let w = winner_index as usize;
        self.player_stacks[w] = self.player_stacks[w].saturating_add(self.hand.pot);
        self.hand.pot = 0;
        Ok(())
    }

    /// Splits the pot evenly; an odd chip goes to the dealer.
    pub fn split_pot(&mut self)
        requires
            old(self).hand.dealer_index <= 1,
        ensures
            final(self).player_stacks@[0] == old(self).player_stacks@[0].saturating_add(
                split_share(old(self).hand.pot, 0, old(self).hand.dealer_index as int),
            ),
            final(self).player_stacks@[1] == old(self).player_stacks@[1].saturating_add(
                split_share(old(self).hand.pot, 1, old(self).hand.dealer_index as int),
            ),
            final(self).hand.pot == 0,
    {
        let pot = self.hand.pot;
        let half = pot / 2;
        let d = self.hand.dealer_index as usize;
        let o = 1 - d;
        self.player_stacks[d] = self.player_stacks[d].saturating_add(pot - half);
        self.player_stacks[o] = self.player_stacks[o].saturating_add(half);
        self.hand.pot = 0;
    }
}

proof fn lemma_first_empty_is<T>(s: Seq<Option<T>>, i: int)
    requires
        0 <= i <= s.len(),
        forall|k: int| 0 <= k < i ==> #[trigger] s[k] is Some,
        i < s.len() ==> s[i] is None,
    ensures
        first_empty_from(s, 0) == i,
    decreases i,
{
    lemma_first_empty_shift(s, 0, i);
}

proof fn lemma_first_empty_shift<T>(s: Seq<Option<T>>, j: int, i: int)
    requires
        0 <= j <= i <= s.len(),
        forall|k: int| j <= k < i ==> #[trigger] s[k] is Some,
        i < s.len() ==> s[i] is None,
    ensures
        first_empty_from(s, j) == i,
    decreases i - j,
{
    if j < i {
        lemma_first_empty_shift(s, j + 1, i);
    }
}

} // verus!
