//! The state of one hand and its transitions.
use vstd::prelude::*;
use crate::cipher::{EncryptedCard, EphemeralPubkey, all_zero, is_zero_bytes, card_matches};
use crate::poker::{find_best_hand, best_among, seven};
use crate::errors::PokerError;
use crate::ledger::PlayerBalance;

verus! {

/// An opaque 32-byte identity of a player.
pub type PlayerId = [u8; 32];

/// Stages of a hand, in the order they are passed through.
#[derive(Clone, Copy, PartialEq, Eq, Structural, Debug)]
pub enum GameStage {
    WaitingForPlayer2,
    PreFlopBetting,
    AwaitingFlopReveal,
    AwaitingPlayer2FlopShare,
    PostFlopBetting,
    AwaitingTurnReveal,
    AwaitingPlayer2TurnShare,
    PostTurnBetting,
    AwaitingRiverReveal,
    AwaitingPlayer2RiverShare,
    PostRiverBetting,
    Showdown,
    AwaitingPlayer2ShowdownReveal,
    Finished,
}

/// What a player does on their turn in a betting round.
#[derive(Clone, Copy, PartialEq, Eq, Structural, Debug)]
pub enum PlayerActionType {
    NoAction,
    Fold,
    Check,
    Call,
    Raise,
    AllIn,
}

/// One heads-up hand between `player1` (the dealer) and `player2`.
#[derive(Clone, Copy, Debug)]
pub struct GameState {
    pub game_id: u64,
    pub player1: PlayerId,
    pub player2: PlayerId,
    pub token_vault: PlayerId,
    pub vault_bump: u8,
    pub stake_amount: u64,
    pub pot: u64,
    pub player1_current_bet: u64,
    pub player2_current_bet: u64,
    pub player1_stack: u64,
    pub player2_stack: u64,
    pub player1_bond: u64,
    pub player2_bond: u64,
    pub player1_ephemeral_pubkey: EphemeralPubkey,
    pub player2_ephemeral_pubkey: EphemeralPubkey,
    pub deck_merkle_root: [u8; 32],
    /// Slots 0-1: player 1's pocket, 2-3: player 2's, 4-6 flop, 7 turn, 8 river.
    pub encrypted_cards: [EncryptedCard; 9],
    pub player1_flop_shares: [EncryptedCard; 3],
    pub player1_turn_share: EncryptedCard,
    pub player1_river_share: EncryptedCard,
    pub player1_hand: [u8; 2],
    pub player2_hand: [u8; 2],
    pub community_cards: [u8; 5],
    pub community_cards_revealed: u8,
    pub stage: GameStage,
    /// 1 or 2.
    pub current_player: u8,
    /// 1 or 2; the dealer posts the small blind.
    pub dealer_button: u8,
    pub last_action: PlayerActionType,
    pub small_blind: u64,
    pub big_blind: u64,
    pub player1_folded: bool,
    pub player2_folded: bool,
    pub player1_all_in: bool,
    pub player2_all_in: bool,
    pub player1_revealed_hand: bool,
    pub player2_revealed_hand: bool,
    pub created_at: i64,
    pub last_action_at: i64,
    pub action_timeout: i64,
    pub reveal_deadline: i64,
    pub winner: Option<PlayerId>,
    pub winning_hand_rank: Option<u16>,
    pub bump: u8,
}

/// What the escrow pays each player when a hand ends.
#[derive(Clone, Copy, PartialEq, Eq, Structural, Debug)]
pub struct Payout {
    pub player1: u64,
    pub player2: u64,
}

/// Seconds a player has for each action.
pub const ACTION_TIMEOUT: i64 = 60;

pub open spec fn is_betting(s: GameStage) -> bool {
    ||| s == GameStage::PreFlopBetting
    ||| s == GameStage::PostFlopBetting
    ||| s == GameStage::PostTurnBetting
    ||| s == GameStage::PostRiverBetting
}

/// The other seat's number.
pub open spec fn flip(p: u8) -> u8 {
    if p == 1 {
        2
    } else {
        1
    }
}

/// `a + b` clamped to the range of `i64`.
pub open spec fn add_clamped(a: i64, b: i64) -> i64 {
    if a + b > i64::MAX {
        i64::MAX
    } else if a + b < i64::MIN {
        i64::MIN
    } else {
        (a + b) as i64
    }
}

/// The seat (1 or 2) whose turn it is.
pub open spec fn acting_seat(g: GameState) -> int {
    if g.current_player == 1 {
        1
    } else {
        2
    }
}

pub open spec fn id_of(g: GameState, seat: int) -> PlayerId {
    if seat == 1 {
        g.player1
    } else {
        g.player2
    }
}

/// The seat of `caller`: 1, 2, or 0 for someone else.
pub open spec fn seat_of(g: GameState, caller: PlayerId) -> int {
    if caller@ == g.player1@ {
        1
    } else if caller@ == g.player2@ {
        2
    } else {
        0
    }
}

pub open spec fn bet_of(g: GameState, seat: int) -> u64 {
    if seat == 1 {
        g.player1_current_bet
    } else {
        g.player2_current_bet
    }
}

pub open spec fn stack_of(g: GameState, seat: int) -> u64 {
    if seat == 1 {
        g.player1_stack
    } else {
        g.player2_stack
    }
}

pub open spec fn folded_of(g: GameState, seat: int) -> bool {
    if seat == 1 {
        g.player1_folded
    } else {
        g.player2_folded
    }
}

pub open spec fn all_in_of(g: GameState, seat: int) -> bool {
    if seat == 1 {
        g.player1_all_in
    } else {
        g.player2_all_in
    }
}

/// `g` with one seat's bet, stack and flags replaced.
pub open spec fn with_seat(
    g: GameState,
    seat: int,
    bet: u64,
    stack: u64,
    all_in: bool,
    folded: bool,
) -> GameState {
    if seat == 1 {
        GameState {
            player1_current_bet: bet,
            player1_stack: stack,
            player1_all_in: all_in,
            player1_folded: folded,
            ..g
        }
    } else {
        GameState {
            player2_current_bet: bet,
            player2_stack: stack,
            player2_all_in: all_in,
            player2_folded: folded,
            ..g
        }
    }
}

/// Whether it is `player`'s turn.
pub open spec fn turn_of(g: GameState, player: PlayerId) -> bool {
    player@ == id_of(g, acting_seat(g))@
}

/// Whether the betting round can end: someone folded, someone is all-in
/// and the other has nothing left to answer, or the bets are level and
/// someone has acted.
pub open spec fn round_complete(g: GameState) -> bool {
    ||| g.player1_folded
    ||| g.player2_folded
    ||| (g.player1_all_in && g.player2_all_in)
    ||| (g.player1_all_in && g.player2_current_bet >= g.player1_current_bet)
    ||| (g.player2_all_in && g.player1_current_bet >= g.player2_current_bet)
    ||| (g.player1_current_bet == g.player2_current_bet && g.last_action != PlayerActionType::NoAction)
}

/// The bond each player posts beside the stake.
pub open spec fn bond_for(stake: u64) -> u64 {
    (stake / 10) as u64
}

/// What joining or creating a hand takes from a balance: stake and bond.
pub open spec fn entry_cost(stake: u64) -> int {
    stake + bond_for(stake)
}

/// Everything held for the hand to the given seat: the pot, both unbet
/// stacks and both bonds. This is what a fold or a timeout forfeits.
pub open spec fn held_for_hand(g: GameState) -> u64 {
    g.pot.saturating_add(g.player1_stack).saturating_add(g.player2_stack).saturating_add(
        g.player1_bond,
    ).saturating_add(g.player2_bond)
}

pub open spec fn win_payout(g: GameState, seat: int) -> Payout {
    let all = held_for_hand(g);
    if seat == 1 {
        Payout { player1: all, player2: 0 }
    } else {
        Payout { player1: 0, player2: all }
    }
}

/// Why `create_game` refuses, if it does.
pub open spec fn create_error(
    balance: u64,
    stake: u64,
    pk: Seq<u8>,
    root: Seq<u8>,
) -> Option<PokerError> {
    if stake == 0 {
        Some(PokerError::InvalidBetAmount)
    } else if all_zero(pk) {
        Some(PokerError::InvalidEphemeralKey)
    } else if all_zero(root) {
        Some(PokerError::ZeroCommitment)
    } else if balance < entry_cost(stake) {
        Some(PokerError::InsufficientBalanceToJoin)
    } else {
        None
    }
}

/// A hand just created by `player1`, before anyone joined.
pub open spec fn is_new_game(
    g: GameState,
    player1: PlayerId,
    stake: u64,
    pk: EphemeralPubkey,
    root: [u8; 32],
    game_id: u64,
    now: i64,
) -> bool {
    &&& g.game_id == game_id
    &&& g.player1 == player1
    &&& all_zero(g.player2@)
    &&& g.stake_amount == stake
    &&& g.pot == 0
    &&& g.player1_current_bet == 0
    &&& g.player2_current_bet == 0
    &&& g.player1_stack == stake
    &&& g.player2_stack == 0
    &&& g.player1_bond == bond_for(stake)
    &&& g.player2_bond == 0
    &&& g.player1_ephemeral_pubkey == pk
    &&& all_zero(g.player2_ephemeral_pubkey.data@)
    &&& g.deck_merkle_root == root
    &&& forall|k: int| 0 <= k < 9 ==> all_zero(#[trigger] g.encrypted_cards[k].data@)
    &&& g.community_cards_revealed == 0
    &&& g.stage == GameStage::WaitingForPlayer2
    &&& g.current_player == 0
    &&& g.dealer_button == 1
    &&& g.last_action == PlayerActionType::NoAction
    &&& g.small_blind == stake / 100
    &&& g.big_blind == stake / 50
    &&& !g.player1_folded && !g.player2_folded
    &&& !g.player1_all_in && !g.player2_all_in
    &&& !g.player1_revealed_hand && !g.player2_revealed_hand
    &&& g.created_at == now
    &&& g.last_action_at == now
    &&& g.action_timeout == ACTION_TIMEOUT
    &&& g.reveal_deadline == 0
    &&& g.winner is None
    &&& g.winning_hand_rank is None
}

/// Why `join_game` refuses, if it does.
pub open spec fn join_error(
    g: GameState,
    caller: PlayerId,
    balance: u64,
    pk: Seq<u8>,
    cards: [EncryptedCard; 9],
) -> Option<PokerError> {
    if g.stage != GameStage::WaitingForPlayer2 {
        Some(PokerError::InvalidGameStage)
    } else if !all_zero(g.player2@) {
        Some(PokerError::GameAlreadyFull)
    } else if caller@ == g.player1@ {
        Some(PokerError::CannotJoinOwnGame)
    } else if all_zero(pk) {
        Some(PokerError::InvalidEphemeralKey)
    } else if exists|k: int| 0 <= k < 9 && all_zero(#[trigger] cards[k].data@) {
        Some(PokerError::InvalidEncryptedCards)
    } else if balance < entry_cost(g.stake_amount) {
        Some(PokerError::InsufficientBalanceToJoin)
    } else {
        None
    }
}

/// The hand after `caller` joined: the blinds are posted (the dealer posts
/// the small one and acts first) and pre-flop betting opens.
pub open spec fn joined(
    g: GameState,
    caller: PlayerId,
    pk: EphemeralPubkey,
    cards: [EncryptedCard; 9],
    now: i64,
) -> GameState {
    let (sb, bb) = (g.small_blind, g.big_blind);
    let g1 = GameState {
        player2: caller,
        player2_ephemeral_pubkey: pk,
        player2_stack: g.stake_amount,
        player2_bond: bond_for(g.stake_amount),
        encrypted_cards: cards,
        pot: sb.saturating_add(bb),
        stage: GameStage::PreFlopBetting,
        last_action_at: now,
        ..g
    };
    if g.dealer_button == 1 {
        GameState {
            player1_current_bet: sb,
            player2_current_bet: bb,
            player1_stack: g1.player1_stack.saturating_sub(sb),
            player2_stack: g1.player2_stack.saturating_sub(bb),
            current_player: 1,
            ..g1
        }
    } else {
        GameState {
            player2_current_bet: sb,
            player1_current_bet: bb,
            player2_stack: g1.player2_stack.saturating_sub(sb),
            player1_stack: g1.player1_stack.saturating_sub(bb),
            current_player: 2,
            ..g1
        }
    }
}

/// Why `player_action` refuses, if it does.
pub open spec fn bet_error(
    g: GameState,
    caller: PlayerId,
    action: PlayerActionType,
    raise: Option<u64>,
) -> Option<PokerError> {
    let i = acting_seat(g);
    let (bi, bj, si) = (bet_of(g, i), bet_of(g, 3 - i), stack_of(g, i));
    if !is_betting(g.stage) {
        Some(PokerError::InvalidGameStage)
    } else if !turn_of(g, caller) {
        Some(PokerError::NotYourTurn)
    } else if folded_of(g, i) {
        Some(PokerError::CannotActAfterFold)
    } else if all_in_of(g, i) {
        Some(PokerError::CannotRaiseAllIn)
    } else {
        match action {
            PlayerActionType::NoAction => Some(PokerError::InvalidAction),
            PlayerActionType::Check => if bi == bj {
                None
            } else {
                Some(PokerError::InvalidAction)
            },
            PlayerActionType::Raise => match raise {
                None => Some(PokerError::InvalidBetAmount),
                Some(r) => {
                    let call = bj.saturating_sub(bi);
                    if si < call + r {
                        Some(PokerError::InsufficientFunds)
                    } else if !(r >= call || r == si - call) {
                        Some(PokerError::MinimumRaiseNotMet)
                    } else {
                        None
                    }
                },
            },
            PlayerActionType::AllIn => if si == 0 {
                Some(PokerError::InsufficientFunds)
            } else {
                None
            },
            _ => None,
        }
    }
}

/// The bet a raise committing `total` more chips leads to: `bet + total`,
/// capped at what the opponent can match (`opp_bet + opp_stack`), and never
/// below the bet already made. Only `result - bet` chips leave the stack.
pub open spec fn raised_bet(bet: u64, opp_bet: u64, opp_stack: u64, total: u64) -> u64 {
    let wanted = bet.saturating_add(total);
    let cap = opp_bet.saturating_add(opp_stack);
    if wanted <= cap {
        wanted
    } else if cap >= bet {
        cap
    } else {
        bet
    }
}

/// The hand after the player whose turn it is acted; the turn passes.
pub open spec fn after_bet(
    g: GameState,
    action: PlayerActionType,
    raise: Option<u64>,
    now: i64,
) -> GameState {
    let i = acting_seat(g);
    let (bi, bj, si, sj) = (bet_of(g, i), bet_of(g, 3 - i), stack_of(g, i), stack_of(g, 3 - i));
    let call = bj.saturating_sub(bi);
    let g1 = match action {
        PlayerActionType::Fold => GameState {
            stage: GameStage::Finished,
            winner: Some(id_of(g, 3 - i)),
            ..with_seat(g, i, bi, si, false, true)
        },
        PlayerActionType::Call => if si < call {
            GameState { pot: g.pot.saturating_add(si), ..with_seat(g, i, bi.saturating_add(si), 0, true, false) }
        } else {
            GameState {
                pot: g.pot.saturating_add(call),
                ..with_seat(g, i, (bi + call) as u64, (si - call) as u64, false, false)
            }
        },
        PlayerActionType::Raise => {
            let nb = raised_bet(bi, bj, sj, (call + raise->0) as u64);
            let paid = (nb - bi) as u64;
            GameState {
                pot: g.pot.saturating_add(paid),
                ..with_seat(g, i, nb, (si - paid) as u64, si - paid == 0, false)
            }
        },
        PlayerActionType::AllIn => GameState {
            pot: g.pot.saturating_add(si),
            ..with_seat(g, i, bi.saturating_add(si), 0, true, false)
        },
        _ => g,
    };
    GameState {
        last_action: action,
        last_action_at: now,
        current_player: flip(g.current_player),
        ..g1
    }
}

/// Whether two identities are the same.
pub fn same_id(a: &PlayerId, b: &PlayerId) -> (r: bool)
    ensures
        r == (a@ == b@),
{
    let mut i: usize = 0;
    while i < 32
        invariant
            i <= 32,
            forall|m: int| 0 <= m < i ==> a@[m] == b@[m],
        decreases 32 - i,
    {
        if a[i] != b[i] {
            return false;
        }
        i = i + 1;
    }
    assert(a@ =~= b@);
    true
}

fn stage_is_betting(s: GameStage) -> (r: bool)
    ensures
        r == is_betting(s),
{
    match s {
        GameStage::PreFlopBetting | GameStage::PostFlopBetting | GameStage::PostTurnBetting
        | GameStage::PostRiverBetting => true,
        _ => false,
    }
}

fn compute_raised_bet(bet: u64, opp_bet: u64, opp_stack: u64, total: u64) -> (r: u64)
    ensures
        r == raised_bet(bet, opp_bet, opp_stack, total),
        bet <= r <= bet.saturating_add(total),
{
    let wanted = bet.saturating_add(total);
    let cap = opp_bet.saturating_add(opp_stack);
    if wanted <= cap {
        wanted
    } else if cap >= bet {
        cap
    } else {
        bet
    }
}

impl GameState {
    /// Replaces one seat's bet, stack and flags.
    fn set_seat(&mut self, first: bool, bet: u64, stack: u64, all_in: bool, folded: bool)
        ensures
            *final(self) == with_seat(*old(self), if first { 1 } else { 2 }, bet, stack, all_in, folded),
    {
        if first {
            self.player1_current_bet = bet;
            self.player1_stack = stack;
            self.player1_all_in = all_in;
            self.player1_folded = folded;
        } else {
            self.player2_current_bet = bet;
            self.player2_stack = stack;
            self.player2_all_in = all_in;
            self.player2_folded = folded;
        }
    }

    /// The doubly encrypted flop (slots 4 to 6).
    pub fn get_flop_encrypted_cards(&self) -> (r: [EncryptedCard; 3])
        ensures
            r@ == self.encrypted_cards@.subrange(4, 7),
    {
        let r = [self.encrypted_cards[4], self.encrypted_cards[5], self.encrypted_cards[6]];
        assert(r@ =~= self.encrypted_cards@.subrange(4, 7));
        r
    }

    /// The doubly encrypted turn (slot 7).
    pub fn get_turn_encrypted_card(&self) -> (r: EncryptedCard)
        ensures
            r == self.encrypted_cards@[7],
    {
        self.encrypted_cards[7]
    }

    /// The doubly encrypted river (slot 8).
    pub fn get_river_encrypted_card(&self) -> (r: EncryptedCard)
        ensures
            r == self.encrypted_cards@[8],
    {
        self.encrypted_cards[8]
    }

    /// Player 1's doubly encrypted pocket (slots 0 and 1).
    pub fn get_player1_encrypted_cards(&self) -> (r: [EncryptedCard; 2])
        ensures
            r@ == self.encrypted_cards@.subrange(0, 2),
    {
        let r = [self.encrypted_cards[0], self.encrypted_cards[1]];
        assert(r@ =~= self.encrypted_cards@.subrange(0, 2));
        r
    }

    /// Player 2's doubly encrypted pocket (slots 2 and 3).
    pub fn get_player2_encrypted_cards(&self) -> (r: [EncryptedCard; 2])
        ensures
            r@ == self.encrypted_cards@.subrange(2, 4),
    {
        let r = [self.encrypted_cards[2], self.encrypted_cards[3]];
        assert(r@ =~= self.encrypted_cards@.subrange(2, 4));
        r
    }

    /// Whether the betting round can end.
    pub fn is_betting_round_complete(&self) -> (r: bool)
        ensures
            r == round_complete(*self),
    {
        if self.player1_folded || self.player2_folded {
            return true;
        }
        if self.player1_all_in && (self.player2_all_in
            || self.player2_current_bet >= self.player1_current_bet) {
            return true;
        }
        if self.player2_all_in && self.player1_current_bet >= self.player2_current_bet {
            return true;
        }
        let acted = match self.last_action {
            PlayerActionType::NoAction => false,
            _ => true,
        };
        self.player1_current_bet == self.player2_current_bet && acted
    }

    /// The opponent of `player` (player 1 for anyone who is not player 1).
    pub fn get_other_player(&self, player: &PlayerId) -> (r: PlayerId)
        ensures
            r == if player@ == self.player1@ {
                self.player2
            } else {
                self.player1
            },
    {
        if same_id(player, &self.player1) {
            self.player2
        } else {
            self.player1
        }
    }

    /// Whether it is `player`'s turn.
    pub fn is_player_turn(&self, player: &PlayerId) -> (r: bool)
        ensures
            r == turn_of(*self, *player),
    {
        if self.current_player == 1 {
            same_id(player, &self.player1)
        } else {
            same_id(player, &self.player2)
        }
    }

    /// Player 1 opens a hand: stake and bond are taken from their balance,
    /// the blinds are set to 1% and 2% of the stake, and player 1 deals.
    pub fn create_game(
        player1: PlayerId,
        player1_balance: &mut PlayerBalance,
        stake_amount: u64,
        player1_ephemeral_pubkey: EphemeralPubkey,
        deck_merkle_root: [u8; 32],
        game_id: u64,
        now: i64,
        token_vault: PlayerId,
        vault_bump: u8,
        bump: u8,
    ) -> (r: Result<GameState, PokerError>)
        ensures
            match create_error(
                old(player1_balance).balance,
                stake_amount,
                player1_ephemeral_pubkey.data@,
                deck_merkle_root@,
            ) {
                Some(e) => r == Err::<GameState, PokerError>(e) && *final(player1_balance) == *old(
                    player1_balance,
                ),
                None => r is Ok && is_new_game(
                    r->Ok_0,
                    player1,
                    stake_amount,
                    player1_ephemeral_pubkey,
                    deck_merkle_root,
                    game_id,
                    now,
                ) && *final(player1_balance) == (PlayerBalance {
                    balance: (old(player1_balance).balance - entry_cost(stake_amount)) as u64,
                    ..*old(player1_balance)
                }),
            },
    {
        if stake_amount == 0 {
            return Err(PokerError::InvalidBetAmount);
        }
        if is_zero_bytes(&player1_ephemeral_pubkey.data) {
            return Err(PokerError::InvalidEphemeralKey);
        }
        if is_zero_bytes(&deck_merkle_root) {
            return Err(PokerError::ZeroCommitment);
        }
        let bond = stake_amount / 10;
        let total = match stake_amount.checked_add(bond) {
            Some(t) => t,
            None => {
                return Err(PokerError::InsufficientBalanceToJoin);
            },
        };
        if player1_balance.balance < total {
            return Err(PokerError::InsufficientBalanceToJoin);
        }
        player1_balance.balance = player1_balance.balance - total;
        let no_card = EncryptedCard::zero();
        let g = GameState {
            game_id,
            player1,
            player2: [0u8; 32],
            token_vault,
            vault_bump,
            stake_amount,
            pot: 0,
            player1_current_bet: 0,
            player2_current_bet: 0,
            player1_stack: stake_amount,
            player2_stack: 0,
            player1_bond: bond,
            player2_bond: 0,
            player1_ephemeral_pubkey,
            player2_ephemeral_pubkey: EphemeralPubkey::zero(),
            deck_merkle_root,
            encrypted_cards: [no_card, no_card, no_card, no_card, no_card, no_card, no_card, no_card, no_card],
            player1_flop_shares: [no_card, no_card, no_card],
            player1_turn_share: no_card,
            player1_river_share: no_card,
            player1_hand: [0u8; 2],
            player2_hand: [0u8; 2],
            community_cards: [0u8; 5],
            community_cards_revealed: 0,
            stage: GameStage::WaitingForPlayer2,
            current_player: 0,
            dealer_button: 1,
            last_action: PlayerActionType::NoAction,
            small_blind: stake_amount / 100,
            big_blind: stake_amount / 50,
            player1_folded: false,
            player2_folded: false,
            player1_all_in: false,
            player2_all_in: false,
            player1_revealed_hand: false,
            player2_revealed_hand: false,
            created_at: now,
            last_action_at: now,
            action_timeout: ACTION_TIMEOUT,
            reveal_deadline: 0,
            winner: None,
            winning_hand_rank: None,
            bump,
        };
        proof {
            assert(all_zero(g.player2@));
        }
        Ok(g)
    }

    /// Player 2 joins with their key and the nine doubly encrypted cards;
    /// stake and bond are taken from their balance and the blinds posted.
    pub fn join_game(
        &mut self,
        player2: PlayerId,
        player2_balance: &mut PlayerBalance,
        player2_ephemeral_pubkey: EphemeralPubkey,
        encrypted_cards: [EncryptedCard; 9],
        now: i64,
    ) -> (r: Result<(), PokerError>)
        ensures
            match join_error(
                *old(self),
                player2,
                old(player2_balance).balance,
                player2_ephemeral_pubkey.data@,
                encrypted_cards,
            ) {
                Some(e) => r == Err::<(), PokerError>(e) && *final(self) == *old(self)
                    && *final(player2_balance) == *old(player2_balance),
                None => r is Ok && *final(self) == joined(
                    *old(self),
                    player2,
                    player2_ephemeral_pubkey,
                    encrypted_cards,
                    now,
                ) && *final(player2_balance) == (PlayerBalance {
                    balance: (old(player2_balance).balance - entry_cost(old(self).stake_amount)) as u64,
                    ..*old(player2_balance)
                }),
            },
    {
        match self.stage {
            GameStage::WaitingForPlayer2 => {},
            _ => {
                return Err(PokerError::InvalidGameStage);
            },
        }
        if !is_zero_bytes(&self.player2) {
            return Err(PokerError::GameAlreadyFull);
        }
        if same_id(&player2, &self.player1) {
            return Err(PokerError::CannotJoinOwnGame);
        }
        if is_zero_bytes(&player2_ephemeral_pubkey.data) {
            return Err(PokerError::InvalidEphemeralKey);
        }
        let mut k: usize = 0;
        while k < 9
            invariant
                k <= 9,
                forall|m: int| 0 <= m < k ==> !all_zero(#[trigger] encrypted_cards[m].data@),
                *self == *old(self),
                *player2_balance == *old(player2_balance),
                self.stage == GameStage::WaitingForPlayer2,
                all_zero(self.player2@),
                player2@ != self.player1@,
                !all_zero(player2_ephemeral_pubkey.data@),
            decreases 9 - k,
        {
            if is_zero_bytes(&encrypted_cards[k].data) {
                assert(all_zero(encrypted_cards[k as int].data@));
                return Err(PokerError::InvalidEncryptedCards);
            }
            k = k + 1;
        }
        let bond = self.stake_amount / 10;
        let total = match self.stake_amount.checked_add(bond) {
            Some(t) => t,
            None => {
                return Err(PokerError::InsufficientBalanceToJoin);
            },
        };
        if player2_balance.balance < total {
            return Err(PokerError::InsufficientBalanceToJoin);
        }
        player2_balance.balance = player2_balance.balance - total;
        self.player2 = player2;
        self.player2_ephemeral_pubkey = player2_ephemeral_pubkey;
        self.player2_stack = self.stake_amount;
        self.player2_bond = bond;
        self.encrypted_cards = encrypted_cards;
        let sb = self.small_blind;
        let bb = self.big_blind;
        if self.dealer_button == 1 {
            self.player1_current_bet = sb;
            self.player2_current_bet = bb;
            self.player1_stack = self.player1_stack.saturating_sub(sb);
            self.player2_stack = self.player2_stack.saturating_sub(bb);
            self.current_player = 1;
        } else {
            self.player2_current_bet = sb;
            self.player1_current_bet = bb;
            self.player2_stack = self.player2_stack.saturating_sub(sb);
            self.player1_stack = self.player1_stack.saturating_sub(bb);
            self.current_player = 2;
        }
        self.pot = sb.saturating_add(bb);
        self.stage = GameStage::PreFlopBetting;
        self.last_action_at = now;
        Ok(())
    }

    /// The player whose turn it is folds, checks, calls, raises by
    /// `raise_amount` or goes all-in; a fold ends the hand and pays the
    /// opponent everything held for it.
    #[verifier::rlimit(40)]
    pub fn player_action(
        &mut self,
        player: &PlayerId,
        action: PlayerActionType,
        raise_amount: Option<u64>,
        now: i64,
    ) -> (r: Result<Option<Payout>, PokerError>)
        ensures
            match bet_error(*old(self), *player, action, raise_amount) {
                Some(e) => r == Err::<Option<Payout>, PokerError>(e) && *final(self) == *old(self),
                None => *final(self) == after_bet(*old(self), action, raise_amount, now) && r == Ok::<
                    Option<Payout>,
                    PokerError,
                >(
                    if action == PlayerActionType::Fold {
                        Some(win_payout(*old(self), 3 - acting_seat(*old(self))))
                    } else {
                        None
                    },
                ),
            },
    {
        if !stage_is_betting(self.stage) {
            return Err(PokerError::InvalidGameStage);
        }
        if !self.is_player_turn(player) {
            return Err(PokerError::NotYourTurn);
        }
        let first = self.current_player == 1;
        let (bi, bj, si, sj, fi, ai) = if first {
            (
                self.player1_current_bet,
                self.player2_current_bet,
                self.player1_stack,
                self.player2_stack,
                self.player1_folded,
                self.player1_all_in,
            )
        } else {
            (
                self.player2_current_bet,
                self.player1_current_bet,
                self.player2_stack,
                self.player1_stack,
                self.player2_folded,
                self.player2_all_in,
            )
        };
        if fi {
            return Err(PokerError::CannotActAfterFold);
        }
        if ai {
            return Err(PokerError::CannotRaiseAllIn);
        }
        let call = bj.saturating_sub(bi);
        let mut new_bet = bi;
        let mut new_stack = si;
        let mut new_all_in = false;
        let mut new_folded = false;
        let mut pot = self.pot;
        let mut payout: Option<Payout> = None;
        match action {
            PlayerActionType::NoAction => {
                return Err(PokerError::InvalidAction);
            },
            PlayerActionType::Fold => {
                new_folded = true;
                let all = self.pot.saturating_add(self.player1_stack).saturating_add(self.player2_stack).saturating_add(
            self.player1_bond,
        ).saturating_add(self.player2_bond);
                payout = Some(
                    if first {
                        Payout { player1: 0, player2: all }
                    } else {
                        Payout { player1: all, player2: 0 }
                    },
                );
            },
            PlayerActionType::Check => {
                if bi != bj {
                    return Err(PokerError::InvalidAction);
                }
            },
            PlayerActionType::Call => {
                if si < call {
                    new_bet = bi.saturating_add(si);
                    new_stack = 0;
                    new_all_in = true;
                    pot = pot.saturating_add(si);
                } else {
                    new_bet = bi + call;
                    new_stack = si - call;
                    pot = pot.saturating_add(call);
                }
            },
            PlayerActionType::Raise => {
                let r = match raise_amount {
                    Some(r) => r,
                    None => {
                        return Err(PokerError::InvalidBetAmount);
                    },
                };
                let total = match call.checked_add(r) {
                    Some(t) => t,
                    None => {
                        return Err(PokerError::InsufficientFunds);
                    },
                };
                if si < total {
                    return Err(PokerError::InsufficientFunds);
                }
                if !(r >= call || r == si - call) {
                    return Err(PokerError::MinimumRaiseNotMet);
                }
                new_bet = compute_raised_bet(bi, bj, sj, total);
                let paid = new_bet - bi;
                new_stack = si - paid;
                new_all_in = new_stack == 0;
                pot = pot.saturating_add(paid);
            },
            PlayerActionType::AllIn => {
                if si == 0 {
                    return Err(PokerError::InsufficientFunds);
                }
                new_bet = bi.saturating_add(si);
                new_stack = 0;
                new_all_in = true;
                pot = pot.saturating_add(si);
            },
        }
        self.set_seat(first, new_bet, new_stack, new_all_in, new_folded);
        self.pot = pot;
        if new_folded {
            self.stage = GameStage::Finished;
            self.winner = Some(if first {
                self.player2
            } else {
                self.player1
            });
        }
        self.last_action = action;
        self.last_action_at = now;
        self.current_player = if self.current_player == 1 {
            2
        } else {
            1
        };
        Ok(payout)
    }
}

/// The stage that a completed betting round leads to.
pub open spec fn stage_after_round(s: GameStage) -> GameStage {
    match s {
        GameStage::PreFlopBetting => GameStage::AwaitingFlopReveal,
        GameStage::PostFlopBetting => GameStage::AwaitingTurnReveal,
        GameStage::PostTurnBetting => GameStage::AwaitingRiverReveal,
        _ => GameStage::Showdown,
    }
}

/// The hand after a complete betting round: the bets are closed out into
/// the pot (which already holds them) and the hand moves on.
pub open spec fn ended_round(g: GameState, now: i64) -> GameState {
    GameState {
        stage: stage_after_round(g.stage),
        player1_current_bet: 0,
        player2_current_bet: 0,
        last_action_at: now,
        ..g
    }
}

/// Why `advance_street` refuses, if it does.
pub open spec fn advance_error(g: GameState) -> Option<PokerError> {
    if !is_betting(g.stage) {
        Some(PokerError::InvalidGameStage)
    } else if !round_complete(g) {
        Some(PokerError::BettingRoundNotComplete)
    } else {
        None
    }
}

/// The first step of a reveal: the dealer hands in decryption shares.
pub open spec fn is_reveal_step_a(s: GameStage) -> bool {
    ||| s == GameStage::AwaitingFlopReveal
    ||| s == GameStage::AwaitingTurnReveal
    ||| s == GameStage::AwaitingRiverReveal
}

/// The second step of a reveal: player 2 hands in shares and plaintexts.
pub open spec fn is_reveal_step_b(s: GameStage) -> bool {
    ||| s == GameStage::AwaitingPlayer2FlopShare
    ||| s == GameStage::AwaitingPlayer2TurnShare
    ||| s == GameStage::AwaitingPlayer2RiverShare
}

/// How many community cards a reveal stage uncovers.
pub open spec fn reveal_count(s: GameStage) -> int {
    if s == GameStage::AwaitingFlopReveal || s == GameStage::AwaitingPlayer2FlopShare {
        3
    } else {
        1
    }
}

/// Where the first card of a reveal stage stands among the community cards
/// (the encrypted slot is four further on).
pub open spec fn reveal_position(s: GameStage) -> int {
    if s == GameStage::AwaitingFlopReveal || s == GameStage::AwaitingPlayer2FlopShare {
        0
    } else if s == GameStage::AwaitingTurnReveal || s == GameStage::AwaitingPlayer2TurnShare {
        3
    } else {
        4
    }
}

/// The stage that follows a reveal step.
pub open spec fn stage_after_reveal(s: GameStage) -> GameStage {
    match s {
        GameStage::AwaitingFlopReveal => GameStage::AwaitingPlayer2FlopShare,
        GameStage::AwaitingPlayer2FlopShare => GameStage::PostFlopBetting,
        GameStage::AwaitingTurnReveal => GameStage::AwaitingPlayer2TurnShare,
        GameStage::AwaitingPlayer2TurnShare => GameStage::PostTurnBetting,
        GameStage::AwaitingRiverReveal => GameStage::AwaitingPlayer2RiverShare,
        _ => GameStage::PostRiverBetting,
    }
}

/// Whether every plaintext matches its doubly encrypted community slot.
pub open spec fn plaintexts_verify(g: GameState, pts: Seq<u8>) -> bool {
    forall|k: int|
        0 <= k < pts.len() ==> card_matches(
            #[trigger] pts[k],
            g.encrypted_cards[4 + reveal_position(g.stage) + k].data@,
            g.player1_ephemeral_pubkey.data@,
            g.player2_ephemeral_pubkey.data@,
        )
}

/// Why `reveal_community_cards` refuses, if it does.
pub open spec fn reveal_error(
    g: GameState,
    caller: PlayerId,
    shares: Seq<EncryptedCard>,
    plaintexts: Option<Seq<u8>>,
) -> Option<PokerError> {
    let n = reveal_count(g.stage);
    if is_reveal_step_a(g.stage) {
        if caller@ != g.player1@ {
            Some(PokerError::NotYourTurn)
        } else if shares.len() != n {
            Some(PokerError::MissingDecryptionShares)
        } else {
            None
        }
    } else if is_reveal_step_b(g.stage) {
        if caller@ != g.player2@ {
            Some(PokerError::NotYourTurn)
        } else if shares.len() != n {
            Some(PokerError::MissingDecryptionShares)
        } else if plaintexts is None || plaintexts->0.len() != n {
            Some(PokerError::InvalidCommunityCards)
        } else if !plaintexts_verify(g, plaintexts->0) {
            Some(PokerError::CardVerificationFailed)
        } else {
            None
        }
    } else {
        Some(PokerError::InvalidGameStage)
    }
}

/// The scalar part of the hand after the dealer's shares came in.
pub open spec fn after_shares(g: GameState, now: i64) -> GameState {
    GameState {
        reveal_deadline: add_clamped(now, g.action_timeout),
        stage: stage_after_reveal(g.stage),
        last_action_at: now,
        ..g
    }
}

/// The scalar part of the hand after community cards were uncovered: a
/// new betting round, opened by the player who is not the dealer.
pub open spec fn after_plaintexts(g: GameState, now: i64) -> GameState {
    GameState {
        community_cards_revealed: (reveal_position(g.stage) + reveal_count(g.stage)) as u8,
        current_player: if g.dealer_button == 1 {
            2
        } else {
            1
        },
        player1_current_bet: 0,
        player2_current_bet: 0,
        stage: stage_after_reveal(g.stage),
        last_action: PlayerActionType::NoAction,
        last_action_at: now,
        ..g
    }
}

pub open spec fn revealed_of(g: GameState, seat: int) -> bool {
    if seat == 1 {
        g.player1_revealed_hand
    } else {
        g.player2_revealed_hand
    }
}

/// Whether a seat's pocket verifies against its two encrypted slots.
pub open spec fn pocket_verifies(g: GameState, seat: int, pocket: [u8; 2]) -> bool {
    let slot = if seat == 1 {
        0int
    } else {
        2int
    };
    &&& card_matches(
        pocket@[0],
        g.encrypted_cards[slot].data@,
        g.player1_ephemeral_pubkey.data@,
        g.player2_ephemeral_pubkey.data@,
    )
    &&& card_matches(
        pocket@[1],
        g.encrypted_cards[slot + 1].data@,
        g.player1_ephemeral_pubkey.data@,
        g.player2_ephemeral_pubkey.data@,
    )
}

/// Why `resolve_hand` refuses, if it does.
pub open spec fn resolve_error(g: GameState, caller: PlayerId, pocket: [u8; 2]) -> Option<PokerError> {
    let seat = seat_of(g, caller);
    if g.stage != GameStage::Showdown && g.stage != GameStage::AwaitingPlayer2ShowdownReveal {
        Some(PokerError::InvalidGameStage)
    } else if seat == 0 {
        Some(PokerError::NotYourTurn)
    } else if g.stage == GameStage::Showdown && (g.player1_revealed_hand || g.player2_revealed_hand) {
        Some(PokerError::AlreadyRevealedHand)
    } else if revealed_of(g, seat) {
        Some(PokerError::AlreadyRevealedHand)
    } else if !pocket_verifies(g, seat, pocket) {
        Some(PokerError::CardVerificationFailed)
    } else if g.stage == GameStage::AwaitingPlayer2ShowdownReveal && !pocket_verifies(
        g,
        3 - seat,
        if seat == 1 {
            g.player2_hand
        } else {
            g.player1_hand
        },
    ) {
        Some(PokerError::CardVerificationFailed)
    } else {
        None
    }
}

/// The best score a pocket makes with the community cards.
pub open spec fn pocket_score(pocket: [u8; 2], community: [u8; 5]) -> int {
    best_among(seven(pocket@, community@), 21).1
}

/// What each player is paid at showdown. Everything staked (the pot and
/// both unbet stacks) goes to the better score, or is split on equal
/// scores with an odd chip to the dealer; each player gets their own bond
/// back.
pub open spec fn showdown_payout(g: GameState, s1: int, s2: int) -> Payout {
    let pot = g.pot.saturating_add(g.player1_stack).saturating_add(g.player2_stack);
    let b1 = g.player1_bond;
    let b2 = g.player2_bond;
    let half = (pot / 2) as u64;
    let rest = (pot - half) as u64;
    if s1 > s2 {
        Payout { player1: pot.saturating_add(b1), player2: b2 }
    } else if s2 > s1 {
        Payout { player1: b1, player2: pot.saturating_add(b2) }
    } else if g.dealer_button == 1 {
        Payout { player1: rest.saturating_add(b1), player2: half.saturating_add(b2) }
    } else {
        Payout { player1: half.saturating_add(b1), player2: rest.saturating_add(b2) }
    }
}

/// The seat entitled to claim a timeout in the current stage, if only one is.
pub open spec fn claimant_ok(g: GameState, seat: int) -> bool {
    if is_reveal_step_b(g.stage) {
        seat == 1
    } else if g.stage == GameStage::AwaitingPlayer2ShowdownReveal {
        revealed_of(g, seat)
    } else if is_reveal_step_a(g.stage) {
        seat == 2
    } else {
        seat != acting_seat(g)
    }
}

/// Whether the deadline that the current stage runs on has passed.
pub open spec fn deadline_passed(g: GameState, now: i64) -> bool {
    if is_reveal_step_b(g.stage) || g.stage == GameStage::AwaitingPlayer2ShowdownReveal {
        now > g.reveal_deadline
    } else {
        now - g.last_action_at > g.action_timeout
    }
}

/// Why `claim_timeout` refuses, if it does.
pub open spec fn claim_error(g: GameState, caller: PlayerId, now: i64) -> Option<PokerError> {
    let seat = seat_of(g, caller);
    if g.stage == GameStage::WaitingForPlayer2 || g.stage == GameStage::Finished {
        Some(PokerError::InvalidGameStage)
    } else if seat == 0 || !claimant_ok(g, seat) {
        Some(PokerError::NotYourTurn)
    } else if !deadline_passed(g, now) {
        Some(PokerError::TimeoutNotReached)
    } else {
        None
    }
}

fn clamped_add(a: i64, b: i64) -> (r: i64)
    ensures
        r == add_clamped(a, b),
{
    let x: i128 = a as i128 + b as i128;
    if x > i64::MAX as i128 {
        i64::MAX
    } else if x < i64::MIN as i128 {
        i64::MIN
    } else {
        x as i64
    }
}

impl GameState {
    /// Ends a complete betting round: the hand moves on to the next reveal,
    /// or to the showdown after the river.
    pub fn advance_street(&mut self, now: i64) -> (r: Result<(), PokerError>)
        ensures
            match advance_error(*old(self)) {
                Some(e) => r == Err::<(), PokerError>(e) && *final(self) == *old(self),
                None => r is Ok && *final(self) == ended_round(*old(self), now),
            },
    {
        if !stage_is_betting(self.stage) {
            return Err(PokerError::InvalidGameStage);
        }
        if !self.is_betting_round_complete() {
            return Err(PokerError::BettingRoundNotComplete);
        }
        self.stage = match self.stage {
            GameStage::PreFlopBetting => GameStage::AwaitingFlopReveal,
            GameStage::PostFlopBetting => GameStage::AwaitingTurnReveal,
            GameStage::PostTurnBetting => GameStage::AwaitingRiverReveal,
            _ => GameStage::Showdown,
        };
        self.player1_current_bet = 0;
        self.player2_current_bet = 0;
        self.last_action_at = now;
        Ok(())
    }

    /// One step of a community-card reveal. In the first step the dealer
    /// hands in decryption shares; in the second player 2 hands in theirs
    /// with the plaintext cards, which must each verify against their
    /// encrypted slot, and the next betting round opens.
    pub fn reveal_community_cards(
        &mut self,
        player: &PlayerId,
        decryption_shares: Vec<EncryptedCard>,
        plaintext_cards: Option<Vec<u8>>,
        now: i64,
    ) -> (r: Result<(), PokerError>)
        ensures
            match reveal_error(
                *old(self),
                *player,
                decryption_shares@,
                match plaintext_cards {
                    Some(v) => Some(v@),
                    None => None,
                },
            ) {
                Some(e) => r == Err::<(), PokerError>(e) && *final(self) == *old(self),
                None => r is Ok && if is_reveal_step_a(old(self).stage) {
                    &&& *final(self) == (GameState {
                        player1_flop_shares: final(self).player1_flop_shares,
                        player1_turn_share: final(self).player1_turn_share,
                        player1_river_share: final(self).player1_river_share,
                        ..after_shares(*old(self), now)
                    })
                    &&& old(self).stage == GameStage::AwaitingFlopReveal ==> final(self).player1_flop_shares@
                        == decryption_shares@
                    &&& old(self).stage != GameStage::AwaitingFlopReveal
                        ==> final(self).player1_flop_shares == old(self).player1_flop_shares
                    &&& final(self).player1_turn_share == if old(self).stage
                        == GameStage::AwaitingTurnReveal {
                        decryption_shares@[0]
                    } else {
                        old(self).player1_turn_share
                    }
                    &&& final(self).player1_river_share == if old(self).stage
                        == GameStage::AwaitingRiverReveal {
                        decryption_shares@[0]
                    } else {
                        old(self).player1_river_share
                    }
                } else {
                    &&& *final(self) == (GameState {
                        community_cards: final(self).community_cards,
                        ..after_plaintexts(*old(self), now)
                    })
                    &&& final(self).community_cards@ == old(self).community_cards@.subrange(
                        0,
                        reveal_position(old(self).stage),
                    ) + plaintext_cards->0@ + old(self).community_cards@.subrange(
                        reveal_position(old(self).stage) + reveal_count(old(self).stage),
                        5,
                    )
                },
            },
    {
        let stage = self.stage;
        let (step_a, n): (bool, usize) = match stage {
            GameStage::AwaitingFlopReveal => (true, 3),
            GameStage::AwaitingTurnReveal => (true, 1),
            GameStage::AwaitingRiverReveal => (true, 1),
            GameStage::AwaitingPlayer2FlopShare => (false, 3),
            GameStage::AwaitingPlayer2TurnShare => (false, 1),
            GameStage::AwaitingPlayer2RiverShare => (false, 1),
            _ => {
                return Err(PokerError::InvalidGameStage);
            },
        };
        if step_a {
            if !same_id(player, &self.player1) {
                return Err(PokerError::NotYourTurn);
            }
            if decryption_shares.len() != n {
                return Err(PokerError::MissingDecryptionShares);
            }
            self.store_dealer_shares(&decryption_shares, now);
            return Ok(());
        }
        if !same_id(player, &self.player2) {
            return Err(PokerError::NotYourTurn);
        }
        if decryption_shares.len() != n {
            return Err(PokerError::MissingDecryptionShares);
        }
        let plaintext = match plaintext_cards {
            Some(v) => v,
            None => {
                return Err(PokerError::InvalidCommunityCards);
            },
        };
        if plaintext.len() != n {
            return Err(PokerError::InvalidCommunityCards);
        }
        if !self.plaintexts_match(&plaintext) {
            return Err(PokerError::CardVerificationFailed);
        }
        self.uncover_community_cards(&plaintext, now);
        Ok(())
    }

    /// Stores the dealer's decryption shares and starts player 2's deadline.
    fn store_dealer_shares(&mut self, decryption_shares: &Vec<EncryptedCard>, now: i64)
        requires
            is_reveal_step_a(old(self).stage),
            decryption_shares@.len() == reveal_count(old(self).stage),
        ensures
            *final(self) == (GameState {
                player1_flop_shares: final(self).player1_flop_shares,
                player1_turn_share: final(self).player1_turn_share,
                player1_river_share: final(self).player1_river_share,
                ..after_shares(*old(self), now)
            }),
            old(self).stage == GameStage::AwaitingFlopReveal ==> final(self).player1_flop_shares@
                == decryption_shares@,
            old(self).stage != GameStage::AwaitingFlopReveal ==> final(self).player1_flop_shares
                == old(self).player1_flop_shares,
            final(self).player1_turn_share == if old(self).stage == GameStage::AwaitingTurnReveal {
                decryption_shares@[0]
            } else {
                old(self).player1_turn_share
            },
            final(self).player1_river_share == if old(self).stage == GameStage::AwaitingRiverReveal {
                decryption_shares@[0]
            } else {
                old(self).player1_river_share
            },
    {
        match self.stage {
            GameStage::AwaitingFlopReveal => {
                self.player1_flop_shares = [
                    decryption_shares[0],
                    decryption_shares[1],
                    decryption_shares[2],
                ];
                assert(self.player1_flop_shares@ =~= decryption_shares@);
                self.stage = GameStage::AwaitingPlayer2FlopShare;
            },
            GameStage::AwaitingTurnReveal => {
                self.player1_turn_share = decryption_shares[0];
                self.stage = GameStage::AwaitingPlayer2TurnShare;
            },
            _ => {
                self.player1_river_share = decryption_shares[0];
                self.stage = GameStage::AwaitingPlayer2RiverShare;
            },
        }
        self.reveal_deadline = clamped_add(now, self.action_timeout);
        self.last_action_at = now;
    }

    /// Whether each plaintext verifies against its encrypted community slot.
    fn plaintexts_match(&self, plaintext: &Vec<u8>) -> (r: bool)
        requires
            is_reveal_step_b(self.stage),
            plaintext@.len() == reveal_count(self.stage),
        ensures
            r == plaintexts_verify(*self, plaintext@),
    {
        let n = plaintext.len();
        let pos: usize = match self.stage {
            GameStage::AwaitingPlayer2FlopShare => 0,
            GameStage::AwaitingPlayer2TurnShare => 3,
            _ => 4,
        };
        let mut k: usize = 0;
        while k < n
            invariant
                k <= n,
                n == plaintext@.len(),
                n == reveal_count(self.stage),
                pos == reveal_position(self.stage),
                forall|m: int|
                    0 <= m < k ==> card_matches(
                        #[trigger] plaintext@[m],
                        self.encrypted_cards[4 + reveal_position(self.stage) + m].data@,
                        self.player1_ephemeral_pubkey.data@,
                        self.player2_ephemeral_pubkey.data@,
                    ),
            decreases n - k,
        {
            if !self.verify_card(plaintext[k], &self.encrypted_cards[4 + pos + k]) {
                assert(!card_matches(
                    plaintext@[k as int],
                    self.encrypted_cards[4 + reveal_position(self.stage) + k].data@,
                    self.player1_ephemeral_pubkey.data@,
                    self.player2_ephemeral_pubkey.data@,
                ));
                return false;
            }
            k = k + 1;
        }
        true
    }

    /// Writes the verified plaintexts into the community cards and opens
    /// the next betting round.
    fn uncover_community_cards(&mut self, plaintext: &Vec<u8>, now: i64)
        requires
            is_reveal_step_b(old(self).stage),
            plaintext@.len() == reveal_count(old(self).stage),
        ensures
            *final(self) == (GameState {
                community_cards: final(self).community_cards,
                ..after_plaintexts(*old(self), now)
            }),
            final(self).community_cards@ == old(self).community_cards@.subrange(
                0,
                reveal_position(old(self).stage),
            ) + plaintext@ + old(self).community_cards@.subrange(
                reveal_position(old(self).stage) + reveal_count(old(self).stage),
                5,
            ),
    {
        let n = plaintext.len();
        let (pos, next): (usize, GameStage) = match self.stage {
            GameStage::AwaitingPlayer2FlopShare => (0, GameStage::PostFlopBetting),
            GameStage::AwaitingPlayer2TurnShare => (3, GameStage::PostTurnBetting),
            _ => (4, GameStage::PostRiverBetting),
        };
        let ghost before = self.community_cards@;
        let mut m: usize = 0;
        while m < n
            invariant
                m <= n,
                n == plaintext@.len(),
                pos + n <= 5,
                before.len() == 5,
                *self == (GameState { community_cards: self.community_cards, ..*old(self) }),
                self.community_cards@ == before.subrange(0, pos as int) + plaintext@.subrange(0, m as int)
                    + before.subrange(pos + m, 5),
            decreases n - m,
        {
            self.community_cards[pos + m] = plaintext[m];
            m = m + 1;
            assert(self.community_cards@ =~= before.subrange(0, pos as int) + plaintext@.subrange(0, m as int)
                + before.subrange(pos + m, 5));
        }
        assert(plaintext@.subrange(0, n as int) =~= plaintext@);
        self.community_cards_revealed = (pos + n) as u8;
        self.current_player = if self.dealer_button == 1 {
            2
        } else {
            1
        };
        self.player1_current_bet = 0;
        self.player2_current_bet = 0;
        self.stage = next;
        self.last_action = PlayerActionType::NoAction;
        self.last_action_at = now;
    }
}

/// `g` with a seat's pocket stored and marked as revealed.
pub open spec fn with_pocket(g: GameState, seat: int, pocket: [u8; 2]) -> GameState {
    if seat == 1 {
        GameState { player1_hand: pocket, player1_revealed_hand: true, ..g }
    } else {
        GameState { player2_hand: pocket, player2_revealed_hand: true, ..g }
    }
}

/// The hand after both pockets are known: it is finished, and the better
/// seven cards win (no winner on equal scores).
pub open spec fn after_showdown(g: GameState) -> GameState {
    let s1 = pocket_score(g.player1_hand, g.community_cards);
    let s2 = pocket_score(g.player2_hand, g.community_cards);
    GameState {
        stage: GameStage::Finished,
        winner: if s1 > s2 {
            Some(g.player1)
        } else if s2 > s1 {
            Some(g.player2)
        } else {
            None
        },
        winning_hand_rank: if s1 > s2 {
            Some((s1 / 0x100000) as u16)
        } else if s2 > s1 {
            Some((s2 / 0x100000) as u16)
        } else {
            None
        },
        ..g
    }
}

impl GameState {
    /// A player shows their pocket cards at showdown. The first to do so
    /// starts the other's deadline; when the second does, both pockets are
    /// verified against their encrypted slots, the best hands compared and
    /// the payout returned.
    pub fn resolve_hand(&mut self, player: &PlayerId, pocket: [u8; 2], now: i64) -> (r: Result<
        Option<Payout>,
        PokerError,
    >)
        ensures
            match resolve_error(*old(self), *player, pocket) {
                Some(e) => r == Err::<Option<Payout>, PokerError>(e) && *final(self) == *old(self),
                None => {
                    let g1 = with_pocket(*old(self), seat_of(*old(self), *player), pocket);
                    if old(self).stage == GameStage::Showdown {
                        r == Ok::<Option<Payout>, PokerError>(None) && *final(self) == (GameState {
                            reveal_deadline: add_clamped(now, old(self).action_timeout),
                            stage: GameStage::AwaitingPlayer2ShowdownReveal,
                            last_action_at: now,
                            ..g1
                        })
                    } else {
                        *final(self) == after_showdown(g1) && r == Ok::<Option<Payout>, PokerError>(
                            Some(
                                showdown_payout(
                                    g1,
                                    pocket_score(g1.player1_hand, g1.community_cards),
                                    pocket_score(g1.player2_hand, g1.community_cards),
                                ),
                            ),
                        )
                    }
                },
            },
    {
        let first_reveal = match self.stage {
            GameStage::Showdown => true,
            GameStage::AwaitingPlayer2ShowdownReveal => false,
            _ => {
                return Err(PokerError::InvalidGameStage);
            },
        };
        let seat: u8 = if same_id(player, &self.player1) {
            1
        } else if same_id(player, &self.player2) {
            2
        } else {
            return Err(PokerError::NotYourTurn);
        };
        if first_reveal && (self.player1_revealed_hand || self.player2_revealed_hand) {
            return Err(PokerError::AlreadyRevealedHand);
        }
        if (seat == 1 && self.player1_revealed_hand) || (seat == 2 && self.player2_revealed_hand) {
            return Err(PokerError::AlreadyRevealedHand);
        }
        if !self.pocket_ok(seat, &pocket) {
            return Err(PokerError::CardVerificationFailed);
        }
        if !first_reveal {
            let other = if seat == 1 {
                self.player2_hand
            } else {
                self.player1_hand
            };
            if !self.pocket_ok(3 - seat, &other) {
                return Err(PokerError::CardVerificationFailed);
            }
        }
        if seat == 1 {
            self.player1_hand = pocket;
            self.player1_revealed_hand = true;
        } else {
            self.player2_hand = pocket;
            self.player2_revealed_hand = true;
        }
        if first_reveal {
            self.reveal_deadline = clamped_add(now, self.action_timeout);
            self.stage = GameStage::AwaitingPlayer2ShowdownReveal;
            self.last_action_at = now;
            return Ok(None);
        }
        Ok(Some(self.settle_showdown()))
    }

    /// Whether a seat's pocket verifies against its encrypted slots.
    fn pocket_ok(&self, seat: u8, pocket: &[u8; 2]) -> (r: bool)
        requires
            seat == 1 || seat == 2,
        ensures
            r == pocket_verifies(*self, seat as int, *pocket),
    {
        let slot: usize = if seat == 1 {
            0
        } else {
            2
        };
        self.verify_card(pocket[0], &self.encrypted_cards[slot]) && self.verify_card(
            pocket[1],
            &self.encrypted_cards[slot + 1],
        )
    }

    /// Compares both players' best hands, finishes the hand and says what
    /// each player is paid.
    fn settle_showdown(&mut self) -> (payout: Payout)
        ensures
            *final(self) == after_showdown(*old(self)),
            payout == showdown_payout(
                *old(self),
                pocket_score(old(self).player1_hand, old(self).community_cards),
                pocket_score(old(self).player2_hand, old(self).community_cards),
            ),
    {
        let (_, s1) = find_best_hand(&self.player1_hand, &self.community_cards);
        let (_, s2) = find_best_hand(&self.player2_hand, &self.community_cards);
        let pot = self.pot.saturating_add(self.player1_stack).saturating_add(self.player2_stack);
        let half = pot / 2;
        let rest = pot - half;
        let own1 = self.player1_bond;
        let own2 = self.player2_bond;
        let payout = if s1 > s2 {
            self.winner = Some(self.player1);
            self.winning_hand_rank = Some((s1 / 0x100000) as u16);
            Payout { player1: pot.saturating_add(own1), player2: own2 }
        } else if s2 > s1 {
            self.winner = Some(self.player2);
            self.winning_hand_rank = Some((s2 / 0x100000) as u16);
            Payout { player1: own1, player2: pot.saturating_add(own2) }
        } else {
            self.winner = None;
            self.winning_hand_rank = None;
            if self.dealer_button == 1 {
                Payout {
                    player1: rest.saturating_add(own1),
                    player2: half.saturating_add(own2),
                }
            } else {
                Payout {
                    player1: half.saturating_add(own1),
                    player2: rest.saturating_add(own2),
                }
            }
        };
        self.stage = GameStage::Finished;
        payout
    }

    /// The player who is not at fault claims the hand once the deadline of
    /// the current stage has passed: they take everything held for the hand
    /// (pot, both unbet stacks and both bonds).
    pub fn claim_timeout(&mut self, player: &PlayerId, now: i64) -> (r: Result<Payout, PokerError>)
        ensures
            match claim_error(*old(self), *player, now) {
                Some(e) => r == Err::<Payout, PokerError>(e) && *final(self) == *old(self),
                None => r == Ok::<Payout, PokerError>(win_payout(*old(self), seat_of(*old(self), *player)))
                    && *final(self) == (GameState {
                    winner: Some(*player),
                    stage: GameStage::Finished,
                    ..*old(self)
                }),
            },
    {
        match self.stage {
            GameStage::WaitingForPlayer2 | GameStage::Finished => {
                return Err(PokerError::InvalidGameStage);
            },
            _ => {},
        }
        let seat: u8 = if same_id(player, &self.player1) {
            1
        } else if same_id(player, &self.player2) {
            2
        } else {
            return Err(PokerError::NotYourTurn);
        };
        let (entitled, on_reveal_deadline) = match self.stage {
            GameStage::AwaitingPlayer2FlopShare | GameStage::AwaitingPlayer2TurnShare
            | GameStage::AwaitingPlayer2RiverShare => (seat == 1, true),
            GameStage::AwaitingPlayer2ShowdownReveal => (
                if seat == 1 {
                    self.player1_revealed_hand
                } else {
                    self.player2_revealed_hand
                },
                true,
            ),
            GameStage::AwaitingFlopReveal | GameStage::AwaitingTurnReveal
            | GameStage::AwaitingRiverReveal => (seat == 2, false),
            _ => (seat != (if self.current_player == 1 {
                1
            } else {
                2
            }), false),
        };
        if !entitled {
            return Err(PokerError::NotYourTurn);
        }
        if on_reveal_deadline {
            if now <= self.reveal_deadline {
                return Err(PokerError::TimeoutNotReached);
            }
        } else {
            let elapsed: i128 = now as i128 - self.last_action_at as i128;
            if elapsed <= self.action_timeout as i128 {
                return Err(PokerError::TimeoutNotReached);
            }
        }
        let all = self.pot.saturating_add(self.player1_stack).saturating_add(self.player2_stack).saturating_add(
            self.player1_bond,
        ).saturating_add(self.player2_bond);
        self.winner = Some(*player);
        self.stage = GameStage::Finished;
        Ok(
            if seat == 1 {
                Payout { player1: all, player2: 0 }
            } else {
                Payout { player1: 0, player2: all }
            },
        )
    }
}

/// The pot and both stacks add up to both stakes: chips are neither made
/// nor lost while the hand runs.
pub open spec fn chips_conserved(g: GameState) -> bool {
    g.pot + g.player1_stack + g.player2_stack == 2 * g.stake_amount
}

/// Joining a freshly created hand starts with the chips conserved.
pub proof fn lemma_join_conserves(
    g: GameState,
    caller: PlayerId,
    pk: EphemeralPubkey,
    cards: [EncryptedCard; 9],
    now: i64,
)
    requires
        g.pot == 0,
        g.player1_stack == g.stake_amount,
        g.small_blind == g.stake_amount / 100,
        g.big_blind == g.stake_amount / 50,
    ensures
        chips_conserved(joined(g, caller, pk, cards, now)),
{
}

/// Every accepted betting action keeps the chips conserved, as long as
/// both stakes together fit in a `u64`.
pub proof fn lemma_bet_conserves(
    g: GameState,
    caller: PlayerId,
    action: PlayerActionType,
    raise: Option<u64>,
    now: i64,
)
    requires
        chips_conserved(g),
        2 * g.stake_amount <= u64::MAX,
        bet_error(g, caller, action, raise) is None,
    ensures
        chips_conserved(after_bet(g, action, raise, now)),
{
}

/// Ending a round and uncovering community cards move no chips.
pub proof fn lemma_streets_conserve(g: GameState, now: i64)
    ensures
        chips_conserved(ended_round(g, now))
            == chips_conserved(g),
        chips_conserved(after_shares(g, now)) == chips_conserved(g),
        chips_conserved(after_plaintexts(g, now)) == chips_conserved(g),
{
}

/// Position of a stage in the order a hand passes through them.
pub open spec fn stage_index(s: GameStage) -> int {
    match s {
        GameStage::WaitingForPlayer2 => 0,
        GameStage::PreFlopBetting => 1,
        GameStage::AwaitingFlopReveal => 2,
        GameStage::AwaitingPlayer2FlopShare => 3,
        GameStage::PostFlopBetting => 4,
        GameStage::AwaitingTurnReveal => 5,
        GameStage::AwaitingPlayer2TurnShare => 6,
        GameStage::PostTurnBetting => 7,
        GameStage::AwaitingRiverReveal => 8,
        GameStage::AwaitingPlayer2RiverShare => 9,
        GameStage::PostRiverBetting => 10,
        GameStage::Showdown => 11,
        GameStage::AwaitingPlayer2ShowdownReveal => 12,
        GameStage::Finished => 13,
    }
}

/// No transition moves a hand back to an earlier stage: a betting action
/// stays or finishes, ending a round and each reveal step move forward,
/// and showdowns and timeouts finish the hand.
pub proof fn lemma_stages_move_forward(
    g: GameState,
    action: PlayerActionType,
    raise: Option<u64>,
    now: i64,
)
    ensures
        stage_index(after_bet(g, action, raise, now).stage) >= stage_index(g.stage),
        is_betting(g.stage) ==> stage_index(stage_after_round(g.stage)) > stage_index(g.stage),
        is_reveal_step_a(g.stage) || is_reveal_step_b(g.stage) ==> stage_index(
            stage_after_reveal(g.stage),
        ) > stage_index(g.stage),
        stage_index(after_showdown(g).stage) >= stage_index(g.stage),
        stage_index(GameStage::Finished) >= stage_index(g.stage),
{
}

/// After every betting action the turn passes to the other seat.
pub proof fn lemma_turn_passes(g: GameState, action: PlayerActionType, raise: Option<u64>, now: i64)
    ensures
        after_bet(g, action, raise, now).current_player != g.current_player,
        after_bet(g, action, raise, now).current_player == 1 || after_bet(
            g,
            action,
            raise,
            now,
        ).current_player == 2,
{
}

/// How many community cards are uncovered while a hand is in stage `s`.
pub open spec fn revealed_for(s: GameStage) -> int {
    match s {
        GameStage::WaitingForPlayer2 | GameStage::PreFlopBetting | GameStage::AwaitingFlopReveal
        | GameStage::AwaitingPlayer2FlopShare => 0,
        GameStage::PostFlopBetting | GameStage::AwaitingTurnReveal
        | GameStage::AwaitingPlayer2TurnShare => 3,
        GameStage::PostTurnBetting | GameStage::AwaitingRiverReveal
        | GameStage::AwaitingPlayer2RiverShare => 4,
        _ => 5,
    }
}

/// What holds of a hand after every transition: before player 2 joins
/// nothing is bet; from then on all nine encrypted slots are set and the
/// chips are conserved (when both stakes fit in a `u64`); the uncovered
/// community cards match the stage; and nobody has folded in a hand that
/// is still running.
pub open spec fn hand_invariant(g: GameState) -> bool {
    &&& g.stage == GameStage::WaitingForPlayer2 ==> {
        &&& g.pot == 0
        &&& g.player1_stack == g.stake_amount
        &&& g.small_blind == g.stake_amount / 100
        &&& g.big_blind == g.stake_amount / 50
    }
    &&& g.stage != GameStage::WaitingForPlayer2 ==> forall|k: int|
        0 <= k < 9 ==> !all_zero(#[trigger] g.encrypted_cards[k].data@)
    &&& g.stage != GameStage::WaitingForPlayer2 && 2 * g.stake_amount <= u64::MAX ==> chips_conserved(g)
    &&& g.stage != GameStage::Finished ==> g.community_cards_revealed == revealed_for(g.stage)
    &&& g.stage != GameStage::Finished ==> !g.player1_folded && !g.player2_folded
}

/// A newly created hand satisfies the invariant.
pub proof fn lemma_created_invariant(
    g: GameState,
    player1: PlayerId,
    stake: u64,
    pk: EphemeralPubkey,
    root: [u8; 32],
    game_id: u64,
    now: i64,
)
    requires
        is_new_game(g, player1, stake, pk, root, game_id, now),
    ensures
        hand_invariant(g),
{
}

/// Joining keeps the invariant.
pub proof fn lemma_join_invariant(
    g: GameState,
    caller: PlayerId,
    balance: u64,
    pk: EphemeralPubkey,
    cards: [EncryptedCard; 9],
    now: i64,
)
    requires
        hand_invariant(g),
        join_error(g, caller, balance, pk.data@, cards) is None,
    ensures
        hand_invariant(joined(g, caller, pk, cards, now)),
{
    lemma_join_conserves(g, caller, pk, cards, now);
}

/// Every accepted betting action keeps the invariant.
pub proof fn lemma_bet_invariant(
    g: GameState,
    caller: PlayerId,
    action: PlayerActionType,
    raise: Option<u64>,
    now: i64,
)
    requires
        hand_invariant(g),
        bet_error(g, caller, action, raise) is None,
    ensures
        hand_invariant(after_bet(g, action, raise, now)),
{
    if 2 * g.stake_amount <= u64::MAX {
        lemma_bet_conserves(g, caller, action, raise, now);
    }
}

/// Ending a betting round keeps the invariant.
pub proof fn lemma_advance_invariant(g: GameState, now: i64)
    requires
        hand_invariant(g),
        advance_error(g) is None,
    ensures
        hand_invariant(ended_round(g, now)),
{
}

/// Both reveal steps keep the invariant, whatever shares and plaintexts
/// were stored.
pub proof fn lemma_reveal_invariant(g: GameState, h: GameState, now: i64)
    requires
        hand_invariant(g),
        is_reveal_step_a(g.stage) ==> h == (GameState {
            player1_flop_shares: h.player1_flop_shares,
            player1_turn_share: h.player1_turn_share,
            player1_river_share: h.player1_river_share,
            ..after_shares(g, now)
        }),
        is_reveal_step_b(g.stage) ==> h == (GameState {
            community_cards: h.community_cards,
            ..after_plaintexts(g, now)
        }),
        is_reveal_step_a(g.stage) || is_reveal_step_b(g.stage),
    ensures
        hand_invariant(h),
{
}

/// Showing pockets keeps the invariant.
pub proof fn lemma_resolve_invariant(g: GameState, seat: int, pocket: [u8; 2], now: i64)
    requires
        hand_invariant(g),
        g.stage == GameStage::Showdown || g.stage == GameStage::AwaitingPlayer2ShowdownReveal,
    ensures
        hand_invariant(
            GameState {
                reveal_deadline: add_clamped(now, g.action_timeout),
                stage: GameStage::AwaitingPlayer2ShowdownReveal,
                last_action_at: now,
                ..with_pocket(g, seat, pocket)
            },
        ),
        hand_invariant(after_showdown(with_pocket(g, seat, pocket))),
{
}

/// A timeout claim keeps the invariant.
pub proof fn lemma_claim_invariant(g: GameState, caller: PlayerId, now: i64)
    requires
        hand_invariant(g),
        claim_error(g, caller, now) is None,
    ensures
        hand_invariant(GameState { winner: Some(caller), stage: GameStage::Finished, ..g }),
{
}

} // verus!
