use tilt_poker::cipher::{EncryptedCard, EphemeralPubkey};
use tilt_poker::errors::PokerError;
use tilt_poker::game::{GameStage, GameState, Payout, PlayerActionType};
use tilt_poker::ledger::{deposit_funds, initialize_balance, PlayerBalance};

const PLAYER1: [u8; 32] = [1u8; 32];
const PLAYER2: [u8; 32] = [2u8; 32];
const STRANGER: [u8; 32] = [3u8; 32];

fn key(k: u8) -> EphemeralPubkey {
    let mut data = [0u8; 32];
    data[31] = k;
    EphemeralPubkey { data }
}

fn funded(who: [u8; 32], amount: u64) -> PlayerBalance {
    let mut b = initialize_balance(who, 0);
    deposit_funds(&mut b, amount).unwrap();
    b
}

/// Slots 0-1 player 1's pocket, 2-3 player 2's pocket, 4-6 flop, 7 turn, 8 river.
const DEAL: [u8; 9] = [51, 50, 7, 6, 49, 48, 47, 27, 14];

fn encrypted(cards: [u8; 9]) -> [EncryptedCard; 9] {
    cards.map(|c| GameState::encrypt_card_bytes(&GameState::encrypt_card(c, &key(5)).data, &key(7)))
}

fn started() -> GameState {
    let mut b1 = funded(PLAYER1, 1100);
    let mut g = GameState::create_game(PLAYER1, &mut b1, 1000, key(5), [9u8; 32], 42, 100, [8u8; 32], 1, 2)
        .unwrap();
    assert_eq!(b1.balance, 0);
    let mut b2 = funded(PLAYER2, 1500);
    g.join_game(PLAYER2, &mut b2, key(7), encrypted(DEAL), 110).unwrap();
    assert_eq!(b2.balance, 400);
    g
}

fn shares(n: usize) -> Vec<EncryptedCard> {
    vec![EncryptedCard { data: [4u8; 32] }; n]
}

/// Calls and checks pre-flop, then moves to the flop's first reveal step.
fn to_flop_reveal(g: &mut GameState) {
    g.player_action(&PLAYER1, PlayerActionType::Call, None, 120).unwrap();
    g.player_action(&PLAYER2, PlayerActionType::Check, None, 130).unwrap();
    g.advance_street(140).unwrap();
    assert_eq!(g.stage, GameStage::AwaitingFlopReveal);
}

#[test]
fn create_and_join_post_blinds() {
    let g = started();
    assert_eq!(g.small_blind, 10);
    assert_eq!(g.big_blind, 20);
    assert_eq!(g.pot, 30);
    assert_eq!((g.player1_stack, g.player2_stack), (990, 980));
    assert_eq!((g.player1_current_bet, g.player2_current_bet), (10, 20));
    assert_eq!((g.player1_bond, g.player2_bond), (100, 100));
    assert_eq!(g.current_player, 1);
    assert_eq!(g.stage, GameStage::PreFlopBetting);
    assert_eq!(g.action_timeout, 60);
}

#[test]
fn create_game_refusals() {
    let mut b = funded(PLAYER1, 1099);
    let r = GameState::create_game(PLAYER1, &mut b, 1000, key(5), [9u8; 32], 1, 0, [8u8; 32], 0, 0);
    assert_eq!(r.err(), Some(PokerError::InsufficientBalanceToJoin));
    assert_eq!(b.balance, 1099);
    let r = GameState::create_game(PLAYER1, &mut b, 0, key(5), [9u8; 32], 1, 0, [8u8; 32], 0, 0);
    assert_eq!(r.err(), Some(PokerError::InvalidBetAmount));
    let r = GameState::create_game(PLAYER1, &mut b, 10, EphemeralPubkey::zero(), [9u8; 32], 1, 0, [8u8; 32], 0, 0);
    assert_eq!(r.err(), Some(PokerError::InvalidEphemeralKey));
    let r = GameState::create_game(PLAYER1, &mut b, 10, key(5), [0u8; 32], 1, 0, [8u8; 32], 0, 0);
    assert_eq!(r.err(), Some(PokerError::ZeroCommitment));
    let mut rich = funded(PLAYER1, u64::MAX);
    let r = GameState::create_game(PLAYER1, &mut rich, u64::MAX, key(5), [9u8; 32], 1, 0, [8u8; 32], 0, 0);
    assert_eq!(r.err(), Some(PokerError::InsufficientBalanceToJoin));
}

#[test]
fn join_game_refusals() {
    let mut b1 = funded(PLAYER1, 1100);
    let mut g = GameState::create_game(PLAYER1, &mut b1, 1000, key(5), [9u8; 32], 42, 100, [8u8; 32], 1, 2)
        .unwrap();
    let before = g;
    let mut own = funded(PLAYER1, 5000);
    assert_eq!(g.join_game(PLAYER1, &mut own, key(7), encrypted(DEAL), 1), Err(PokerError::CannotJoinOwnGame));
    let mut b2 = funded(PLAYER2, 5000);
    assert_eq!(g.join_game(PLAYER2, &mut b2, EphemeralPubkey::zero(), encrypted(DEAL), 1), Err(PokerError::InvalidEphemeralKey));
    let mut cards = encrypted(DEAL);
    cards[8] = EncryptedCard::zero();
    assert_eq!(g.join_game(PLAYER2, &mut b2, key(7), cards, 1), Err(PokerError::InvalidEncryptedCards));
    let mut poor = funded(PLAYER2, 1099);
    assert_eq!(g.join_game(PLAYER2, &mut poor, key(7), encrypted(DEAL), 1), Err(PokerError::InsufficientBalanceToJoin));
    assert_eq!(poor.balance, 1099);
    assert_eq!(b2.balance, 5000);
    assert_eq!(g.pot, before.pot);
    assert_eq!(g.stage, GameStage::WaitingForPlayer2);
    g.join_game(PLAYER2, &mut b2, key(7), encrypted(DEAL), 1).unwrap();
    let mut b3 = funded(STRANGER, 5000);
    assert_eq!(g.join_game(STRANGER, &mut b3, key(9), encrypted(DEAL), 1), Err(PokerError::InvalidGameStage));
}

#[test]
fn fold_preflop_pays_everything_to_opponent() {
    let mut g = started();
    let payout = g.player_action(&PLAYER1, PlayerActionType::Fold, None, 120).unwrap();
    assert_eq!(g.stage, GameStage::Finished);
    assert_eq!(g.winner, Some(PLAYER2));
    assert!(g.player1_folded);
    // player 2 gets back its own 1000 + 100 and takes player 1's 1000 + 100
    assert_eq!(payout, Some(Payout { player1: 0, player2: 2200 }));
    assert_eq!(g.player_action(&PLAYER2, PlayerActionType::Check, None, 121), Err(PokerError::InvalidGameStage));
    assert_eq!(g.claim_timeout(&PLAYER2, 1000), Err(PokerError::InvalidGameStage));
}

#[test]
fn turn_and_stage_checks() {
    let mut g = started();
    assert_eq!(g.player_action(&PLAYER2, PlayerActionType::Check, None, 120), Err(PokerError::NotYourTurn));
    assert_eq!(g.player_action(&STRANGER, PlayerActionType::Check, None, 120), Err(PokerError::NotYourTurn));
    assert_eq!(g.player_action(&PLAYER1, PlayerActionType::Check, None, 120), Err(PokerError::InvalidAction));
    assert_eq!(g.player_action(&PLAYER1, PlayerActionType::NoAction, None, 120), Err(PokerError::InvalidAction));
    assert_eq!(g.player_action(&PLAYER1, PlayerActionType::Raise, None, 120), Err(PokerError::InvalidBetAmount));
    assert_eq!(g.player_action(&PLAYER1, PlayerActionType::Raise, Some(981), 120), Err(PokerError::InsufficientFunds));
    assert_eq!(g.advance_street(120), Err(PokerError::BettingRoundNotComplete));
    assert_eq!(g.current_player, 1);
    g.player_action(&PLAYER1, PlayerActionType::Call, None, 120).unwrap();
    assert_eq!(g.current_player, 2);
    assert_eq!((g.player1_current_bet, g.player1_stack, g.pot), (20, 980, 40));
}

#[test]
fn min_raise_rejection() {
    let mut g = started();
    // player 1 puts in 10 to call and raises 10 on top
    g.player_action(&PLAYER1, PlayerActionType::Raise, Some(10), 120).unwrap();
    assert_eq!((g.player1_current_bet, g.player1_stack, g.pot), (30, 970, 50));
    let before = (g.pot, g.player2_stack, g.player2_current_bet, g.current_player);
    assert_eq!(g.player_action(&PLAYER2, PlayerActionType::Raise, Some(5), 130), Err(PokerError::MinimumRaiseNotMet));
    assert_eq!((g.pot, g.player2_stack, g.player2_current_bet, g.current_player), before);
    g.player_action(&PLAYER2, PlayerActionType::Raise, Some(10), 130).unwrap();
    assert_eq!((g.player2_current_bet, g.player2_stack, g.pot), (40, 960, 70));
}

#[test]
fn all_in_and_short_call() {
    let mut g = started();
    g.player_action(&PLAYER1, PlayerActionType::AllIn, None, 120).unwrap();
    assert!(g.player1_all_in);
    assert_eq!((g.player1_current_bet, g.player1_stack, g.pot), (1000, 0, 1020));
    // player 2 still has a bet to answer
    assert!(!g.is_betting_round_complete());
    assert_eq!(g.advance_street(125), Err(PokerError::BettingRoundNotComplete));
    g.player_action(&PLAYER2, PlayerActionType::Call, None, 130).unwrap();
    // player 2 has exactly the 980 needed behind: a plain call
    assert_eq!((g.player2_current_bet, g.player2_stack, g.pot), (1000, 0, 2000));
    assert!(g.is_betting_round_complete());
    assert_eq!(g.pot + g.player1_stack + g.player2_stack, 2 * g.stake_amount);
}

#[test]
fn reveal_mismatch_then_timeout_claim() {
    let mut g = started();
    to_flop_reveal(&mut g);
    assert_eq!(g.reveal_community_cards(&PLAYER2, shares(3), None, 150), Err(PokerError::NotYourTurn));
    assert_eq!(g.reveal_community_cards(&PLAYER1, shares(2), None, 150), Err(PokerError::MissingDecryptionShares));
    g.reveal_community_cards(&PLAYER1, shares(3), None, 150).unwrap();
    assert_eq!(g.stage, GameStage::AwaitingPlayer2FlopShare);
    assert_eq!(g.reveal_deadline, 210);
    let before = (g.stage, g.community_cards, g.community_cards_revealed, g.last_action_at);
    assert_eq!(
        g.reveal_community_cards(&PLAYER2, shares(3), Some(vec![0, 1, 2]), 160),
        Err(PokerError::CardVerificationFailed)
    );
    assert_eq!((g.stage, g.community_cards, g.community_cards_revealed, g.last_action_at), before);
    assert_eq!(g.claim_timeout(&PLAYER1, 205), Err(PokerError::TimeoutNotReached));
    assert_eq!(g.claim_timeout(&PLAYER2, 300), Err(PokerError::NotYourTurn));
    let payout = g.claim_timeout(&PLAYER1, 300).unwrap();
    assert_eq!(payout, Payout { player1: 2200, player2: 0 });
    assert_eq!(g.stage, GameStage::Finished);
    assert_eq!(g.winner, Some(PLAYER1));
}

#[test]
fn timeout_in_turn_reveal() {
    let mut g = started();
    to_flop_reveal(&mut g);
    g.reveal_community_cards(&PLAYER1, shares(3), None, 150).unwrap();
    assert_eq!(
        g.reveal_community_cards(&PLAYER2, shares(3), Some(vec![49, 48]), 160),
        Err(PokerError::InvalidCommunityCards)
    );
    g.reveal_community_cards(&PLAYER2, shares(3), Some(vec![49, 48, 47]), 160).unwrap();
    assert_eq!(g.stage, GameStage::PostFlopBetting);
    assert_eq!(g.community_cards_revealed, 3);
    assert_eq!(g.community_cards[..3], [49, 48, 47]);
    // the big blind (player 2) acts first after the flop
    assert_eq!(g.current_player, 2);
    assert_eq!((g.player1_current_bet, g.player2_current_bet), (0, 0));
    g.player_action(&PLAYER2, PlayerActionType::Check, None, 170).unwrap();
    g.player_action(&PLAYER1, PlayerActionType::Check, None, 180).unwrap();
    g.advance_street(190).unwrap();
    assert_eq!(g.stage, GameStage::AwaitingTurnReveal);
    g.reveal_community_cards(&PLAYER1, shares(1), None, 200).unwrap();
    assert_eq!(g.stage, GameStage::AwaitingPlayer2TurnShare);
    assert_eq!(g.claim_timeout(&PLAYER1, 250), Err(PokerError::TimeoutNotReached));
    let payout = g.claim_timeout(&PLAYER1, 261).unwrap();
    assert_eq!(payout.player1, g.pot + 980 + 980 + 200);
    assert_eq!(payout.player2, 0);
    assert_eq!(g.stage, GameStage::Finished);
    assert_eq!(g.winner, Some(PLAYER1));
}

#[test]
fn full_hand_to_showdown() {
    let mut g = started();
    to_flop_reveal(&mut g);
    g.reveal_community_cards(&PLAYER1, shares(3), None, 150).unwrap();
    g.reveal_community_cards(&PLAYER2, shares(3), Some(vec![49, 48, 47]), 160).unwrap();
    for (street, card, t) in [(GameStage::AwaitingTurnReveal, 27u8, 200i64), (GameStage::AwaitingRiverReveal, 14u8, 300i64)] {
        g.player_action(&PLAYER2, PlayerActionType::Check, None, t).unwrap();
        g.player_action(&PLAYER1, PlayerActionType::Check, None, t + 1).unwrap();
        g.advance_street(t + 2).unwrap();
        assert_eq!(g.stage, street);
        g.reveal_community_cards(&PLAYER1, shares(1), None, t + 3).unwrap();
        g.reveal_community_cards(&PLAYER2, shares(1), Some(vec![card]), t + 4).unwrap();
    }
    assert_eq!(g.community_cards, [49, 48, 47, 27, 14]);
    assert_eq!(g.community_cards_revealed, 5);
    g.player_action(&PLAYER2, PlayerActionType::Check, None, 400).unwrap();
    g.player_action(&PLAYER1, PlayerActionType::Check, None, 401).unwrap();
    g.advance_street(402).unwrap();
    assert_eq!(g.stage, GameStage::Showdown);
    assert_eq!(g.resolve_hand(&STRANGER, [1, 2], 403), Err(PokerError::NotYourTurn));
    assert_eq!(g.resolve_hand(&PLAYER1, [51, 49], 403), Err(PokerError::CardVerificationFailed));
    assert_eq!(g.resolve_hand(&PLAYER1, [51, 50], 403), Ok(None));
    assert_eq!(g.stage, GameStage::AwaitingPlayer2ShowdownReveal);
    assert_eq!(g.resolve_hand(&PLAYER1, [51, 50], 404), Err(PokerError::AlreadyRevealedHand));
    let payout = g.resolve_hand(&PLAYER2, [7, 6], 405).unwrap().unwrap();
    assert_eq!(g.stage, GameStage::Finished);
    assert_eq!(g.winner, Some(PLAYER1));
    assert_eq!(g.winning_hand_rank, Some(9));
    // the winner takes the pot and both unbet stacks; the loser keeps only the bond
    assert_eq!(payout, Payout { player1: 40 + 980 + 980 + 100, player2: 100 });
}

#[test]
fn equal_hands_split_the_pot() {
    // both players play the board: A-K-Q-J-10 of spades
    let mut b1 = funded(PLAYER1, 1100);
    let mut g = GameState::create_game(PLAYER1, &mut b1, 1000, key(5), [9u8; 32], 43, 100, [8u8; 32], 1, 2).unwrap();
    let deal = [0u8, 1, 15, 16, 51, 50, 49, 48, 47];
    let mut b2 = funded(PLAYER2, 1100);
    g.join_game(PLAYER2, &mut b2, key(7), encrypted(deal), 110).unwrap();
    g.player_action(&PLAYER1, PlayerActionType::Raise, Some(10), 120).unwrap();
    g.player_action(&PLAYER2, PlayerActionType::Call, None, 121).unwrap();
    assert_eq!(g.pot, 60);
    g.advance_street(122).unwrap();
    g.reveal_community_cards(&PLAYER1, shares(3), None, 123).unwrap();
    g.reveal_community_cards(&PLAYER2, shares(3), Some(vec![51, 50, 49]), 124).unwrap();
    g.player_action(&PLAYER2, PlayerActionType::Check, None, 125).unwrap();
    g.player_action(&PLAYER1, PlayerActionType::Check, None, 126).unwrap();
    for (card, t) in [(48u8, 200i64), (47u8, 300i64)] {
        g.advance_street(t).unwrap();
        g.reveal_community_cards(&PLAYER1, shares(1), None, t + 1).unwrap();
        g.reveal_community_cards(&PLAYER2, shares(1), Some(vec![card]), t + 2).unwrap();
        g.player_action(&PLAYER2, PlayerActionType::Check, None, t + 3).unwrap();
        g.player_action(&PLAYER1, PlayerActionType::Check, None, t + 4).unwrap();
    }
    g.advance_street(400).unwrap();
    assert_eq!(g.resolve_hand(&PLAYER2, [15, 16], 401), Ok(None));
    let mut odd = g;
    let payout = g.resolve_hand(&PLAYER1, [0, 1], 402).unwrap().unwrap();
    assert_eq!(g.winner, None);
    assert_eq!(g.winning_hand_rank, None);
    // pot 60 and stacks 970 + 970 split evenly, each adding their own bond
    assert_eq!(payout, Payout { player1: 1000 + 100, player2: 1000 + 100 });
    // with an odd total the dealer (player 1) gets the extra chip
    odd.pot = 61;
    let payout = odd.resolve_hand(&PLAYER1, [0, 1], 402).unwrap().unwrap();
    assert_eq!(payout, Payout { player1: 1001 + 100, player2: 1000 + 100 });
}

#[test]
fn helpers_on_state() {
    let g = started();
    assert!(g.is_player_turn(&PLAYER1));
    assert!(!g.is_player_turn(&PLAYER2));
    assert_eq!(g.get_other_player(&PLAYER1), PLAYER2);
    assert_eq!(g.get_other_player(&PLAYER2), PLAYER1);
    assert!(!g.is_betting_round_complete());
    assert!(g.verify_card(51, &g.encrypted_cards[0]));
    assert!(!g.verify_card(50, &g.encrypted_cards[0]));
}

#[test]
fn capped_raise_keeps_excess_in_stack() {
    let mut g = started();
    g.stage = GameStage::PostFlopBetting;
    g.current_player = 1;
    g.player1_current_bet = 0;
    g.player2_current_bet = 10;
    g.player1_stack = 100;
    g.player2_stack = 0;
    g.player2_all_in = true;
    g.pot = 500;
    g.player_action(&PLAYER1, PlayerActionType::Raise, Some(50), 120).unwrap();
    // the opponent can only match 10: that is all that leaves the stack
    assert_eq!(g.player1_current_bet, 10);
    assert_eq!(g.player1_stack, 90);
    assert_eq!(g.pot, 510);
    assert!(!g.player1_all_in);
}

#[test]
fn short_all_in_raise_marks_all_in() {
    let mut g = started();
    // player 1 calls 10 and raises the 980 left behind: the stack is empty
    g.player_action(&PLAYER1, PlayerActionType::Raise, Some(980), 120).unwrap();
    assert_eq!((g.player1_current_bet, g.player1_stack, g.pot), (1000, 0, 1020));
    assert!(g.player1_all_in);
}

#[test]
fn advancing_closes_out_the_bets() {
    let mut g = started();
    g.player_action(&PLAYER1, PlayerActionType::Call, None, 120).unwrap();
    g.player_action(&PLAYER2, PlayerActionType::Check, None, 130).unwrap();
    g.advance_street(140).unwrap();
    assert_eq!((g.player1_current_bet, g.player2_current_bet, g.pot), (0, 0, 40));
}
