use tilt_poker::table::{
    BettingRound, Game, GameError, HandStage, PartiallyDecryptedCard, ProofType, ZkProof,
};

fn table() -> Game {
    let mut g = Game::default();
    g.players = [[1u8; 32], [2u8; 32]];
    g.player_stacks = [1000, 1000];
    g.small_blind = 5;
    g.big_blind = 10;
    g.action_timeout = 60;
    g
}

#[test]
fn dealer_alternates_between_hands() {
    let mut g = table();
    g.init_new_hand(100);
    assert_eq!(g.current_hand_id, 1);
    assert_eq!(g.hand.dealer_index, 0);
    assert_eq!(g.hand.current_turn_index, 1);
    assert_eq!(g.hand.action_deadline, 160);
    assert_eq!(g.hand.stage, HandStage::WaitingForHandCreation);
    g.init_new_hand(200);
    assert_eq!(g.hand.dealer_index, 1);
    assert_eq!(g.hand.current_turn_index, 0);
    g.init_new_hand(300);
    assert_eq!(g.hand.dealer_index, 0);
    assert_eq!(g.current_hand_id, 3);
}

#[test]
fn seats_and_turns() {
    let mut g = table();
    g.init_new_hand(0);
    assert_eq!(g.get_player(1), Ok([2u8; 32]));
    assert_eq!(g.get_player(2), Err(GameError::InvalidPlayerIndex));
    assert_eq!(g.get_player_index(&[2u8; 32]), Ok(1));
    assert_eq!(g.get_player_index(&[3u8; 32]), Err(GameError::InvalidPlayer));
    assert_eq!(g.is_player_turn(&[2u8; 32]), Ok(true));
    assert_eq!(g.is_player_turn(&[1u8; 32]), Ok(false));
    g.switch_turn();
    assert_eq!(g.is_player_turn(&[1u8; 32]), Ok(true));
    assert!(!g.is_timeout_exceeded(60));
    assert!(g.is_timeout_exceeded(61));
}

#[test]
fn blinds_rounds_and_pot() {
    let mut g = table();
    g.init_new_hand(0);
    g.post_blinds().unwrap();
    assert_eq!(g.player_stacks, [995, 990]);
    assert_eq!(g.hand.bets, [5, 10]);
    assert_eq!(g.hand.pot, 15);
    assert!(!g.is_betting_round_complete());
    g.advance_betting_round();
    assert_eq!(g.hand.bets, [0, 0]);
    assert_eq!(g.hand.betting_round, BettingRound::Flop);
    assert_eq!(g.hand.stage, HandStage::FlopBetting);
    assert!(g.is_betting_round_complete());
    g.advance_betting_round();
    g.advance_betting_round();
    g.advance_betting_round();
    assert_eq!(g.hand.betting_round, BettingRound::River);
    assert_eq!(g.hand.stage, HandStage::RiverBetting);
    g.split_pot();
    // 15 split: the dealer (seat 0) gets the odd chip
    assert_eq!(g.player_stacks, [1003, 997]);
    assert_eq!(g.hand.pot, 0);
    let mut short = table();
    short.player_stacks = [4, 1000];
    short.init_new_hand(0);
    assert_eq!(short.post_blinds(), Err(GameError::InsufficientStack));
    assert_eq!(short.player_stacks, [4, 1000]);
}

#[test]
fn award_pot_to_winner() {
    let mut g = table();
    g.init_new_hand(0);
    g.post_blinds().unwrap();
    assert_eq!(g.award_pot(2), Err(GameError::InvalidPlayerIndex));
    g.award_pot(1).unwrap();
    assert_eq!(g.player_stacks, [995, 1005]);
    assert_eq!(g.hand.pot, 0);
}

#[test]
fn slots_fill_in_order_and_run_out() {
    let mut g = table();
    g.init_new_hand(0);
    for k in 0..20u8 {
        g.store_proof(ProofType::CardDecryption { card_index: k }, 1, ZkProof { proof_data: vec![k] }, 5)
            .unwrap();
    }
    assert_eq!(
        g.store_proof(ProofType::Reshuffle, 0, ZkProof { proof_data: vec![] }, 6),
        Err(GameError::MaxProofsReached)
    );
    assert_eq!(g.hand.stored_proofs[3].as_ref().unwrap().proof.proof_data, vec![3]);
    for k in 0..9u8 {
        g.reveal_card(k, PartiallyDecryptedCard { data: vec![k, k] }).unwrap();
    }
    assert_eq!(g.reveal_card(9, PartiallyDecryptedCard { data: vec![] }), Err(GameError::MaxCardsReached));
    assert_eq!(g.hand.revealed_cards[8].as_ref().unwrap().0, 8);
    assert_eq!(g.finalize_community_card(5, 1), Err(GameError::InvalidCardPosition));
    g.finalize_community_card(4, 33).unwrap();
    assert_eq!(g.hand.community_cards[4], Some(33));
    assert_eq!(g.reveal_pocket_cards(2, [1, 2]), Err(GameError::InvalidPlayerIndex));
    g.reveal_pocket_cards(1, [1, 2]).unwrap();
    assert_eq!(g.hand.pocket_cards[1], Some([1, 2]));
    assert!(g.hand.player_revealed_showdown[1]);
}
