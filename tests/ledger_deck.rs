use tilt_poker::deck::{deal_card, initialize_deck};
use tilt_poker::errors::PokerError;
use tilt_poker::ledger::{
    credit_balance, deposit_funds, initialize_balance, initialize_player, update_player_stats,
    withdraw_funds,
};

#[test]
fn deposit_and_withdraw() {
    let mut b = initialize_balance([1u8; 32], 7);
    assert_eq!(b.balance, 0);
    assert_eq!(deposit_funds(&mut b, 0), Err(PokerError::InvalidDepositAmount));
    deposit_funds(&mut b, 500).unwrap();
    assert_eq!(b.balance, 500);
    assert_eq!(deposit_funds(&mut b, u64::MAX), Err(PokerError::InvalidDepositAmount));
    assert_eq!(b.balance, 500);
    assert_eq!(withdraw_funds(&mut b, 0), Err(PokerError::InvalidWithdrawalAmount));
    assert_eq!(withdraw_funds(&mut b, 501), Err(PokerError::InsufficientBalance));
    withdraw_funds(&mut b, 200).unwrap();
    assert_eq!(b.balance, 300);
    credit_balance(&mut b, u64::MAX);
    assert_eq!(b.balance, u64::MAX);
}

#[test]
fn stats_after_a_hand() {
    let mut a1 = initialize_player([1u8; 32], 1);
    let mut a2 = initialize_player([2u8; 32], 2);
    update_player_stats(&mut a1, &mut a2, 2, 0, 2200, 1000);
    assert_eq!((a1.total_hands_played, a1.total_hands_won, a1.total_winnings), (1, 0, -1000));
    assert_eq!((a2.total_hands_played, a2.total_hands_won, a2.total_winnings), (1, 1, 1200));
    update_player_stats(&mut a1, &mut a2, 0, 1100, 1100, 1000);
    assert_eq!((a1.total_hands_played, a1.total_hands_won, a1.total_winnings), (2, 0, -900));
    assert_eq!((a2.total_hands_played, a2.total_hands_won, a2.total_winnings), (2, 1, 1300));
}

fn is_permutation(deck: &[u8; 52]) -> bool {
    let mut seen = [false; 52];
    for &c in deck.iter() {
        if c >= 52 || seen[c as usize] {
            return false;
        }
        seen[c as usize] = true;
    }
    true
}

#[test]
fn shuffle_is_a_deterministic_permutation() {
    let a = initialize_deck([7u8; 32]);
    let b = initialize_deck([7u8; 32]);
    let c = initialize_deck([8u8; 32]);
    assert!(is_permutation(&a));
    assert!(is_permutation(&c));
    assert_eq!(a, b);
    assert_ne!(a, c);
    let ordered: Vec<u8> = (0..52).collect();
    assert_ne!(a.to_vec(), ordered);
}

#[test]
fn dealing_walks_the_deck() {
    let deck = initialize_deck([3u8; 32]);
    let mut next: u8 = 0;
    let first = deal_card(&deck, &mut next);
    let second = deal_card(&deck, &mut next);
    assert_eq!((first, second, next), (deck[0], deck[1], 2));
}
