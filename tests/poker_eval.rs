use tilt_poker::cards::{Card, HandRank};
use tilt_poker::poker::{check_straight, count_ranks, evaluate_hand, find_best_hand};

#[test]
fn test_royal_flush() {
    // A♠ K♠ Q♠ J♠ 10♠
    let hand = [51, 50, 49, 48, 47];
    let score = evaluate_hand(&hand);
    assert_eq!(score >> 20, 9);
}

#[test]
fn test_straight_flush() {
    // 9♠ 8♠ 7♠ 6♠ 5♠
    let hand = [46, 45, 44, 43, 42];
    let score = evaluate_hand(&hand);
    assert_eq!(score >> 20, 8);
}

#[test]
fn test_four_of_a_kind() {
    // A♠ A♥ A♦ A♣ K♠
    let hand = [51, 38, 25, 12, 50];
    let score = evaluate_hand(&hand);
    assert_eq!(score >> 20, 7);
}

#[test]
fn test_full_house() {
    // A♠ A♥ A♦ K♣ K♠
    let hand = [51, 38, 25, 11, 50];
    let score = evaluate_hand(&hand);
    assert_eq!(score >> 20, 6);
}

#[test]
fn exact_scores_of_each_category() {
    assert_eq!(evaluate_hand(&[51, 50, 49, 48, 47]), 0x9e0000);
    assert_eq!(evaluate_hand(&[46, 45, 44, 43, 42]), 0x890000);
    assert_eq!(evaluate_hand(&[51, 38, 25, 12, 50]), 0x7ed000);
    assert_eq!(evaluate_hand(&[51, 38, 25, 11, 50]), 0x6ed000);
    assert_eq!(evaluate_hand(&[0, 2, 4, 6, 9]), 0x5b8642);
    assert_eq!(evaluate_hand(&[0, 14, 28, 42, 4]), 0x460000);
    assert_eq!(evaluate_hand(&[0, 13, 26, 5, 9]), 0x32b700);
    assert_eq!(evaluate_hand(&[0, 13, 5, 18, 9]), 0x272b00);
    assert_eq!(evaluate_hand(&[0, 13, 5, 9, 11]), 0x12db70);
    assert_eq!(evaluate_hand(&[0, 15, 30, 45, 12]), 0x0e8642);
}

#[test]
fn wheel_straight_flush_is_five_high() {
    // A♣ 5♣ 4♣ 3♣ 2♣
    let wheel = evaluate_hand(&[12, 3, 2, 1, 0]);
    assert_eq!(wheel >> 20, 8);
    assert_eq!((wheel >> 16) & 0xf, 5);
    let six_high = evaluate_hand(&[0, 1, 2, 3, 4]);
    let royal = evaluate_hand(&[51, 50, 49, 48, 47]);
    assert!(wheel < six_high);
    assert!(six_high < royal);
}

#[test]
fn wheel_straight_in_mixed_suits() {
    assert_eq!(evaluate_hand(&[12, 16, 2, 1, 0]), 0x450000);
}

#[test]
fn card_order_does_not_matter() {
    assert_eq!(evaluate_hand(&[9, 5, 13, 0, 18]), evaluate_hand(&[0, 13, 5, 18, 9]));
}

#[test]
fn categories_order_hands() {
    let ladder = [
        [0, 15, 30, 45, 12],
        [0, 13, 5, 9, 11],
        [0, 13, 5, 18, 9],
        [0, 13, 26, 5, 9],
        [0, 14, 28, 42, 4],
        [0, 2, 4, 6, 9],
        [51, 38, 25, 11, 50],
        [51, 38, 25, 12, 50],
        [46, 45, 44, 43, 42],
        [51, 50, 49, 48, 47],
    ];
    for k in 0..ladder.len() {
        assert_eq!(evaluate_hand(&ladder[k]) >> 20, k as u32);
        assert_eq!(HandRank::from_code(k as u32).unwrap().code() as usize, k);
    }
    for k in 1..ladder.len() {
        assert!(evaluate_hand(&ladder[k - 1]) < evaluate_hand(&ladder[k]));
    }
    assert!(HandRank::from_code(10).is_none());
}

#[test]
fn same_ranks_in_other_suits_tie() {
    // pair of twos with A, K, Q kickers, in two suit layouts
    assert_eq!(evaluate_hand(&[0, 13, 12, 11, 10]), evaluate_hand(&[26, 39, 25, 24, 36]));
}

#[test]
fn best_of_seven_royal_beats_straight() {
    let community = [49, 48, 47, 27, 14];
    let (hand1, score1) = find_best_hand(&[51, 50], &community);
    let (hand2, score2) = find_best_hand(&[7, 6], &community);
    assert_eq!(score1, (9 << 20) | (14 << 16));
    assert_eq!(hand1, [51, 50, 49, 48, 47]);
    assert_eq!(score2, (4 << 20) | (12 << 16));
    assert_eq!(hand2, [7, 6, 49, 48, 47]);
    assert!(score1 > score2);
    assert_eq!(score1 >> 20, 9);
}

#[test]
fn check_straight_cases() {
    assert!(check_straight(&[12, 11, 10, 9, 8]));
    assert!(check_straight(&[12, 3, 2, 1, 0]));
    assert!(check_straight(&[4, 3, 2, 1, 0]));
    assert!(!check_straight(&[12, 11, 10, 9, 7]));
    assert!(!check_straight(&[3, 3, 2, 1, 0]));
}

#[test]
fn count_ranks_groups_by_count_then_rank() {
    assert_eq!(count_ranks(&[12, 12, 12, 11, 11]), vec![(12, 3), (11, 2)]);
    assert_eq!(count_ranks(&[5, 0, 5, 9, 3]), vec![(5, 2), (9, 1), (3, 1), (0, 1)]);
    assert_eq!(count_ranks(&[12, 11, 10, 9, 8]), vec![(12, 1), (11, 1), (10, 1), (9, 1), (8, 1)]);
    assert_eq!(count_ranks(&[]), vec![]);
    assert_eq!(count_ranks(&[200, 7, 7, 7, 200, 3, 7]), vec![(7, 4), (200, 2), (3, 1)]);
}

#[test]
fn card_codec() {
    assert_eq!(Card(51).rank(), 12);
    assert_eq!(Card(51).suit(), 3);
    assert_eq!(Card(51).rank_value(), 14);
    assert_eq!(Card(0).rank_value(), 2);
    assert_eq!(Card(13).suit(), 1);
}
