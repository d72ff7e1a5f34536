//! Player balances held by the escrow, and per-player statistics.
use vstd::prelude::*;
use crate::errors::PokerError;
use crate::game::PlayerId;

verus! {

/// Funds a player holds with the arbiter, in the token's smallest unit.
#[derive(Clone, Copy, PartialEq, Eq, Debug)]
pub struct PlayerBalance {
    pub authority: PlayerId,
    pub balance: u64,
    pub bump: u8,
}

/// A player's record across hands.
#[derive(Clone, Copy, PartialEq, Eq, Debug)]
pub struct PlayerAccount {
    pub authority: PlayerId,
    pub total_hands_played: u64,
    pub total_hands_won: u64,
    pub total_winnings: i64,
    pub bump: u8,
}

/// A fresh record for `authority`.
pub fn initialize_player(authority: PlayerId, bump: u8) -> (r: PlayerAccount)
    ensures
        r == (PlayerAccount {
            authority,
            total_hands_played: 0,
            total_hands_won: 0,
            total_winnings: 0,
            bump,
        }),
{
    PlayerAccount { authority, total_hands_played: 0, total_hands_won: 0, total_winnings: 0, bump }
}

/// An empty balance for `authority`.
pub fn initialize_balance(authority: PlayerId, bump: u8) -> (r: PlayerBalance)
    ensures
        r == (PlayerBalance { authority, balance: 0, bump }),
{
    PlayerBalance { authority, balance: 0, bump }
}

/// Adds a deposit; refused when it is zero or would overflow the balance.
pub fn deposit_funds(account: &mut PlayerBalance, amount: u64) -> (r: Result<(), PokerError>)
    ensures
        r is Ok <==> amount > 0 && old(account).balance + amount <= u64::MAX,
        r is Ok ==> *final(account) == (PlayerBalance {
            balance: (old(account).balance + amount) as u64,
            ..*old(account)
        }),
        r is Err ==> r == Err::<(), PokerError>(PokerError::InvalidDepositAmount) && *final(account)
            == *old(account),
{
    if amount == 0 {
        return Err(PokerError::InvalidDepositAmount);
    }
    match account.balance.checked_add(amount) {
        Some(b) => {
            account.balance = b;
            Ok(())
        },
        None => Err(PokerError::InvalidDepositAmount),
    }
}

/// Takes a withdrawal out; refused when it is zero or exceeds the balance.
pub fn withdraw_funds(account: &mut PlayerBalance, amount: u64) -> (r: Result<(), PokerError>)
    ensures
        amount == 0 ==> r == Err::<(), PokerError>(PokerError::InvalidWithdrawalAmount),
        amount > 0 && amount > old(account).balance ==> r == Err::<(), PokerError>(
            PokerError::InsufficientBalance,
        ),
        amount > 0 && amount <= old(account).balance ==> r is Ok,
        r is Ok ==> *final(account) == (PlayerBalance {
            balance: (old(account).balance - amount) as u64,
            ..*old(account)
        }),
        r is Err ==> *final(account) == *old(account),
{
    if amount == 0 {
        return Err(PokerError::InvalidWithdrawalAmount);
    }
    if account.balance < amount {
        return Err(PokerError::InsufficientBalance);
    }
    account.balance = account.balance - amount;
    Ok(())
}

/// Credits a payout; the balance saturates rather than overflow.
pub fn credit_balance(account: &mut PlayerBalance, amount: u64)
    ensures
        *final(account) == (PlayerBalance {
            balance: old(account).balance.saturating_add(amount),
            ..*old(account)
        }),
{
    account.balance = account.balance.saturating_add(amount);
}

/// `a + b` clamped to the range of `i64`.
pub open spec fn clamp_i64(x: int) -> i64 {
    if x > i64::MAX {
        i64::MAX
    } else if x < i64::MIN {
        i64::MIN
    } else {
        x as i64
    }
}

/// A player's record after a hand that paid them `credit` for a `stake`.
pub open spec fn record_after(a: PlayerAccount, won: bool, credit: u64, stake: u64) -> PlayerAccount {
    PlayerAccount {
        total_hands_played: a.total_hands_played.saturating_add(1),
        total_hands_won: if won {
            a.total_hands_won.saturating_add(1)
        } else {
            a.total_hands_won
        },
        total_winnings: clamp_i64(a.total_winnings + credit - stake),
        ..a
    }
}

fn record_hand(a: &mut PlayerAccount, won: bool, credit: u64, stake: u64)
    ensures
        *final(a) == record_after(*old(a), won, credit, stake),
{
    a.total_hands_played = a.total_hands_played.saturating_add(1);
    if won {
        a.total_hands_won = a.total_hands_won.saturating_add(1);
    }
    let net: i128 = a.total_winnings as i128 + credit as i128 - stake as i128;
    a.total_winnings = if net > i64::MAX as i128 {
        i64::MAX
    } else if net < i64::MIN as i128 {
        i64::MIN
    } else {
        net as i64
    };
}

/// Both players' records after a settled hand: each played one more hand,
/// the winner (1 or 2; any other value for a split) won one more, and each
/// player's winnings moved by what they were paid less their stake.
pub fn update_player_stats(
    player1_account: &mut PlayerAccount,
    player2_account: &mut PlayerAccount,
    winner: u8,
    p1_win: u64,
    p2_win: u64,
    stake: u64,
)
    ensures
        *final(player1_account) == record_after(*old(player1_account), winner == 1, p1_win, stake),
        *final(player2_account) == record_after(*old(player2_account), winner == 2, p2_win, stake),
{
    record_hand(player1_account, winner == 1, p1_win, stake);
    record_hand(player2_account, winner == 2, p2_win, stake);
}

} // verus!
