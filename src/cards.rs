//! Cards are the integers `0..=51`: `rank = c % 13` (0 is a two, 12 an ace)
//! and `suit = c / 13`.
use vstd::prelude::*;

verus! {

/// Rank of a card code: 0 for a two up to 12 for an ace.
pub open spec fn rank_of(c: u8) -> int {
    c as int % 13
}

/// Suit of a card code.
pub open spec fn suit_of(c: u8) -> int {
    c as int / 13
}

/// Rank value used for comparison: 2 for a two up to 14 for an ace.
pub open spec fn value_of(c: u8) -> int {
    rank_of(c) + 2
}

/// A card, encoded as `0..=51`.
#[derive(Clone, Copy, PartialEq, Eq, Structural, Debug)]
pub struct Card(pub u8);

impl Card {
    pub fn rank(self) -> (r: u8)
        ensures
            r == rank_of(self.0),
    {
        self.0 % 13
    }

    pub fn suit(self) -> (s: u8)
        ensures
            s == suit_of(self.0),
    {
        self.0 / 13
    }

    pub fn rank_value(self) -> (v: u8)
        ensures
            v == value_of(self.0),
            2 <= v <= 14,
    {
        self.rank() + 2
    }
}

/// Hand categories, weakest first; the category is the top nibble of a score.
#[derive(Clone, Copy, PartialEq, Eq, Structural, Debug)]
pub enum HandRank {
    HighCard,
    OnePair,
    TwoPair,
    ThreeOfAKind,
    Straight,
    Flush,
    FullHouse,
    FourOfAKind,
    StraightFlush,
    RoyalFlush,
}

impl HandRank {
    pub open spec fn spec_code(self) -> int {
        match self {
            HandRank::HighCard => 0,
            HandRank::OnePair => 1,
            HandRank::TwoPair => 2,
            HandRank::ThreeOfAKind => 3,
            HandRank::Straight => 4,
            HandRank::Flush => 5,
            HandRank::FullHouse => 6,
            HandRank::FourOfAKind => 7,
            HandRank::StraightFlush => 8,
            HandRank::RoyalFlush => 9,
        }
    }

    /// The category's number, as it stands in a score's top nibble.
    pub fn code(self) -> (c: u8)
        ensures
            c == self.spec_code(),
    {
        match self {
            HandRank::HighCard => 0,
            HandRank::OnePair => 1,
            HandRank::TwoPair => 2,
            HandRank::ThreeOfAKind => 3,
            HandRank::Straight => 4,
            HandRank::Flush => 5,
            HandRank::FullHouse => 6,
            HandRank::FourOfAKind => 7,
            HandRank::StraightFlush => 8,
            HandRank::RoyalFlush => 9,
        }
    }

    /// The category with the given number, if there is one.
    pub fn from_code(c: u32) -> (r: Option<HandRank>)
        ensures
            c <= 9 <==> r is Some,
            r is Some ==> r->0.spec_code() == c,
    {
        match c {
            0 => Some(HandRank::HighCard),
            1 => Some(HandRank::OnePair),
            2 => Some(HandRank::TwoPair),
            3 => Some(HandRank::ThreeOfAKind),
            4 => Some(HandRank::Straight),
            5 => Some(HandRank::Flush),
            6 => Some(HandRank::FullHouse),
            7 => Some(HandRank::FourOfAKind),
            8 => Some(HandRank::StraightFlush),
            9 => Some(HandRank::RoyalFlush),
            _ => None,
        }
    }
}

} // verus!
