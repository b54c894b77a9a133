//! Order sides and token slots.

use vstd::prelude::*;

verus! {

/// Side of an order: BUY is encoded as 0, SELL as 1.
#[derive(Debug, Clone, Copy, PartialEq, Eq, Hash, Structural)]
pub enum OrderSide {
    Buy,
    Sell,
}

/// Wire code of an order side.
pub open spec fn order_side_code(side: OrderSide) -> u8 {
    match side {
        OrderSide::Buy => 0,
        OrderSide::Sell => 1,
    }
}

/// Display label of an order side.
pub open spec fn order_side_label(side: OrderSide) -> Seq<char> {
    match side {
        OrderSide::Buy => "BUY"@,
        OrderSide::Sell => "SELL"@,
    }
}

impl OrderSide {
    /// The wire code: 0 for BUY, 1 for SELL.
    pub fn as_u8(self) -> (code: u8)
        ensures
            code == order_side_code(self),
    {
        match self {
            OrderSide::Buy => 0,
            OrderSide::Sell => 1,
        }
    }

    pub fn as_str(self) -> (s: &'static str)
        ensures
            s@ == order_side_label(self),
    {
        match self {
            OrderSide::Buy => {
                proof { reveal_strlit("BUY"); }
                "BUY"
            },
            OrderSide::Sell => {
                proof { reveal_strlit("SELL"); }
                "SELL"
            },
        }
    }
}

/// The UP or DOWN token of a binary market.
#[derive(Debug, Clone, Copy, PartialEq, Eq, Hash, Structural)]
pub enum TokenSlot {
    Up,
    Down,
}

/// The opposite token slot.
pub open spec fn opposite_slot(slot: TokenSlot) -> TokenSlot {
    match slot {
        TokenSlot::Up => TokenSlot::Down,
        TokenSlot::Down => TokenSlot::Up,
    }
}

/// Display label of a token slot.
pub open spec fn token_slot_label(slot: TokenSlot) -> Seq<char> {
    match slot {
        TokenSlot::Up => "UP"@,
        TokenSlot::Down => "DOWN"@,
    }
}

impl Default for TokenSlot {
    /// The default slot is UP.
    fn default() -> (slot: TokenSlot)
        ensures
            slot == TokenSlot::Up,
    {
        TokenSlot::Up
    }
}

impl TokenSlot {
    pub fn flip(self) -> (other: TokenSlot)
        ensures
            other == opposite_slot(self),
    {
        match self {
            TokenSlot::Up => TokenSlot::Down,
            TokenSlot::Down => TokenSlot::Up,
        }
    }

    pub fn as_str(self) -> (s: &'static str)
        ensures
            s@ == token_slot_label(self),
    {
        match self {
            TokenSlot::Up => {
                proof { reveal_strlit("UP"); }
                "UP"
            },
            TokenSlot::Down => {
                proof { reveal_strlit("DOWN"); }
                "DOWN"
            },
        }
    }
}

/// Flipping a token slot twice gives it back, and a flip never keeps the slot.
pub proof fn lemma_flip_involution(slot: TokenSlot)
    ensures
        opposite_slot(opposite_slot(slot)) == slot,
        opposite_slot(slot) != slot,
{
}

/// Distinct order sides have distinct wire codes and distinct labels.
pub proof fn lemma_order_side_codes_distinct(a: OrderSide, b: OrderSide)
    ensures
        order_side_code(a) == order_side_code(b) <==> a == b,
        order_side_label(a) == order_side_label(b) <==> a == b,
{
    reveal_strlit("BUY");
    reveal_strlit("SELL");
    if a != b {
        assert(order_side_label(a).len() != order_side_label(b).len());
    }
}

} // verus!
