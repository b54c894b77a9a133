use polymarket_hft::types::{OrderSide, TokenSlot};

#[test]
fn order_side_codes_and_labels() {
    assert_eq!(OrderSide::Buy.as_u8(), 0);
    assert_eq!(OrderSide::Sell.as_u8(), 1);
    assert_eq!(OrderSide::Buy.as_str(), "BUY");
    assert_eq!(OrderSide::Sell.as_str(), "SELL");
}

#[test]
fn token_slot_flip_and_labels() {
    assert_eq!(TokenSlot::Up.flip(), TokenSlot::Down);
    assert_eq!(TokenSlot::Down.flip(), TokenSlot::Up);
    assert_eq!(TokenSlot::Up.flip().flip(), TokenSlot::Up);
    assert_eq!(TokenSlot::Up.as_str(), "UP");
    assert_eq!(TokenSlot::Down.as_str(), "DOWN");
    assert_eq!(TokenSlot::default(), TokenSlot::Up);
}
