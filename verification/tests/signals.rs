use polymarket_hft::signals::{
    asset_code_from_lowercase, asset_str, encode_asset, log_channel, LogEvent, LogLevel,
    SignalSide, LOG_CHANNEL_CAP,
};
use polymarket_hft::types::OrderSide;

#[test]
fn test_signal_side_as_order_side() {
    assert_eq!(SignalSide::Buy.as_order_side(), Some(OrderSide::Buy));
    assert_eq!(SignalSide::Sell.as_order_side(), Some(OrderSide::Sell));
    assert_eq!(SignalSide::CancelAll.as_order_side(), None);
}

#[test]
fn test_log_channel_send_recv() {
    let (tx, rx) = log_channel();
    tx.send(LogEvent {
        level: LogLevel::Info,
        module: "executor",
        message: "test".into(),
        fields: vec![],
        timestamp_ms: 0,
    })
    .unwrap();
    let event = rx.recv().unwrap();
    assert_eq!(event.module, "executor");
}

#[test]
fn log_channel_is_bounded() {
    let (tx, rx) = log_channel();
    assert_eq!(tx.capacity(), Some(LOG_CHANNEL_CAP));
    assert_eq!(rx.capacity(), Some(1024));
}

#[test]
fn signal_side_labels() {
    assert_eq!(SignalSide::Buy.as_str(), "BUY");
    assert_eq!(SignalSide::Sell.as_str(), "SELL");
    assert_eq!(SignalSide::CancelAll.as_str(), "CANCEL_ALL");
    assert_eq!(SignalSide::Buy.as_str(), OrderSide::Buy.as_str());
    assert_eq!(SignalSide::Sell.as_str(), OrderSide::Sell.as_str());
}

#[test]
fn asset_codes_are_lowercase_and_truncated() {
    assert_eq!(encode_asset("btc"), *b"btc\0");
    assert_eq!(encode_asset("BTC"), *b"btc\0");
    assert_eq!(encode_asset("DOGE"), *b"doge");
    assert_eq!(encode_asset("solana"), *b"sola");
    assert_eq!(encode_asset(""), [0, 0, 0, 0]);
    assert_eq!(asset_code_from_lowercase("ETH"), *b"ETH\0");
}

#[test]
fn asset_names_read_back() {
    assert_eq!(asset_str(&encode_asset("btc")), "btc");
    assert_eq!(asset_str(&encode_asset("Eth")), "eth");
    assert_eq!(asset_str(b"sola"), "sola");
    assert_eq!(asset_str(&[0, b'x', 0, 0]), "");
    // A multi-byte character cut by the four-byte limit reads back as empty.
    assert_eq!(asset_str(&encode_asset("abcé")), "");
    assert_eq!(asset_str(&encode_asset("abé")), "abé");
}

#[test]
fn only_cancel_all_cancels() {
    assert!(SignalSide::CancelAll.is_cancel_all());
    assert!(!SignalSide::Buy.is_cancel_all());
    assert!(!SignalSide::Sell.is_cancel_all());
}
