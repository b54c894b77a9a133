use polymarket_hft::oracle::{
    decode_round_data, encode_latest_round_data, eth_call_data, eth_call_to, feed_for_asset,
    feed_for_lowercase_asset, rpc_urls, RoundDataError,
    BTC_USD_FEED, ETH_USD_FEED, LATEST_ROUND_DATA_SELECTOR,
};

#[test]
fn test_feed_mapping() {
    assert_eq!(feed_for_asset("btc"), Some(BTC_USD_FEED));
    assert_eq!(feed_for_asset("BTC"), Some(BTC_USD_FEED));
    assert_eq!(feed_for_asset("eth"), Some(ETH_USD_FEED));
    assert_eq!(feed_for_asset("sol"), None);
}

#[test]
fn test_encode_latest_round_data() {
    let data = encode_latest_round_data(&BTC_USD_FEED);
    assert_eq!(&data[..4], &LATEST_ROUND_DATA_SELECTOR);
    assert_eq!(data.len(), 4);
}

#[test]
fn test_rpc_urls_promotes_primary() {
    let urls = rpc_urls("https://custom.rpc.com");
    assert_eq!(urls[0], "https://custom.rpc.com");
    assert!(urls.len() >= 4);
}

#[test]
fn rpc_urls_lists_custom_primary_then_all_fallbacks() {
    let urls = rpc_urls("https://custom.rpc.com");
    assert_eq!(
        urls,
        vec![
            "https://custom.rpc.com",
            "https://polygon.drpc.org",
            "https://rpc.ankr.com/polygon",
            "https://polygon-rpc.com",
            "https://1rpc.io/matic",
        ]
    );
}

#[test]
fn rpc_urls_does_not_repeat_a_fallback_primary() {
    let urls = rpc_urls("https://polygon-rpc.com");
    assert_eq!(
        urls,
        vec![
            "https://polygon-rpc.com",
            "https://polygon.drpc.org",
            "https://rpc.ankr.com/polygon",
            "https://1rpc.io/matic",
        ]
    );
}

#[test]
fn feed_lookup_is_case_insensitive_and_exact() {
    assert_eq!(feed_for_asset("Eth"), Some(ETH_USD_FEED));
    assert_eq!(feed_for_asset("btcx"), None);
    assert_eq!(feed_for_asset(""), None);
    assert_eq!(feed_for_lowercase_asset("BTC"), None);
    assert_eq!(feed_for_lowercase_asset("btc"), Some(BTC_USD_FEED));
}

#[test]
fn eth_call_fields_are_lowercase_hex() {
    assert_eq!(eth_call_to(&BTC_USD_FEED), "0xc907e116054ad103354f2d350fd2514433d57f6f");
    assert_eq!(eth_call_to(&ETH_USD_FEED), "0xf9680d99d6c9589e2a93a78a04a279e509205945");
    assert_eq!(eth_call_data(&BTC_USD_FEED), "0xfeaf968c");
}

fn word(v: u64) -> String {
    format!("{:064x}", v)
}

fn round_result(answer: &str, updated_at: &str) -> String {
    format!("0x{}{}{}{}{}", word(7), answer, word(0), updated_at, word(7))
}

#[test]
fn decode_positive_answer() {
    let result = round_result(&word(6_000_000_000_000), &word(1_725_029_869));
    let decoded = decode_round_data(&result).unwrap();
    assert_eq!(decoded, Some((6_000_000_000_000, 1_725_029_869)));
}

#[test]
fn decode_zero_answer_is_none() {
    let result = round_result(&word(0), &word(1));
    assert_eq!(decode_round_data(&result).unwrap(), None);
}

#[test]
fn decode_answer_without_updated_at_word() {
    // An answer word that overflows i64 fails to parse; no updatedAt word is needed.
    let short = format!("0x{}{}", word(1), "f".repeat(64));
    assert!(matches!(decode_round_data(&short), Err(RoundDataError::ParseAnswer(_))));
}

#[test]
fn decode_errors() {
    assert!(matches!(decode_round_data("1234"), Err(RoundDataError::NoHexPrefix)));
    assert!(matches!(decode_round_data(""), Err(RoundDataError::NoHexPrefix)));
    let short = format!("0x{}", "0".repeat(127));
    assert!(matches!(decode_round_data(&short), Err(RoundDataError::TooShort)));
    let bad_answer = round_result(&"z".repeat(64), &word(1));
    assert!(matches!(decode_round_data(&bad_answer), Err(RoundDataError::ParseAnswer(_))));
    let bad_time = round_result(&word(5), &"g".repeat(64));
    assert!(matches!(decode_round_data(&bad_time), Err(RoundDataError::ParseUpdatedAt(_))));
}

#[test]
fn words_out_of_bounds_are_errors() {
    // A positive answer whose updatedAt word lies past the end of the text.
    let truncated = format!("0x{}{}", word(1), word(5));
    assert!(matches!(decode_round_data(&truncated), Err(RoundDataError::WordOutOfBounds)));
    // The same text with a non-positive answer needs no updatedAt word.
    let zero = format!("0x{}{}", word(1), word(0));
    assert_eq!(decode_round_data(&zero).unwrap(), None);
    // A word edge inside a multi-byte character.
    let split = format!("0x{}é{}", "0".repeat(63), "0".repeat(70));
    assert!(matches!(decode_round_data(&split), Err(RoundDataError::WordOutOfBounds)));
    // The updatedAt word cut by a multi-byte character.
    let late = format!("0x{}{}{}é{}", word(1), word(5), "0".repeat(63), "0".repeat(70));
    assert!(matches!(decode_round_data(&late), Err(RoundDataError::WordOutOfBounds)));
}
