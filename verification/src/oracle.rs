//! Chainlink AggregatorV3 price feeds on Polygon PoS: feed addresses, the
//! RPC endpoint list, the `eth_call` request fields and the decoding of the
//! `latestRoundData()` answer.

use vstd::prelude::*;
use vstd::string::StringSliceAdditionalSpecFns;
use vstd::utf8::{decode_utf8, is_char_boundary};
use crate::text::{
    ascii_lowercase, hex_lower, lowercase, parse_hex_i64, parse_hex_u64, push_char, push_str, radix16_i64,
    radix16_u64, str_eq, str_range, to_lowercase,
};

verus! {

/// Seconds between two oracle polls.
pub const POLL_INTERVAL_S: u64 = 5;

/// Age after which a Chainlink answer counts as stale.
pub const STALE_THRESHOLD_S: u64 = 3600;

/// Failures in a row after which the poller moves to the next endpoint.
pub const MAX_CONSECUTIVE_FAILURES: u32 = 6;

/// BTC/USD aggregator on Polygon.
pub const BTC_USD_FEED: [u8; 20] = [
    0xc9, 0x07, 0xE1, 0x16, 0x05, 0x4A, 0xd1, 0x03, 0x35, 0x4f,
    0x2D, 0x35, 0x0F, 0xD2, 0x51, 0x44, 0x33, 0xD5, 0x7F, 0x6f,
];

/// ETH/USD aggregator on Polygon.
pub const ETH_USD_FEED: [u8; 20] = [
    0xF9, 0x68, 0x0D, 0x99, 0xD6, 0xC9, 0x58, 0x9e, 0x2a, 0x93,
    0xa7, 0x8A, 0x04, 0xA2, 0x79, 0xe5, 0x09, 0x20, 0x59, 0x45,
];

/// First four bytes of keccak256("latestRoundData()").
pub const LATEST_ROUND_DATA_SELECTOR: [u8; 4] = [0xfe, 0xaf, 0x96, 0x8c];

// ---------------------------------------------------------------------------
// Feed lookup
// ---------------------------------------------------------------------------

/// The feed of an asset whose name is already lowercase.
pub open spec fn feed_of_lowercase(name: Seq<char>) -> Option<Seq<u8>> {
    if name == "btc"@ {
        Some(BTC_USD_FEED@)
    } else if name == "eth"@ {
        Some(ETH_USD_FEED@)
    } else {
        None
    }
}

/// Only `btc` and `eth` have feeds: `btc` the BTC/USD feed, `eth` the
/// ETH/USD feed, and every other name none.
pub proof fn lemma_feed_names(name: Seq<char>)
    ensures
        feed_of_lowercase(name) is Some <==> (name == "btc"@ || name == "eth"@),
        name == "btc"@ ==> feed_of_lowercase(name) == Some(BTC_USD_FEED@),
        name == "eth"@ ==> feed_of_lowercase(name) == Some(ETH_USD_FEED@),
{
    reveal_strlit("btc");
    reveal_strlit("eth");
    assert("btc"@ != "eth"@) by {
        assert("btc"@[0] != "eth"@[0]);
    }
}

/// The Chainlink feed of a lowercase asset name, if there is one.
pub fn feed_for_lowercase_asset(lower: &str) -> (feed: Option<[u8; 20]>)
    ensures
        feed matches Some(f) ==> feed_of_lowercase(lower@) == Some(f@),
        feed is None ==> feed_of_lowercase(lower@) is None,
        feed is Some <==> (lower@ == "btc"@ || lower@ == "eth"@),
{
    if str_eq(lower, "btc") {
        Some(BTC_USD_FEED)
    } else if str_eq(lower, "eth") {
        Some(ETH_USD_FEED)
    } else {
        None
    }
}

/// The Chainlink feed of an asset, matched case-insensitively.
pub fn feed_for_asset(asset: &str) -> (feed: Option<[u8; 20]>)
    ensures
        feed matches Some(f) ==> feed_of_lowercase(lowercase(asset@)) == Some(f@),
        feed is None ==> feed_of_lowercase(lowercase(asset@)) is None,
        vstd::utf8::is_ascii_chars(asset@) ==> (feed matches Some(f) ==> feed_of_lowercase(
            ascii_lowercase(asset@),
        ) == Some(f@)),
        vstd::utf8::is_ascii_chars(asset@) ==> (feed is None ==> feed_of_lowercase(
            ascii_lowercase(asset@),
        ) is None),
{
    let lower = to_lowercase(asset);
    feed_for_lowercase_asset(lower.as_str())
}

// ---------------------------------------------------------------------------
// RPC endpoints
// ---------------------------------------------------------------------------

/// Public Polygon endpoints tried after the configured one.
pub open spec fn rpc_fallbacks() -> Seq<Seq<char>> {
    seq![
        "https://polygon.drpc.org"@,
        "https://rpc.ankr.com/polygon"@,
        "https://polygon-rpc.com"@,
        "https://1rpc.io/matic"@,
    ]
}

/// The endpoints to try: the primary first, then every fallback that differs from it.
pub open spec fn rpc_url_list(primary: Seq<char>) -> Seq<Seq<char>> {
    seq![primary] + without(rpc_fallbacks(), primary)
}

/// `urls` with every occurrence of `url` left out, the rest in order.
pub open spec fn without(urls: Seq<Seq<char>>, url: Seq<char>) -> Seq<Seq<char>>
    decreases urls.len(),
{
    if urls.len() == 0 {
        Seq::empty()
    } else {
        let rest = without(urls.drop_last(), url);
        if urls.last() == url {
            rest
        } else {
            rest.push(urls.last())
        }
    }
}

/// Position of a URL among the fallbacks (4 when it is not one of them).
pub open spec fn fallback_index(url: Seq<char>) -> int {
    if url == rpc_fallbacks()[0] {
        0
    } else if url == rpc_fallbacks()[1] {
        1
    } else if url == rpc_fallbacks()[2] {
        2
    } else if url == rpc_fallbacks()[3] {
        3
    } else {
        4
    }
}

proof fn lemma_fallbacks_distinct()
    ensures
        rpc_fallbacks().len() == 4,
        rpc_fallbacks()[0].len() == 24,
        rpc_fallbacks()[1].len() == 28,
        rpc_fallbacks()[2].len() == 23,
        rpc_fallbacks()[3].len() == 21,
        fallback_index(rpc_fallbacks()[0]) == 0,
        fallback_index(rpc_fallbacks()[1]) == 1,
        fallback_index(rpc_fallbacks()[2]) == 2,
        fallback_index(rpc_fallbacks()[3]) == 3,
{
    reveal_strlit("https://polygon.drpc.org");
    reveal_strlit("https://rpc.ankr.com/polygon");
    reveal_strlit("https://polygon-rpc.com");
    reveal_strlit("https://1rpc.io/matic");
}

/// The fallbacks kept for a primary, spelled out for each primary.
#[verifier::rlimit(40)]
proof fn lemma_fallbacks_kept(primary: Seq<char>)
    ensures
        ({
            let fb = rpc_fallbacks();
            let kept = without(fb, primary);
            if primary == fb[0] {
                kept == seq![fb[1], fb[2], fb[3]]
            } else if primary == fb[1] {
                kept == seq![fb[0], fb[2], fb[3]]
            } else if primary == fb[2] {
                kept == seq![fb[0], fb[1], fb[3]]
            } else if primary == fb[3] {
                kept == seq![fb[0], fb[1], fb[2]]
            } else {
                kept == fb
            }
        }),
{
    lemma_fallbacks_distinct();
    let fb = rpc_fallbacks();
    let (f0, f1, f2, f3) = (fb[0], fb[1], fb[2], fb[3]);
    assert(fb =~= seq![f0, f1, f2, f3]);
    assert(fb.drop_last() =~= seq![f0, f1, f2]);
    assert(seq![f0, f1, f2].drop_last() =~= seq![f0, f1]);
    assert(seq![f0, f1].drop_last() =~= seq![f0]);
    assert(seq![f0].drop_last() =~= Seq::<Seq<char>>::empty());
    let t0 = if f0 != primary { seq![f0] } else { Seq::<Seq<char>>::empty() };
    let t1 = if f1 != primary { t0.push(f1) } else { t0 };
    let t2 = if f2 != primary { t1.push(f2) } else { t1 };
    let t3 = if f3 != primary { t2.push(f3) } else { t2 };
    assert(without(seq![f0], primary) == t0) by {
        assert(Seq::<Seq<char>>::empty().push(f0) =~= seq![f0]);
        assert(without(Seq::<Seq<char>>::empty(), primary) == Seq::<Seq<char>>::empty());
        assert(seq![f0].last() == f0);
        assert(seq![f0].len() == 1);
    }
    assert(without(seq![f0, f1], primary) == t1);
    assert(without(seq![f0, f1, f2], primary) == t2);
    assert(without(fb, primary) == t3);
    if primary == f0 {
        assert(t3 =~= seq![f1, f2, f3]);
    } else if primary == f1 {
        assert(t3 =~= seq![f0, f2, f3]);
    } else if primary == f2 {
        assert(t3 =~= seq![f0, f1, f3]);
    } else if primary == f3 {
        assert(t3 =~= seq![f0, f1, f2]);
    } else {
        assert(t3 =~= fb);
    }
}

/// The endpoint list starts with the primary and holds it only there;
/// after it come the fallbacks, each one that differs from the primary
/// exactly once, in fallback order, and nothing else.
#[verifier::rlimit(40)]
pub proof fn lemma_rpc_url_list_law(primary: Seq<char>)
    ensures
        rpc_url_list(primary).len() >= 1,
        rpc_url_list(primary)[0] == primary,
        forall|j: int|
            1 <= j < rpc_url_list(primary).len() ==> #[trigger] rpc_url_list(primary)[j]
                != primary && fallback_index(rpc_url_list(primary)[j]) < 4,
        forall|j: int, k: int|
            1 <= j < k < rpc_url_list(primary).len() ==> fallback_index(
                #[trigger] rpc_url_list(primary)[j],
            ) < fallback_index(#[trigger] rpc_url_list(primary)[k]),
        forall|i: int|
            0 <= i < 4 && rpc_fallbacks()[i] != primary ==> rpc_url_list(primary).contains(
                #[trigger] rpc_fallbacks()[i],
            ),
{
    lemma_fallbacks_distinct();
    lemma_fallbacks_kept(primary);
    let fb = rpc_fallbacks();
    let (f0, f1, f2, f3) = (fb[0], fb[1], fb[2], fb[3]);
    let list = rpc_url_list(primary);
    let kept = without(fb, primary);
    if primary == f0 {
        assert(kept == seq![f1, f2, f3]);
        assert(list =~= seq![primary, f1, f2, f3]);
    } else if primary == f1 {
        assert(kept == seq![f0, f2, f3]);
        assert(list =~= seq![primary, f0, f2, f3]);
    } else if primary == f2 {
        assert(kept == seq![f0, f1, f3]);
        assert(list =~= seq![primary, f0, f1, f3]);
    } else if primary == f3 {
        assert(list =~= seq![primary, f0, f1, f2]);
    } else {
        assert(list =~= seq![primary, f0, f1, f2, f3]);
    }
    assert forall|i: int|
        0 <= i < 4 && rpc_fallbacks()[i] != primary implies list.contains(
            #[trigger] rpc_fallbacks()[i],
        ) by {
        if primary == f0 {
            assert(list[i] == fb[i]);
        } else if primary == f1 {
            if i == 0 {
                assert(list[1] == fb[i]);
            } else {
                assert(list[i] == fb[i]);
            }
        } else if primary == f2 {
            if i < 2 {
                assert(list[i + 1] == fb[i]);
            } else {
                assert(list[i] == fb[i]);
            }
        } else if primary == f3 {
            assert(list[i + 1] == fb[i]);
        } else {
            assert(list[i + 1] == fb[i]);
        }
    }
}

fn rpc_fallback_list() -> (list: [&'static str; 4])
    ensures
        forall|i: int| 0 <= i < 4 ==> #[trigger] list@[i]@ == rpc_fallbacks()[i],
{
    let list = [
        "https://polygon.drpc.org",
        "https://rpc.ankr.com/polygon",
        "https://polygon-rpc.com",
        "https://1rpc.io/matic",
    ];
    list
}

/// The RPC URLs to use, starting with the configured primary.
pub fn rpc_urls(primary: &str) -> (urls: Vec<String>)
    ensures
        urls@.map_values(|u: String| u@) == rpc_url_list(primary@),
{
    let fallbacks = rpc_fallback_list();
    let mut urls: Vec<String> = Vec::new();
    urls.push(primary.to_owned());
    for i in 0..4
        invariant
            forall|k: int| 0 <= k < 4 ==> #[trigger] fallbacks@[k]@ == rpc_fallbacks()[k],
            urls@.map_values(|u: String| u@) == seq![primary@] + without(
                rpc_fallbacks().take(i as int),
                primary@,
            ),
    {
        let f = fallbacks[i];
        let ghost prev = urls@;
        let ghost taken = rpc_fallbacks().take(i + 1);
        let ghost before = without(rpc_fallbacks().take(i as int), primary@);
        assert(taken.drop_last() =~= rpc_fallbacks().take(i as int));
        assert(taken.last() == f@);
        if !str_eq(f, primary) {
            let owned = f.to_owned();
            urls.push(owned);
            assert(without(taken, primary@) == before.push(f@));
            assert(urls@.map_values(|u: String| u@) =~= prev.map_values(|u: String| u@).push(
                f@,
            ));
            assert(seq![primary@] + before.push(f@) =~= (seq![primary@] + before).push(f@));
        } else {
            assert(without(taken, primary@) == before);
        }
        assert(urls@.map_values(|u: String| u@) =~= seq![primary@] + without(taken, primary@));
    }
    assert(rpc_fallbacks().take(4) =~= rpc_fallbacks());
    urls
}

// ---------------------------------------------------------------------------
// eth_call request
// ---------------------------------------------------------------------------

/// `eth_call` input for `latestRoundData()`: the function selector alone.
pub fn encode_latest_round_data(feed: &[u8; 20]) -> (data: Vec<u8>)
    ensures
        data@ == LATEST_ROUND_DATA_SELECTOR@,
{
    let mut data: Vec<u8> = Vec::new();
    data.push(LATEST_ROUND_DATA_SELECTOR[0]);
    data.push(LATEST_ROUND_DATA_SELECTOR[1]);
    data.push(LATEST_ROUND_DATA_SELECTOR[2]);
    data.push(LATEST_ROUND_DATA_SELECTOR[3]);
    assert(data@ =~= LATEST_ROUND_DATA_SELECTOR@);
    data
}

/// `format!("{:x}", Address::new(bytes))`: the address as 40 lowercase hex
/// digits with no prefix (alloy's `LowerHex` without the alternate flag).
#[verifier::external_body]
fn address_lower_hex(bytes: [u8; 20]) -> (s: String)
    ensures
        s@ == hex_lower(bytes@),
{
    format!("{:x}", alloy_primitives::Address::new(bytes))
}

/// `hex::encode`: two lowercase hex digits per byte.
#[verifier::external_body]
fn hex_encode(data: &[u8]) -> (s: String)
    ensures
        s@ == hex_lower(data@),
{
    hex::encode(data)
}

/// The `to` field of the `eth_call`: `0x` and the feed address in lowercase hex.
pub fn eth_call_to(feed: &[u8; 20]) -> (to: String)
    ensures
        to@ == seq!['0', 'x'] + hex_lower(feed@),
{
    let mut to = String::new();
    push_char(&mut to, '0');
    push_char(&mut to, 'x');
    let hex = address_lower_hex(*feed);
    push_str(&mut to, hex.as_str());
    to
}

/// The `data` field of the `eth_call`: `0x` and the call input in lowercase hex.
pub fn eth_call_data(feed: &[u8; 20]) -> (data: String)
    ensures
        data@ == seq!['0', 'x'] + hex_lower(LATEST_ROUND_DATA_SELECTOR@),
{
    let call = encode_latest_round_data(feed);
    let mut data = String::new();
    push_char(&mut data, '0');
    push_char(&mut data, 'x');
    let hex = hex_encode(call.as_slice());
    push_str(&mut data, hex.as_str());
    data
}

// ---------------------------------------------------------------------------
// latestRoundData() answer
// ---------------------------------------------------------------------------

/// Why an `eth_call` result could not be read as round data; every such
/// failure is reported, so that the caller can fall back to another price.
#[derive(Debug)]
pub enum RoundDataError {
    /// The result does not start with `0x`.
    NoHexPrefix,
    /// Fewer than 128 hex digits follow the prefix.
    TooShort,
    /// A word that is needed runs past the end of the result or splits a
    /// multi-byte character.
    WordOutOfBounds,
    /// The `answer` word is not a hex `i64`.
    ParseAnswer(core::num::ParseIntError),
    /// The `updatedAt` word is not a hex `u64`.
    ParseUpdatedAt(core::num::ParseIntError),
}

/// The result starts with `0x`.
pub open spec fn has_hex_prefix(b: Seq<u8>) -> bool {
    b.len() >= 2 && b[0] == 48 && b[1] == 120
}

/// The 64 hex digits of the ABI word that starts at byte `start` of the result.
pub open spec fn abi_word_text(b: Seq<u8>, start: int) -> Seq<char> {
    decode_utf8(b.subrange(start, start + 64))
}

/// The bytes `start..start + 64` exist and are whole characters.
pub open spec fn abi_word_in_bounds(b: Seq<u8>, start: int) -> bool {
    &&& start + 64 <= b.len()
    &&& is_char_boundary(b, start)
    &&& is_char_boundary(b, start + 64)
}

/// The signed `answer` (second word) as `i64::from_str_radix` reads it.
pub open spec fn round_answer(b: Seq<u8>) -> Option<int> {
    radix16_i64(abi_word_text(b, 66))
}

/// The `updatedAt` time (fourth word) as `u64::from_str_radix` reads it.
pub open spec fn round_updated_at(b: Seq<u8>) -> Option<nat> {
    radix16_u64(abi_word_text(b, 194))
}

/// Reads the `latestRoundData()` return value from the hex text of an
/// `eth_call` result: `Ok(None)` when the answer is not positive, else the
/// answer and its `updatedAt` time.
pub fn decode_round_data(result: &str) -> (r: Result<Option<(i64, u64)>, RoundDataError>)
    ensures
        !has_hex_prefix(result.spec_bytes()) ==> r matches Err(RoundDataError::NoHexPrefix),
        has_hex_prefix(result.spec_bytes()) && result.spec_bytes().len() < 130 ==> r matches Err(
            RoundDataError::TooShort,
        ),
        has_hex_prefix(result.spec_bytes()) && result.spec_bytes().len() >= 130 ==> {
            let b = result.spec_bytes();
            if !abi_word_in_bounds(b, 66) {
                r matches Err(RoundDataError::WordOutOfBounds)
            } else {
                match round_answer(b) {
                    None => r matches Err(RoundDataError::ParseAnswer(_)),
                    Some(a) => if a <= 0 {
                        r == Ok::<Option<(i64, u64)>, RoundDataError>(None)
                    } else if !abi_word_in_bounds(b, 194) {
                        r matches Err(RoundDataError::WordOutOfBounds)
                    } else {
                        match round_updated_at(b) {
                            None => r matches Err(RoundDataError::ParseUpdatedAt(_)),
                            Some(u) => r matches Ok(Some((ra, ru))) && ra == a && ru == u,
                        }
                    },
                }
            }
        },
{
    let b = result.as_bytes();
    if b.len() < 2 || b[0] != 48 || b[1] != 120 {
        return Err(RoundDataError::NoHexPrefix);
    }
    if b.len() - 2 < 128 {
        return Err(RoundDataError::TooShort);
    }
    if !result.is_char_boundary(66) || !result.is_char_boundary(130) {
        return Err(RoundDataError::WordOutOfBounds);
    }
    let answer_hex = str_range(result, 66, 130);
    let answer = match parse_hex_i64(answer_hex) {
        Ok(v) => v,
        Err(e) => {
            return Err(RoundDataError::ParseAnswer(e));
        },
    };
    if answer <= 0 {
        return Ok(None);
    }
    if b.len() < 258 || !result.is_char_boundary(194) || !result.is_char_boundary(258) {
        return Err(RoundDataError::WordOutOfBounds);
    }
    let updated_hex = str_range(result, 194, 258);
    let updated_at = match parse_hex_u64(updated_hex) {
        Ok(v) => v,
        Err(e) => {
            return Err(RoundDataError::ParseUpdatedAt(e));
        },
    };
    Ok(Some((answer, updated_at)))
}

} // verus!
