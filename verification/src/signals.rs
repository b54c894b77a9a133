//! Commands from strategies to the executor, log events, and the bounded
//! channel that carries log events to the logging worker.

use vstd::prelude::*;
use vstd::string::StringSliceAdditionalSpecFns;
use vstd::slice::slice_subrange;
use vstd::utf8::{encode_utf8, valid_utf8};
use crate::text::{ascii_lowercase, lowercase, str_from_utf8, to_lowercase};
use crate::types::OrderSide;

verus! {

// ---------------------------------------------------------------------------
// Signal side
// ---------------------------------------------------------------------------

/// What a strategy asks the executor to do.
#[derive(Debug, Clone, Copy, PartialEq, Eq, Structural)]
pub enum SignalSide {
    Buy,
    Sell,
    CancelAll,
}

/// The order side a signal trades on; a cancel-all signal places no order.
pub open spec fn signal_order_side(side: SignalSide) -> Option<OrderSide> {
    match side {
        SignalSide::Buy => Some(OrderSide::Buy),
        SignalSide::Sell => Some(OrderSide::Sell),
        SignalSide::CancelAll => None,
    }
}

pub open spec fn signal_side_label(side: SignalSide) -> Seq<char> {
    match side {
        SignalSide::Buy => "BUY"@,
        SignalSide::Sell => "SELL"@,
        SignalSide::CancelAll => "CANCEL_ALL"@,
    }
}

impl SignalSide {
    pub fn as_order_side(self) -> (side: Option<OrderSide>)
        ensures
            side == signal_order_side(self),
    {
        match self {
            SignalSide::Buy => Some(OrderSide::Buy),
            SignalSide::Sell => Some(OrderSide::Sell),
            SignalSide::CancelAll => None,
        }
    }

    /// Whether the signal cancels all open orders.
    pub fn is_cancel_all(self) -> (cancel: bool)
        ensures
            cancel == (self == SignalSide::CancelAll),
    {
        match self {
            SignalSide::CancelAll => true,
            _ => false,
        }
    }

    pub fn as_str(self) -> (s: &'static str)
        ensures
            s@ == signal_side_label(self),
    {
        match self {
            SignalSide::Buy => {
                proof { reveal_strlit("BUY"); }
                "BUY"
            },
            SignalSide::Sell => {
                proof { reveal_strlit("SELL"); }
                "SELL"
            },
            SignalSide::CancelAll => {
                proof { reveal_strlit("CANCEL_ALL"); }
                "CANCEL_ALL"
            },
        }
    }
}

/// A signal places an order exactly when it is not a cancel-all, and a
/// trading signal carries the label of the order side it maps to.
pub proof fn lemma_signal_side_consistent(side: SignalSide)
    ensures
        signal_order_side(side) is None <==> side == SignalSide::CancelAll,
        signal_order_side(side) matches Some(o) ==> signal_side_label(side)
            == crate::types::order_side_label(o),
{
}

// ---------------------------------------------------------------------------
// Asset codes
// ---------------------------------------------------------------------------

/// Four-byte asset code: the first (up to) four bytes of a name, zero-filled.
pub open spec fn asset_code(name: Seq<u8>) -> Seq<u8> {
    Seq::new(4, |i: int| if i < name.len() { name[i] } else { 0u8 })
}

/// Length of the asset name held in a code: the bytes before the first zero.
pub open spec fn asset_name_len(code: Seq<u8>) -> int {
    if code[0] == 0 {
        0
    } else if code[1] == 0 {
        1
    } else if code[2] == 0 {
        2
    } else if code[3] == 0 {
        3
    } else {
        4
    }
}

/// The name bytes that an asset code stands for, when they form valid UTF-8;
/// otherwise none.
pub open spec fn asset_name_bytes(code: Seq<u8>) -> Seq<u8> {
    let name = code.take(asset_name_len(code));
    if valid_utf8(name) {
        name
    } else {
        Seq::empty()
    }
}

/// Asset code of a name that is already lowercase.
pub fn asset_code_from_lowercase(lower: &str) -> (code: [u8; 4])
    ensures
        code@ == asset_code(lower.spec_bytes()),
{
    let bytes = lower.as_bytes();
    let n = bytes.len();
    let b0 = if 0 < n { bytes[0] } else { 0u8 };
    let b1 = if 1 < n { bytes[1] } else { 0u8 };
    let b2 = if 2 < n { bytes[2] } else { 0u8 };
    let b3 = if 3 < n { bytes[3] } else { 0u8 };
    let code = [b0, b1, b2, b3];
    assert(code@ == asset_code(lower.spec_bytes()));
    code
}

/// Asset code of a name: its lowercase form's first four UTF-8 bytes, zero-filled.
pub fn encode_asset(asset: &str) -> (code: [u8; 4])
    ensures
        code@ == asset_code(encode_utf8(lowercase(asset@))),
        vstd::utf8::is_ascii_chars(asset@) ==> code@ == asset_code(
            encode_utf8(ascii_lowercase(asset@)),
        ),
{
    let lower = to_lowercase(asset);
    asset_code_from_lowercase(lower.as_str())
}

/// The asset name held in a code: the bytes before the first zero byte, or
/// the empty string when they are not valid UTF-8.
pub fn asset_str(code: &[u8; 4]) -> (name: &str)
    ensures
        name.spec_bytes() == asset_name_bytes(code@),
{
    let mut end: usize = 0;
    while end < 4 && code[end] != 0
        invariant
            end <= 4,
            forall|i: int| 0 <= i < end ==> code@[i] != 0,
        decreases 4 - end,
    {
        end = end + 1;
    }
    assert(end as int == asset_name_len(code@));
    let prefix = slice_subrange(code.as_slice(), 0, end);
    assert(prefix@ == code@.take(end as int));
    match str_from_utf8(prefix) {
        Ok(s) => s,
        Err(_) => {
            proof {
                reveal_strlit("");
                assert(""@ =~= Seq::<char>::empty());
            }
            ""
        },
    }
}

/// An asset name of at most four UTF-8 bytes, none of them zero, is read
/// back unchanged from its code.
pub proof fn lemma_asset_code_round_trip(name: Seq<char>)
    requires
        encode_utf8(name).len() <= 4,
        forall|i: int| 0 <= i < encode_utf8(name).len() ==> encode_utf8(name)[i] != 0,
    ensures
        asset_name_bytes(asset_code(encode_utf8(name))) == encode_utf8(name),
{
    let bytes = encode_utf8(name);
    let code = asset_code(bytes);
    assert(asset_name_len(code) == bytes.len());
    assert(code.take(bytes.len() as int) =~= bytes);
    vstd::utf8::encode_utf8_valid_utf8(name);
}

// ---------------------------------------------------------------------------
// Log events and their channel
// ---------------------------------------------------------------------------

/// Severity of a log event.
#[derive(Debug, Clone, Copy, PartialEq, Eq, Structural)]
pub enum LogLevel {
    Debug,
    Info,
    Warning,
    Error,
}

/// A structured log event sent to the logging worker.
#[derive(Debug, Clone)]
pub struct LogEvent {
    pub level: LogLevel,
    pub module: &'static str,
    pub message: String,
    pub fields: Vec<(String, String)>,
    pub timestamp_ms: u64,
}

#[verifier::external_type_specification]
#[verifier::external_body]
#[verifier::reject_recursive_types(T)]
pub struct ExSender<T>(flume::Sender<T>);

#[verifier::external_type_specification]
#[verifier::external_body]
#[verifier::reject_recursive_types(T)]
pub struct ExReceiver<T>(flume::Receiver<T>);

/// What `Sender::capacity` reports for a log-event sender: the bound the
/// channel was made with, `None` for an unbounded one.
pub uninterp spec fn log_sender_capacity(tx: flume::Sender<LogEvent>) -> Option<usize>;

/// What `Receiver::capacity` reports for a log-event receiver.
pub uninterp spec fn log_receiver_capacity(rx: flume::Receiver<LogEvent>) -> Option<usize>;

/// `flume::bounded`: a new channel whose two ends both report the capacity
/// it was made with.
#[verifier::external_body]
fn bounded_log_channel(cap: usize) -> (ends: (flume::Sender<LogEvent>, flume::Receiver<LogEvent>))
    ensures
        log_sender_capacity(ends.0) == Some(cap),
        log_receiver_capacity(ends.1) == Some(cap),
{
    flume::bounded(cap)
}

/// Capacity of the log channel between the hot path and the logging worker.
pub const LOG_CHANNEL_CAP: usize = 1024;

/// A new log channel, bounded at `LOG_CHANNEL_CAP` events.
pub fn log_channel() -> (ends: (flume::Sender<LogEvent>, flume::Receiver<LogEvent>))
    ensures
        log_sender_capacity(ends.0) == Some(LOG_CHANNEL_CAP),
        log_receiver_capacity(ends.1) == Some(LOG_CHANNEL_CAP),
{
    bounded_log_channel(LOG_CHANNEL_CAP)
}

} // verus!
