//! Errors of the trading engine.

use vstd::prelude::*;

verus! {

#[verifier::external_type_specification]
#[verifier::external_body]
pub struct ExReqwestError(reqwest::Error);

#[verifier::external_type_specification]
#[verifier::external_body]
pub struct ExWebSocketError(tokio_tungstenite::tungstenite::Error);

#[verifier::external_type_specification]
#[verifier::external_body]
pub struct ExIoError(std::io::Error);

/// Everything that can go wrong in the engine.
pub enum BotError {
    MissingEnvVar(String),
    InvalidEnvValue { name: String, value: String },
    Config(String),
    Http(reqwest::Error),
    Json(serde_json::Error),
    WebSocket(tokio_tungstenite::tungstenite::Error),
    ChannelSend,
    ChannelRecv,
    Io(std::io::Error),
    Crypto(String),
    OrderRejected(String),
    MarketNotFound(String),
    Internal(String),
}

pub type BotResult<T> = Result<T, BotError>;

} // verus!
