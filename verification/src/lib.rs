//! Verified core of an FTX pairs-trading bot: request signing, message and
//! URL construction, cointegrated-pair bookkeeping and the trading decisions.

pub mod text;
pub mod utils;
pub mod sign;
pub mod ws;
pub mod websocket;
pub mod pairs;
pub mod trading;
pub mod rest_api;
pub mod calculations;
pub mod records;
