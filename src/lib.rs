//! Net spot balances of lending-protocol users in one market, extracted from a
//! batch of raw account records.
//!
//! A batch holds market records and user records, told apart by the tag that opens
//! each record; the binary schema of both is a [`Layout`]. [`get_token_amounts`]
//! resolves the market with the requested index and returns, for every user record
//! with a position in it, the user's key, its authority and its signed balance.
pub mod balance;
pub mod encoding;
pub mod extract;
pub mod record;

pub use balance::{
    get_signed_token_amount, BalanceType, Position, BALANCE_PRECISION,
    CUMULATIVE_INTEREST_PRECISION,
};
pub use extract::{get_token_amounts, ExtractError, Record, UserTokenAmount};
pub use record::{Key, Layout, Market, MarketLayout, UserLayout};
