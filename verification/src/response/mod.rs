pub mod fields;
pub mod no_streaming;
pub mod streaming;
pub mod user_balance;

pub use fields::FinishReason;
pub use no_streaming::Response;
pub use user_balance::UserBalance;
