//! A pay-per-access gate: a client requests a priced invoice, pays off-system,
//! submits proof of payment, and receives a bearer token redeemable for the
//! payment record.
//!
//! The core is the invoice / payment / token state machine together with its
//! store: invoices move from `Pending` to `Paid` exactly once, expiry is a
//! read-time predicate over the trusted current time, and every issued token
//! resolves back to the payment record it was minted for.

mod contract;
mod types;

pub use contract::PerTokenContract;
pub use types::ContractError;
pub use types::DataKey;
pub use types::PaymentInvoice;
pub use types::PaymentRecord;
pub use types::PaymentStatus;
pub use types::MIN_TX_HASH_LEN;
pub use types::PAYMENT_TTL;
pub use types::error_code;
pub use types::extracted_payment_id;
pub use types::id_of;
pub use types::is_minted_id;
pub use types::lemma_id_of_injective;
pub use types::lemma_token_inversion;
pub use types::token_of;
pub use types::token_well_formed;
