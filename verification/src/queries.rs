//! The data store: blocks, transactions and what they move, prices and swaps, with the
//! writes that the pipeline makes and the reads that the query surface answers from.

pub mod blocks;
pub mod columns;
pub mod history;
pub mod laws;
pub mod prices;
pub mod reads;
pub mod restore;
pub mod rollback;
pub mod rows;
pub mod state;
pub mod tokens;
pub mod transactions;

pub use blocks::{insert_block, rollback_to_slot};
pub use history::{get_swap_history, get_token_price_history};
pub use prices::{insert_price_update, insert_swap};
pub use reads::{get_assets, get_latest_prices, get_utxo_input};
pub use restore::Tables;
pub use state::{Entity, Store, StoreError, StoreView};
pub use tokens::{get_token_id, upsert_addresses, upsert_tokens, TokenKey};
pub use transactions::insert_transaction;
