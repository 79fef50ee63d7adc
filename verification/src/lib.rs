//! A ledger whose durable storage is a version-control commit history.
//!
//! Each transaction is embedded as structured data inside a commit message;
//! the ledger state (accounts, balances) is a pure function of the ordered
//! commit history.

pub mod account;
pub mod cli;
pub mod config;
pub mod error;
pub mod kv;
pub mod ledger;
pub mod text;
pub mod transaction;

pub use account::Account;
pub use account::AccountType;
pub use account::validate_account_name;
pub use cli::CliCommand;
pub use cli::Config;
pub use cli::CommandSuggester;
pub use cli::NewUsernameValidator;
pub use cli::UsernameValidator;
pub use cli::Validation;
pub use cli::add_user_transaction;
pub use cli::payment_transaction;
pub use config::Currency;
pub use config::RepoConfig;
pub use error::Error;
pub use ledger::Ledger;
pub use transaction::Transaction;
pub use transaction::TransactionMeta;
