//! A library for manipulating accounting data: a chart of accounts kept as a
//! forest of typed accounts, built by hand or from a JSON document and
//! queried by account identifier.

pub mod accounts;
pub mod currency;
pub mod document;
pub mod text;

pub use accounts::Account;
pub use accounts::AccountType;
pub use accounts::AccountsChart;
pub use currency::Currency;
