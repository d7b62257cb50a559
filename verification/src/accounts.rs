//! Accounts, their classification, and the chart that owns them.

pub mod account;
pub mod account_type;
pub mod chart;
pub mod reader;

pub use account::Account;
pub use account::AccountView;
pub use account_type::AccountType;
pub use chart::AccountsChart;
pub use reader::ParseError;
pub use reader::RequiredField;
