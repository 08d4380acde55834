//! The operations.
pub mod admin;
pub mod batch;
pub mod client;
pub mod credit;
pub mod earn;
pub mod pay;
pub mod pool;
pub mod process;
pub mod receive;
pub mod taxes;

pub use admin::ensure_sender_is_allowed;
pub use admin::set_config;
pub use admin::set_owner;
pub use batch::process_many;
pub use batch::process_one;
pub use earn::earn;
pub use pay::pay;
pub use process::process;
pub use receive::receive;
pub use taxes::insert_tax_recipients;
pub use taxes::pay_taxes;
pub use taxes::set_taxes;
