pub mod decode;
pub mod laws;
pub mod ledger;
