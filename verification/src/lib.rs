pub mod fsm;
pub mod hsm;
pub mod table;
pub mod tree;
