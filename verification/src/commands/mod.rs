pub mod purge;
pub mod purge_flow;
