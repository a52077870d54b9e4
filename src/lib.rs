//! An event-sourced graph store: nodes and edges whose current state is
//! rebuilt by replaying an ordered log of transactions coming from several
//! sources.
pub mod ids;
pub mod structs;
pub mod compare;
pub mod entity;
pub mod create;
pub mod table;
pub mod worldview;
pub mod laws;
pub mod storage;
