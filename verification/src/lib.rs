//! A verified virtual-memory manager simulation: a fixed table of physical
//! frames backs the logical pages of admitted processes, a bounded swap area
//! records evicted pages, and one of three replacement policies (FIFO, Clock
//! with second chance, LRU) picks the victim frame when the table is full.

pub mod models;
pub mod texto;
pub mod gestor;
pub mod leyes;
