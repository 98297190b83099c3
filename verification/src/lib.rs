//! ByteWatch: the logic of a terminal system monitor (byte and uptime texts, process
//! ordering, disk and network figures, main-loop decisions) with its contracts and proofs.
pub mod app;
pub mod control;
pub mod format;
pub mod process;
pub mod system;
pub mod view;
