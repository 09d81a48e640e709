//! Emergency network kill switch: the logic that finds established TCP
//! connections, decides which of them to terminate and how, builds the
//! socket-destroy request and reads the kernel's answer.
pub mod endpoint;
pub mod table;
pub mod diag;
pub mod policy;
pub mod links;
