//! Health-check adapter for a process manager's request queue.
//!
//! The library decides whether a server can take more traffic from an
//! observation of its request-queue depth.  The observation comes from an
//! external status command; this crate holds the verified core: parsing the
//! command's output, the admission rule, and the mapping of a verdict to an
//! HTTP health response.  Invoking the command, the timeout, and the HTTP
//! server itself are left to the surrounding program.

pub mod admission;
pub mod health;
pub mod inspect;
pub mod settings;
