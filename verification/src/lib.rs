//! Verified core of a dependency-review tool: a deterministic content digest
//! over directory trees, a tamper-evident digest-capture protocol, and a
//! per-dependency verification pipeline with skip policies.
//!
//! External collaborators (package resolution, the proof database, the
//! registry, prompts and file I/O) are consumed at a narrow boundary: the
//! pipeline is a step machine fed with collaborator results by a driver.

pub mod b64;
pub mod bytes;
pub mod capture;
pub mod durations;
pub mod hashing;
pub mod model;
pub mod tree;
pub mod util;
pub mod pipeline;
