//! Pseudo-random filesystem tree planning.
//!
//! This library derives, from a handful of user-facing targets (how many
//! files, how many bytes, how deep, how many files per directory), a complete
//! plan of a directory tree: how many subdirectories and files each directory
//! holds, how large each file is, and the seed from which each file's content
//! is drawn. The plan is a deterministic function of the configuration, so a
//! tree can be reproduced exactly from its parameters. A thin unverified
//! binary turns a plan into directories and files on disk.

pub mod generator;
pub mod parse;
pub mod plan;
pub mod rng;
pub mod sample;
