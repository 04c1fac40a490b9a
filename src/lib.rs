//! The block lifecycle engine of a focus-enforcement tool: for the duration of
//! a profile, the profile's websites are denied in the hosts file, a scheduled
//! unit of the operating system lifts the block at a wall-clock time, and the
//! record of the active block survives the process.
pub mod block;
pub mod config;
pub mod daemon;
pub mod hosts;
pub mod profile;
pub mod text;
