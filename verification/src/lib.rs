//! Building blocks of three small process wrappers: `errfail`, `prefix` and
//! `quiet`. Everything that decides something lives here and is verified;
//! spawning processes, threads and the actual reads and writes are left to
//! the binary around the library.

pub mod exit;
pub mod lines;
pub mod quiet;
pub mod args;
