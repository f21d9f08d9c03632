//! Blocking synchronisation primitives of a teaching kernel, with the
//! bookkeeping that its deadlock detector (a banker's safety check) reads.

pub mod table;
pub mod mutex;
pub mod semaphore;
pub mod banker;
pub mod condvar;
pub mod process;
pub mod syscall;
pub mod laws;
pub mod safety;
