//! The per-source configuration records the command line fills in. Each
//! pull source carries its concurrency ceiling; the line-oriented ones
//! carry the base64 flag; the filesystem and network ones carry their
//! path or address as bytes.
use vstd::prelude::*;

verus! {

/// Default ceiling on unacknowledged messages per source.
pub const DEFAULT_CONCURRENCY_LIMIT: usize = 1024;

/// Default POSIX message-queue capacity.
pub const DEFAULT_MQ_CAPACITY: usize = 10;

pub struct StdInServer {
    pub concurrency_limit: usize,
    pub base64: bool,
}

pub struct FileServer {
    pub concurrency_limit: usize,
    pub base64: bool,
    pub file: Vec<u8>,
}

pub struct UnixSocketServer {
    pub concurrency_limit: usize,
    pub base64: bool,
    pub file: Vec<u8>,
}

pub struct UnixDatagramServer {
    pub concurrency_limit: usize,
    pub path: Vec<u8>,
}

pub struct PosixMQServer {
    pub capacity: usize,
    pub concurrency_limit: usize,
    pub name: Vec<u8>,
}

} // verus!
