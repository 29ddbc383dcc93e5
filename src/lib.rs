//! In-process memory instrumentation primitives over an explicit model of an
//! address range: byte-accurate reads and writes, a wildcard signature
//! scanner, and a dispatch-table slot swap that keeps the original entry.

pub mod memory;
pub mod scan;
pub mod vtable;

pub use memory::{read_bytes, write_bytes, Memory};
pub use scan::{search, search_first, SearchError};
pub use vtable::{HookError, VTable};
