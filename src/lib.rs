//! The core of a parallel, stateful dataflow runtime: compiling a nested
//! operator tree into one flat graph that every worker builds alike, the
//! durability pipeline that records snapshots before it moves the recovery
//! frontier, and the driver that runs a worker's graphs and tears them down.

pub mod compile;
pub mod driver;
pub mod flow;
pub mod recovery;
pub mod stream_table;
pub mod worker;
