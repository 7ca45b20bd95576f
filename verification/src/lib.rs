//! Small networking programs and data structures, with their logic verified.
//!
//! - [`list`]: a linked stack of integers.
//! - [`kvs`]: an in-memory key-value store.
//! - [`readiness`]: the decisions of a readiness-driven server that reads
//!   its connections edge- or level-triggered.
//! - [`copy`]: how a file is split among the threads that copy it.
//! - [`sniffer`]: the port scanner's command line and the ports each thread
//!   probes.
//! - [`proxy`]: reading `CONNECT` requests and steering a tunnelling proxy.
//! - [`http`]: routing and answering in a small web server.
//! - [`stride`] and [`text`]: arithmetic progressions, decimal numbers and
//!   ASCII case folding, shared by the above.

pub mod list;
pub mod stride;
pub mod copy;
pub mod text;
pub mod sniffer;
pub mod readiness;
pub mod proxy;
pub mod http;
pub mod kvs;
