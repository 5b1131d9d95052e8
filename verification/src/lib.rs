//! A layer-4 reverse proxy engine, without the sockets.
//!
//! The crate holds every decision of a TCP load balancer as verified code:
//! which upstream host a new connection goes to, how a failing host cools
//! down, how one paired connection moves through its lifecycle, how a worker
//! keeps its registry of connections, and which worker a new client is handed
//! to. The caller owns the sockets and the poller. It performs the action a
//! function returns and hands the outcome back as plain values.
//!
//! Time is a count of milliseconds on a monotonic clock of the caller.
//!
//! - `endpoint`: the address of a client or of an upstream host.
//! - `host`: one upstream host, its cooldown and its backoff.
//! - `round_robin`: the host registry and the round-robin selection.
//! - `client`: the life of one paired connection.
//! - `balancer`: the dispatcher, which admits clients to the least loaded
//!   worker.
//! - `worker`: the worker engine, which steps its connections as events
//!   come in.
//! - `port`: the listening port from the command line.
//! - `hosts_file`: the lines of the hosts file.

pub mod endpoint;
pub mod host;
pub mod round_robin;
pub mod client;
pub mod balancer;
pub mod worker;
pub mod port;
pub mod hosts_file;
