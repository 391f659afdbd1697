//! A fixed-size worker-pool core with a verified submission and shutdown
//! protocol, plus the verified request handling of the small web server
//! built on it. The operating-system side — threads, the channel, sockets,
//! signals — lives with the caller, which performs exactly the actions the
//! pool's state machines hand out.

pub mod http;
pub mod pool;
