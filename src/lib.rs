//! Terminal-multiplexer backbone: the terminal table, the framed message
//! codec, the blocking-to-async read bridge, the interrupt policy, endpoint
//! naming and session discovery.
pub mod bridge;
pub mod conpty;
pub mod frame;
pub mod interrupt;
pub mod messages;
pub mod naming;
pub mod probe;
pub mod spawn;
pub mod table;
