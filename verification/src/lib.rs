//! A fan-out broadcast hub for duplex message streams, and a small utility
//! that finds Mersenne primes and their perfect numbers.
//!
//! The hub keeps a registry of connected clients and relays each inbound
//! message to every registered client's delivery channel. `registry` holds
//! the clients, `broadcaster` fans a message out, `frame` renders what is
//! relayed, and `session` sets a connection up and decides what its receive
//! and send tasks do. `channel` holds the calls into tokio and uuid.
//!
//! `prime` and `mersenne` are the arithmetic utility; `bignum` holds its
//! calls into num-bigint.

pub mod bignum;
pub mod broadcaster;
pub mod channel;
pub mod frame;
pub mod mersenne;
pub mod prime;
pub mod registry;
pub mod session;
